//! The two backend adapters, inward half: what the answer to a request
//! means for the operation that sent it.

use vstd::prelude::*;
use vstd::utf8::{decode_utf8, valid_utf8};
use crate::entry::{IpAddress, IpEntry};
use crate::error::{
    classify,
    classify_spec,
    Error,
    ErrorView,
    IPSET_ERR_EXIST,
    IPSET_ERR_EXIST_SETNAME2,
};
use crate::exchange::{body_views, Exchange, ExchangeView, Progress};
use crate::message::Body;
use crate::operation::{Operation, Outcome, OutcomeView};

verus! {

/// The addresses of some members, in order.
pub open spec fn addresses(entries: Seq<IpEntry>) -> Seq<IpAddress> {
    Seq::new(entries.len(), |i: int| entries[i].addr)
}

/// The members that one message of a listing holds: those of an ipset
/// listing or of an nftables element message, none for any other message.
pub open spec fn members_in(body: Body<Seq<u8>, Seq<IpEntry>>) -> Seq<IpEntry> {
    match body {
        Body::Ipset(b) => b.members,
        Body::NftElements { elements, .. } => elements,
        _ => Seq::empty(),
    }
}

/// The addresses that the messages of a listing hold, in the order they
/// arrived.
pub open spec fn listed(bodies: Seq<Body<Seq<u8>, Seq<IpEntry>>>) -> Seq<IpAddress>
    decreases bodies.len(),
{
    if bodies.len() == 0 {
        Seq::empty()
    } else {
        listed(bodies.drop_last()) + addresses(members_in(bodies.last()))
    }
}

/// Whether some message of an answer holds a member with the address
/// `addr`.
pub open spec fn mentions(bodies: Seq<Body<Seq<u8>, Seq<IpEntry>>>, addr: IpAddress) -> bool {
    listed(bodies).contains(addr)
}

/// The table names that the messages of a listing hold, in the order they
/// arrived. Messages that are no table messages or name no table are left
/// out. `None` if a name is not UTF-8.
pub open spec fn table_names(bodies: Seq<Body<Seq<u8>, Seq<IpEntry>>>) -> Option<Seq<Seq<char>>>
    decreases bodies.len(),
{
    if bodies.len() == 0 {
        Some(Seq::empty())
    } else {
        match table_names(bodies.drop_last()) {
            None => None,
            Some(front) => match bodies.last() {
                Body::NftTable { name: Some(name), .. } => if valid_utf8(name) {
                    Some(front.push(decode_utf8(name)))
                } else {
                    None
                },
                _ => Some(front),
            },
        }
    }
}

/// What an operation makes of a request that the kernel refused with the
/// code `code`.
///
/// ipset reports a member that is already there, or is not there, with one
/// code: on a test that is the answer "no", on add the member exists, on
/// del it is not found. A rename or swap whose second set is in the way
/// reports that the set exists. Every other code is classified by
/// [`classify_spec`].
pub open spec fn rejection_spec(op: Operation<Seq<char>>, code: i32) -> Result<
    OutcomeView,
    ErrorView,
> {
    if code == IPSET_ERR_EXIST && op is IpsetTest {
        Ok(OutcomeView::Member(false))
    } else if code == IPSET_ERR_EXIST && op is IpsetAdd {
        Err(ErrorView::AlreadyExists)
    } else if code == IPSET_ERR_EXIST && op is IpsetDel {
        Err(ErrorView::NotFound)
    } else if code == IPSET_ERR_EXIST_SETNAME2 && (op is IpsetRename || op is IpsetSwap) {
        Err(ErrorView::AlreadyExists)
    } else {
        Err(classify_spec(code))
    }
}

/// What an operation makes of a complete answer.
///
/// A listing gives the addresses of all its messages. A test on ipset was
/// acknowledged, so the address is a member; a test on nftables gives
/// whether the answer holds the address. A table listing gives the names.
/// Everything else is done.
pub open spec fn completion_spec(
    op: Operation<Seq<char>>,
    bodies: Seq<Body<Seq<u8>, Seq<IpEntry>>>,
) -> Result<OutcomeView, ErrorView> {
    match op {
        Operation::IpsetTest { .. } => Ok(OutcomeView::Member(true)),
        Operation::NftTest { entry, .. } => Ok(OutcomeView::Member(mentions(bodies, entry.addr))),
        Operation::IpsetList { .. } => Ok(OutcomeView::Entries(listed(bodies))),
        Operation::NftList { .. } => Ok(OutcomeView::Entries(listed(bodies))),
        Operation::NftFlush { .. } => Ok(OutcomeView::Entries(listed(bodies))),
        Operation::NftListTables { .. } => match table_names(bodies) {
            Some(names) => Ok(OutcomeView::Tables(names)),
            None => Err(ErrorView::Malformed),
        },
        _ => Ok(OutcomeView::Done),
    }
}

/// What an operation makes of an exchange.
///
/// A timeout or a malformed answer fails the operation, and nothing of
/// what arrived before is handed out. An exchange that is not over counts
/// as timed out.
#[verifier::opaque]
pub open spec fn conclude_spec(op: Operation<Seq<char>>, x: ExchangeView) -> Result<
    OutcomeView,
    ErrorView,
> {
    match x.progress {
        Progress::Pending => Err(ErrorView::Timeout),
        Progress::Expired => Err(ErrorView::Timeout),
        Progress::Broken => Err(ErrorView::Malformed),
        Progress::Rejected(code) => rejection_spec(op, code),
        Progress::Complete => completion_spec(op, x.bodies),
    }
}

/// The result of [`conclude`] as a mathematical value.
pub open spec fn outcome_view(r: Result<Outcome, Error>) -> Result<OutcomeView, ErrorView> {
    match r {
        Ok(o) => Ok(o@),
        Err(e) => Err(e@),
    }
}

/// Calls `String::from_utf8`, which hands the octets back as a string if
/// and only if they are UTF-8; the string then holds the characters that
/// the octets encode.
#[verifier::external_body]
pub(crate) fn text_from_utf8(octets: Vec<u8>) -> (r: Option<String>)
    ensures
        match r {
            Some(s) => valid_utf8(octets@) && s@ == decode_utf8(octets@),
            None => !valid_utf8(octets@),
        },
{
    String::from_utf8(octets).ok()
}

/// The addresses that the messages of a listing hold.
pub fn collect_addresses(bodies: &Vec<Body<Vec<u8>, Vec<IpEntry>>>) -> (out: Vec<IpAddress>)
    ensures
        out@ == listed(body_views(bodies@)),
{
    let mut out: Vec<IpAddress> = Vec::new();
    let n = bodies.len();
    let mut i: usize = 0;
    assert(body_views(bodies@).subrange(0, 0) =~= Seq::empty());
    while i < n
        invariant
            n == bodies@.len(),
            i <= n,
            out@ == listed(body_views(bodies@).subrange(0, i as int)),
        decreases n - i,
    {
        let ghost all = body_views(bodies@);
        let ghost next = all.subrange(0, i as int + 1);
        let ghost before = out@;
        proof {
            assert(next.drop_last() =~= all.subrange(0, i as int));
            assert(next.last() == bodies@[i as int]@);
        }
        match &bodies[i] {
            Body::Ipset(b) => {
                append_addresses(&mut out, &b.members);
            },
            Body::NftElements { elements, .. } => {
                append_addresses(&mut out, elements);
            },
            _ => {
                assert(before + addresses(Seq::<IpEntry>::empty()) =~= before);
            },
        }
        i += 1;
    }
    assert(body_views(bodies@).subrange(0, n as int) =~= body_views(bodies@));
    out
}

/// Appends the addresses of some members.
fn append_addresses(out: &mut Vec<IpAddress>, entries: &Vec<IpEntry>)
    ensures
        final(out)@ == old(out)@ + addresses(entries@),
{
    let n = entries.len();
    let mut i: usize = 0;
    assert(old(out)@ + addresses(entries@.subrange(0, 0)) =~= old(out)@);
    while i < n
        invariant
            n == entries@.len(),
            i <= n,
            out@ == old(out)@ + addresses(entries@.subrange(0, i as int)),
        decreases n - i,
    {
        out.push(entries[i].addr);
        i += 1;
        assert(out@ =~= old(out)@ + addresses(entries@.subrange(0, i as int)));
    }
    assert(entries@.subrange(0, n as int) =~= entries@);
}

/// The names of an optional vector of strings.
pub open spec fn names_view(names: Option<Vec<String>>) -> Option<Seq<Seq<char>>> {
    match names {
        Some(v) => Some(Seq::new(v@.len(), |i: int| v@[i]@)),
        None => None,
    }
}

/// The table names that the messages of a listing hold, or `None` if one of
/// them is not UTF-8.
pub fn collect_tables(bodies: &Vec<Body<Vec<u8>, Vec<IpEntry>>>) -> (out: Option<Vec<String>>)
    ensures
        names_view(out) == table_names(body_views(bodies@)),
{
    let mut out: Vec<String> = Vec::new();
    let n = bodies.len();
    let mut i: usize = 0;
    assert(body_views(bodies@).subrange(0, 0) =~= Seq::empty());
    assert(names_view(Some(out)) =~= Some(Seq::<Seq<char>>::empty())) by {
        assert(Seq::new(out@.len(), |k: int| out@[k]@) =~= Seq::<Seq<char>>::empty());
    }
    while i < n
        invariant
            n == bodies@.len(),
            i <= n,
            names_view(Some(out)) == table_names(body_views(bodies@).subrange(0, i as int)),
        decreases n - i,
    {
        let ghost all = body_views(bodies@);
        let ghost next = all.subrange(0, i as int + 1);
        let ghost before = out@;
        proof {
            assert(next.drop_last() =~= all.subrange(0, i as int));
            assert(next.last() == bodies@[i as int]@);
        }
        match &bodies[i] {
            Body::NftTable { name: Some(name), .. } => {
                match text_from_utf8(name.clone()) {
                    Some(text) => {
                        out.push(text);
                        assert(Seq::new(out@.len(), |k: int| out@[k]@) =~= Seq::new(
                            before.len(),
                            |k: int| before[k]@,
                        ).push(text@));
                    },
                    None => {
                        proof {
                            lemma_table_names_prefix(all, i as int + 1);
                        }
                        return None;
                    },
                }
            },
            _ => {},
        }
        i += 1;
    }
    assert(body_views(bodies@).subrange(0, n as int) =~= body_views(bodies@));
    Some(out)
}

/// If a front part of a listing holds a name that is not UTF-8, so does
/// the listing.
pub proof fn lemma_table_names_prefix(bodies: Seq<Body<Seq<u8>, Seq<IpEntry>>>, k: int)
    requires
        0 <= k <= bodies.len(),
        table_names(bodies.subrange(0, k)) is None,
    ensures
        table_names(bodies) is None,
    decreases bodies.len() - k,
{
    if k < bodies.len() {
        let next = bodies.subrange(0, k + 1);
        assert(next.drop_last() =~= bodies.subrange(0, k));
        lemma_table_names_prefix(bodies, k + 1);
    } else {
        assert(bodies.subrange(0, k) =~= bodies);
    }
}

/// Whether a run of addresses holds `addr`.
pub fn holds(addrs: &Vec<IpAddress>, addr: IpAddress) -> (found: bool)
    ensures
        found == addrs@.contains(addr),
{
    let n = addrs.len();
    let mut i: usize = 0;
    while i < n
        invariant
            n == addrs@.len(),
            i <= n,
            forall|j: int| 0 <= j < i ==> addrs@[j] != addr,
        decreases n - i,
    {
        if addrs[i] == addr {
            return true;
        }
        i += 1;
    }
    false
}

/// Says what an exchange means for the operation that sent the request.
///
/// An answer that is complete gives the result of the operation; a refusal
/// gives the error that goes with its code. A malformed answer gives
/// [`Error::Malformed`]. An exchange that expired, or is not over, gives
/// [`Error::Timeout`]; what arrived before is not handed out.
pub fn conclude(op: &Operation<String>, x: &Exchange) -> (r: Result<Outcome, Error>)
    ensures
        outcome_view(r) == conclude_spec(op@, x@),
{
    reveal(conclude_spec);
    match x.progress {
        Progress::Pending => Err(Error::Timeout),
        Progress::Expired => Err(Error::Timeout),
        Progress::Broken => Err(Error::Malformed),
        Progress::Rejected(code) => {
            if code == IPSET_ERR_EXIST {
                match op {
                    Operation::IpsetTest { .. } => {
                        return Ok(Outcome::Member(false));
                    },
                    Operation::IpsetAdd { .. } => {
                        return Err(Error::AlreadyExists);
                    },
                    Operation::IpsetDel { .. } => {
                        return Err(Error::NotFound);
                    },
                    _ => {},
                }
            }
            if code == IPSET_ERR_EXIST_SETNAME2 {
                match op {
                    Operation::IpsetRename { .. } => {
                        return Err(Error::AlreadyExists);
                    },
                    Operation::IpsetSwap { .. } => {
                        return Err(Error::AlreadyExists);
                    },
                    _ => {},
                }
            }
            Err(classify(code))
        },
        Progress::Complete => match op {
            Operation::IpsetTest { .. } => Ok(Outcome::Member(true)),
            Operation::NftTest { entry, .. } => {
                let addrs = collect_addresses(&x.bodies);
                Ok(Outcome::Member(holds(&addrs, entry.addr)))
            },
            Operation::IpsetList { .. } => Ok(Outcome::Entries(collect_addresses(&x.bodies))),
            Operation::NftList { .. } => Ok(Outcome::Entries(collect_addresses(&x.bodies))),
            Operation::NftFlush { .. } => Ok(Outcome::Entries(collect_addresses(&x.bodies))),
            Operation::NftListTables { .. } => match collect_tables(&x.bodies) {
                Some(names) => Ok(Outcome::Tables(names)),
                None => Err(Error::Malformed),
            },
            _ => Ok(Outcome::Done),
        },
    }
}

} // verus!
