//! The protocol stack does what the operations mean.
//!
//! Each theorem here says of one group of operations that
//! [`perform_spec`], which builds the request, lets the reference kernel
//! react to it, hears the answer and concludes, comes to
//! [`crate::meaning::meaning`]. The result does not depend on the sequence
//! number or the port.

use vstd::prelude::*;
use vstd::utf8::encode_utf8;
use crate::codec::message_packet;
use crate::entry::{IpAddress, IpEntry, IpSetCreateOptions};
use crate::error::ErrorView;
use crate::exchange::{begin_spec, ExchangeView, Progress};
use crate::fields::valid_name;
use crate::kernel::{
    done,
    echo_of,
    elements_part,
    elements_parts,
    ipset_part,
    ipset_parts,
    nft_family,
    react,
    react_create,
    react_elements,
    react_ipset,
    react_member,
    react_nft,
    react_pair,
    react_set,
    react_table,
    status,
    table_part,
    table_parts,
    KernelView,
    DUMP_PART,
};
use crate::message::MessageView;
use crate::loopback::{answer_spec, converse_spec, hear_spec, perform_spec, run_spec};
use crate::meaning::{
    nft_meaning,
    nft_set_meaning,
    table_names_of,
    ipset_create_meaning,
    ipset_member_meaning,
    ipset_pair_meaning,
    ipset_plain_meaning,
    meaning,
};
use crate::message::{
    Body,
    IPSET_MAX_NAME,
    NFT_MSG_DELSETELEM,
    NFT_MSG_GETSETELEM,
    NFT_MSG_NEWSETELEM,
};
use crate::operation::{Operation, OutcomeView};
use crate::reply::{addresses, completion_spec, conclude_spec, listed, members_in, rejection_spec};
use crate::store::{
    all_width,
    distinct,
    has_member,
    ipset_position,
    lemma_one_element,
    lemma_set_position,
    lemma_set_position_same,
    lemma_table_position,
    lemma_table_position_same,
    lemma_without_one,
    set_position,
    table_position,
    without,
    IpsetView,
    NftTableView,
};
use crate::message::NFT_MAX_NAME;
use crate::request::{hash_ip, hash_net, nft_proto};
use crate::reply::table_names;
use crate::request::{request_spec, FLAGS_ACK, FLAGS_DUMP};
use crate::session::{
    delete_next_spec,
    next_sequence,
    resume_spec,
    send_spec,
    start_spec,
    Plan,
    TurnView,
};
use crate::kernel::with_members;

verus! {

/// An operation of one exchange comes to what its one exchange means for
/// it, or to the error that refused it before anything was sent.
pub proof fn lemma_single(k: KernelView, op: Operation<Seq<char>>, sequence: u32, port: u32)
    requires
        !(op is NftFlush),
    ensures
        perform_spec(k, op, sequence, port) == match request_spec(op, sequence, port) {
            Err(e) => (k, Err(e)),
            Ok(m) => {
                let met = converse_spec(k, m, begin_spec(sequence, port, m.flags == FLAGS_DUMP));
                (met.0, conclude_spec(op, met.1))
            },
        },
{
    let begun = start_spec(op, sequence, port);
    assert(begun.0.plan == Plan::<Seq<char>, Seq<IpAddress>>::Single { op });
    match request_spec(op, sequence, port) {
        Err(e) => {
            assert(begun.1 == TurnView::Finish(Err(e)));
        },
        Ok(m) => {
            let x = begin_spec(sequence, port, m.flags == FLAGS_DUMP);
            assert(begun.1 == TurnView::Send { request: m, exchange: x });
            let met = converse_spec(k, m, x);
            let next = resume_spec(begun.0, met.1);
            assert(next.1 == TurnView::Finish(conclude_spec(op, met.1)));
            assert(run_spec(met.0, next.0, next.1) == (met.0, conclude_spec(op, met.1)));
            assert(run_spec(k, begun.0, begun.1) == run_spec(met.0, next.0, next.1));
        },
    }
}

/// How an exchange ends whose answer is one error message: refused if the
/// code is not 0, complete if it is.
pub open spec fn settled(x: ExchangeView, code: i32) -> ExchangeView {
    ExchangeView {
        progress: if code != 0 {
            Progress::Rejected(code)
        } else {
            Progress::Complete
        },
        ..x
    }
}

/// The exchange for a request that the kernel answers with one error
/// message ends as that message says.
pub proof fn lemma_converse_verdict(k: KernelView, m: MessageView, after: KernelView, code: i32)
    requires
        react(k, m, echo_of(message_packet(m))) == (
            after,
            seq![status(m, echo_of(message_packet(m)), code)],
        ),
        code != 0 || m.flags != FLAGS_DUMP,
    ensures
        converse_spec(k, m, begin_spec(m.sequence, m.port, m.flags == FLAGS_DUMP)) == (
            after,
            settled(begin_spec(m.sequence, m.port, m.flags == FLAGS_DUMP), code),
        ),
{
    let echo = echo_of(message_packet(m));
    let x = begin_spec(m.sequence, m.port, m.flags == FLAGS_DUMP);
    let replies = seq![status(m, echo, code)];
    assert(replies.drop_first() =~= Seq::<MessageView>::empty());
    assert(answer_spec(x, replies) == answer_spec(hear_spec(x, replies[0]), replies.drop_first()));
    assert(answer_spec(hear_spec(x, replies[0]), Seq::<MessageView>::empty()) == hear_spec(
        x,
        replies[0],
    ));
}

/// What an operation makes of an exchange that ended with one error
/// message.
pub proof fn lemma_conclude_settled(op: Operation<Seq<char>>, x: ExchangeView, code: i32)
    requires
        x.progress == Progress::Pending,
        x.bodies.len() == 0,
    ensures
        conclude_spec(op, settled(x, code)) == if code != 0 {
            rejection_spec(op, code)
        } else {
            completion_spec(op, Seq::empty())
        },
{
    reveal(conclude_spec);
    assert(x.bodies =~= Seq::empty());
}

/// Adding, deleting and testing a member of an ipset set do what they
/// mean.
pub proof fn theorem_ipset_member(
    k: KernelView,
    op: Operation<Seq<char>>,
    name: Seq<char>,
    entry: IpEntry,
    sequence: u32,
    port: u32,
)
    requires
        op == (Operation::IpsetAdd { name, entry }) || op == (Operation::IpsetDel { name, entry })
            || op == (Operation::IpsetTest { name, entry }),
    ensures
        perform_spec(k, op, sequence, port) == ipset_member_meaning(k, op, name, entry),
        perform_spec(k, op, sequence, port) == meaning(k, op),
{
    lemma_single(k, op, sequence, port);
    reveal(request_spec);
    if valid_name(encode_utf8(name), IPSET_MAX_NAME as int) {
        let m = request_spec(op, sequence, port)->Ok_0;
        let echo = echo_of(message_packet(m));
        let x = begin_spec(sequence, port, false);
        reveal(react);
        reveal(react_ipset);
        reveal(react_member);
        let reaction = react(k, m, echo);
        let code = reaction.1[0].body->Status_code;
        assert(reaction.1 == seq![status(m, echo, code)]);
        lemma_converse_verdict(k, m, reaction.0, code);
        lemma_conclude_settled(op, x, code);
    }
}

/// What the messages of an answer hold.
pub open spec fn bodies_of(replies: Seq<MessageView>) -> Seq<Body<Seq<u8>, Seq<IpEntry>>> {
    Seq::new(replies.len(), |i: int| replies[i].body)
}

/// Whether a message is one part of the answer to the request with the
/// sequence number `sequence` from the port `port`, and holds data.
pub open spec fn is_part(m: MessageView, sequence: u32, port: u32) -> bool {
    &&& m.sequence == sequence
    &&& m.port == port
    &&& (m.body is Ipset || m.body is NftTable || m.body is NftSet || m.body is NftElements)
}

/// Hearing one run of messages and then another is hearing them all.
pub proof fn lemma_answer_concat(x: ExchangeView, a: Seq<MessageView>, b: Seq<MessageView>)
    ensures
        answer_spec(x, a + b) == answer_spec(answer_spec(x, a), b),
    decreases a.len(),
{
    if a.len() == 0 {
        assert(a + b =~= b);
    } else {
        assert((a + b).drop_first() =~= a.drop_first() + b);
        lemma_answer_concat(hear_spec(x, a[0]), a.drop_first(), b);
    }
}

/// An exchange that is not over keeps what the parts of its answer hold,
/// in order.
pub proof fn lemma_answer_parts(x: ExchangeView, replies: Seq<MessageView>)
    requires
        x.progress == Progress::Pending,
        forall|i: int| 0 <= i < replies.len() ==> is_part(#[trigger] replies[i], x.sequence, x.port),
    ensures
        answer_spec(x, replies) == (ExchangeView {
            bodies: x.bodies + bodies_of(replies),
            ..x
        }),
    decreases replies.len(),
{
    if replies.len() == 0 {
        assert(x.bodies + bodies_of(replies) =~= x.bodies);
    } else {
        let first = replies[0];
        let rest = replies.drop_first();
        assert(is_part(first, x.sequence, x.port));
        let heard = hear_spec(x, first);
        assert(heard == ExchangeView { bodies: x.bodies.push(first.body), ..x });
        assert forall|i: int| 0 <= i < rest.len() implies is_part(
            #[trigger] rest[i],
            heard.sequence,
            heard.port,
        ) by {
            assert(rest[i] == replies[i + 1]);
        }
        lemma_answer_parts(heard, rest);
        assert(x.bodies.push(first.body) + bodies_of(rest) =~= x.bodies + bodies_of(replies));
    }
}

/// The exchange for a dump that the kernel answers with parts and the end
/// is complete and holds what the parts hold.
pub proof fn lemma_converse_dump(k: KernelView, m: MessageView, parts: Seq<MessageView>)
    requires
        m.flags == FLAGS_DUMP,
        react(k, m, echo_of(message_packet(m))) == (k, parts.push(done(m))),
        forall|i: int| 0 <= i < parts.len() ==> is_part(#[trigger] parts[i], m.sequence, m.port),
    ensures
        converse_spec(k, m, begin_spec(m.sequence, m.port, true)) == (
            k,
            ExchangeView {
                progress: Progress::Complete,
                bodies: bodies_of(parts),
                ..begin_spec(m.sequence, m.port, true)
            },
        ),
{
    let x = begin_spec(m.sequence, m.port, true);
    let end = seq![done(m)];
    assert(parts.push(done(m)) =~= parts + end);
    lemma_answer_concat(x, parts, end);
    lemma_answer_parts(x, parts);
    let heard = answer_spec(x, parts);
    assert(x.bodies + bodies_of(parts) =~= bodies_of(parts));
    assert(end.drop_first() =~= Seq::<MessageView>::empty());
    assert(answer_spec(heard, end) == answer_spec(hear_spec(heard, end[0]), end.drop_first()));
    assert(answer_spec(hear_spec(heard, end[0]), Seq::<MessageView>::empty()) == hear_spec(
        heard,
        end[0],
    ));
}

/// The addresses of two runs of members, one after the other.
pub proof fn lemma_addresses_concat(a: Seq<IpEntry>, b: Seq<IpEntry>)
    ensures
        addresses(a + b) == addresses(a) + addresses(b),
{
    assert(addresses(a + b) =~= addresses(a) + addresses(b));
}

/// What two runs of messages list, one after the other.
pub proof fn lemma_listed_concat(
    a: Seq<Body<Seq<u8>, Seq<IpEntry>>>,
    b: Seq<Body<Seq<u8>, Seq<IpEntry>>>,
)
    ensures
        listed(a + b) == listed(a) + listed(b),
    decreases b.len(),
{
    if b.len() == 0 {
        assert(a + b =~= a);
        assert(listed(a) + listed(b) =~= listed(a));
    } else {
        assert((a + b).drop_last() =~= a + b.drop_last());
        lemma_listed_concat(a, b.drop_last());
        assert(listed(a + b) =~= listed(a) + listed(b));
    }
}

/// What one message lists.
pub proof fn lemma_listed_one(body: Body<Seq<u8>, Seq<IpEntry>>)
    ensures
        listed(seq![body]) == addresses(members_in(body)),
{
    assert(seq![body].drop_last() =~= Seq::<Body<Seq<u8>, Seq<IpEntry>>>::empty());
    assert(listed(Seq::<Body<Seq<u8>, Seq<IpEntry>>>::empty()) + addresses(members_in(body))
        =~= addresses(members_in(body)));
}

/// The parts of the listing of an ipset set belong to the answer and list
/// the members of the set, in order.
pub proof fn lemma_ipset_parts(m: MessageView, set: IpsetView, members: Seq<IpEntry>)
    ensures
        forall|i: int|
            0 <= i < ipset_parts(m, set, members).len() ==> is_part(
                #[trigger] ipset_parts(m, set, members)[i],
                m.sequence,
                m.port,
            ),
        listed(bodies_of(ipset_parts(m, set, members))) == addresses(members),
    decreases members.len(),
{
    let parts = ipset_parts(m, set, members);
    if members.len() == 0 {
        assert(bodies_of(parts) =~= Seq::empty());
        assert(addresses(members) =~= Seq::empty());
    } else if members.len() <= DUMP_PART {
        let part = ipset_part(m, set, members);
        assert(bodies_of(parts) =~= seq![part.body]);
        lemma_listed_one(part.body);
    } else {
        let cut = DUMP_PART as int;
        let part = ipset_part(m, set, members.take(cut));
        let rest = ipset_parts(m, set, members.skip(cut));
        lemma_ipset_parts(m, set, members.skip(cut));
        assert forall|i: int| 0 <= i < parts.len() implies is_part(
            #[trigger] parts[i],
            m.sequence,
            m.port,
        ) by {
            if i > 0 {
                assert(parts[i] == rest[i - 1]);
            }
        }
        assert(bodies_of(parts) =~= seq![part.body] + bodies_of(rest));
        lemma_listed_concat(seq![part.body], bodies_of(rest));
        lemma_listed_one(part.body);
        lemma_addresses_concat(members.take(cut), members.skip(cut));
        assert(members.take(cut) + members.skip(cut) =~= members);
    }
}

/// Creating an ipset set does what it means.
pub proof fn theorem_ipset_create(
    k: KernelView,
    name: Seq<char>,
    options: IpSetCreateOptions,
    sequence: u32,
    port: u32,
)
    ensures
        perform_spec(k, Operation::IpsetCreate { name, options }, sequence, port)
            == ipset_create_meaning(k, name, options),
        perform_spec(k, Operation::IpsetCreate { name, options }, sequence, port) == meaning(
            k,
            Operation::IpsetCreate { name, options },
        ),
{
    let op = Operation::IpsetCreate { name, options };
    lemma_single(k, op, sequence, port);
    reveal(request_spec);
    lemma_type_names();
    if valid_name(encode_utf8(name), IPSET_MAX_NAME as int) {
        let m = request_spec(op, sequence, port)->Ok_0;
        let echo = echo_of(message_packet(m));
        let x = begin_spec(sequence, port, false);
        reveal(react);
        reveal(react_ipset);
        reveal(react_create);
        let reaction = react(k, m, echo);
        let code = reaction.1[0].body->Status_code;
        assert(reaction.1 == seq![status(m, echo, code)]);
        lemma_converse_verdict(k, m, reaction.0, code);
        lemma_conclude_settled(op, x, code);
    }
}

/// The names of the two set types are names that fit a message, and they
/// differ.
pub proof fn lemma_type_names()
    ensures
        valid_name(hash_ip(), IPSET_MAX_NAME as int),
        valid_name(hash_net(), IPSET_MAX_NAME as int),
        hash_ip() != hash_net(),
{
    assert(hash_ip().len() == 7);
    assert(hash_net().len() == 8);
}

/// Destroying, flushing and listing an ipset set do what they mean.
pub proof fn theorem_ipset_plain(
    k: KernelView,
    op: Operation<Seq<char>>,
    name: Seq<char>,
    sequence: u32,
    port: u32,
)
    requires
        op == (Operation::IpsetDestroy { name }) || op == (Operation::IpsetFlush { name }) || op
            == (Operation::IpsetList { name }),
    ensures
        perform_spec(k, op, sequence, port) == ipset_plain_meaning(k, op, name),
        perform_spec(k, op, sequence, port) == meaning(k, op),
{
    lemma_single(k, op, sequence, port);
    reveal(request_spec);
    let octets = encode_utf8(name);
    if valid_name(octets, IPSET_MAX_NAME as int) {
        let m = request_spec(op, sequence, port)->Ok_0;
        let echo = echo_of(message_packet(m));
        let x = begin_spec(sequence, port, m.flags == FLAGS_DUMP);
        reveal(react);
        reveal(react_ipset);
        let reaction = react(k, m, echo);
        if op is IpsetList && ipset_position(k.ipsets, octets) is Some {
            let set = k.ipsets[ipset_position(k.ipsets, octets)->0];
            let parts = ipset_parts(m, set, set.members);
            lemma_ipset_parts(m, set, set.members);
            lemma_converse_dump(k, m, parts);
            reveal(conclude_spec);
        } else {
            let code = reaction.1[0].body->Status_code;
            assert(reaction.1 == seq![status(m, echo, code)]);
            lemma_converse_verdict(k, m, reaction.0, code);
            lemma_conclude_settled(op, x, code);
        }
    }
}

/// Renaming and swapping ipset sets do what they mean.
pub proof fn theorem_ipset_pair(
    k: KernelView,
    op: Operation<Seq<char>>,
    from: Seq<char>,
    to: Seq<char>,
    sequence: u32,
    port: u32,
)
    requires
        op == (Operation::IpsetRename { from, to }) || op == (Operation::IpsetSwap { from, to }),
    ensures
        perform_spec(k, op, sequence, port) == ipset_pair_meaning(k, op, from, to),
        perform_spec(k, op, sequence, port) == meaning(k, op),
{
    lemma_single(k, op, sequence, port);
    reveal(request_spec);
    if valid_name(encode_utf8(from), IPSET_MAX_NAME as int) && valid_name(
        encode_utf8(to),
        IPSET_MAX_NAME as int,
    ) {
        let m = request_spec(op, sequence, port)->Ok_0;
        let echo = echo_of(message_packet(m));
        let x = begin_spec(sequence, port, false);
        reveal(react);
        reveal(react_ipset);
        reveal(react_pair);
        let reaction = react(k, m, echo);
        let code = reaction.1[0].body->Status_code;
        assert(reaction.1 == seq![status(m, echo, code)]);
        lemma_converse_verdict(k, m, reaction.0, code);
        lemma_conclude_settled(op, x, code);
    }
}

/// The parts of a table listing belong to the answer and hold the names of
/// the tables of the family, in order.
pub proof fn lemma_table_parts(m: MessageView, tables: Seq<NftTableView>, proto: u8)
    ensures
        forall|i: int|
            0 <= i < table_parts(m, tables, proto).len() ==> is_part(
                #[trigger] table_parts(m, tables, proto)[i],
                m.sequence,
                m.port,
            ),
        table_names(bodies_of(table_parts(m, tables, proto))) == table_names_of(tables, proto),
    decreases tables.len(),
{
    let parts = table_parts(m, tables, proto);
    if tables.len() == 0 {
        assert(bodies_of(parts) =~= Seq::empty());
    } else {
        let front = table_parts(m, tables.drop_last(), proto);
        lemma_table_parts(m, tables.drop_last(), proto);
        if tables.last().family == proto {
            let part = table_part(m, tables.last());
            assert forall|i: int| 0 <= i < parts.len() implies is_part(
                #[trigger] parts[i],
                m.sequence,
                m.port,
            ) by {
                if i < front.len() {
                    assert(parts[i] == front[i]);
                }
            }
            assert(bodies_of(parts).drop_last() =~= bodies_of(front));
            assert(bodies_of(parts).last() == part.body);
        }
    }
}

/// The parts of the listing of an nftables set belong to the answer and
/// list the members of the set, in order.
pub proof fn lemma_elements_parts(
    m: MessageView,
    family: u8,
    table: Seq<u8>,
    set: Seq<u8>,
    members: Seq<IpEntry>,
)
    ensures
        forall|i: int|
            0 <= i < elements_parts(m, family, table, set, members).len() ==> is_part(
                #[trigger] elements_parts(m, family, table, set, members)[i],
                m.sequence,
                m.port,
            ),
        listed(bodies_of(elements_parts(m, family, table, set, members))) == addresses(members),
    decreases members.len(),
{
    let parts = elements_parts(m, family, table, set, members);
    if members.len() == 0 {
        assert(bodies_of(parts) =~= Seq::empty());
        assert(addresses(members) =~= Seq::empty());
    } else if members.len() <= DUMP_PART {
        let part = elements_part(m, family, table, set, members);
        assert(bodies_of(parts) =~= seq![part.body]);
        lemma_listed_one(part.body);
    } else {
        let cut = DUMP_PART as int;
        let part = elements_part(m, family, table, set, members.take(cut));
        let rest = elements_parts(m, family, table, set, members.skip(cut));
        lemma_elements_parts(m, family, table, set, members.skip(cut));
        assert forall|i: int| 0 <= i < parts.len() implies is_part(
            #[trigger] parts[i],
            m.sequence,
            m.port,
        ) by {
            if i > 0 {
                assert(parts[i] == rest[i - 1]);
            }
        }
        assert(bodies_of(parts) =~= seq![part.body] + bodies_of(rest));
        lemma_listed_concat(seq![part.body], bodies_of(rest));
        lemma_listed_one(part.body);
        lemma_addresses_concat(members.take(cut), members.skip(cut));
        assert(members.take(cut) + members.skip(cut) =~= members);
    }
}

/// The exchange for a request that the kernel answers with one part and an
/// acknowledgement is complete and holds what the part holds.
pub proof fn lemma_converse_found(k: KernelView, m: MessageView, part: MessageView)
    requires
        m.flags == FLAGS_ACK,
        is_part(part, m.sequence, m.port),
        react(k, m, echo_of(message_packet(m))) == (
            k,
            seq![part, status(m, echo_of(message_packet(m)), 0)],
        ),
    ensures
        converse_spec(k, m, begin_spec(m.sequence, m.port, false)) == (
            k,
            ExchangeView {
                progress: Progress::Complete,
                bodies: seq![part.body],
                ..begin_spec(m.sequence, m.port, false)
            },
        ),
{
    let x = begin_spec(m.sequence, m.port, false);
    let ack = status(m, echo_of(message_packet(m)), 0);
    let replies = seq![part, ack];
    let heard = hear_spec(x, part);
    assert(heard.bodies =~= seq![part.body]);
    assert(replies.drop_first() =~= seq![ack]);
    assert(seq![ack].drop_first() =~= Seq::<MessageView>::empty());
    assert(answer_spec(x, replies) == answer_spec(heard, seq![ack]));
    assert(answer_spec(heard, seq![ack]) == answer_spec(
        hear_spec(heard, ack),
        Seq::<MessageView>::empty(),
    ));
}

/// Creating and deleting an nftables table do what they mean.
pub proof fn theorem_nft_table(k: KernelView, op: Operation<Seq<char>>, sequence: u32, port: u32)
    requires
        op is NftCreateTable || op is NftDeleteTable,
    ensures
        perform_spec(k, op, sequence, port) == meaning(k, op),
{
    lemma_single(k, op, sequence, port);
    reveal(request_spec);
    let (family, table) = match op {
        Operation::NftCreateTable { family, table } => (family, table),
        Operation::NftDeleteTable { family, table } => (family, table),
        _ => (Seq::empty(), Seq::empty()),
    };
    if nft_proto(family) is Some && valid_name(encode_utf8(table), NFT_MAX_NAME as int) {
        let m = request_spec(op, sequence, port)->Ok_0;
        let echo = echo_of(message_packet(m));
        let x = begin_spec(sequence, port, false);
        reveal(react);
        reveal(react_nft);
        reveal(react_table);
        let reaction = react(k, m, echo);
        let code = reaction.1[0].body->Status_code;
        assert(reaction.1 == seq![status(m, echo, code)]);
        lemma_converse_verdict(k, m, reaction.0, code);
        lemma_conclude_settled(op, x, code);
    }
}

/// Listing the tables of a family does what it means.
pub proof fn theorem_nft_list_tables(k: KernelView, family: Seq<char>, sequence: u32, port: u32)
    ensures
        perform_spec(k, Operation::NftListTables { family }, sequence, port) == meaning(
            k,
            Operation::NftListTables { family },
        ),
{
    let op = Operation::NftListTables { family };
    lemma_single(k, op, sequence, port);
    reveal(request_spec);
    if nft_proto(family) is Some {
        let proto = nft_proto(family)->0;
        let m = request_spec(op, sequence, port)->Ok_0;
        reveal(react);
        reveal(react_nft);
        reveal(react_table);
        let parts = table_parts(m, k.tables, proto);
        lemma_table_parts(m, k.tables, proto);
        lemma_converse_dump(k, m, parts);
        reveal(conclude_spec);
    }
}

/// The operations on an nftables set that take one exchange do what they
/// mean: creating and deleting the set, adding, deleting and testing a
/// member, and listing.
pub proof fn theorem_nft_set(k: KernelView, op: Operation<Seq<char>>, sequence: u32, port: u32)
    requires
        op is NftCreateSet || op is NftDeleteSet || op is NftAdd || op is NftDel || op is NftTest
            || op is NftList,
    ensures
        perform_spec(k, op, sequence, port) == meaning(k, op),
{
    lemma_single(k, op, sequence, port);
    reveal(request_spec);
    let (family, table, name) = match op {
        Operation::NftCreateSet { family, table, name, .. } => (family, table, name),
        Operation::NftDeleteSet { family, table, name } => (family, table, name),
        Operation::NftAdd { family, table, name, .. } => (family, table, name),
        Operation::NftDel { family, table, name, .. } => (family, table, name),
        Operation::NftTest { family, table, name, .. } => (family, table, name),
        Operation::NftList { family, table, name } => (family, table, name),
        _ => (Seq::empty(), Seq::empty(), Seq::empty()),
    };
    if request_spec(op, sequence, port) is Ok {
        let proto = nft_proto(family)->0;
        let t = encode_utf8(table);
        let n = encode_utf8(name);
        let m = request_spec(op, sequence, port)->Ok_0;
        let echo = echo_of(message_packet(m));
        let x = begin_spec(sequence, port, m.flags == FLAGS_DUMP);
        assert(m.wf());
        reveal(react);
        reveal(react_nft);
        let reaction = react(k, m, echo);
        if op is NftCreateSet || op is NftDeleteSet {
            reveal(react_set);
            let code = reaction.1[0].body->Status_code;
            assert(reaction.1 == seq![status(m, echo, code)]);
            lemma_converse_verdict(k, m, reaction.0, code);
            lemma_conclude_settled(op, x, code);
        } else {
            theorem_nft_elements(k, op, proto, t, n, m, sequence, port);
        }
    }
}

/// The element operations on an nftables set do what they mean, once the
/// request is built.
pub proof fn theorem_nft_elements(
    k: KernelView,
    op: Operation<Seq<char>>,
    proto: u8,
    table: Seq<u8>,
    name: Seq<u8>,
    m: MessageView,
    sequence: u32,
    port: u32,
)
    requires
        op is NftAdd || op is NftDel || op is NftTest || op is NftList,
        request_spec(op, sequence, port) == Ok::<MessageView, ErrorView>(m),
        nft_meaning(k, op, proto) == nft_set_meaning(k, op, proto, table, name),
        m.wf(),
        m.sequence == sequence,
        m.port == port,
        m.flags == if op is NftList {
            FLAGS_DUMP
        } else {
            FLAGS_ACK
        },
        m.kind == match op {
            Operation::NftAdd { .. } => NFT_MSG_NEWSETELEM,
            Operation::NftDel { .. } => NFT_MSG_DELSETELEM,
            _ => NFT_MSG_GETSETELEM,
        },
        m.body == (Body::<Seq<u8>, Seq<IpEntry>>::NftElements {
            family: proto,
            table,
            set: name,
            elements: match op {
                Operation::NftAdd { entry, .. } => seq![entry],
                Operation::NftDel { entry, .. } => seq![entry],
                Operation::NftTest { entry, .. } => seq![entry],
                _ => Seq::empty(),
            },
        }),
        nft_family(proto),
    ensures
        ({
            let met = converse_spec(k, m, begin_spec(sequence, port, m.flags == FLAGS_DUMP));
            (met.0, conclude_spec(op, met.1)) == nft_set_meaning(k, op, proto, table, name)
        }),
{
    let echo = echo_of(message_packet(m));
    let x = begin_spec(sequence, port, m.flags == FLAGS_DUMP);
    reveal(react);
    reveal(react_nft);
    reveal(react_elements);
    let reaction = react(k, m, echo);
    let found_table = table_position(k.tables, proto, table);
    if found_table is Some && set_position(k.tables[found_table->0].sets, name) is Some {
        let i = found_table->0;
        let j = set_position(k.tables[i].sets, name)->0;
        let set = k.tables[i].sets[j];
        match op {
            Operation::NftList { .. } => {
                let parts = elements_parts(m, proto, table, set.name, set.members);
                lemma_elements_parts(m, proto, table, set.name, set.members);
                lemma_converse_dump(k, m, parts);
                reveal(conclude_spec);
            },
            Operation::NftTest { entry, .. } => {
                lemma_one_element(set.members, entry);
                if entry.addr.width() == set.shape.key_len && has_member(
                    set.members,
                    entry.addr,
                ) {
                    let part = elements_part(m, proto, table, name, seq![entry]);
                    lemma_converse_found(k, m, part);
                    reveal(conclude_spec);
                    lemma_listed_one(part.body);
                    assert(addresses(seq![entry])[0] == entry.addr);
                } else {
                    let code = reaction.1[0].body->Status_code;
                    assert(reaction.1 == seq![status(m, echo, code)]);
                    lemma_converse_verdict(k, m, reaction.0, code);
                    lemma_conclude_settled(op, x, code);
                    assert(listed(Seq::<Body<Seq<u8>, Seq<IpEntry>>>::empty()) =~= Seq::empty());
                }
            },
            Operation::NftAdd { entry, .. } => {
                lemma_one_element(set.members, entry);
                let code = reaction.1[0].body->Status_code;
                assert(reaction.1 == seq![status(m, echo, code)]);
                lemma_converse_verdict(k, m, reaction.0, code);
                lemma_conclude_settled(op, x, code);
            },
            Operation::NftDel { entry, .. } => {
                lemma_one_element(set.members, entry);
                let code = reaction.1[0].body->Status_code;
                assert(reaction.1 == seq![status(m, echo, code)]);
                lemma_converse_verdict(k, m, reaction.0, code);
                lemma_conclude_settled(op, x, code);
            },
            _ => {},
        }
    } else {
        let code = reaction.1[0].body->Status_code;
        assert(reaction.1 == seq![status(m, echo, code)]);
        lemma_converse_verdict(k, m, reaction.0, code);
        lemma_conclude_settled(op, x, code);
    }
}

/// Renaming and swapping nftables sets are not supported, and nothing is
/// sent for them.
pub proof fn theorem_nft_unsupported(
    k: KernelView,
    op: Operation<Seq<char>>,
    sequence: u32,
    port: u32,
)
    requires
        op is NftRename || op is NftSwap,
    ensures
        perform_spec(k, op, sequence, port) == (k, Err::<OutcomeView, ErrorView>(ErrorView::Unsupported)),
        perform_spec(k, op, sequence, port) == meaning(k, op),
{
    lemma_single(k, op, sequence, port);
    reveal(request_spec);
}

/// The kernel whose set at `j` of the table at `i` got other members has
/// its tables and sets where they were.
pub proof fn lemma_with_members_positions(
    k: KernelView,
    i: int,
    j: int,
    members: Seq<IpEntry>,
    family: u8,
    table: Seq<u8>,
    name: Seq<u8>,
)
    requires
        0 <= i < k.tables.len(),
        0 <= j < k.tables[i].sets.len(),
    ensures
        table_position(with_members(k, i, j, members).tables, family, table) == table_position(
            k.tables,
            family,
            table,
        ),
        set_position(with_members(k, i, j, members).tables[i].sets, name) == set_position(
            k.tables[i].sets,
            name,
        ),
        with_members(k, i, j, members).tables[i].sets[j].members == members,
        with_members(k, i, j, members).tables[i].sets[j].shape == k.tables[i].sets[j].shape,
        with_members(k, i, j, members).tables[i].family == k.tables[i].family,
        with_members(with_members(k, i, j, members), i, j, Seq::empty()) == with_members(
            k,
            i,
            j,
            Seq::empty(),
        ),
{
    let after = with_members(k, i, j, members);
    lemma_table_position_same(after.tables, k.tables, family, table);
    lemma_set_position_same(after.tables[i].sets, k.tables[i].sets, name);
    let twice = with_members(after, i, j, Seq::empty());
    let once = with_members(k, i, j, Seq::empty());
    assert(twice.tables[i].sets =~= once.tables[i].sets);
    assert(twice.tables =~= once.tables);
}

/// The deletions of a flush take every member out of the set, if the set
/// holds no address twice and only addresses of its width.
pub proof fn lemma_flush_deletions(
    k: KernelView,
    family: Seq<char>,
    table: Seq<char>,
    name: Seq<char>,
    i: int,
    j: int,
    sequence: u32,
    port: u32,
)
    requires
        nft_proto(family) is Some,
        valid_name(encode_utf8(table), NFT_MAX_NAME as int),
        valid_name(encode_utf8(name), NFT_MAX_NAME as int),
        table_position(k.tables, nft_proto(family)->0, encode_utf8(table)) == Some(i),
        0 <= i < k.tables.len(),
        set_position(k.tables[i].sets, encode_utf8(name)) == Some(j),
        0 <= j < k.tables[i].sets.len(),
        distinct(k.tables[i].sets[j].members),
        all_width(k.tables[i].sets[j].members, k.tables[i].sets[j].shape.key_len as nat),
    ensures
        ({
            let begun = delete_next_spec(
                port,
                sequence,
                family,
                table,
                name,
                addresses(k.tables[i].sets[j].members).reverse(),
            );
            run_spec(k, begun.0, begun.1) == (
                with_members(k, i, j, Seq::empty()),
                Ok::<OutcomeView, ErrorView>(OutcomeView::Done),
            )
        }),
    decreases k.tables[i].sets[j].members.len(),
{
    let proto = nft_proto(family)->0;
    let t = encode_utf8(table);
    let n = encode_utf8(name);
    let set = k.tables[i].sets[j];
    let members = set.members;
    let queue = addresses(members).reverse();
    let begun = delete_next_spec(port, sequence, family, table, name, queue);
    if members.len() == 0 {
        assert(members =~= Seq::empty());
        let same = with_members(k, i, j, Seq::empty());
        assert(same.tables[i].sets =~= k.tables[i].sets);
        assert(same.tables =~= k.tables);
    } else {
        let addr = members[0].addr;
        assert(queue.last() == addr);
        let entry = IpEntry { addr, timeout: None };
        let op = Operation::NftDel { family, table, name, entry };
        let next = next_sequence(sequence);
        reveal(request_spec);
        assert(addr.width() == set.shape.key_len as nat);
        let m = request_spec(op, next, port)->Ok_0;
        assert(begun.1 == send_spec(op, next, port));
        let x = begin_spec(next, port, false);
        assert(nft_family(proto));
        theorem_nft_elements(k, op, proto, t, n, m, next, port);
        let met = converse_spec(k, m, x);
        assert(has_member(members, addr)) by {
            assert(members[0].addr == addr);
        }
        let after = with_members(k, i, j, without(members, addr));
        assert(met.0 == after);
        assert(conclude_spec(op, met.1) is Ok);
        let resumed = resume_spec(begun.0, met.1);
        assert(resumed == delete_next_spec(port, next, family, table, name, queue.drop_last()));
        lemma_without_one(members, 0);
        let left = members.remove(0);
        assert(without(members, addr) == left);
        lemma_with_members_positions(k, i, j, left, proto, t, n);
        assert(queue.drop_last() =~= addresses(left).reverse());
        assert forall|a: int, b: int| 0 <= a < b < left.len() implies (#[trigger] left[a]).addr != (
        #[trigger] left[b]).addr by {
            assert(left[a] == members[a + 1]);
            assert(left[b] == members[b + 1]);
        }
        assert forall|a: int| 0 <= a < left.len() implies (#[trigger] left[a]).addr.width()
            == set.shape.key_len as nat by {
            assert(left[a] == members[a + 1]);
        }
        lemma_flush_deletions(after, family, table, name, i, j, next, port);
        assert(run_spec(k, begun.0, begun.1) == run_spec(met.0, resumed.0, resumed.1));
    }
}

/// Flushing an nftables set does what it means, on a kernel whose sets
/// hold what fits them.
pub proof fn theorem_nft_flush(
    k: KernelView,
    family: Seq<char>,
    table: Seq<char>,
    name: Seq<char>,
    sequence: u32,
    port: u32,
)
    requires
        k.fitting(),
    ensures
        perform_spec(k, Operation::NftFlush { family, table, name }, sequence, port) == meaning(
            k,
            Operation::NftFlush { family, table, name },
        ),
{
    let op = Operation::NftFlush { family, table, name };
    let begun = start_spec(op, sequence, port);
    reveal(request_spec);
    let t = encode_utf8(table);
    let n = encode_utf8(name);
    if nft_proto(family) is Some && valid_name(t, NFT_MAX_NAME as int) && valid_name(
        n,
        NFT_MAX_NAME as int,
    ) {
        let proto = nft_proto(family)->0;
        let m = request_spec(op, sequence, port)->Ok_0;
        let echo = echo_of(message_packet(m));
        let x = begin_spec(sequence, port, true);
        assert(begun.1 == TurnView::Send { request: m, exchange: x });
        let met = converse_spec(k, m, x);
        let resumed = resume_spec(begun.0, met.1);
        assert(run_spec(k, begun.0, begun.1) == run_spec(met.0, resumed.0, resumed.1));
        reveal(react);
        reveal(react_nft);
        reveal(react_elements);
        let reaction = react(k, m, echo);
        let found = table_position(k.tables, proto, t);
        if found is Some && set_position(k.tables[found->0].sets, n) is Some {
            let i = found->0;
            let j = set_position(k.tables[i].sets, n)->0;
            lemma_table_position(k.tables, proto, t);
            lemma_set_position(k.tables[i].sets, n);
            let set = k.tables[i].sets[j];
            let parts = elements_parts(m, proto, t, set.name, set.members);
            lemma_elements_parts(m, proto, t, set.name, set.members);
            lemma_converse_dump(k, m, parts);
            reveal(conclude_spec);
            assert(distinct(k.tables[i].sets[j].members));
            lemma_flush_deletions(k, family, table, name, i, j, sequence, port);
        } else {
            let code = reaction.1[0].body->Status_code;
            assert(reaction.1 == seq![status(m, echo, code)]);
            lemma_converse_verdict(k, m, reaction.0, code);
            lemma_conclude_settled(op, x, code);
            assert(run_spec(met.0, resumed.0, resumed.1) == (met.0, resumed.1->Finish_0));
        }
    } else {
        assert(begun.1 is Finish);
    }
}

/// Every operation, run through the protocol against the reference kernel,
/// does what it means: the kernel afterwards and the result are those of
/// [`meaning`], whatever the sequence number and the port.
///
/// The sets of the kernel must hold what fits them, for a flush, whose
/// deletions go by what the listing held.
pub proof fn theorem_perform(k: KernelView, op: Operation<Seq<char>>, sequence: u32, port: u32)
    requires
        k.fitting(),
    ensures
        perform_spec(k, op, sequence, port) == meaning(k, op),
{
    match op {
        Operation::IpsetCreate { name, options } => {
            theorem_ipset_create(k, name, options, sequence, port);
        },
        Operation::IpsetDestroy { name } => {
            theorem_ipset_plain(k, op, name, sequence, port);
        },
        Operation::IpsetFlush { name } => {
            theorem_ipset_plain(k, op, name, sequence, port);
        },
        Operation::IpsetList { name } => {
            theorem_ipset_plain(k, op, name, sequence, port);
        },
        Operation::IpsetRename { from, to } => {
            theorem_ipset_pair(k, op, from, to, sequence, port);
        },
        Operation::IpsetSwap { from, to } => {
            theorem_ipset_pair(k, op, from, to, sequence, port);
        },
        Operation::IpsetAdd { name, entry } => {
            theorem_ipset_member(k, op, name, entry, sequence, port);
        },
        Operation::IpsetDel { name, entry } => {
            theorem_ipset_member(k, op, name, entry, sequence, port);
        },
        Operation::IpsetTest { name, entry } => {
            theorem_ipset_member(k, op, name, entry, sequence, port);
        },
        Operation::NftCreateTable { .. } => {
            theorem_nft_table(k, op, sequence, port);
        },
        Operation::NftDeleteTable { .. } => {
            theorem_nft_table(k, op, sequence, port);
        },
        Operation::NftListTables { family } => {
            theorem_nft_list_tables(k, family, sequence, port);
        },
        Operation::NftFlush { family, table, name } => {
            theorem_nft_flush(k, family, table, name, sequence, port);
        },
        Operation::NftRename { .. } => {
            theorem_nft_unsupported(k, op, sequence, port);
        },
        Operation::NftSwap { .. } => {
            theorem_nft_unsupported(k, op, sequence, port);
        },
        _ => {
            theorem_nft_set(k, op, sequence, port);
        },
    }
}

} // verus!
