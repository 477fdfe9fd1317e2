//! The reference kernel in memory.
//!
//! [`MemoryKernel`] holds the sets and tables of [`crate::kernel`] in
//! vectors and reacts to a request as [`crate::kernel::react`] says.

use vstd::prelude::*;
use crate::entry::{IpAddress, IpEntry};
use crate::error::{
    IPSET_ERR_EXIST,
    IPSET_ERR_EXIST_SETNAME2,
    IPSET_ERR_INVALID_FAMILY,
    IPSET_ERR_IPADDR_IPV4,
    IPSET_ERR_IPADDR_IPV6,
    IPSET_ERR_PROTOCOL,
    IPSET_ERR_TYPE_MISMATCH,
    KERNEL_EAFNOSUPPORT,
    KERNEL_EBUSY,
    KERNEL_EEXIST,
    KERNEL_EINVAL,
    KERNEL_ENOENT,
    KERNEL_EOPNOTSUPP,
};
use crate::fields::valid_name;
use crate::frame::{Packet, NLMSG_DONE, NLMSG_ERROR, NLM_F_MULTI};
use crate::ipset::IPSET_PROTOCOL;
use crate::coherence::theorem_react_coherent;
use crate::codec::{decode_message, encode_message, message_bytes};
use crate::frame::{lemma_split_wf, packet_views, split, split_spec, PacketView, HEADER_LEN};
use crate::kernel::{
    datagrams,
    done,
    serve,
    serve_one,
    transmit_spec,
    react_elements,
    react_nft,
    react_set,
    react_table,
    table_parts,
    with_members,
    elements_listing,
    elements_parts,
    ipset_listing,
    ipset_parts,
    proto_width,
    react,
    react_create,
    react_ipset,
    react_member,
    react_pair,
    status,
    KernelView,
    DUMP_PART,
};
use crate::message::{
    check_message,
    name_view,
    valid_opt_name,
    Body,
    Echo,
    IpsetBody,
    IpsetData,
    Message,
    MessageView,
    SetShape,
    WireMessage,
    IPSET_CMD_ADD,
    IPSET_CMD_CREATE,
    IPSET_CMD_DEL,
    IPSET_CMD_DESTROY,
    IPSET_CMD_FLUSH,
    IPSET_CMD_LIST,
    IPSET_CMD_RENAME,
    IPSET_CMD_SWAP,
    IPSET_CMD_TEST,
    IPSET_MAX_NAME,
    MAX_MEMBERS,
    NFPROTO_INET,
    NFPROTO_IPV4,
    NFPROTO_IPV6,
    NFT_MAX_NAME,
    NFT_MSG_DELSET,
    NFT_MSG_DELSETELEM,
    NFT_MSG_GETSETELEM,
    NFT_MSG_GETTABLE,
    NFT_MSG_NEWSET,
    NFT_MSG_NEWSETELEM,
    NFT_MSG_NEWTABLE,
};
use crate::request::{hash_ip, hash_net, FLAGS_DUMP};
use crate::store::{
    add_all,
    all_present,
    all_width,
    drop_member,
    find_member,
    has_member,
    ipset_position,
    lemma_ipset_position,
    lemma_set_position,
    lemma_table_position,
    present,
    remove_all,
    same_octets,
    set_position,
    set_views,
    table_position,
    without,
    IpsetRecord,
    IpsetView,
    NftSetRecord,
    NftSetView,
    NftTableRecord,
    NftTableView,
};

verus! {

/// An ipset set in memory.
pub type IpsetEntry = IpsetRecord<Vec<u8>, Vec<IpEntry>>;

/// A set of an nftables table in memory.
pub type NftSetEntry = NftSetRecord<Vec<u8>, Vec<IpEntry>>;

/// An nftables table in memory.
pub type NftTableEntry = NftTableRecord<Vec<u8>, Vec<NftSetEntry>>;

/// The reference kernel, held in memory.
///
/// What it holds is reached through [`MemoryKernel::react`] and
/// [`MemoryKernel::transmit`] only, so every name in it has come out of a
/// request that was well formed.
#[derive(Debug)]
pub struct MemoryKernel {
    ipsets: Vec<IpsetEntry>,
    tables: Vec<NftTableEntry>,
}

/// The ipset sets of a vector as mathematical values.
pub open spec fn ipset_views(sets: Seq<IpsetEntry>) -> Seq<IpsetView> {
    Seq::new(sets.len(), |i: int| sets[i]@)
}

/// The tables of a vector as mathematical values.
pub open spec fn table_views(tables: Seq<NftTableEntry>) -> Seq<NftTableView> {
    Seq::new(tables.len(), |i: int| tables[i]@)
}

/// The datagrams of a vector as mathematical values.
pub open spec fn datagram_views(datagrams: Seq<Vec<u8>>) -> Seq<Seq<u8>> {
    Seq::new(datagrams.len(), |i: int| datagrams[i]@)
}

/// The messages of a vector as mathematical values.
pub open spec fn message_views(messages: Seq<WireMessage>) -> Seq<MessageView> {
    Seq::new(messages.len(), |i: int| messages[i]@)
}

impl View for MemoryKernel {
    type V = KernelView;

    closed spec fn view(&self) -> KernelView {
        KernelView { ipsets: ipset_views(self.ipsets@), tables: table_views(self.tables@) }
    }
}

/// Whether every message of a run can be put on the wire.
pub open spec fn all_messages_wf(messages: Seq<MessageView>) -> bool {
    forall|i: int| 0 <= i < messages.len() ==> (#[trigger] messages[i]).wf()
}

/// The error message that answers `m` with the code `code`.
fn status_reply(m: &WireMessage, echo: Echo, code: i32) -> (r: WireMessage)
    ensures
        r@ == status(m@, echo, code),
        r@.wf(),
{
    Message {
        kind: NLMSG_ERROR,
        flags: 0,
        sequence: m.sequence,
        port: m.port,
        body: Body::Status { code, request: echo },
    }
}

/// The message that ends a dump.
fn done_reply(m: &WireMessage) -> (r: WireMessage)
    ensures
        r@ == done(m@),
        r@.wf(),
{
    Message {
        kind: NLMSG_DONE,
        flags: NLM_F_MULTI,
        sequence: m.sequence,
        port: m.port,
        body: Body::Done,
    }
}

/// The answer that is one error message.
fn verdict(m: &WireMessage, echo: Echo, code: i32) -> (r: Vec<WireMessage>)
    ensures
        message_views(r@) == seq![status(m@, echo, code)],
        all_messages_wf(message_views(r@)),
{
    let mut r: Vec<WireMessage> = Vec::new();
    r.push(status_reply(m, echo, code));
    assert(message_views(r@) =~= seq![status(m@, echo, code)]);
    r
}

/// Position of the first ipset set named `name`.
fn find_ipset(sets: &Vec<IpsetEntry>, name: &[u8]) -> (r: Option<usize>)
    ensures
        match r {
            Some(i) => ipset_position(ipset_views(sets@), name@) == Some(i as int) && i
                < sets@.len(),
            None => ipset_position(ipset_views(sets@), name@) is None,
        },
{
    let n = sets.len();
    let mut i: usize = 0;
    proof {
        lemma_ipset_position(ipset_views(sets@), name@);
    }
    while i < n
        invariant
            n == sets@.len(),
            i <= n,
            forall|j: int| 0 <= j < i ==> ipset_views(sets@)[j].name != name@,
        decreases n - i,
    {
        if same_octets(sets[i].name.as_slice(), name) {
            proof {
                lemma_ipset_position(ipset_views(sets@), name@);
                assert(ipset_views(sets@)[i as int].name == name@);
            }
            return Some(i);
        }
        i += 1;
    }
    proof {
        lemma_ipset_position(ipset_views(sets@), name@);
    }
    None
}

/// Puts `set` in the place of the ipset set at `i`.
fn put_ipset(sets: &mut Vec<IpsetEntry>, i: usize, set: IpsetEntry)
    requires
        i < old(sets)@.len(),
    ensures
        ipset_views(final(sets)@) == ipset_views(old(sets)@).update(i as int, set@),
{
    sets.remove(i);
    sets.insert(i, set);
    assert(ipset_views(sets@) =~= ipset_views(old(sets)@).update(i as int, set@));
}

/// The listing of an ipset set.
fn list_ipset(m: &WireMessage, set: &IpsetEntry) -> (r: Vec<WireMessage>)
    requires
        valid_name(set@.name, IPSET_MAX_NAME as int),
    ensures
        message_views(r@) == ipset_listing(m@, set@),
        all_messages_wf(message_views(r@)),
{
    let mut r: Vec<WireMessage> = Vec::new();
    let n = set.members.len();
    let mut pos: usize = 0;
    proof {
        assert(set@.members.skip(0) =~= set@.members);
        assert(message_views(r@) + ipset_parts(m@, set@, set@.members) =~= ipset_parts(
            m@,
            set@,
            set@.members,
        ));
    }
    while pos < n
        invariant
            n == set@.members.len(),
            pos <= n,
            valid_name(set@.name, IPSET_MAX_NAME as int),
            ipset_parts(m@, set@, set@.members) == message_views(r@) + ipset_parts(
                m@,
                set@,
                set@.members.skip(pos as int),
            ),
            all_messages_wf(message_views(r@)),
        decreases n - pos,
    {
        let end = if n - pos <= DUMP_PART {
            n
        } else {
            pos + DUMP_PART
        };
        let part = Message {
            kind: IPSET_CMD_LIST,
            flags: NLM_F_MULTI,
            sequence: m.sequence,
            port: m.port,
            body: Body::Ipset(
                IpsetBody {
                    family: set.family,
                    protocol: IPSET_PROTOCOL,
                    name: set.name.clone(),
                    second: None,
                    revision: None,
                    set_family: None,
                    data: None,
                    members: copy_members(&set.members, pos, end),
                },
            ),
        };
        proof {
            let rest = set@.members.skip(pos as int);
            let here = set@.members.subrange(pos as int, end as int);
            if n - pos <= DUMP_PART {
                assert(here =~= rest);
                assert(set@.members.skip(end as int) =~= Seq::<IpEntry>::empty());
                assert(ipset_parts(m@, set@, rest) =~= seq![part@] + ipset_parts(
                    m@,
                    set@,
                    set@.members.skip(end as int),
                ));
            } else {
                assert(here =~= rest.take(DUMP_PART as int));
                assert(rest.skip(DUMP_PART as int) =~= set@.members.skip(end as int));
            }
            assert(message_views(r@.push(part)) =~= message_views(r@).push(part@));
            assert(message_views(r@).push(part@) + ipset_parts(
                m@,
                set@,
                set@.members.skip(end as int),
            ) =~= message_views(r@) + (seq![part@] + ipset_parts(
                m@,
                set@,
                set@.members.skip(end as int),
            )));
        }
        r.push(part);
        pos = end;
    }
    let end_of_dump = done_reply(m);
    proof {
        assert(set@.members.skip(n as int) =~= Seq::<IpEntry>::empty());
        assert(message_views(r@) + Seq::<MessageView>::empty() =~= message_views(r@));
        assert(message_views(r@.push(end_of_dump)) =~= message_views(r@).push(end_of_dump@));
    }
    r.push(end_of_dump);
    r
}

/// The members of `members` from `from` up to `to`.
fn copy_members(members: &Vec<IpEntry>, from: usize, to: usize) -> (out: Vec<IpEntry>)
    requires
        from <= to <= members@.len(),
    ensures
        out@ == members@.subrange(from as int, to as int),
{
    let mut out: Vec<IpEntry> = Vec::new();
    let mut i: usize = from;
    while i < to
        invariant
            from <= i <= to <= members@.len(),
            out@ == members@.subrange(from as int, i as int),
        decreases to - i,
    {
        out.push(members[i]);
        i += 1;
        assert(out@ =~= members@.subrange(from as int, i as int));
    }
    out
}

/// Position of the first table of the family `family` named `name`.
fn find_table(tables: &Vec<NftTableEntry>, family: u8, name: &[u8]) -> (r: Option<usize>)
    ensures
        match r {
            Some(i) => table_position(table_views(tables@), family, name@) == Some(i as int) && i
                < tables@.len(),
            None => table_position(table_views(tables@), family, name@) is None,
        },
{
    let n = tables.len();
    let mut i: usize = 0;
    while i < n
        invariant
            n == tables@.len(),
            i <= n,
            forall|j: int|
                0 <= j < i ==> !(table_views(tables@)[j].family == family && table_views(
                    tables@,
                )[j].name == name@),
        decreases n - i,
    {
        if tables[i].family == family && same_octets(tables[i].name.as_slice(), name) {
            proof {
                lemma_table_position(table_views(tables@), family, name@);
                assert(table_views(tables@)[i as int].name == name@);
            }
            return Some(i);
        }
        i += 1;
    }
    proof {
        lemma_table_position(table_views(tables@), family, name@);
    }
    None
}

/// Position of the first set named `name`.
fn find_set(sets: &Vec<NftSetEntry>, name: &[u8]) -> (r: Option<usize>)
    ensures
        match r {
            Some(i) => set_position(set_views(sets@), name@) == Some(i as int) && i < sets@.len(),
            None => set_position(set_views(sets@), name@) is None,
        },
{
    let n = sets.len();
    let mut i: usize = 0;
    while i < n
        invariant
            n == sets@.len(),
            i <= n,
            forall|j: int| 0 <= j < i ==> set_views(sets@)[j].name != name@,
        decreases n - i,
    {
        if same_octets(sets[i].name.as_slice(), name) {
            proof {
                lemma_set_position(set_views(sets@), name@);
                assert(set_views(sets@)[i as int].name == name@);
            }
            return Some(i);
        }
        i += 1;
    }
    proof {
        lemma_set_position(set_views(sets@), name@);
    }
    None
}

/// The tables of the family `family`, one message each.
fn list_tables(m: &WireMessage, tables: &Vec<NftTableEntry>, family: u8) -> (r: Vec<WireMessage>)
    requires
        forall|i: int|
            0 <= i < tables@.len() ==> valid_name(
                (#[trigger] table_views(tables@)[i]).name,
                NFT_MAX_NAME as int,
            ),
    ensures
        message_views(r@) == table_parts(m@, table_views(tables@), family),
        all_messages_wf(message_views(r@)),
{
    let mut r: Vec<WireMessage> = Vec::new();
    let n = tables.len();
    let mut i: usize = 0;
    assert(table_views(tables@).subrange(0, 0) =~= Seq::<NftTableView>::empty());
    assert(message_views(r@) =~= Seq::<MessageView>::empty());
    while i < n
        invariant
            n == tables@.len(),
            i <= n,
            forall|i: int|
                0 <= i < tables@.len() ==> valid_name(
                    (#[trigger] table_views(tables@)[i]).name,
                    NFT_MAX_NAME as int,
                ),
            message_views(r@) == table_parts(
                m@,
                table_views(tables@).subrange(0, i as int),
                family,
            ),
            all_messages_wf(message_views(r@)),
        decreases n - i,
    {
        let ghost next = table_views(tables@).subrange(0, i as int + 1);
        proof {
            assert(next.drop_last() =~= table_views(tables@).subrange(0, i as int));
            assert(next.last() == table_views(tables@)[i as int]);
        }
        if tables[i].family == family {
            let part = Message {
                kind: NFT_MSG_NEWTABLE,
                flags: NLM_F_MULTI,
                sequence: m.sequence,
                port: m.port,
                body: Body::NftTable { family, name: Some(tables[i].name.clone()) },
            };
            assert(message_views(r@.push(part)) =~= message_views(r@).push(part@));
            r.push(part);
        }
        i += 1;
    }
    assert(table_views(tables@).subrange(0, n as int) =~= table_views(tables@));
    r
}

/// The listing of an nftables set.
fn list_elements(m: &WireMessage, family: u8, table: &Vec<u8>, set: &NftSetEntry) -> (r: Vec<
    WireMessage,
>)
    requires
        valid_name(table@, NFT_MAX_NAME as int),
        valid_name(set@.name, NFT_MAX_NAME as int),
    ensures
        message_views(r@) == elements_listing(m@, family, table@, set@),
        all_messages_wf(message_views(r@)),
{
    let mut r: Vec<WireMessage> = Vec::new();
    let n = set.members.len();
    let mut pos: usize = 0;
    let ghost all = elements_parts(m@, family, table@, set@.name, set@.members);
    proof {
        assert(set@.members.skip(0) =~= set@.members);
        assert(message_views(r@) + all =~= all);
    }
    while pos < n
        invariant
            n == set@.members.len(),
            pos <= n,
            valid_name(table@, NFT_MAX_NAME as int),
            valid_name(set@.name, NFT_MAX_NAME as int),
            all == elements_parts(m@, family, table@, set@.name, set@.members),
            all == message_views(r@) + elements_parts(
                m@,
                family,
                table@,
                set@.name,
                set@.members.skip(pos as int),
            ),
            all_messages_wf(message_views(r@)),
        decreases n - pos,
    {
        let end = if n - pos <= DUMP_PART {
            n
        } else {
            pos + DUMP_PART
        };
        let part = Message {
            kind: NFT_MSG_NEWSETELEM,
            flags: NLM_F_MULTI,
            sequence: m.sequence,
            port: m.port,
            body: Body::NftElements {
                family,
                table: table.clone(),
                set: set.name.clone(),
                elements: copy_members(&set.members, pos, end),
            },
        };
        proof {
            let rest = set@.members.skip(pos as int);
            let here = set@.members.subrange(pos as int, end as int);
            let tail = elements_parts(
                m@,
                family,
                table@,
                set@.name,
                set@.members.skip(end as int),
            );
            if n - pos <= DUMP_PART {
                assert(here =~= rest);
                assert(set@.members.skip(end as int) =~= Seq::<IpEntry>::empty());
                assert(elements_parts(m@, family, table@, set@.name, rest) =~= seq![part@] + tail);
            } else {
                assert(here =~= rest.take(DUMP_PART as int));
                assert(rest.skip(DUMP_PART as int) =~= set@.members.skip(end as int));
            }
            assert(message_views(r@.push(part)) =~= message_views(r@).push(part@));
            assert(message_views(r@).push(part@) + tail =~= message_views(r@) + (seq![part@]
                + tail));
        }
        r.push(part);
        pos = end;
    }
    let end_of_dump = done_reply(m);
    proof {
        assert(set@.members.skip(n as int) =~= Seq::<IpEntry>::empty());
        assert(message_views(r@) + Seq::<MessageView>::empty() =~= message_views(r@));
        assert(message_views(r@.push(end_of_dump)) =~= message_views(r@).push(end_of_dump@));
    }
    r.push(end_of_dump);
    r
}

/// Whether each of `elements` has an address of `width` octets.
fn check_widths(elements: &Vec<IpEntry>, width: u32) -> (ok: bool)
    ensures
        ok == all_width(elements@, width as nat),
{
    let n = elements.len();
    let mut i: usize = 0;
    while i < n
        invariant
            n == elements@.len(),
            i <= n,
            forall|j: int| 0 <= j < i ==> (#[trigger] elements@[j]).addr.width() == width as nat,
        decreases n - i,
    {
        let w: u32 = match elements[i].addr {
            IpAddress::V4(_) => 4,
            IpAddress::V6(_) => 16,
        };
        if w != width {
            return false;
        }
        i += 1;
    }
    true
}

/// Whether `members` holds the address of each of `elements`.
fn check_present(members: &Vec<IpEntry>, elements: &Vec<IpEntry>) -> (ok: bool)
    ensures
        ok == all_present(members@, elements@),
{
    let n = elements.len();
    let mut i: usize = 0;
    while i < n
        invariant
            n == elements@.len(),
            i <= n,
            forall|j: int| 0 <= j < i ==> has_member(members@, (#[trigger] elements@[j]).addr),
        decreases n - i,
    {
        if !find_member(members, elements[i].addr) {
            return false;
        }
        i += 1;
    }
    true
}

/// Adds each of `elements` whose address `members` does not hold yet.
fn add_members(members: &mut Vec<IpEntry>, elements: &Vec<IpEntry>)
    ensures
        final(members)@ == add_all(old(members)@, elements@),
{
    let n = elements.len();
    let mut i: usize = 0;
    assert(elements@.skip(0) =~= elements@);
    while i < n
        invariant
            n == elements@.len(),
            i <= n,
            add_all(old(members)@, elements@) == add_all(members@, elements@.skip(i as int)),
        decreases n - i,
    {
        let ghost rest = elements@.skip(i as int);
        assert(rest[0] == elements@[i as int]);
        assert(rest.drop_first() =~= elements@.skip(i as int + 1));
        if !find_member(members, elements[i].addr) {
            members.push(elements[i]);
        }
        i += 1;
    }
}

/// `members` without the members that have the address of one of
/// `elements`.
fn remove_members(members: Vec<IpEntry>, elements: &Vec<IpEntry>) -> (out: Vec<IpEntry>)
    ensures
        out@ == remove_all(members@, elements@),
{
    let mut out = members;
    let n = elements.len();
    let mut i: usize = 0;
    assert(elements@.skip(0) =~= elements@);
    while i < n
        invariant
            n == elements@.len(),
            i <= n,
            remove_all(members@, elements@) == remove_all(out@, elements@.skip(i as int)),
        decreases n - i,
    {
        let ghost rest = elements@.skip(i as int);
        assert(rest[0] == elements@[i as int]);
        assert(rest.drop_first() =~= elements@.skip(i as int + 1));
        out = drop_member(&out, elements[i].addr);
        i += 1;
    }
    out
}

/// Those of `elements` whose address `members` holds.
fn pick_present(members: &Vec<IpEntry>, elements: &Vec<IpEntry>) -> (out: Vec<IpEntry>)
    ensures
        out@ == present(members@, elements@),
{
    let mut out: Vec<IpEntry> = Vec::new();
    let n = elements.len();
    let mut i: usize = 0;
    assert(elements@.subrange(0, 0) =~= Seq::<IpEntry>::empty());
    while i < n
        invariant
            n == elements@.len(),
            i <= n,
            out@ == present(members@, elements@.subrange(0, i as int)),
        decreases n - i,
    {
        let ghost next = elements@.subrange(0, i as int + 1);
        assert(next.drop_last() =~= elements@.subrange(0, i as int));
        if find_member(members, elements[i].addr) {
            out.push(elements[i]);
        }
        i += 1;
    }
    assert(elements@.subrange(0, n as int) =~= elements@);
    out
}

/// A kernel whose table at `i` was replaced by a table of the same name,
/// whose sets have names that fit a message, still holds only such names.
proof fn lemma_tables_wf(k: KernelView, i: int, table: NftTableView)
    requires
        k.wf(),
        0 <= i < k.tables.len(),
        table.name == k.tables[i].name,
        forall|j: int|
            0 <= j < table.sets.len() ==> valid_name(
                (#[trigger] table.sets[j]).name,
                NFT_MAX_NAME as int,
            ),
    ensures
        (KernelView { tables: k.tables.update(i, table), ..k }).wf(),
{
    let after = KernelView { tables: k.tables.update(i, table), ..k };
    assert forall|a: int| 0 <= a < after.tables.len() implies valid_name(
        (#[trigger] after.tables[a]).name,
        NFT_MAX_NAME as int,
    ) by {
        if a != i {
            assert(after.tables[a] == k.tables[a]);
        } else {
            assert(valid_name(k.tables[i].name, NFT_MAX_NAME as int));
        }
    }
    assert forall|a: int, b: int|
        0 <= a < after.tables.len() && 0 <= b < after.tables[a].sets.len() implies valid_name(
        (#[trigger] after.tables[a].sets[b]).name,
        NFT_MAX_NAME as int,
    ) by {
        if a != i {
            assert(after.tables[a] == k.tables[a]);
            assert(valid_name(k.tables[a].sets[b].name, NFT_MAX_NAME as int));
        }
    }
}

/// No more elements are present than were asked for.
proof fn lemma_present_len(members: Seq<IpEntry>, elements: Seq<IpEntry>)
    ensures
        present(members, elements).len() <= elements.len(),
    decreases elements.len(),
{
    if elements.len() > 0 {
        lemma_present_len(members, elements.drop_last());
    }
}

/// A copy of an ipset set.
fn copy_ipset(set: &IpsetEntry) -> (copy: IpsetEntry)
    ensures
        copy@ == set@,
{
    let members = copy_members(&set.members, 0, set.members.len());
    assert(members@ =~= set.members@);
    IpsetRecord {
        name: set.name.clone(),
        set_type: set.set_type.clone(),
        family: set.family,
        timeout: set.timeout,
        members,
    }
}

/// Width in octets of the addresses of a protocol family.
fn width_of_proto(family: u8) -> (w: usize)
    ensures
        w == proto_width(family),
{
    if family == NFPROTO_IPV4 {
        4
    } else {
        16
    }
}

/// Width in octets of an address.
fn width_of_addr(a: IpAddress) -> (w: usize)
    ensures
        w == a.width(),
{
    match a {
        IpAddress::V4(_) => 4,
        IpAddress::V6(_) => 16,
    }
}

/// The views of the ipset sets of a kernel whose set at `i` was replaced
/// still name sets that fit a message, if the new set does.
proof fn lemma_ipsets_wf(k: KernelView, i: int, set: IpsetView)
    requires
        k.wf(),
        0 <= i < k.ipsets.len(),
        valid_name(set.name, IPSET_MAX_NAME as int),
    ensures
        (KernelView { ipsets: k.ipsets.update(i, set), ..k }).wf(),
{
    let after = KernelView { ipsets: k.ipsets.update(i, set), ..k };
    assert forall|j: int| 0 <= j < after.ipsets.len() implies valid_name(
        (#[trigger] after.ipsets[j]).name,
        IPSET_MAX_NAME as int,
    ) by {
        if j != i {
            assert(after.ipsets[j] == k.ipsets[j]);
        }
    }
}

impl MemoryKernel {
    /// A kernel that holds no set and no table.
    pub fn new() -> (k: MemoryKernel)
        ensures
            k@.ipsets.len() == 0,
            k@.tables.len() == 0,
            k@.sound(),
    {
        MemoryKernel { ipsets: Vec::new(), tables: Vec::new() }
    }

    /// Reacts to an ipset request that names a member.
    fn ipset_member(
        &mut self,
        m: &WireMessage,
        b: &IpsetBody<Vec<u8>, Vec<IpEntry>>,
        echo: Echo,
    ) -> (r: Vec<WireMessage>)
        requires
            old(self)@.wf(),
        ensures
            (final(self)@, message_views(r@)) == react_member(old(self)@, m@, b@, echo),
            final(self)@.wf(),
            all_messages_wf(message_views(r@)),
    {
        reveal(react_member);
        let (addr, timeout) = match b.data {
            Some(IpsetData { addr: Some(addr), timeout, .. }) => (addr, timeout),
            _ => {
                return verdict(m, echo, IPSET_ERR_PROTOCOL);
            },
        };
        let i = match find_ipset(&self.ipsets, b.name.as_slice()) {
            Some(i) => i,
            None => {
                return verdict(m, echo, KERNEL_ENOENT);
            },
        };
        let family = self.ipsets[i].family;
        if width_of_addr(addr) != width_of_proto(family) {
            let code = if family == NFPROTO_IPV4 {
                IPSET_ERR_IPADDR_IPV4
            } else {
                IPSET_ERR_IPADDR_IPV6
            };
            return verdict(m, echo, code);
        }
        let found = find_member(&self.ipsets[i].members, addr);
        if m.kind == IPSET_CMD_ADD {
            if found {
                return verdict(m, echo, IPSET_ERR_EXIST);
            }
            let mut set = self.ipsets.remove(i);
            set.members.push(IpEntry { addr, timeout });
            proof {
                lemma_ipsets_wf(old(self)@, i as int, set@);
            }
            self.ipsets.insert(i, set);
            assert(ipset_views(self.ipsets@) =~= old(self)@.ipsets.update(i as int, set@));
            return verdict(m, echo, 0);
        }
        if !found {
            return verdict(m, echo, IPSET_ERR_EXIST);
        }
        if m.kind == IPSET_CMD_DEL {
            let mut set = self.ipsets.remove(i);
            set.members = drop_member(&set.members, addr);
            proof {
                lemma_ipsets_wf(old(self)@, i as int, set@);
            }
            self.ipsets.insert(i, set);
            assert(ipset_views(self.ipsets@) =~= old(self)@.ipsets.update(i as int, set@));
            return verdict(m, echo, 0);
        }
        verdict(m, echo, 0)
    }

    /// Reacts to the ipset request that creates a set.
    fn ipset_create(
        &mut self,
        m: &WireMessage,
        b: &IpsetBody<Vec<u8>, Vec<IpEntry>>,
        echo: Echo,
    ) -> (r: Vec<WireMessage>)
        requires
            old(self)@.wf(),
            valid_name(b@.name, IPSET_MAX_NAME as int),
        ensures
            (final(self)@, message_views(r@)) == react_create(old(self)@, m@, b@, echo),
            final(self)@.wf(),
            all_messages_wf(message_views(r@)),
    {
        reveal(react_create);
        let (set_type, family) = match (&b.second, b.set_family) {
            (Some(set_type), Some(family)) => (set_type, family),
            _ => {
                return verdict(m, echo, IPSET_ERR_PROTOCOL);
            },
        };
        let hash_ip_name: Vec<u8> = vec![104u8, 97u8, 115u8, 104u8, 58u8, 105u8, 112u8];
        let hash_net_name: Vec<u8> = vec![104u8, 97u8, 115u8, 104u8, 58u8, 110u8, 101u8, 116u8];
        assert(hash_ip_name@ =~= hash_ip());
        assert(hash_net_name@ =~= hash_net());
        if !same_octets(set_type.as_slice(), hash_ip_name.as_slice()) && !same_octets(
            set_type.as_slice(),
            hash_net_name.as_slice(),
        ) {
            return verdict(m, echo, IPSET_ERR_PROTOCOL);
        }
        if family != NFPROTO_IPV4 && family != NFPROTO_IPV6 {
            return verdict(m, echo, IPSET_ERR_INVALID_FAMILY);
        }
        if find_ipset(&self.ipsets, b.name.as_slice()).is_some() {
            return verdict(m, echo, KERNEL_EEXIST);
        }
        let set = IpsetRecord {
            name: b.name.clone(),
            set_type: set_type.clone(),
            family,
            timeout: match b.data {
                Some(d) => d.timeout,
                None => None,
            },
            members: Vec::new(),
        };
        proof {
            let after = KernelView { ipsets: old(self)@.ipsets.push(set@), ..old(self)@ };
            assert forall|j: int| 0 <= j < after.ipsets.len() implies valid_name(
                (#[trigger] after.ipsets[j]).name,
                IPSET_MAX_NAME as int,
            ) by {
                if j < old(self)@.ipsets.len() {
                    assert(after.ipsets[j] == old(self)@.ipsets[j]);
                }
            }
        }
        self.ipsets.push(set);
        assert(ipset_views(self.ipsets@) =~= old(self)@.ipsets.push(set@));
        verdict(m, echo, 0)
    }

    /// Reacts to an ipset request that names two sets.
    fn ipset_pair(
        &mut self,
        m: &WireMessage,
        b: &IpsetBody<Vec<u8>, Vec<IpEntry>>,
        echo: Echo,
    ) -> (r: Vec<WireMessage>)
        requires
            old(self)@.wf(),
            valid_opt_name(
                name_view(b.second),
                IPSET_MAX_NAME as int,
            ),
        ensures
            (final(self)@, message_views(r@)) == react_pair(old(self)@, m@, b@, echo),
            final(self)@.wf(),
            all_messages_wf(message_views(r@)),
    {
        reveal(react_pair);
        let second = match &b.second {
            Some(second) => second,
            None => {
                return verdict(m, echo, IPSET_ERR_PROTOCOL);
            },
        };
        let i = match find_ipset(&self.ipsets, b.name.as_slice()) {
            Some(i) => i,
            None => {
                return verdict(m, echo, KERNEL_ENOENT);
            },
        };
        let other = find_ipset(&self.ipsets, second.as_slice());
        if m.kind == IPSET_CMD_RENAME {
            if other.is_some() {
                return verdict(m, echo, IPSET_ERR_EXIST_SETNAME2);
            }
            let mut set = self.ipsets.remove(i);
            set.name = second.clone();
            proof {
                lemma_ipsets_wf(old(self)@, i as int, set@);
            }
            self.ipsets.insert(i, set);
            assert(ipset_views(self.ipsets@) =~= old(self)@.ipsets.update(i as int, set@));
            return verdict(m, echo, 0);
        }
        let j = match other {
            Some(j) => j,
            None => {
                return verdict(m, echo, KERNEL_ENOENT);
            },
        };
        if self.ipsets[i].family != self.ipsets[j].family || !same_octets(
            self.ipsets[i].set_type.as_slice(),
            self.ipsets[j].set_type.as_slice(),
        ) {
            return verdict(m, echo, IPSET_ERR_TYPE_MISMATCH);
        }
        let mut moved_up = copy_ipset(&self.ipsets[j]);
        let mut moved_down = copy_ipset(&self.ipsets[i]);
        moved_up.name = self.ipsets[i].name.clone();
        moved_down.name = self.ipsets[j].name.clone();
        proof {
            let k0 = old(self)@;
            lemma_ipsets_wf(k0, i as int, moved_up@);
            let k1 = KernelView { ipsets: k0.ipsets.update(i as int, moved_up@), ..k0 };
            lemma_ipsets_wf(k1, j as int, moved_down@);
        }
        put_ipset(&mut self.ipsets, i, moved_up);
        put_ipset(&mut self.ipsets, j, moved_down);
        verdict(m, echo, 0)
    }

    /// Reacts to an ipset request.
    fn ipset_request(
        &mut self,
        m: &WireMessage,
        b: &IpsetBody<Vec<u8>, Vec<IpEntry>>,
        echo: Echo,
    ) -> (r: Vec<WireMessage>)
        requires
            old(self)@.wf(),
            b@.wf(),
        ensures
            (final(self)@, message_views(r@)) == react_ipset(old(self)@, m@, b@, echo),
            final(self)@.wf(),
            all_messages_wf(message_views(r@)),
    {
        reveal(react_ipset);
        let kind = m.kind;
        if b.protocol != IPSET_PROTOCOL {
            return verdict(m, echo, IPSET_ERR_PROTOCOL);
        }
        if kind == IPSET_CMD_CREATE {
            return self.ipset_create(m, b, echo);
        }
        if kind == IPSET_CMD_ADD || kind == IPSET_CMD_DEL || kind == IPSET_CMD_TEST {
            return self.ipset_member(m, b, echo);
        }
        if kind == IPSET_CMD_RENAME || kind == IPSET_CMD_SWAP {
            return self.ipset_pair(m, b, echo);
        }
        if kind == IPSET_CMD_DESTROY || kind == IPSET_CMD_FLUSH || kind == IPSET_CMD_LIST {
            let i = match find_ipset(&self.ipsets, b.name.as_slice()) {
                Some(i) => i,
                None => {
                    return verdict(m, echo, KERNEL_ENOENT);
                },
            };
            if kind == IPSET_CMD_DESTROY {
                proof {
                    let k0 = old(self)@;
                    let after = KernelView { ipsets: k0.ipsets.remove(i as int), ..k0 };
                    assert forall|j: int| 0 <= j < after.ipsets.len() implies valid_name(
                        (#[trigger] after.ipsets[j]).name,
                        IPSET_MAX_NAME as int,
                    ) by {
                        if j < i {
                            assert(after.ipsets[j] == k0.ipsets[j]);
                        } else {
                            assert(after.ipsets[j] == k0.ipsets[j + 1]);
                        }
                    }
                }
                self.ipsets.remove(i);
                assert(ipset_views(self.ipsets@) =~= old(self)@.ipsets.remove(i as int));
                return verdict(m, echo, 0);
            }
            if kind == IPSET_CMD_FLUSH {
                let mut set = self.ipsets.remove(i);
                set.members = Vec::new();
                proof {
                    lemma_ipsets_wf(old(self)@, i as int, set@);
                }
                self.ipsets.insert(i, set);
                assert(ipset_views(self.ipsets@) =~= old(self)@.ipsets.update(i as int, set@));
                return verdict(m, echo, 0);
            }
            assert(valid_name(old(self)@.ipsets[i as int].name, IPSET_MAX_NAME as int));
            return list_ipset(m, &self.ipsets[i]);
        }
        verdict(m, echo, IPSET_ERR_PROTOCOL)
    }


    /// Reacts to an nftables table request.
    fn table_request(
        &mut self,
        m: &WireMessage,
        family: u8,
        name: &Option<Vec<u8>>,
        echo: Echo,
    ) -> (r: Vec<WireMessage>)
        requires
            old(self)@.wf(),
            valid_opt_name(name_view(*name), NFT_MAX_NAME as int),
        ensures
            (final(self)@, message_views(r@)) == react_table(
                old(self)@,
                m@,
                family,
                name_view(*name),
                echo,
            ),
            final(self)@.wf(),
            all_messages_wf(message_views(r@)),
    {
        reveal(react_table);
        if family != NFPROTO_INET && family != NFPROTO_IPV4 && family != NFPROTO_IPV6 {
            return verdict(m, echo, KERNEL_EAFNOSUPPORT);
        }
        if m.kind == NFT_MSG_GETTABLE {
            let mut r = list_tables(m, &self.tables, family);
            let end_of_dump = done_reply(m);
            assert(message_views(r@.push(end_of_dump)) =~= message_views(r@).push(end_of_dump@));
            r.push(end_of_dump);
            return r;
        }
        let name = match name {
            Some(name) => name,
            None => {
                return verdict(m, echo, KERNEL_EINVAL);
            },
        };
        match find_table(&self.tables, family, name.as_slice()) {
            None => {
                if m.kind != NFT_MSG_NEWTABLE {
                    return verdict(m, echo, KERNEL_ENOENT);
                }
                let table = NftTableRecord { family, name: name.clone(), sets: Vec::new() };
                proof {
                    let k0 = old(self)@;
                    let after = KernelView { tables: k0.tables.push(table@), ..k0 };
                    assert(table@.sets =~= Seq::<NftSetView>::empty());
                    assert forall|a: int| 0 <= a < after.tables.len() implies valid_name(
                        (#[trigger] after.tables[a]).name,
                        NFT_MAX_NAME as int,
                    ) by {
                        if a < k0.tables.len() {
                            assert(after.tables[a] == k0.tables[a]);
                        }
                    }
                    assert forall|a: int, b: int|
                        0 <= a < after.tables.len() && 0 <= b
                            < after.tables[a].sets.len() implies valid_name(
                        (#[trigger] after.tables[a].sets[b]).name,
                        NFT_MAX_NAME as int,
                    ) by {
                        if a < k0.tables.len() {
                            assert(after.tables[a] == k0.tables[a]);
                            assert(valid_name(k0.tables[a].sets[b].name, NFT_MAX_NAME as int));
                        }
                    }
                }
                self.tables.push(table);
                assert(table_views(self.tables@) =~= old(self)@.tables.push(table@));
                verdict(m, echo, 0)
            },
            Some(i) => {
                if m.kind == NFT_MSG_NEWTABLE {
                    return verdict(m, echo, KERNEL_EEXIST);
                }
                if self.tables[i].sets.len() > 0 {
                    return verdict(m, echo, KERNEL_EBUSY);
                }
                proof {
                    let k0 = old(self)@;
                    let after = KernelView { tables: k0.tables.remove(i as int), ..k0 };
                    assert forall|a: int| 0 <= a < after.tables.len() implies valid_name(
                        (#[trigger] after.tables[a]).name,
                        NFT_MAX_NAME as int,
                    ) by {
                        if a < i {
                            assert(after.tables[a] == k0.tables[a]);
                        } else {
                            assert(after.tables[a] == k0.tables[a + 1]);
                        }
                    }
                    assert forall|a: int, b: int|
                        0 <= a < after.tables.len() && 0 <= b
                            < after.tables[a].sets.len() implies valid_name(
                        (#[trigger] after.tables[a].sets[b]).name,
                        NFT_MAX_NAME as int,
                    ) by {
                        if a < i {
                            assert(after.tables[a] == k0.tables[a]);
                            assert(valid_name(k0.tables[a].sets[b].name, NFT_MAX_NAME as int));
                        } else {
                            assert(after.tables[a] == k0.tables[a + 1]);
                            assert(valid_name(k0.tables[a + 1].sets[b].name, NFT_MAX_NAME as int));
                        }
                    }
                }
                self.tables.remove(i);
                assert(table_views(self.tables@) =~= old(self)@.tables.remove(i as int));
                verdict(m, echo, 0)
            },
        }
    }

    /// Reacts to an nftables set request.
    fn set_request(
        &mut self,
        m: &WireMessage,
        family: u8,
        table: &Vec<u8>,
        name: &Vec<u8>,
        shape: Option<SetShape>,
        echo: Echo,
    ) -> (r: Vec<WireMessage>)
        requires
            old(self)@.wf(),
            valid_name(name@, NFT_MAX_NAME as int),
        ensures
            (final(self)@, message_views(r@)) == react_set(
                old(self)@,
                m@,
                family,
                table@,
                name@,
                shape,
                echo,
            ),
            final(self)@.wf(),
            all_messages_wf(message_views(r@)),
    {
        reveal(react_set);
        if family != NFPROTO_INET && family != NFPROTO_IPV4 && family != NFPROTO_IPV6 {
            return verdict(m, echo, KERNEL_EAFNOSUPPORT);
        }
        let i = match find_table(&self.tables, family, table.as_slice()) {
            Some(i) => i,
            None => {
                return verdict(m, echo, KERNEL_ENOENT);
            },
        };
        let ghost sets0 = old(self)@.tables[i as int].sets;
        assert(sets0 == set_views(self.tables@[i as int].sets@));
        assert forall|j: int| 0 <= j < sets0.len() implies valid_name(
            (#[trigger] sets0[j]).name,
            NFT_MAX_NAME as int,
        ) by {
            assert(valid_name(old(self)@.tables[i as int].sets[j].name, NFT_MAX_NAME as int));
        }
        if m.kind == NFT_MSG_NEWSET {
            if find_set(&self.tables[i].sets, name.as_slice()).is_some() {
                return verdict(m, echo, KERNEL_EEXIST);
            }
            let shape = match shape {
                Some(shape) => shape,
                None => {
                    return verdict(m, echo, KERNEL_EINVAL);
                },
            };
            if shape.key_len != 4 && shape.key_len != 16 {
                return verdict(m, echo, KERNEL_EINVAL);
            }
            let mut table = self.tables.remove(i);
            let set = NftSetRecord { name: name.clone(), shape, members: Vec::new() };
            table.sets.push(set);
            proof {
                assert(set_views(table.sets@) =~= sets0.push(set@));
                assert forall|j: int| 0 <= j < table@.sets.len() implies valid_name(
                    (#[trigger] table@.sets[j]).name,
                    NFT_MAX_NAME as int,
                ) by {
                    if j < sets0.len() {
                        assert(table@.sets[j] == sets0[j]);
                    }
                }
                lemma_tables_wf(old(self)@, i as int, table@);
            }
            self.tables.insert(i, table);
            assert(table_views(self.tables@) =~= old(self)@.tables.update(i as int, table@));
            return verdict(m, echo, 0);
        }
        if m.kind == NFT_MSG_DELSET {
            let j = match find_set(&self.tables[i].sets, name.as_slice()) {
                Some(j) => j,
                None => {
                    return verdict(m, echo, KERNEL_ENOENT);
                },
            };
            let mut table = self.tables.remove(i);
            table.sets.remove(j);
            proof {
                assert(set_views(table.sets@) =~= sets0.remove(j as int));
                assert forall|a: int| 0 <= a < table@.sets.len() implies valid_name(
                    (#[trigger] table@.sets[a]).name,
                    NFT_MAX_NAME as int,
                ) by {
                    if a < j {
                        assert(table@.sets[a] == sets0[a]);
                    } else {
                        assert(table@.sets[a] == sets0[a + 1]);
                    }
                }
                lemma_tables_wf(old(self)@, i as int, table@);
            }
            self.tables.insert(i, table);
            assert(table_views(self.tables@) =~= old(self)@.tables.update(i as int, table@));
            return verdict(m, echo, 0);
        }
        verdict(m, echo, KERNEL_EOPNOTSUPP)
    }

    /// Puts `members` in the place of the members of the set at `j` of the
    /// table at `i`.
    fn put_members(&mut self, i: usize, j: usize, members: Vec<IpEntry>)
        requires
            old(self)@.wf(),
            i < old(self)@.tables.len(),
            j < old(self)@.tables[i as int].sets.len(),
        ensures
            final(self)@ == with_members(old(self)@, i as int, j as int, members@),
            final(self)@.wf(),
    {
        let ghost sets0 = old(self)@.tables[i as int].sets;
        let mut table = self.tables.remove(i);
        assert(sets0 == set_views(table.sets@));
        let mut set = table.sets.remove(j);
        set.members = members;
        table.sets.insert(j, set);
        proof {
            assert(set_views(table.sets@) =~= sets0.update(j as int, set@));
            assert forall|a: int| 0 <= a < table@.sets.len() implies valid_name(
                (#[trigger] table@.sets[a]).name,
                NFT_MAX_NAME as int,
            ) by {
                assert(valid_name(old(self)@.tables[i as int].sets[a].name, NFT_MAX_NAME as int));
                if a != j {
                    assert(table@.sets[a] == sets0[a]);
                }
            }
            lemma_tables_wf(old(self)@, i as int, table@);
        }
        self.tables.insert(i, table);
        assert(table_views(self.tables@) =~= old(self)@.tables.update(i as int, table@));
    }

    /// Reacts to an nftables element request.
    fn elements_request(
        &mut self,
        m: &WireMessage,
        family: u8,
        table: &Vec<u8>,
        name: &Vec<u8>,
        elements: &Vec<IpEntry>,
        echo: Echo,
    ) -> (r: Vec<WireMessage>)
        requires
            old(self)@.wf(),
            valid_name(table@, NFT_MAX_NAME as int),
            valid_name(name@, NFT_MAX_NAME as int),
            elements@.len() <= MAX_MEMBERS,
        ensures
            (final(self)@, message_views(r@)) == react_elements(
                old(self)@,
                m@,
                family,
                table@,
                name@,
                elements@,
                echo,
            ),
            final(self)@.wf(),
            all_messages_wf(message_views(r@)),
    {
        reveal(react_elements);
        if family != NFPROTO_INET && family != NFPROTO_IPV4 && family != NFPROTO_IPV6 {
            return verdict(m, echo, KERNEL_EAFNOSUPPORT);
        }
        let i = match find_table(&self.tables, family, table.as_slice()) {
            Some(i) => i,
            None => {
                return verdict(m, echo, KERNEL_ENOENT);
            },
        };
        let j = match find_set(&self.tables[i].sets, name.as_slice()) {
            Some(j) => j,
            None => {
                return verdict(m, echo, KERNEL_ENOENT);
            },
        };
        let ghost set0 = old(self)@.tables[i as int].sets[j as int];
        assert(set0 == self.tables@[i as int].sets@[j as int]@);
        assert(valid_name(set0.name, NFT_MAX_NAME as int));
        if m.kind == NFT_MSG_GETSETELEM && m.flags == FLAGS_DUMP {
            return list_elements(m, family, table, &self.tables[i].sets[j]);
        }
        if !check_widths(elements, self.tables[i].sets[j].shape.key_len) {
            return verdict(m, echo, KERNEL_EAFNOSUPPORT);
        }
        if m.kind == NFT_MSG_NEWSETELEM {
            let mut members = copy_members(
                &self.tables[i].sets[j].members,
                0,
                self.tables[i].sets[j].members.len(),
            );
            assert(members@ =~= set0.members);
            add_members(&mut members, elements);
            self.put_members(i, j, members);
            return verdict(m, echo, 0);
        }
        if m.kind == NFT_MSG_DELSETELEM {
            if !check_present(&self.tables[i].sets[j].members, elements) {
                return verdict(m, echo, KERNEL_ENOENT);
            }
            let members = copy_members(
                &self.tables[i].sets[j].members,
                0,
                self.tables[i].sets[j].members.len(),
            );
            assert(members@ =~= set0.members);
            let members = remove_members(members, elements);
            self.put_members(i, j, members);
            return verdict(m, echo, 0);
        }
        let found = pick_present(&self.tables[i].sets[j].members, elements);
        if found.len() > 0 {
            proof {
                lemma_present_len(set0.members, elements@);
            }
            let part = Message {
                kind: NFT_MSG_NEWSETELEM,
                flags: NLM_F_MULTI,
                sequence: m.sequence,
                port: m.port,
                body: Body::NftElements {
                    family,
                    table: table.clone(),
                    set: name.clone(),
                    elements: found,
                },
            };
            let mut r: Vec<WireMessage> = Vec::new();
            r.push(part);
            r.push(status_reply(m, echo, 0));
            assert(message_views(r@) =~= seq![part@, status(m@, echo, 0)]);
            return r;
        }
        verdict(m, echo, 0)
    }

    /// Reacts to a message: changes what the kernel holds as the request
    /// asks, and returns the answer.
    ///
    /// `echo` is the header of the message as it came over the wire; the
    /// kernel hands it back in its acknowledgement.
    pub fn react(&mut self, m: &WireMessage, echo: Echo) -> (r: Vec<WireMessage>)
        requires
            old(self)@.sound(),
        ensures
            (final(self)@, message_views(r@)) == react(old(self)@, m@, echo),
            final(self)@.sound(),
            all_messages_wf(message_views(r@)),
    {
        reveal(react);
        reveal(react_nft);
        proof {
            theorem_react_coherent(self@, m@, echo);
        }
        let ok = check_message(m);
        match &m.body {
            Body::Ipset(b) => {
                if ok {
                    self.ipset_request(m, b, echo)
                } else {
                    verdict(m, echo, IPSET_ERR_PROTOCOL)
                }
            },
            Body::NftTable { family, name } => {
                if ok {
                    self.table_request(m, *family, name, echo)
                } else {
                    verdict(m, echo, KERNEL_EINVAL)
                }
            },
            Body::NftSet { family, table, name, shape } => {
                if ok {
                    self.set_request(m, *family, table, name, *shape, echo)
                } else {
                    verdict(m, echo, KERNEL_EINVAL)
                }
            },
            Body::NftElements { family, table, set, elements } => {
                if ok {
                    self.elements_request(m, *family, table, set, elements, echo)
                } else {
                    verdict(m, echo, KERNEL_EINVAL)
                }
            },
            _ => {
                let r: Vec<WireMessage> = Vec::new();
                assert(message_views(r@) =~= Seq::<MessageView>::empty());
                r
            },
        }
    }


    /// Reacts to one netlink message.
    fn serve_one(&mut self, p: &Packet) -> (r: Vec<WireMessage>)
        requires
            old(self)@.sound(),
            p@.wf(),
        ensures
            (final(self)@, message_views(r@)) == serve_one(old(self)@, p@),
            final(self)@.sound(),
            all_messages_wf(message_views(r@)),
    {
        let echo = Echo {
            length: (HEADER_LEN + p.payload.len()) as u32,
            kind: p.kind,
            flags: p.flags,
            sequence: p.sequence,
            port: p.port,
        };
        match decode_message(p) {
            Ok(m) => self.react(&m, echo),
            Err(_) => {
                let refusal = Message {
                    kind: NLMSG_ERROR,
                    flags: 0,
                    sequence: p.sequence,
                    port: p.port,
                    body: Body::Status { code: KERNEL_EINVAL, request: echo },
                };
                let mut r: Vec<WireMessage> = Vec::new();
                r.push(refusal);
                assert(message_views(r@) =~= seq![refusal@]);
                r
            },
        }
    }

    /// Takes in a datagram of requests and returns the datagrams of the
    /// answer, one for each message, in order.
    pub fn transmit(&mut self, datagram: &[u8]) -> (r: Vec<Vec<u8>>)
        requires
            old(self)@.sound(),
        ensures
            (final(self)@, datagram_views(r@)) == transmit_spec(old(self)@, datagram@),
            final(self)@.sound(),
            split_spec(datagram@) is Some ==> all_messages_wf(
                serve(old(self)@, split_spec(datagram@)->0).1,
            ),
    {
        let mut out: Vec<Vec<u8>> = Vec::new();
        let packets = match split(datagram) {
            Ok(packets) => packets,
            Err(_) => {
                assert(datagram_views(out@) =~= Seq::<Seq<u8>>::empty());
                return out;
            },
        };
        let ghost all = packet_views(packets@);
        let ghost mut heard: Seq<MessageView> = Seq::empty();
        proof {
            lemma_split_wf(datagram@);
            assert(split_spec(datagram@) == Some(all));
            assert forall|j: int| 0 <= j < all.len() implies (#[trigger] all[j]).wf() by {
                assert(split_spec(datagram@)->0[j].wf());
            }
            assert(all.skip(0) =~= all);
            assert(heard + serve(self@, all).1 =~= serve(self@, all).1);
            assert(datagram_views(out@) =~= datagrams(heard));
        }
        let n = packets.len();
        let mut i: usize = 0;
        while i < n
            invariant
                n == packets@.len(),
                i <= n,
                all == packet_views(packets@),
                forall|j: int| 0 <= j < all.len() ==> (#[trigger] all[j]).wf(),
                self@.sound(),
                serve(old(self)@, all).0 == serve(self@, all.skip(i as int)).0,
                serve(old(self)@, all).1 == heard + serve(self@, all.skip(i as int)).1,
                datagram_views(out@) == datagrams(heard),
                all_messages_wf(heard),
            decreases n - i,
        {
            let ghost before = self@;
            let ghost rest = all.skip(i as int);
            proof {
                assert(rest[0] == all[i as int]);
                assert(rest.drop_first() =~= all.skip(i as int + 1));
                assert(all[i as int].wf());
            }
            let replies = self.serve_one(&packets[i]);
            proof {
                let tail = serve(self@, all.skip(i as int + 1)).1;
                assert((heard + message_views(replies@)) + tail =~= heard + (message_views(
                    replies@,
                ) + tail));
            }
            let m = replies.len();
            let mut j: usize = 0;
            let ghost heard0 = heard;
            proof {
                assert(message_views(replies@).subrange(0, 0) =~= Seq::<MessageView>::empty());
                assert(heard0 + Seq::<MessageView>::empty() =~= heard0);
            }
            while j < m
                invariant
                    m == replies@.len(),
                    j <= m,
                    all_messages_wf(message_views(replies@)),
                    heard == heard0 + message_views(replies@).subrange(0, j as int),
                    datagram_views(out@) == datagrams(heard),
                    all_messages_wf(heard),
                decreases m - j,
            {
                assert(message_views(replies@)[j as int].wf());
                let bytes = encode_message(&replies[j]);
                proof {
                    let next = heard.push(replies@[j as int]@);
                    assert(next =~= heard0 + message_views(replies@).subrange(0, j as int + 1));
                    let sent = datagram_views(out@.push(bytes));
                    assert(datagram_views(out@).len() == out@.len());
                    assert(datagrams(heard).len() == heard.len());
                    assert(sent.len() == datagrams(next).len());
                    assert forall|k: int| 0 <= k < sent.len() implies sent[k] == datagrams(
                        next,
                    )[k] by {
                        if k < out@.len() {
                            assert(sent[k] == datagram_views(out@)[k]);
                            assert(datagrams(heard)[k] == message_bytes(heard[k]));
                            assert(next[k] == heard[k]);
                        } else {
                            assert(next[k] == replies@[j as int]@);
                        }
                    }
                    assert(sent =~= datagrams(next));
                    assert forall|k: int| 0 <= k < next.len() implies (#[trigger] next[k]).wf() by {
                        if k < heard.len() {
                            assert(next[k] == heard[k]);
                        }
                    }
                    heard = next;
                }
                out.push(bytes);
                j += 1;
            }
            proof {
                assert(message_views(replies@).subrange(0, m as int) =~= message_views(replies@));
            }
            i += 1;
        }
        proof {
            assert(all.skip(n as int) =~= Seq::<PacketView>::empty());
            assert(heard + Seq::<MessageView>::empty() =~= heard);
        }
        out
    }

}

} // verus!
