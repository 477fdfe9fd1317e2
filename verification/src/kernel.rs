//! A reference kernel: the two subsystems as far as this library talks to
//! them, held in memory.
//!
//! The reference kernel keeps ipset sets and nftables tables, and answers a
//! request as the protocols say a kernel does: with an acknowledgement, an
//! error code, or the parts of a dump and its end. It is what
//! [`crate::refinement`] holds the protocol stack against, and it lets a
//! program run every operation without a socket and without privileges.
//!
//! It reports a set type it does not know, a missing attribute and a name
//! that is too long as protocol errors, a missing object as `ENOENT`, an
//! object in the way as `EEXIST`, a table that still holds sets as `EBUSY`,
//! and an address whose width is not that of the set with the ipset codes
//! for an expected IPv4 or IPv6 address, or with `EAFNOSUPPORT` on
//! nftables. A table of any family takes sets of either key width.
//! Timeouts are kept with the members and never run out: the reference
//! kernel has no clock.

use vstd::prelude::*;
use crate::entry::IpEntry;
use crate::error::{
    IPSET_ERR_EXIST,
    IPSET_ERR_EXIST_SETNAME2,
    IPSET_ERR_INVALID_FAMILY,
    IPSET_ERR_IPADDR_IPV4,
    IPSET_ERR_IPADDR_IPV6,
    IPSET_ERR_PROTOCOL,
    IPSET_ERR_TYPE_MISMATCH,
    KERNEL_EAFNOSUPPORT,
    KERNEL_EBUSY,
    KERNEL_EEXIST,
    KERNEL_EINVAL,
    KERNEL_ENOENT,
    KERNEL_EOPNOTSUPP,
};
use crate::codec::{message_bytes, message_of};
use crate::fields::valid_name;
use crate::frame::{split_spec, PacketView, HEADER_LEN, NLMSG_DONE, NLMSG_ERROR, NLM_F_MULTI};
use crate::ipset::IPSET_PROTOCOL;
use crate::message::{
    Body,
    Echo,
    IpsetBody,
    IpsetData,
    Message,
    MessageView,
    SetShape,
    IPSET_CMD_ADD,
    IPSET_CMD_CREATE,
    IPSET_CMD_DEL,
    IPSET_CMD_DESTROY,
    IPSET_CMD_FLUSH,
    IPSET_CMD_LIST,
    IPSET_CMD_RENAME,
    IPSET_CMD_SWAP,
    IPSET_CMD_TEST,
    IPSET_MAX_NAME,
    NFPROTO_INET,
    NFPROTO_IPV4,
    NFPROTO_IPV6,
    NFT_MAX_NAME,
    NFT_MSG_DELSET,
    NFT_MSG_DELSETELEM,
    NFT_MSG_GETSETELEM,
    NFT_MSG_GETTABLE,
    NFT_MSG_NEWSET,
    NFT_MSG_NEWSETELEM,
    NFT_MSG_NEWTABLE,
};
use crate::request::{hash_ip, hash_net, FLAGS_DUMP};
use crate::store::{
    ipset_names_unique,
    set_names_unique,
    table_names_unique,
    add_all,
    all_present,
    all_width,
    distinct,
    has_member,
    ipset_position,
    present,
    remove_all,
    set_position,
    table_position,
    without,
    IpsetRecord,
    IpsetView,
    NftSetRecord,
    NftSetView,
    NftTableRecord,
    NftTableView,
};

verus! {

/// The largest number of members in one part of a dump.
pub const DUMP_PART: usize = 128;

/// What the reference kernel holds, as a mathematical value.
pub struct KernelView {
    pub ipsets: Seq<IpsetView>,
    pub tables: Seq<NftTableView>,
}

/// The kernel's state after a request, and its answer.
pub type Reaction = (KernelView, Seq<MessageView>);

/// The error message that answers `m` with the code `code`; code 0
/// acknowledges `m`.
pub open spec fn status(m: MessageView, echo: Echo, code: i32) -> MessageView {
    Message {
        kind: NLMSG_ERROR,
        flags: 0,
        sequence: m.sequence,
        port: m.port,
        body: Body::Status { code, request: echo },
    }
}

/// The message that ends the dump that `m` asked for.
pub open spec fn done(m: MessageView) -> MessageView {
    Message {
        kind: NLMSG_DONE,
        flags: NLM_F_MULTI,
        sequence: m.sequence,
        port: m.port,
        body: Body::Done,
    }
}

/// The kernel refuses `m` and stays as it is.
pub open spec fn refuse(k: KernelView, m: MessageView, echo: Echo, code: i32) -> Reaction {
    (k, seq![status(m, echo, code)])
}

/// The kernel acknowledges `m` and is `k` afterwards.
pub open spec fn accept(k: KernelView, m: MessageView, echo: Echo) -> Reaction {
    (k, seq![status(m, echo, 0)])
}

/// Width in octets of the addresses of a protocol family: 4 for IPv4, 16
/// for any other.
pub open spec fn proto_width(family: u8) -> nat {
    if family == NFPROTO_IPV4 {
        4
    } else {
        16
    }
}

/// One part of the listing of an ipset set.
pub open spec fn ipset_part(m: MessageView, set: IpsetView, members: Seq<IpEntry>) -> MessageView {
    Message {
        kind: IPSET_CMD_LIST,
        flags: NLM_F_MULTI,
        sequence: m.sequence,
        port: m.port,
        body: Body::Ipset(
            IpsetBody {
                family: set.family,
                protocol: IPSET_PROTOCOL,
                name: set.name,
                second: None,
                revision: None,
                set_family: None,
                data: None,
                members,
            },
        ),
    }
}

/// The members `members` of an ipset set in parts of at most `DUMP_PART`
/// members, in order.
pub open spec fn ipset_parts(m: MessageView, set: IpsetView, members: Seq<IpEntry>) -> Seq<
    MessageView,
>
    decreases members.len(),
{
    if members.len() == 0 {
        Seq::empty()
    } else if members.len() <= DUMP_PART {
        seq![ipset_part(m, set, members)]
    } else {
        seq![ipset_part(m, set, members.take(DUMP_PART as int))] + ipset_parts(
            m,
            set,
            members.skip(DUMP_PART as int),
        )
    }
}

/// The listing of an ipset set: its members in parts, and the end.
pub open spec fn ipset_listing(m: MessageView, set: IpsetView) -> Seq<MessageView> {
    ipset_parts(m, set, set.members).push(done(m))
}

/// One part of the listing of an nftables set.
pub open spec fn elements_part(
    m: MessageView,
    family: u8,
    table: Seq<u8>,
    set: Seq<u8>,
    elements: Seq<IpEntry>,
) -> MessageView {
    Message {
        kind: NFT_MSG_NEWSETELEM,
        flags: NLM_F_MULTI,
        sequence: m.sequence,
        port: m.port,
        body: Body::NftElements { family, table, set, elements },
    }
}

/// The members `members` of an nftables set in parts of at most
/// `DUMP_PART` members, in order.
pub open spec fn elements_parts(
    m: MessageView,
    family: u8,
    table: Seq<u8>,
    set: Seq<u8>,
    members: Seq<IpEntry>,
) -> Seq<MessageView>
    decreases members.len(),
{
    if members.len() == 0 {
        Seq::empty()
    } else if members.len() <= DUMP_PART {
        seq![elements_part(m, family, table, set, members)]
    } else {
        seq![elements_part(m, family, table, set, members.take(DUMP_PART as int))]
            + elements_parts(m, family, table, set, members.skip(DUMP_PART as int))
    }
}

/// The listing of an nftables set: its members in parts, and the end.
pub open spec fn elements_listing(
    m: MessageView,
    family: u8,
    table: Seq<u8>,
    set: NftSetView,
) -> Seq<MessageView> {
    elements_parts(m, family, table, set.name, set.members).push(done(m))
}

/// One table of a table listing.
pub open spec fn table_part(m: MessageView, t: NftTableView) -> MessageView {
    Message {
        kind: NFT_MSG_NEWTABLE,
        flags: NLM_F_MULTI,
        sequence: m.sequence,
        port: m.port,
        body: Body::NftTable { family: t.family, name: Some(t.name) },
    }
}

/// The tables of the family `family`, one message each, in order.
pub open spec fn table_parts(m: MessageView, tables: Seq<NftTableView>, family: u8) -> Seq<
    MessageView,
>
    decreases tables.len(),
{
    if tables.len() == 0 {
        Seq::empty()
    } else if tables.last().family == family {
        table_parts(m, tables.drop_last(), family).push(table_part(m, tables.last()))
    } else {
        table_parts(m, tables.drop_last(), family)
    }
}

/// How the kernel reacts to an ipset request that names a member.
#[verifier::opaque]
pub open spec fn react_member(
    k: KernelView,
    m: MessageView,
    b: IpsetBody<Seq<u8>, Seq<IpEntry>>,
    echo: Echo,
) -> Reaction {
    match b.data {
        Some(IpsetData { addr: Some(addr), timeout, .. }) => match ipset_position(
            k.ipsets,
            b.name,
        ) {
            None => refuse(k, m, echo, KERNEL_ENOENT),
            Some(i) => {
                let set = k.ipsets[i];
                if addr.width() != proto_width(set.family) {
                    refuse(
                        k,
                        m,
                        echo,
                        if set.family == NFPROTO_IPV4 {
                            IPSET_ERR_IPADDR_IPV4
                        } else {
                            IPSET_ERR_IPADDR_IPV6
                        },
                    )
                } else if m.kind == IPSET_CMD_ADD {
                    if has_member(set.members, addr) {
                        refuse(k, m, echo, IPSET_ERR_EXIST)
                    } else {
                        accept(
                            KernelView {
                                ipsets: k.ipsets.update(
                                    i,
                                    IpsetRecord {
                                        members: set.members.push(IpEntry { addr, timeout }),
                                        ..set
                                    },
                                ),
                                ..k
                            },
                            m,
                            echo,
                        )
                    }
                } else if !has_member(set.members, addr) {
                    refuse(k, m, echo, IPSET_ERR_EXIST)
                } else if m.kind == IPSET_CMD_DEL {
                    accept(
                        KernelView {
                            ipsets: k.ipsets.update(
                                i,
                                IpsetRecord { members: without(set.members, addr), ..set },
                            ),
                            ..k
                        },
                        m,
                        echo,
                    )
                } else {
                    accept(k, m, echo)
                }
            },
        },
        _ => refuse(k, m, echo, IPSET_ERR_PROTOCOL),
    }
}

/// How the kernel reacts to the ipset request that creates a set.
#[verifier::opaque]
pub open spec fn react_create(
    k: KernelView,
    m: MessageView,
    b: IpsetBody<Seq<u8>, Seq<IpEntry>>,
    echo: Echo,
) -> Reaction {
    match (b.second, b.set_family) {
        (Some(set_type), Some(family)) => if set_type != hash_ip() && set_type != hash_net() {
            refuse(k, m, echo, IPSET_ERR_PROTOCOL)
        } else if family != NFPROTO_IPV4 && family != NFPROTO_IPV6 {
            refuse(k, m, echo, IPSET_ERR_INVALID_FAMILY)
        } else if ipset_position(k.ipsets, b.name) is Some {
            refuse(k, m, echo, KERNEL_EEXIST)
        } else {
            accept(
                KernelView {
                    ipsets: k.ipsets.push(
                        IpsetRecord {
                            name: b.name,
                            set_type,
                            family,
                            timeout: match b.data {
                                Some(d) => d.timeout,
                                None => None,
                            },
                            members: Seq::empty(),
                        },
                    ),
                    ..k
                },
                m,
                echo,
            )
        },
        _ => refuse(k, m, echo, IPSET_ERR_PROTOCOL),
    }
}

/// How the kernel reacts to an ipset request that names two sets.
#[verifier::opaque]
pub open spec fn react_pair(
    k: KernelView,
    m: MessageView,
    b: IpsetBody<Seq<u8>, Seq<IpEntry>>,
    echo: Echo,
) -> Reaction {
    match b.second {
        None => refuse(k, m, echo, IPSET_ERR_PROTOCOL),
        Some(second) => match ipset_position(k.ipsets, b.name) {
            None => refuse(k, m, echo, KERNEL_ENOENT),
            Some(i) => {
                let from = k.ipsets[i];
                if m.kind == IPSET_CMD_RENAME {
                    if ipset_position(k.ipsets, second) is Some {
                        refuse(k, m, echo, IPSET_ERR_EXIST_SETNAME2)
                    } else {
                        accept(
                            KernelView {
                                ipsets: k.ipsets.update(i, IpsetRecord { name: second, ..from }),
                                ..k
                            },
                            m,
                            echo,
                        )
                    }
                } else {
                    match ipset_position(k.ipsets, second) {
                        None => refuse(k, m, echo, KERNEL_ENOENT),
                        Some(j) => {
                            let to = k.ipsets[j];
                            if from.family != to.family || from.set_type != to.set_type {
                                refuse(k, m, echo, IPSET_ERR_TYPE_MISMATCH)
                            } else {
                                accept(
                                    KernelView {
                                        ipsets: k.ipsets.update(
                                            i,
                                            IpsetRecord { name: from.name, ..to },
                                        ).update(j, IpsetRecord { name: to.name, ..from }),
                                        ..k
                                    },
                                    m,
                                    echo,
                                )
                            }
                        },
                    }
                }
            },
        },
    }
}

/// How the kernel reacts to an ipset request.
#[verifier::opaque]
pub open spec fn react_ipset(
    k: KernelView,
    m: MessageView,
    b: IpsetBody<Seq<u8>, Seq<IpEntry>>,
    echo: Echo,
) -> Reaction {
    if b.protocol != IPSET_PROTOCOL {
        refuse(k, m, echo, IPSET_ERR_PROTOCOL)
    } else if m.kind == IPSET_CMD_CREATE {
        react_create(k, m, b, echo)
    } else if m.kind == IPSET_CMD_ADD || m.kind == IPSET_CMD_DEL || m.kind == IPSET_CMD_TEST {
        react_member(k, m, b, echo)
    } else if m.kind == IPSET_CMD_RENAME || m.kind == IPSET_CMD_SWAP {
        react_pair(k, m, b, echo)
    } else if m.kind == IPSET_CMD_DESTROY || m.kind == IPSET_CMD_FLUSH || m.kind
        == IPSET_CMD_LIST {
        match ipset_position(k.ipsets, b.name) {
            None => refuse(k, m, echo, KERNEL_ENOENT),
            Some(i) => if m.kind == IPSET_CMD_DESTROY {
                accept(KernelView { ipsets: k.ipsets.remove(i), ..k }, m, echo)
            } else if m.kind == IPSET_CMD_FLUSH {
                accept(
                    KernelView {
                        ipsets: k.ipsets.update(
                            i,
                            IpsetRecord { members: Seq::empty(), ..k.ipsets[i] },
                        ),
                        ..k
                    },
                    m,
                    echo,
                )
            } else {
                (k, ipset_listing(m, k.ipsets[i]))
            },
        }
    } else {
        refuse(k, m, echo, IPSET_ERR_PROTOCOL)
    }
}

/// Whether nftables has tables of the family `family`.
pub open spec fn nft_family(family: u8) -> bool {
    family == NFPROTO_INET || family == NFPROTO_IPV4 || family == NFPROTO_IPV6
}

/// How the kernel reacts to an nftables table request.
#[verifier::opaque]
pub open spec fn react_table(
    k: KernelView,
    m: MessageView,
    family: u8,
    name: Option<Seq<u8>>,
    echo: Echo,
) -> Reaction {
    if !nft_family(family) {
        refuse(k, m, echo, KERNEL_EAFNOSUPPORT)
    } else if m.kind == NFT_MSG_GETTABLE {
        (k, table_parts(m, k.tables, family).push(done(m)))
    } else {
        match name {
            None => refuse(k, m, echo, KERNEL_EINVAL),
            Some(name) => match table_position(k.tables, family, name) {
                None => if m.kind == NFT_MSG_NEWTABLE {
                    accept(
                        KernelView {
                            tables: k.tables.push(
                                NftTableRecord { family, name, sets: Seq::empty() },
                            ),
                            ..k
                        },
                        m,
                        echo,
                    )
                } else {
                    refuse(k, m, echo, KERNEL_ENOENT)
                },
                Some(i) => if m.kind == NFT_MSG_NEWTABLE {
                    refuse(k, m, echo, KERNEL_EEXIST)
                } else if k.tables[i].sets.len() > 0 {
                    refuse(k, m, echo, KERNEL_EBUSY)
                } else {
                    accept(KernelView { tables: k.tables.remove(i), ..k }, m, echo)
                },
            },
        }
    }
}

/// The kernel with the sets of the table at `i` replaced by `sets`.
pub open spec fn with_sets(k: KernelView, i: int, sets: Seq<NftSetView>) -> KernelView {
    KernelView { tables: k.tables.update(i, NftTableRecord { sets, ..k.tables[i] }), ..k }
}

/// How the kernel reacts to an nftables set request.
///
/// The table is looked up first, then the set: a request for a new set
/// whose name the table holds is answered with `EEXIST`, whatever else the
/// request says. Only a request for a set that is not there is read
/// further. That it is then refused with `EINVAL` where it names no key, or
/// keys that are not 4 or 16 octets wide, is a choice of this model, which
/// holds sets of addresses only; the family of the table has no say in it.
#[verifier::opaque]
pub open spec fn react_set(
    k: KernelView,
    m: MessageView,
    family: u8,
    table: Seq<u8>,
    name: Seq<u8>,
    shape: Option<SetShape>,
    echo: Echo,
) -> Reaction {
    if !nft_family(family) {
        refuse(k, m, echo, KERNEL_EAFNOSUPPORT)
    } else {
        match table_position(k.tables, family, table) {
            None => refuse(k, m, echo, KERNEL_ENOENT),
            Some(i) => {
                let sets = k.tables[i].sets;
                if m.kind == NFT_MSG_NEWSET {
                    if set_position(sets, name) is Some {
                        refuse(k, m, echo, KERNEL_EEXIST)
                    } else {
                        match shape {
                            None => refuse(k, m, echo, KERNEL_EINVAL),
                            Some(shape) => if shape.key_len != 4 && shape.key_len != 16 {
                                refuse(k, m, echo, KERNEL_EINVAL)
                            } else {
                                accept(
                                    with_sets(
                                        k,
                                        i,
                                        sets.push(
                                            NftSetRecord { name, shape, members: Seq::empty() },
                                        ),
                                    ),
                                    m,
                                    echo,
                                )
                            },
                        }
                    }
                } else if m.kind == NFT_MSG_DELSET {
                    match set_position(sets, name) {
                        None => refuse(k, m, echo, KERNEL_ENOENT),
                        Some(j) => accept(with_sets(k, i, sets.remove(j)), m, echo),
                    }
                } else {
                    refuse(k, m, echo, KERNEL_EOPNOTSUPP)
                }
            },
        }
    }
}

/// The kernel with the members of the set at `j` of the table at `i`
/// replaced by `members`.
pub open spec fn with_members(k: KernelView, i: int, j: int, members: Seq<IpEntry>) -> KernelView {
    let sets = k.tables[i].sets;
    with_sets(k, i, sets.update(j, NftSetRecord { members, ..sets[j] }))
}

/// How the kernel reacts to an nftables element request.
#[verifier::opaque]
pub open spec fn react_elements(
    k: KernelView,
    m: MessageView,
    family: u8,
    table: Seq<u8>,
    name: Seq<u8>,
    elements: Seq<IpEntry>,
    echo: Echo,
) -> Reaction {
    if !nft_family(family) {
        refuse(k, m, echo, KERNEL_EAFNOSUPPORT)
    } else {
        match table_position(k.tables, family, table) {
            None => refuse(k, m, echo, KERNEL_ENOENT),
            Some(i) => match set_position(k.tables[i].sets, name) {
                None => refuse(k, m, echo, KERNEL_ENOENT),
                Some(j) => {
                    let set = k.tables[i].sets[j];
                    if m.kind == NFT_MSG_GETSETELEM && m.flags == FLAGS_DUMP {
                        (k, elements_listing(m, family, table, set))
                    } else if !all_width(elements, set.shape.key_len as nat) {
                        refuse(k, m, echo, KERNEL_EAFNOSUPPORT)
                    } else if m.kind == NFT_MSG_NEWSETELEM {
                        accept(with_members(k, i, j, add_all(set.members, elements)), m, echo)
                    } else if m.kind == NFT_MSG_DELSETELEM {
                        if !all_present(set.members, elements) {
                            refuse(k, m, echo, KERNEL_ENOENT)
                        } else {
                            accept(
                                with_members(k, i, j, remove_all(set.members, elements)),
                                m,
                                echo,
                            )
                        }
                    } else {
                        let found = present(set.members, elements);
                        if found.len() > 0 {
                            (
                                k,
                                seq![
                                    elements_part(m, family, table, name, found),
                                    status(m, echo, 0),
                                ],
                            )
                        } else {
                            accept(k, m, echo)
                        }
                    }
                },
            },
        }
    }
}

/// How the kernel reacts to a message: its state afterwards, and its
/// answer. `echo` is the header of the message as it came over the wire.
/// Messages that are no requests get no answer. A request that could not
/// have been put on the wire by this library, because of a name that is
/// too long, is refused.
#[verifier::opaque]
pub open spec fn react(k: KernelView, m: MessageView, echo: Echo) -> Reaction {
    match m.body {
        Body::Ipset(b) => if m.wf() {
            react_ipset(k, m, b, echo)
        } else {
            refuse(k, m, echo, IPSET_ERR_PROTOCOL)
        },
        Body::NftTable { .. } | Body::NftSet { .. } | Body::NftElements { .. } => if m.wf() {
            react_nft(k, m, echo)
        } else {
            refuse(k, m, echo, KERNEL_EINVAL)
        },
        _ => (k, Seq::empty()),
    }
}

/// How the kernel reacts to an nftables request that is well formed.
#[verifier::opaque]
pub open spec fn react_nft(k: KernelView, m: MessageView, echo: Echo) -> Reaction {
    match m.body {
        Body::NftTable { family, name } => react_table(k, m, family, name, echo),
        Body::NftSet { family, table, name, shape } => react_set(
            k,
            m,
            family,
            table,
            name,
            shape,
            echo,
        ),
        Body::NftElements { family, table, set, elements } => react_elements(
            k,
            m,
            family,
            table,
            set,
            elements,
            echo,
        ),
        _ => (k, Seq::empty()),
    }
}

/// The header of a netlink message as the kernel echoes it.
pub open spec fn echo_of(p: PacketView) -> Echo {
    Echo {
        length: (HEADER_LEN + p.payload.len()) as u32,
        kind: p.kind,
        flags: p.flags,
        sequence: p.sequence,
        port: p.port,
    }
}

/// How the kernel reacts to one netlink message: as [`react`] says if the
/// message can be decoded, else it refuses it as invalid.
pub open spec fn serve_one(k: KernelView, p: PacketView) -> Reaction {
    match message_of(p) {
        Some(m) => react(k, m, echo_of(p)),
        None => (
            k,
            seq![
                Message {
                    kind: NLMSG_ERROR,
                    flags: 0,
                    sequence: p.sequence,
                    port: p.port,
                    body: Body::Status { code: KERNEL_EINVAL, request: echo_of(p) },
                },
            ],
        ),
    }
}

/// How the kernel reacts to the messages of a datagram, one after the
/// other.
pub open spec fn serve(k: KernelView, packets: Seq<PacketView>) -> Reaction
    decreases packets.len(),
{
    if packets.len() == 0 {
        (k, Seq::empty())
    } else {
        let first = serve_one(k, packets[0]);
        let rest = serve(first.0, packets.drop_first());
        (rest.0, first.1 + rest.1)
    }
}

/// The octets of some messages, one datagram each.
pub open spec fn datagrams(messages: Seq<MessageView>) -> Seq<Seq<u8>> {
    Seq::new(messages.len(), |i: int| message_bytes(messages[i]))
}

/// How the kernel reacts to a datagram: its state afterwards, and the
/// datagrams it sends back, one for each message of its answer. A datagram
/// that cannot be taken apart is dropped.
pub open spec fn transmit_spec(k: KernelView, datagram: Seq<u8>) -> (KernelView, Seq<Seq<u8>>) {
    match split_spec(datagram) {
        None => (k, Seq::empty()),
        Some(packets) => {
            let reaction = serve(k, packets);
            (reaction.0, datagrams(reaction.1))
        },
    }
}

impl KernelView {
    /// Whether every name that the kernel holds is a name that fits a
    /// message.
    pub open spec fn wf(self) -> bool {
        &&& forall|i: int|
            0 <= i < self.ipsets.len() ==> valid_name(
                (#[trigger] self.ipsets[i]).name,
                IPSET_MAX_NAME as int,
            )
        &&& forall|i: int|
            0 <= i < self.tables.len() ==> valid_name(
                (#[trigger] self.tables[i]).name,
                NFT_MAX_NAME as int,
            )
        &&& forall|i: int, j: int|
            0 <= i < self.tables.len() && 0 <= j < self.tables[i].sets.len() ==> valid_name(
                (#[trigger] self.tables[i].sets[j]).name,
                NFT_MAX_NAME as int,
            )
    }

    /// Whether the kernel is as requests leave it: its names fit a
    /// message, and it is coherent. The kernel that holds nothing is sound,
    /// and [`react`] keeps a sound kernel sound.
    pub open spec fn sound(self) -> bool {
        self.wf() && self.coherent()
    }

    /// Whether the members of every set fit the set: no set holds an
    /// address twice, and every member has the width of its set.
    pub open spec fn fitting(self) -> bool {
        &&& forall|i: int|
            0 <= i < self.ipsets.len() ==> {
                &&& distinct((#[trigger] self.ipsets[i]).members)
                &&& all_width(self.ipsets[i].members, proto_width(self.ipsets[i].family))
            }
        &&& forall|i: int, j: int|
            0 <= i < self.tables.len() && 0 <= j < self.tables[i].sets.len() ==> {
                &&& distinct((#[trigger] self.tables[i].sets[j]).members)
                &&& all_width(
                    self.tables[i].sets[j].members,
                    self.tables[i].sets[j].shape.key_len as nat,
                )
            }
    }

    /// Whether every name stands for one object: no two ipset sets have
    /// one name, no two tables of one family have one name, and no two sets
    /// of one table have one name.
    pub open spec fn unique(self) -> bool {
        &&& ipset_names_unique(self.ipsets)
        &&& table_names_unique(self.tables)
        &&& forall|i: int|
            0 <= i < self.tables.len() ==> set_names_unique((#[trigger] self.tables[i]).sets)
    }

    /// Whether what the kernel holds fits together: the members of every
    /// set fit the set, and every name stands for one object.
    pub open spec fn coherent(self) -> bool {
        self.fitting() && self.unique()
    }
}

} // verus!
