//! What each operation means for a kernel, said without messages.
//!
//! [`meaning`] gives, for a kernel and an operation, the kernel afterwards
//! and the result: which sets and members there are, and which error an
//! operation that cannot be carried out fails with. The theorems of
//! [`crate::refinement`] show that running the operation through the
//! protocol against the reference kernel comes to exactly this.

use vstd::prelude::*;
use vstd::utf8::{decode_utf8, encode_utf8, valid_utf8};
use crate::entry::{IpEntry, IpSetCreateOptions};
use crate::error::{
    describe,
    ErrorView,
    IPSET_ERR_TYPE_MISMATCH,
    KERNEL_EBUSY,
};
use crate::fields::valid_name;
use crate::kernel::{proto_width, with_members, with_sets, KernelView};
use crate::message::{IPSET_MAX_NAME, NFT_MAX_NAME};
use crate::operation::{Operation, OutcomeView};
use crate::reply::addresses;
use crate::request::{ipset_proto, nft_proto, set_type_octets, shape_of_options};
use crate::store::{
    add_one,
    has_member,
    ipset_position,
    set_position,
    table_position,
    without,
    IpsetRecord,
    NftSetRecord,
    NftTableRecord,
    NftTableView,
};

verus! {

/// A kernel afterwards and the result of an operation.
pub type Effect = (KernelView, Result<OutcomeView, ErrorView>);

/// The operation fails with `e` and the kernel stays as it is.
pub open spec fn fails(k: KernelView, e: ErrorView) -> Effect {
    (k, Err(e))
}

/// The operation is done and the kernel is `k` afterwards.
pub open spec fn succeeds(k: KernelView) -> Effect {
    (k, Ok(OutcomeView::Done))
}

/// The kernel with the ipset set at `i` replaced by `set`.
pub open spec fn with_ipset(
    k: KernelView,
    i: int,
    set: IpsetRecord<Seq<u8>, Seq<IpEntry>>,
) -> KernelView {
    KernelView { ipsets: k.ipsets.update(i, set), ..k }
}

/// What an ipset operation on the member `entry` of the set `name` means.
///
/// The set must exist and be of the family of the address. Adding a member
/// that is there fails, as does deleting one that is not; a test says
/// whether it is there.
pub open spec fn ipset_member_meaning(
    k: KernelView,
    op: Operation<Seq<char>>,
    name: Seq<char>,
    entry: IpEntry,
) -> Effect {
    let octets = encode_utf8(name);
    if !valid_name(octets, IPSET_MAX_NAME as int) {
        fails(k, ErrorView::Malformed)
    } else {
        match ipset_position(k.ipsets, octets) {
            None => fails(k, ErrorView::NotFound),
            Some(i) => {
                let set = k.ipsets[i];
                let there = has_member(set.members, entry.addr);
                if entry.addr.width() != proto_width(set.family) {
                    fails(k, ErrorView::FamilyMismatch)
                } else if op is IpsetAdd {
                    if there {
                        fails(k, ErrorView::AlreadyExists)
                    } else {
                        succeeds(
                            with_ipset(
                                k,
                                i,
                                IpsetRecord { members: set.members.push(entry), ..set },
                            ),
                        )
                    }
                } else if op is IpsetDel {
                    if !there {
                        fails(k, ErrorView::NotFound)
                    } else {
                        succeeds(
                            with_ipset(
                                k,
                                i,
                                IpsetRecord { members: without(set.members, entry.addr), ..set },
                            ),
                        )
                    }
                } else {
                    (k, Ok(OutcomeView::Member(there)))
                }
            },
        }
    }
}

/// What creating the ipset set `name` means: the kernel holds one more set,
/// without members, unless it holds a set of that name already.
pub open spec fn ipset_create_meaning(
    k: KernelView,
    name: Seq<char>,
    options: IpSetCreateOptions,
) -> Effect {
    let octets = encode_utf8(name);
    if !valid_name(octets, IPSET_MAX_NAME as int) {
        fails(k, ErrorView::Malformed)
    } else if ipset_position(k.ipsets, octets) is Some {
        fails(k, ErrorView::AlreadyExists)
    } else {
        succeeds(
            KernelView {
                ipsets: k.ipsets.push(
                    IpsetRecord {
                        name: octets,
                        set_type: set_type_octets(options.set_type),
                        family: ipset_proto(options.family),
                        timeout: options.timeout,
                        members: Seq::empty(),
                    },
                ),
                ..k
            },
        )
    }
}

/// What an ipset operation on the set `name` alone means: destroying it
/// takes it out of the kernel, flushing it leaves it without members,
/// listing it gives the addresses of its members in the order they were
/// added.
pub open spec fn ipset_plain_meaning(
    k: KernelView,
    op: Operation<Seq<char>>,
    name: Seq<char>,
) -> Effect {
    let octets = encode_utf8(name);
    if !valid_name(octets, IPSET_MAX_NAME as int) {
        fails(k, ErrorView::Malformed)
    } else {
        match ipset_position(k.ipsets, octets) {
            None => fails(k, ErrorView::NotFound),
            Some(i) => if op is IpsetDestroy {
                succeeds(KernelView { ipsets: k.ipsets.remove(i), ..k })
            } else if op is IpsetFlush {
                succeeds(with_ipset(k, i, IpsetRecord { members: Seq::empty(), ..k.ipsets[i] }))
            } else {
                (k, Ok(OutcomeView::Entries(addresses(k.ipsets[i].members))))
            },
        }
    }
}

/// What renaming or swapping ipset sets means. The first set must exist.
/// A rename fails if the new name is taken. A swap needs the second set
/// too, of the same type and family, and exchanges what the two names
/// stand for.
pub open spec fn ipset_pair_meaning(
    k: KernelView,
    op: Operation<Seq<char>>,
    from: Seq<char>,
    to: Seq<char>,
) -> Effect {
    let first = encode_utf8(from);
    let second = encode_utf8(to);
    if !valid_name(first, IPSET_MAX_NAME as int) || !valid_name(second, IPSET_MAX_NAME as int) {
        fails(k, ErrorView::Malformed)
    } else {
        match ipset_position(k.ipsets, first) {
            None => fails(k, ErrorView::NotFound),
            Some(i) => if op is IpsetRename {
                if ipset_position(k.ipsets, second) is Some {
                    fails(k, ErrorView::AlreadyExists)
                } else {
                    succeeds(with_ipset(k, i, IpsetRecord { name: second, ..k.ipsets[i] }))
                }
            } else {
                match ipset_position(k.ipsets, second) {
                    None => fails(k, ErrorView::NotFound),
                    Some(j) => {
                        let a = k.ipsets[i];
                        let b = k.ipsets[j];
                        if a.family != b.family || a.set_type != b.set_type {
                            fails(
                                k,
                                ErrorView::ProtocolError(
                                    IPSET_ERR_TYPE_MISMATCH,
                                    describe(IPSET_ERR_TYPE_MISMATCH),
                                ),
                            )
                        } else {
                            succeeds(
                                KernelView {
                                    ipsets: k.ipsets.update(
                                        i,
                                        IpsetRecord { name: a.name, ..b },
                                    ).update(j, IpsetRecord { name: b.name, ..a }),
                                    ..k
                                },
                            )
                        }
                    },
                }
            },
        }
    }
}

/// The names of the tables of the family `proto`, in order. `None` if one
/// of them is not UTF-8.
pub open spec fn table_names_of(tables: Seq<NftTableView>, proto: u8) -> Option<Seq<Seq<char>>>
    decreases tables.len(),
{
    if tables.len() == 0 {
        Some(Seq::empty())
    } else {
        match table_names_of(tables.drop_last(), proto) {
            None => None,
            Some(front) => if tables.last().family != proto {
                Some(front)
            } else if valid_utf8(tables.last().name) {
                Some(front.push(decode_utf8(tables.last().name)))
            } else {
                None
            },
        }
    }
}

/// What an nftables operation on the table `table` means, for a family
/// that nftables has and a name that is a name. Creating a table that is
/// there fails; deleting one that is not, or that holds sets, fails.
pub open spec fn nft_table_meaning(
    k: KernelView,
    op: Operation<Seq<char>>,
    proto: u8,
    table: Seq<u8>,
) -> Effect {
    match table_position(k.tables, proto, table) {
        None => if op is NftCreateTable {
            succeeds(
                KernelView {
                    tables: k.tables.push(
                        NftTableRecord { family: proto, name: table, sets: Seq::empty() },
                    ),
                    ..k
                },
            )
        } else {
            fails(k, ErrorView::NotFound)
        },
        Some(i) => if op is NftCreateTable {
            fails(k, ErrorView::AlreadyExists)
        } else if k.tables[i].sets.len() > 0 {
            fails(k, ErrorView::ProtocolError(KERNEL_EBUSY, describe(KERNEL_EBUSY)))
        } else {
            succeeds(KernelView { tables: k.tables.remove(i), ..k })
        },
    }
}

/// What an nftables operation on the set `name` of the table `table`
/// means, for a family that nftables has and names that are names. The
/// table must exist, and for everything but creating the set, the set.
/// Creating a set that is there fails with [`ErrorView::AlreadyExists`],
/// whatever kind of set is asked for.
pub open spec fn nft_set_meaning(
    k: KernelView,
    op: Operation<Seq<char>>,
    proto: u8,
    table: Seq<u8>,
    name: Seq<u8>,
) -> Effect {
    match table_position(k.tables, proto, table) {
        None => fails(k, ErrorView::NotFound),
        Some(i) => {
            let sets = k.tables[i].sets;
            match set_position(sets, name) {
                None => match op {
                    Operation::NftCreateSet { options, .. } => succeeds(
                        with_sets(
                            k,
                            i,
                            sets.push(
                                NftSetRecord {
                                    name,
                                    shape: shape_of_options(options),
                                    members: Seq::empty(),
                                },
                            ),
                        ),
                    ),
                    _ => fails(k, ErrorView::NotFound),
                },
                Some(j) => {
                    let set = sets[j];
                    match op {
                        Operation::NftCreateSet { .. } => fails(k, ErrorView::AlreadyExists),
                        Operation::NftDeleteSet { .. } => succeeds(
                            with_sets(k, i, sets.remove(j)),
                        ),
                        Operation::NftList { .. } => (
                            k,
                            Ok(OutcomeView::Entries(addresses(set.members))),
                        ),
                        Operation::NftFlush { .. } => succeeds(
                            with_members(k, i, j, Seq::empty()),
                        ),
                        Operation::NftAdd { entry, .. } => if entry.addr.width()
                            != set.shape.key_len {
                            fails(k, ErrorView::FamilyMismatch)
                        } else {
                            succeeds(with_members(k, i, j, add_one(set.members, entry)))
                        },
                        Operation::NftDel { entry, .. } => if entry.addr.width()
                            != set.shape.key_len {
                            fails(k, ErrorView::FamilyMismatch)
                        } else if !has_member(set.members, entry.addr) {
                            fails(k, ErrorView::NotFound)
                        } else {
                            succeeds(with_members(k, i, j, without(set.members, entry.addr)))
                        },
                        Operation::NftTest { entry, .. } => if entry.addr.width()
                            != set.shape.key_len {
                            fails(k, ErrorView::FamilyMismatch)
                        } else {
                            (k, Ok(OutcomeView::Member(has_member(set.members, entry.addr))))
                        },
                        _ => fails(k, ErrorView::Unsupported),
                    }
                },
            }
        },
    }
}

/// What an nftables operation means once its family token is read: the
/// names must be names. The family says where the table is looked up; the
/// width of an address is held against the keys of the set, not against the
/// family.
pub open spec fn nft_meaning(k: KernelView, op: Operation<Seq<char>>, proto: u8) -> Effect {
    match op {
        Operation::NftCreateTable { table, .. } | Operation::NftDeleteTable { table, .. } => {
            let table = encode_utf8(table);
            if !valid_name(table, NFT_MAX_NAME as int) {
                fails(k, ErrorView::Malformed)
            } else {
                nft_table_meaning(k, op, proto, table)
            }
        },
        Operation::NftListTables { .. } => match table_names_of(k.tables, proto) {
            Some(names) => (k, Ok(OutcomeView::Tables(names))),
            None => fails(k, ErrorView::Malformed),
        },
        Operation::NftCreateSet { table, name, .. }
        | Operation::NftDeleteSet { table, name, .. }
        | Operation::NftFlush { table, name, .. }
        | Operation::NftAdd { table, name, .. }
        | Operation::NftDel { table, name, .. }
        | Operation::NftTest { table, name, .. }
        | Operation::NftList { table, name, .. } => {
            let table = encode_utf8(table);
            let name = encode_utf8(name);
            if !valid_name(table, NFT_MAX_NAME as int) || !valid_name(name, NFT_MAX_NAME as int) {
                fails(k, ErrorView::Malformed)
            } else {
                nft_set_meaning(k, op, proto, table, name)
            }
        },
        _ => fails(k, ErrorView::Unsupported),
    }
}

/// What an operation means for the kernel `k`: the kernel afterwards, and
/// the result.
///
/// An operation that fails leaves the kernel as it is. Rename and swap on
/// nftables are not supported, whatever their arguments; an nftables
/// operation with a family token other than `inet`, `ip` and `ip6` is not
/// supported either.
pub open spec fn meaning(k: KernelView, op: Operation<Seq<char>>) -> Effect {
    match op {
        Operation::IpsetCreate { name, options } => ipset_create_meaning(k, name, options),
        Operation::IpsetDestroy { name }
        | Operation::IpsetFlush { name }
        | Operation::IpsetList { name } => ipset_plain_meaning(k, op, name),
        Operation::IpsetRename { from, to } | Operation::IpsetSwap { from, to } => {
            ipset_pair_meaning(k, op, from, to)
        },
        Operation::IpsetAdd { name, entry }
        | Operation::IpsetDel { name, entry }
        | Operation::IpsetTest { name, entry } => ipset_member_meaning(k, op, name, entry),
        Operation::NftRename { .. } | Operation::NftSwap { .. } => fails(
            k,
            ErrorView::Unsupported,
        ),
        Operation::NftCreateTable { family, .. }
        | Operation::NftDeleteTable { family, .. }
        | Operation::NftListTables { family }
        | Operation::NftCreateSet { family, .. }
        | Operation::NftDeleteSet { family, .. }
        | Operation::NftFlush { family, .. }
        | Operation::NftAdd { family, .. }
        | Operation::NftDel { family, .. }
        | Operation::NftTest { family, .. }
        | Operation::NftList { family, .. } => match nft_proto(family) {
            None => fails(k, ErrorView::Unsupported),
            Some(proto) => nft_meaning(k, op, proto),
        },
    }
}

} // verus!
