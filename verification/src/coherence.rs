//! A kernel that fits together stays so.
//!
//! [`KernelView::coherent`] holds of the kernel that holds nothing. The
//! reference kernel keeps it whatever message it reacts to, and what an
//! operation means keeps it too.

use vstd::prelude::*;
use vstd::utf8::encode_utf8;
use crate::entry::{IpAddress, IpEntry};
use crate::codec::message_of;
use crate::frame::PacketView;
use crate::kernel::{
    echo_of,
    proto_width,
    react,
    react_create,
    react_elements,
    react_ipset,
    react_member,
    react_nft,
    react_pair,
    react_set,
    react_table,
    serve,
    serve_one,
    with_members,
    with_sets,
    KernelView,
};
use crate::message::{Body, Echo, IpsetBody, MessageView, SetShape};
use crate::meaning::{meaning, nft_meaning, with_ipset};
use crate::operation::Operation;
use crate::request::{nft_proto, shape_of_options};
use crate::store::{
    lemma_ipset_unique_push,
    lemma_ipset_unique_remove,
    lemma_ipset_unique_update,
    lemma_set_unique_push,
    lemma_set_unique_remove,
    lemma_set_unique_update,
    lemma_table_unique_push,
    lemma_table_unique_remove,
    lemma_table_unique_update,
    set_names_unique,
    NftTableRecord,
    NftTableView,
    add_all,
    remove_all,
    add_one,
    all_width,
    distinct,
    has_member,
    ipset_position,
    lemma_ipset_position,
    lemma_set_position,
    lemma_table_position,
    set_position,
    table_position,
    without,
    IpsetRecord,
    IpsetView,
    NftSetRecord,
    NftSetView,
};

verus! {

/// Members that a member was taken out of are still distinct and of one
/// width, and each of them was a member before.
pub proof fn lemma_without_keeps(members: Seq<IpEntry>, addr: IpAddress, width: nat)
    requires
        distinct(members),
        all_width(members, width),
    ensures
        distinct(without(members, addr)),
        all_width(without(members, addr), width),
        forall|i: int|
            0 <= i < without(members, addr).len() ==> has_member(
                members,
                (#[trigger] without(members, addr)[i]).addr,
            ),
    decreases members.len(),
{
    if members.len() > 0 {
        let front = members.drop_last();
        let last = members.last();
        assert forall|i: int, j: int| 0 <= i < j < front.len() implies (#[trigger] front[i]).addr != (
        #[trigger] front[j]).addr by {
            assert(front[i] == members[i]);
            assert(front[j] == members[j]);
        }
        assert forall|i: int| 0 <= i < front.len() implies (#[trigger] front[i]).addr.width()
            == width by {
            assert(front[i] == members[i]);
        }
        lemma_without_keeps(front, addr, width);
        let kept = without(front, addr);
        let out = without(members, addr);
        assert forall|i: int| 0 <= i < out.len() implies has_member(
            members,
            (#[trigger] out[i]).addr,
        ) by {
            if i < kept.len() {
                assert(out[i] == kept[i]);
                assert(has_member(front, kept[i].addr));
                let p = choose|p: int| 0 <= p < front.len() && (#[trigger] front[p]).addr
                    == kept[i].addr;
                assert(members[p].addr == kept[i].addr);
            } else {
                assert(out[i] == last);
                assert(members[members.len() - 1].addr == last.addr);
            }
        }
        if last.addr != addr {
            assert forall|i: int, j: int| 0 <= i < j < out.len() implies (#[trigger] out[i]).addr
                != (#[trigger] out[j]).addr by {
                if j < kept.len() {
                    assert(out[i] == kept[i]);
                    assert(out[j] == kept[j]);
                } else {
                    assert(out[i] == kept[i]);
                    assert(has_member(front, kept[i].addr));
                    let p = choose|p: int| 0 <= p < front.len() && (#[trigger] front[p]).addr
                        == kept[i].addr;
                    assert(members[p].addr == kept[i].addr);
                    assert(members[members.len() - 1] == last);
                }
            }
            assert forall|i: int| 0 <= i < out.len() implies (#[trigger] out[i]).addr.width()
                == width by {
                if i < kept.len() {
                    assert(out[i] == kept[i]);
                } else {
                    assert(members[members.len() - 1] == last);
                }
            }
        }
    }
}

/// Members that got a member they did not hold are still distinct and of
/// one width, if the new member is of that width.
pub proof fn lemma_add_keeps(members: Seq<IpEntry>, e: IpEntry, width: nat)
    requires
        distinct(members),
        all_width(members, width),
        e.addr.width() == width,
    ensures
        distinct(add_one(members, e)),
        all_width(add_one(members, e), width),
        !has_member(members, e.addr) ==> distinct(members.push(e)) && all_width(
            members.push(e),
            width,
        ),
{
    if !has_member(members, e.addr) {
        let out = members.push(e);
        assert forall|i: int, j: int| 0 <= i < j < out.len() implies (#[trigger] out[i]).addr != (
        #[trigger] out[j]).addr by {
            assert(out[i] == members[i]);
            if j < members.len() {
                assert(out[j] == members[j]);
            }
        }
        assert forall|i: int| 0 <= i < out.len() implies (#[trigger] out[i]).addr.width()
            == width by {
            if i < members.len() {
                assert(out[i] == members[i]);
            }
        }
    }
}

/// Whether an ipset set holds no address twice and only addresses of its
/// family.
pub open spec fn ipset_fits(set: IpsetView) -> bool {
    distinct(set.members) && all_width(set.members, proto_width(set.family))
}

/// Whether a set holds no address twice and only addresses of its width.
pub open spec fn set_fits(set: NftSetView) -> bool {
    &&& distinct(set.members)
    &&& all_width(set.members, set.shape.key_len as nat)
}

/// What coherence says of one ipset set and of one nftables set.
pub proof fn lemma_fitting_fits(k: KernelView)
    requires
        k.fitting(),
    ensures
        forall|i: int| 0 <= i < k.ipsets.len() ==> ipset_fits(#[trigger] k.ipsets[i]),
        forall|i: int, j: int|
            0 <= i < k.tables.len() && 0 <= j < k.tables[i].sets.len() ==> set_fits(
                #[trigger] k.tables[i].sets[j],
            ),
{
}

/// A kernel all of whose sets fit is fitting.
pub proof fn lemma_fits_fitting(k: KernelView)
    requires
        forall|i: int| 0 <= i < k.ipsets.len() ==> ipset_fits(#[trigger] k.ipsets[i]),
        forall|i: int, j: int|
            0 <= i < k.tables.len() && 0 <= j < k.tables[i].sets.len() ==> set_fits(
                #[trigger] k.tables[i].sets[j],
            ),
    ensures
        k.fitting(),
{
}

/// A fitting kernel whose ipset set at `i` is replaced by one that fits
/// is fitting.
pub proof fn lemma_with_ipset_fitting(k: KernelView, i: int, set: IpsetView)
    requires
        k.fitting(),
        0 <= i < k.ipsets.len(),
        ipset_fits(set),
    ensures
        with_ipset(k, i, set).fitting(),
{
    let after = with_ipset(k, i, set);
    lemma_fitting_fits(k);
    assert forall|a: int| 0 <= a < after.ipsets.len() implies ipset_fits(
        #[trigger] after.ipsets[a],
    ) by {
        if a != i {
            assert(after.ipsets[a] == k.ipsets[a]);
        }
    }
    lemma_fits_fitting(after);
}

/// A fitting kernel whose table at `i` gets sets that fit is fitting.
pub proof fn lemma_with_sets_fitting(k: KernelView, i: int, sets: Seq<NftSetView>)
    requires
        k.fitting(),
        0 <= i < k.tables.len(),
        forall|j: int| 0 <= j < sets.len() ==> set_fits(#[trigger] sets[j]),
    ensures
        with_sets(k, i, sets).fitting(),
{
    let after = with_sets(k, i, sets);
    lemma_fitting_fits(k);
    assert forall|a: int, b: int|
        0 <= a < after.tables.len() && 0 <= b < after.tables[a].sets.len() implies set_fits(
            #[trigger] after.tables[a].sets[b],
        ) by {
        if a != i {
            assert(after.tables[a] == k.tables[a]);
            assert(set_fits(k.tables[a].sets[b]));
        } else {
            assert(after.tables[a].sets == sets);
        }
    }
    lemma_fits_fitting(after);
}

/// A fitting kernel whose set at `j` of the table at `i` gets members
/// that are distinct and of the width of the set is fitting.
pub proof fn lemma_with_members_fitting(k: KernelView, i: int, j: int, members: Seq<IpEntry>)
    requires
        k.fitting(),
        0 <= i < k.tables.len(),
        0 <= j < k.tables[i].sets.len(),
        distinct(members),
        all_width(members, k.tables[i].sets[j].shape.key_len as nat),
    ensures
        with_members(k, i, j, members).fitting(),
{
    let sets = k.tables[i].sets;
    let changed = sets.update(j, NftSetRecord { members, ..sets[j] });
    lemma_fitting_fits(k);
    assert forall|b: int| 0 <= b < changed.len() implies set_fits(#[trigger] changed[b]) by {
        assert(set_fits(k.tables[i].sets[b]));
        if b != j {
            assert(changed[b] == sets[b]);
        }
    }
    lemma_with_sets_fitting(k, i, changed);
}

/// An ipset operation keeps a fitting kernel fitting.
pub proof fn lemma_ipset_fitting(k: KernelView, op: Operation<Seq<char>>)
    requires
        k.fitting(),
        op is IpsetCreate || op is IpsetDestroy || op is IpsetFlush || op is IpsetRename || op
            is IpsetSwap || op is IpsetAdd || op is IpsetDel || op is IpsetTest || op is IpsetList,
    ensures
        meaning(k, op).0.fitting(),
{
    let after = meaning(k, op).0;
    lemma_fitting_fits(k);
    match op {
        Operation::IpsetCreate { name, options } => {
            if after != k {
                assert forall|a: int| 0 <= a < after.ipsets.len() implies ipset_fits(
                    #[trigger] after.ipsets[a],
                ) by {
                    if a < k.ipsets.len() {
                        assert(after.ipsets[a] == k.ipsets[a]);
                    }
                }
                lemma_fits_fitting(after);
            }
        },
        Operation::IpsetDestroy { name } => {
            let found = ipset_position(k.ipsets, encode_utf8(name));
            lemma_ipset_position(k.ipsets, encode_utf8(name));
            if after != k {
                let i = found->0;
                assert forall|a: int| 0 <= a < after.ipsets.len() implies ipset_fits(
                    #[trigger] after.ipsets[a],
                ) by {
                    if a < i {
                        assert(after.ipsets[a] == k.ipsets[a]);
                    } else {
                        assert(after.ipsets[a] == k.ipsets[a + 1]);
                    }
                }
                lemma_fits_fitting(after);
            }
        },
        Operation::IpsetFlush { name } => {
            let found = ipset_position(k.ipsets, encode_utf8(name));
            lemma_ipset_position(k.ipsets, encode_utf8(name));
            if after != k {
                let i = found->0;
                lemma_with_ipset_fitting(
                    k,
                    i,
                    IpsetRecord { members: Seq::empty(), ..k.ipsets[i] },
                );
            }
        },
        Operation::IpsetList { .. } => {},
        Operation::IpsetTest { .. } => {},
        Operation::IpsetAdd { name, entry } => {
            let found = ipset_position(k.ipsets, encode_utf8(name));
            lemma_ipset_position(k.ipsets, encode_utf8(name));
            if after != k {
                let i = found->0;
                let set = k.ipsets[i];
                lemma_add_keeps(set.members, entry, proto_width(set.family));
                lemma_with_ipset_fitting(
                    k,
                    i,
                    IpsetRecord { members: set.members.push(entry), ..set },
                );
            }
        },
        Operation::IpsetDel { name, entry } => {
            let found = ipset_position(k.ipsets, encode_utf8(name));
            lemma_ipset_position(k.ipsets, encode_utf8(name));
            if after != k {
                let i = found->0;
                let set = k.ipsets[i];
                lemma_without_keeps(set.members, entry.addr, proto_width(set.family));
                lemma_with_ipset_fitting(
                    k,
                    i,
                    IpsetRecord { members: without(set.members, entry.addr), ..set },
                );
            }
        },
        Operation::IpsetRename { from, to } => {
            let found = ipset_position(k.ipsets, encode_utf8(from));
            lemma_ipset_position(k.ipsets, encode_utf8(from));
            if after != k {
                let i = found->0;
                lemma_with_ipset_fitting(
                    k,
                    i,
                    IpsetRecord { name: encode_utf8(to), ..k.ipsets[i] },
                );
            }
        },
        Operation::IpsetSwap { from, to } => {
            let first = ipset_position(k.ipsets, encode_utf8(from));
            let second = ipset_position(k.ipsets, encode_utf8(to));
            lemma_ipset_position(k.ipsets, encode_utf8(from));
            lemma_ipset_position(k.ipsets, encode_utf8(to));
            if after != k {
                let i = first->0;
                let j = second->0;
                let a = k.ipsets[i];
                let b = k.ipsets[j];
                let moved_up = IpsetRecord { name: a.name, ..b };
                let moved_down = IpsetRecord { name: b.name, ..a };
                lemma_with_ipset_fitting(k, i, moved_up);
                lemma_with_ipset_fitting(with_ipset(k, i, moved_up), j, moved_down);
            }
        },
        _ => {},
    }
}

/// An nftables operation keeps a fitting kernel fitting.
pub proof fn lemma_nft_fitting(k: KernelView, op: Operation<Seq<char>>, proto: u8)
    requires
        k.fitting(),
    ensures
        nft_meaning(k, op, proto).0.fitting(),
{
    let after = nft_meaning(k, op, proto).0;
    lemma_fitting_fits(k);
    if after != k {
        match op {
            Operation::NftCreateTable { table, .. } => {
                assert forall|a: int, b: int|
                    0 <= a < after.tables.len() && 0 <= b
                        < after.tables[a].sets.len() implies set_fits(
                            #[trigger] after.tables[a].sets[b],
                        ) by {
                    if a < k.tables.len() {
                        assert(after.tables[a] == k.tables[a]);
                        assert(set_fits(k.tables[a].sets[b]));
                    }
                }
                lemma_fits_fitting(after);
            },
            Operation::NftDeleteTable { table, .. } => {
                let found = table_position(k.tables, proto, encode_utf8(table));
                lemma_table_position(k.tables, proto, encode_utf8(table));
                let i = found->0;
                assert forall|a: int, b: int|
                    0 <= a < after.tables.len() && 0 <= b
                        < after.tables[a].sets.len() implies set_fits(
                            #[trigger] after.tables[a].sets[b],
                        ) by {
                    if a < i {
                        assert(after.tables[a] == k.tables[a]);
                        assert(set_fits(k.tables[a].sets[b]));
                    } else {
                        assert(after.tables[a] == k.tables[a + 1]);
                        assert(set_fits(k.tables[a + 1].sets[b]));
                    }
                }
                lemma_fits_fitting(after);
            },
            Operation::NftCreateSet { table, name, options, .. } => {
                let found = table_position(k.tables, proto, encode_utf8(table));
                lemma_table_position(k.tables, proto, encode_utf8(table));
                let i = found->0;
                let sets = k.tables[i].sets;
                let set = NftSetRecord {
                    name: encode_utf8(name),
                    shape: shape_of_options(options),
                    members: Seq::<IpEntry>::empty(),
                };
                let grown = sets.push(set);
                assert forall|b: int| 0 <= b < grown.len() implies set_fits(
                    #[trigger] grown[b],
                ) by {
                    if b < sets.len() {
                        assert(grown[b] == sets[b]);
                        assert(set_fits(k.tables[i].sets[b]));
                    }
                }
                lemma_with_sets_fitting(k, i, grown);
            },
            Operation::NftDeleteSet { table, name, .. } => {
                let found = table_position(k.tables, proto, encode_utf8(table));
                lemma_table_position(k.tables, proto, encode_utf8(table));
                let i = found->0;
                let sets = k.tables[i].sets;
                lemma_set_position(sets, encode_utf8(name));
                let j = set_position(sets, encode_utf8(name))->0;
                let fewer = sets.remove(j);
                assert forall|b: int| 0 <= b < fewer.len() implies set_fits(
                    #[trigger] fewer[b],
                ) by {
                    if b < j {
                        assert(fewer[b] == sets[b]);
                        assert(set_fits(k.tables[i].sets[b]));
                    } else {
                        assert(fewer[b] == sets[b + 1]);
                        assert(set_fits(k.tables[i].sets[b + 1]));
                    }
                }
                lemma_with_sets_fitting(k, i, fewer);
            },
            Operation::NftFlush { table, name, .. } => {
                let found = table_position(k.tables, proto, encode_utf8(table));
                lemma_table_position(k.tables, proto, encode_utf8(table));
                let i = found->0;
                lemma_set_position(k.tables[i].sets, encode_utf8(name));
                let j = set_position(k.tables[i].sets, encode_utf8(name))->0;
                lemma_with_members_fitting(k, i, j, Seq::empty());
            },
            Operation::NftAdd { table, name, entry, .. } => {
                let found = table_position(k.tables, proto, encode_utf8(table));
                lemma_table_position(k.tables, proto, encode_utf8(table));
                let i = found->0;
                lemma_set_position(k.tables[i].sets, encode_utf8(name));
                let j = set_position(k.tables[i].sets, encode_utf8(name))->0;
                let set = k.tables[i].sets[j];
                assert(set_fits(k.tables[i].sets[j]));
                lemma_add_keeps(set.members, entry, set.shape.key_len as nat);
                lemma_with_members_fitting(k, i, j, add_one(set.members, entry));
            },
            Operation::NftDel { table, name, entry, .. } => {
                let found = table_position(k.tables, proto, encode_utf8(table));
                lemma_table_position(k.tables, proto, encode_utf8(table));
                let i = found->0;
                lemma_set_position(k.tables[i].sets, encode_utf8(name));
                let j = set_position(k.tables[i].sets, encode_utf8(name))->0;
                let set = k.tables[i].sets[j];
                assert(set_fits(k.tables[i].sets[j]));
                lemma_without_keeps(set.members, entry.addr, set.shape.key_len as nat);
                lemma_with_members_fitting(k, i, j, without(set.members, entry.addr));
            },
            _ => {},
        }
    }
}

/// Every operation keeps a fitting kernel fitting.
pub proof fn lemma_meaning_fitting(k: KernelView, op: Operation<Seq<char>>)
    requires
        k.fitting(),
    ensures
        meaning(k, op).0.fitting(),
{
    match op {
        Operation::NftRename { .. } | Operation::NftSwap { .. } => {},
        Operation::NftCreateTable { family, .. }
        | Operation::NftDeleteTable { family, .. }
        | Operation::NftListTables { family }
        | Operation::NftCreateSet { family, .. }
        | Operation::NftDeleteSet { family, .. }
        | Operation::NftFlush { family, .. }
        | Operation::NftAdd { family, .. }
        | Operation::NftDel { family, .. }
        | Operation::NftTest { family, .. }
        | Operation::NftList { family, .. } => {
            if nft_proto(family) is Some {
                lemma_nft_fitting(k, op, nft_proto(family)->0);
            }
        },
        _ => {
            lemma_ipset_fitting(k, op);
        },
    }
}

/// Members that got each of some elements of their width are still
/// distinct and of one width.
pub proof fn lemma_add_all_keeps(members: Seq<IpEntry>, elements: Seq<IpEntry>, width: nat)
    requires
        distinct(members),
        all_width(members, width),
        all_width(elements, width),
    ensures
        distinct(add_all(members, elements)),
        all_width(add_all(members, elements), width),
    decreases elements.len(),
{
    if elements.len() > 0 {
        let rest = elements.drop_first();
        assert(elements[0].addr.width() == width);
        lemma_add_keeps(members, elements[0], width);
        assert forall|i: int| 0 <= i < rest.len() implies (#[trigger] rest[i]).addr.width()
            == width by {
            assert(rest[i] == elements[i + 1]);
        }
        lemma_add_all_keeps(add_one(members, elements[0]), rest, width);
    }
}

/// Members that some elements were taken out of are still distinct and of
/// one width.
pub proof fn lemma_remove_all_keeps(members: Seq<IpEntry>, elements: Seq<IpEntry>, width: nat)
    requires
        distinct(members),
        all_width(members, width),
    ensures
        distinct(remove_all(members, elements)),
        all_width(remove_all(members, elements), width),
    decreases elements.len(),
{
    if elements.len() > 0 {
        lemma_without_keeps(members, elements[0].addr, width);
        lemma_remove_all_keeps(without(members, elements[0].addr), elements.drop_first(), width);
    }
}

/// The kernel stays fitting when it reacts to an ipset request that names
/// a member.
pub proof fn lemma_react_member_fitting(
    k: KernelView,
    m: MessageView,
    b: IpsetBody<Seq<u8>, Seq<IpEntry>>,
    echo: Echo,
)
    requires
        k.fitting(),
    ensures
        react_member(k, m, b, echo).0.fitting(),
{
    reveal(react_member);
    let after = react_member(k, m, b, echo).0;
    lemma_fitting_fits(k);
    if after != k {
        let i = ipset_position(k.ipsets, b.name)->0;
        lemma_ipset_position(k.ipsets, b.name);
        let set = k.ipsets[i];
        let addr = b.data->0.addr->0;
        let entry = IpEntry { addr, timeout: b.data->0.timeout };
        lemma_add_keeps(set.members, entry, proto_width(set.family));
        lemma_without_keeps(set.members, addr, proto_width(set.family));
        lemma_with_ipset_fitting(k, i, after.ipsets[i]);
        assert(after.ipsets =~= k.ipsets.update(i, after.ipsets[i]));
    }
}

/// The kernel stays fitting when it reacts to the ipset request that
/// creates a set.
pub proof fn lemma_react_create_fitting(
    k: KernelView,
    m: MessageView,
    b: IpsetBody<Seq<u8>, Seq<IpEntry>>,
    echo: Echo,
)
    requires
        k.fitting(),
    ensures
        react_create(k, m, b, echo).0.fitting(),
{
    reveal(react_create);
    let after = react_create(k, m, b, echo).0;
    lemma_fitting_fits(k);
    if after != k {
        assert forall|a: int| 0 <= a < after.ipsets.len() implies ipset_fits(
            #[trigger] after.ipsets[a],
        ) by {
            if a < k.ipsets.len() {
                assert(after.ipsets[a] == k.ipsets[a]);
            }
        }
        lemma_fits_fitting(after);
    }
}

/// The kernel stays fitting when it reacts to an ipset request that names
/// two sets.
pub proof fn lemma_react_pair_fitting(
    k: KernelView,
    m: MessageView,
    b: IpsetBody<Seq<u8>, Seq<IpEntry>>,
    echo: Echo,
)
    requires
        k.fitting(),
    ensures
        react_pair(k, m, b, echo).0.fitting(),
{
    reveal(react_pair);
    let after = react_pair(k, m, b, echo).0;
    lemma_fitting_fits(k);
    if after != k {
        let second = b.second->0;
        let i = ipset_position(k.ipsets, b.name)->0;
        lemma_ipset_position(k.ipsets, b.name);
        lemma_ipset_position(k.ipsets, second);
        let from = k.ipsets[i];
        if ipset_position(k.ipsets, second) is None {
            lemma_with_ipset_fitting(k, i, IpsetRecord { name: second, ..from });
        } else {
            let j = ipset_position(k.ipsets, second)->0;
            let to = k.ipsets[j];
            let moved_up = IpsetRecord { name: from.name, ..to };
            let moved_down = IpsetRecord { name: to.name, ..from };
            lemma_with_ipset_fitting(k, i, moved_up);
            lemma_with_ipset_fitting(with_ipset(k, i, moved_up), j, moved_down);
        }
    }
}

/// The kernel stays fitting when it reacts to an ipset request.
pub proof fn lemma_react_ipset_fitting(
    k: KernelView,
    m: MessageView,
    b: IpsetBody<Seq<u8>, Seq<IpEntry>>,
    echo: Echo,
)
    requires
        k.fitting(),
    ensures
        react_ipset(k, m, b, echo).0.fitting(),
{
    reveal(react_ipset);
    lemma_react_member_fitting(k, m, b, echo);
    lemma_react_create_fitting(k, m, b, echo);
    lemma_react_pair_fitting(k, m, b, echo);
    let after = react_ipset(k, m, b, echo).0;
    lemma_fitting_fits(k);
    if after != k && after != react_member(k, m, b, echo).0 && after != react_create(
        k,
        m,
        b,
        echo,
    ).0 && after != react_pair(k, m, b, echo).0 {
        let i = ipset_position(k.ipsets, b.name)->0;
        lemma_ipset_position(k.ipsets, b.name);
        if after.ipsets.len() == k.ipsets.len() {
            lemma_with_ipset_fitting(
                k,
                i,
                IpsetRecord { members: Seq::empty(), ..k.ipsets[i] },
            );
        } else {
            assert forall|a: int| 0 <= a < after.ipsets.len() implies ipset_fits(
                #[trigger] after.ipsets[a],
            ) by {
                if a < i {
                    assert(after.ipsets[a] == k.ipsets[a]);
                } else {
                    assert(after.ipsets[a] == k.ipsets[a + 1]);
                }
            }
            lemma_fits_fitting(after);
        }
    }
}

/// The kernel stays fitting when it reacts to an nftables table request.
pub proof fn lemma_react_table_fitting(
    k: KernelView,
    m: MessageView,
    family: u8,
    name: Option<Seq<u8>>,
    echo: Echo,
)
    requires
        k.fitting(),
    ensures
        react_table(k, m, family, name, echo).0.fitting(),
{
    reveal(react_table);
    let after = react_table(k, m, family, name, echo).0;
    lemma_fitting_fits(k);
    if after != k {
        let found = table_position(k.tables, family, name->0);
        lemma_table_position(k.tables, family, name->0);
        assert forall|a: int, b: int|
            0 <= a < after.tables.len() && 0 <= b < after.tables[a].sets.len() implies set_fits(
                #[trigger] after.tables[a].sets[b],
            ) by {
            if found is None {
                if a < k.tables.len() {
                    assert(after.tables[a] == k.tables[a]);
                    assert(set_fits(k.tables[a].sets[b]));
                }
            } else if a < found->0 {
                assert(after.tables[a] == k.tables[a]);
                assert(set_fits(k.tables[a].sets[b]));
            } else {
                assert(after.tables[a] == k.tables[a + 1]);
                assert(set_fits(k.tables[a + 1].sets[b]));
            }
        }
        lemma_fits_fitting(after);
    }
}

/// The kernel stays fitting when it reacts to an nftables set request.
pub proof fn lemma_react_set_fitting(
    k: KernelView,
    m: MessageView,
    family: u8,
    table: Seq<u8>,
    name: Seq<u8>,
    shape: Option<SetShape>,
    echo: Echo,
)
    requires
        k.fitting(),
    ensures
        react_set(k, m, family, table, name, shape, echo).0.fitting(),
{
    reveal(react_set);
    let after = react_set(k, m, family, table, name, shape, echo).0;
    lemma_fitting_fits(k);
    if after != k {
        let i = table_position(k.tables, family, table)->0;
        lemma_table_position(k.tables, family, table);
        let sets = k.tables[i].sets;
        lemma_set_position(sets, name);
        let changed = after.tables[i].sets;
        assert forall|b: int| 0 <= b < changed.len() implies set_fits(#[trigger] changed[b]) by {
            if changed.len() > sets.len() {
                if b < sets.len() {
                    assert(changed[b] == sets[b]);
                    assert(set_fits(k.tables[i].sets[b]));
                }
            } else {
                let j = set_position(sets, name)->0;
                if b < j {
                    assert(changed[b] == sets[b]);
                    assert(set_fits(k.tables[i].sets[b]));
                } else {
                    assert(changed[b] == sets[b + 1]);
                    assert(set_fits(k.tables[i].sets[b + 1]));
                }
            }
        }
        lemma_with_sets_fitting(k, i, changed);
        assert(after.tables =~= with_sets(k, i, changed).tables);
    }
}

/// The kernel stays fitting when it reacts to an nftables element
/// request.
pub proof fn lemma_react_elements_fitting(
    k: KernelView,
    m: MessageView,
    family: u8,
    table: Seq<u8>,
    name: Seq<u8>,
    elements: Seq<IpEntry>,
    echo: Echo,
)
    requires
        k.fitting(),
    ensures
        react_elements(k, m, family, table, name, elements, echo).0.fitting(),
{
    reveal(react_elements);
    let after = react_elements(k, m, family, table, name, elements, echo).0;
    lemma_fitting_fits(k);
    if after != k {
        let i = table_position(k.tables, family, table)->0;
        lemma_table_position(k.tables, family, table);
        let j = set_position(k.tables[i].sets, name)->0;
        lemma_set_position(k.tables[i].sets, name);
        let set = k.tables[i].sets[j];
        assert(set_fits(k.tables[i].sets[j]));
        lemma_add_all_keeps(set.members, elements, set.shape.key_len as nat);
        lemma_remove_all_keeps(set.members, elements, set.shape.key_len as nat);
        lemma_with_members_fitting(k, i, j, after.tables[i].sets[j].members);
        assert(after.tables[i].sets =~= with_members(
            k,
            i,
            j,
            after.tables[i].sets[j].members,
        ).tables[i].sets);
        assert(after.tables =~= with_members(k, i, j, after.tables[i].sets[j].members).tables);
    }
}

/// The kernel stays fitting whatever message it reacts to.
pub proof fn lemma_react_fitting(k: KernelView, m: MessageView, echo: Echo)
    requires
        k.fitting(),
    ensures
        react(k, m, echo).0.fitting(),
{
    reveal(react);
    reveal(react_nft);
    match m.body {
        Body::Ipset(b) => {
            lemma_react_ipset_fitting(k, m, b, echo);
        },
        Body::NftTable { family, name } => {
            lemma_react_table_fitting(k, m, family, name, echo);
        },
        Body::NftSet { family, table, name, shape } => {
            lemma_react_set_fitting(k, m, family, table, name, shape, echo);
        },
        Body::NftElements { family, table, set, elements } => {
            lemma_react_elements_fitting(k, m, family, table, set, elements, echo);
        },
        _ => {},
    }
}

/// A kernel with unique names whose sets of the table at `i` are replaced
/// by sets with distinct names has unique names.
pub proof fn lemma_with_sets_unique(k: KernelView, i: int, sets: Seq<NftSetView>)
    requires
        k.unique(),
        0 <= i < k.tables.len(),
        set_names_unique(sets),
    ensures
        with_sets(k, i, sets).unique(),
{
    let after = with_sets(k, i, sets);
    lemma_table_unique_update(k.tables, i, NftTableRecord { sets, ..k.tables[i] });
    assert forall|a: int| 0 <= a < after.tables.len() implies set_names_unique(
        (#[trigger] after.tables[a]).sets,
    ) by {
        if a != i {
            assert(after.tables[a] == k.tables[a]);
            assert(set_names_unique(k.tables[a].sets));
        }
    }
}

/// A kernel with unique names whose set at `j` of the table at `i` gets
/// other members has unique names.
pub proof fn lemma_with_members_unique(k: KernelView, i: int, j: int, members: Seq<IpEntry>)
    requires
        k.unique(),
        0 <= i < k.tables.len(),
        0 <= j < k.tables[i].sets.len(),
    ensures
        with_members(k, i, j, members).unique(),
{
    let sets = k.tables[i].sets;
    assert(set_names_unique(k.tables[i].sets));
    lemma_set_unique_update(sets, j, NftSetRecord { members, ..sets[j] });
    lemma_with_sets_unique(k, i, sets.update(j, NftSetRecord { members, ..sets[j] }));
}

/// A kernel with unique names that gets a table of a family and name it
/// does not hold, whose sets have distinct names, has unique names.
pub proof fn lemma_table_push_unique(k: KernelView, table: NftTableView)
    requires
        k.unique(),
        table_position(k.tables, table.family, table.name) is None,
        set_names_unique(table.sets),
    ensures
        (KernelView { tables: k.tables.push(table), ..k }).unique(),
{
    let after = KernelView { tables: k.tables.push(table), ..k };
    lemma_table_unique_push(k.tables, table);
    assert forall|a: int| 0 <= a < after.tables.len() implies set_names_unique(
        (#[trigger] after.tables[a]).sets,
    ) by {
        if a < k.tables.len() {
            assert(after.tables[a] == k.tables[a]);
            assert(set_names_unique(k.tables[a].sets));
        }
    }
}

/// A kernel with unique names that a table is taken out of has unique
/// names.
pub proof fn lemma_table_remove_unique(k: KernelView, i: int)
    requires
        k.unique(),
        0 <= i < k.tables.len(),
    ensures
        (KernelView { tables: k.tables.remove(i), ..k }).unique(),
{
    let after = KernelView { tables: k.tables.remove(i), ..k };
    lemma_table_unique_remove(k.tables, i);
    assert forall|a: int| 0 <= a < after.tables.len() implies set_names_unique(
        (#[trigger] after.tables[a]).sets,
    ) by {
        if a < i {
            assert(after.tables[a] == k.tables[a]);
            assert(set_names_unique(k.tables[a].sets));
        } else {
            assert(after.tables[a] == k.tables[a + 1]);
            assert(set_names_unique(k.tables[a + 1].sets));
        }
    }
}

/// The names stay unique when the kernel reacts to an ipset request that
/// names a member.
pub proof fn lemma_react_member_unique(
    k: KernelView,
    m: MessageView,
    b: IpsetBody<Seq<u8>, Seq<IpEntry>>,
    echo: Echo,
)
    requires
        k.unique(),
    ensures
        react_member(k, m, b, echo).0.unique(),
{
    reveal(react_member);
    let after = react_member(k, m, b, echo).0;
    if after != k {
        let i = ipset_position(k.ipsets, b.name)->0;
        lemma_ipset_position(k.ipsets, b.name);
        lemma_ipset_unique_update(k.ipsets, i, after.ipsets[i]);
        assert(after.ipsets =~= k.ipsets.update(i, after.ipsets[i]));
    }
}

/// The names stay unique when the kernel reacts to the ipset request that
/// creates a set.
pub proof fn lemma_react_create_unique(
    k: KernelView,
    m: MessageView,
    b: IpsetBody<Seq<u8>, Seq<IpEntry>>,
    echo: Echo,
)
    requires
        k.unique(),
    ensures
        react_create(k, m, b, echo).0.unique(),
{
    reveal(react_create);
    let after = react_create(k, m, b, echo).0;
    if after != k {
        let set = after.ipsets[k.ipsets.len() as int];
        lemma_ipset_unique_push(k.ipsets, set);
        assert(after.ipsets =~= k.ipsets.push(set));
    }
}

/// The names stay unique when the kernel reacts to an ipset request that
/// names two sets.
pub proof fn lemma_react_pair_unique(
    k: KernelView,
    m: MessageView,
    b: IpsetBody<Seq<u8>, Seq<IpEntry>>,
    echo: Echo,
)
    requires
        k.unique(),
    ensures
        react_pair(k, m, b, echo).0.unique(),
{
    reveal(react_pair);
    let after = react_pair(k, m, b, echo).0;
    if after != k {
        let second = b.second->0;
        let i = ipset_position(k.ipsets, b.name)->0;
        lemma_ipset_position(k.ipsets, b.name);
        lemma_ipset_position(k.ipsets, second);
        let from = k.ipsets[i];
        if ipset_position(k.ipsets, second) is None {
            lemma_ipset_unique_update(k.ipsets, i, IpsetRecord { name: second, ..from });
        } else {
            let j = ipset_position(k.ipsets, second)->0;
            let to = k.ipsets[j];
            let moved_up = IpsetRecord { name: from.name, ..to };
            let moved_down = IpsetRecord { name: to.name, ..from };
            lemma_ipset_unique_update(k.ipsets, i, moved_up);
            lemma_ipset_unique_update(k.ipsets.update(i, moved_up), j, moved_down);
        }
    }
}

/// The names stay unique when the kernel reacts to an ipset request.
pub proof fn lemma_react_ipset_unique(
    k: KernelView,
    m: MessageView,
    b: IpsetBody<Seq<u8>, Seq<IpEntry>>,
    echo: Echo,
)
    requires
        k.unique(),
    ensures
        react_ipset(k, m, b, echo).0.unique(),
{
    reveal(react_ipset);
    lemma_react_member_unique(k, m, b, echo);
    lemma_react_create_unique(k, m, b, echo);
    lemma_react_pair_unique(k, m, b, echo);
    let after = react_ipset(k, m, b, echo).0;
    if after != k && after != react_member(k, m, b, echo).0 && after != react_create(
        k,
        m,
        b,
        echo,
    ).0 && after != react_pair(k, m, b, echo).0 {
        let i = ipset_position(k.ipsets, b.name)->0;
        lemma_ipset_position(k.ipsets, b.name);
        lemma_ipset_unique_remove(k.ipsets, i);
        lemma_ipset_unique_update(
            k.ipsets,
            i,
            IpsetRecord { members: Seq::empty(), ..k.ipsets[i] },
        );
    }
}

/// The names stay unique when the kernel reacts to an nftables table
/// request.
pub proof fn lemma_react_table_unique(
    k: KernelView,
    m: MessageView,
    family: u8,
    name: Option<Seq<u8>>,
    echo: Echo,
)
    requires
        k.unique(),
    ensures
        react_table(k, m, family, name, echo).0.unique(),
{
    reveal(react_table);
    let after = react_table(k, m, family, name, echo).0;
    if after != k {
        let found = table_position(k.tables, family, name->0);
        lemma_table_position(k.tables, family, name->0);
        if found is None {
            lemma_table_push_unique(
                k,
                NftTableRecord { family, name: name->0, sets: Seq::empty() },
            );
        } else {
            lemma_table_remove_unique(k, found->0);
        }
    }
}

/// The names stay unique when the kernel reacts to an nftables set
/// request.
pub proof fn lemma_react_set_unique(
    k: KernelView,
    m: MessageView,
    family: u8,
    table: Seq<u8>,
    name: Seq<u8>,
    shape: Option<SetShape>,
    echo: Echo,
)
    requires
        k.unique(),
    ensures
        react_set(k, m, family, table, name, shape, echo).0.unique(),
{
    reveal(react_set);
    let after = react_set(k, m, family, table, name, shape, echo).0;
    if after != k {
        let i = table_position(k.tables, family, table)->0;
        lemma_table_position(k.tables, family, table);
        let sets = k.tables[i].sets;
        assert(set_names_unique(k.tables[i].sets));
        lemma_set_position(sets, name);
        if set_position(sets, name) is None {
            let set = NftSetRecord { name, shape: shape->0, members: Seq::<IpEntry>::empty() };
            lemma_set_unique_push(sets, set);
            lemma_with_sets_unique(k, i, sets.push(set));
        } else {
            let j = set_position(sets, name)->0;
            lemma_set_unique_remove(sets, j);
            lemma_with_sets_unique(k, i, sets.remove(j));
        }
    }
}

/// The names stay unique when the kernel reacts to an nftables element
/// request.
pub proof fn lemma_react_elements_unique(
    k: KernelView,
    m: MessageView,
    family: u8,
    table: Seq<u8>,
    name: Seq<u8>,
    elements: Seq<IpEntry>,
    echo: Echo,
)
    requires
        k.unique(),
    ensures
        react_elements(k, m, family, table, name, elements, echo).0.unique(),
{
    reveal(react_elements);
    let after = react_elements(k, m, family, table, name, elements, echo).0;
    if after != k {
        let i = table_position(k.tables, family, table)->0;
        lemma_table_position(k.tables, family, table);
        let j = set_position(k.tables[i].sets, name)->0;
        lemma_set_position(k.tables[i].sets, name);
        let set = k.tables[i].sets[j];
        lemma_with_members_unique(k, i, j, add_all(set.members, elements));
        lemma_with_members_unique(k, i, j, remove_all(set.members, elements));
    }
}

/// The kernel stays coherent whatever message it reacts to: the members of
/// every set still fit the set, and every name still stands for one
/// object.
pub proof fn theorem_react_coherent(k: KernelView, m: MessageView, echo: Echo)
    requires
        k.coherent(),
    ensures
        react(k, m, echo).0.coherent(),
{
    lemma_react_fitting(k, m, echo);
    reveal(react);
    reveal(react_nft);
    match m.body {
        Body::Ipset(b) => {
            lemma_react_ipset_unique(k, m, b, echo);
        },
        Body::NftTable { family, name } => {
            lemma_react_table_unique(k, m, family, name, echo);
        },
        Body::NftSet { family, table, name, shape } => {
            lemma_react_set_unique(k, m, family, table, name, shape, echo);
        },
        Body::NftElements { family, table, set, elements } => {
            lemma_react_elements_unique(k, m, family, table, set, elements, echo);
        },
        _ => {},
    }
}

/// The kernel stays coherent whatever datagram it takes in.
pub proof fn theorem_serve_coherent(k: KernelView, packets: Seq<PacketView>)
    requires
        k.coherent(),
    ensures
        serve(k, packets).0.coherent(),
    decreases packets.len(),
{
    if packets.len() > 0 {
        let first = serve_one(k, packets[0]);
        match message_of(packets[0]) {
            Some(m) => {
                theorem_react_coherent(k, m, echo_of(packets[0]));
            },
            None => {},
        }
        theorem_serve_coherent(first.0, packets.drop_first());
    }
}

/// An ipset operation keeps the names unique.
pub proof fn lemma_ipset_unique(k: KernelView, op: Operation<Seq<char>>)
    requires
        k.unique(),
        op is IpsetCreate || op is IpsetDestroy || op is IpsetFlush || op is IpsetRename || op
            is IpsetSwap || op is IpsetAdd || op is IpsetDel || op is IpsetTest || op is IpsetList,
    ensures
        meaning(k, op).0.unique(),
{
    let after = meaning(k, op).0;
    if after != k {
        match op {
            Operation::IpsetCreate { name, .. } => {
                let set = after.ipsets[k.ipsets.len() as int];
                lemma_ipset_unique_push(k.ipsets, set);
                assert(after.ipsets =~= k.ipsets.push(set));
            },
            Operation::IpsetDestroy { name } => {
                lemma_ipset_position(k.ipsets, encode_utf8(name));
                lemma_ipset_unique_remove(
                    k.ipsets,
                    ipset_position(k.ipsets, encode_utf8(name))->0,
                );
            },
            Operation::IpsetFlush { name }
            | Operation::IpsetAdd { name, .. }
            | Operation::IpsetDel { name, .. } => {
                let i = ipset_position(k.ipsets, encode_utf8(name))->0;
                lemma_ipset_position(k.ipsets, encode_utf8(name));
                lemma_ipset_unique_update(k.ipsets, i, after.ipsets[i]);
                assert(after.ipsets =~= k.ipsets.update(i, after.ipsets[i]));
            },
            Operation::IpsetRename { from, to } => {
                let i = ipset_position(k.ipsets, encode_utf8(from))->0;
                lemma_ipset_position(k.ipsets, encode_utf8(from));
                lemma_ipset_unique_update(
                    k.ipsets,
                    i,
                    IpsetRecord { name: encode_utf8(to), ..k.ipsets[i] },
                );
            },
            Operation::IpsetSwap { from, to } => {
                let i = ipset_position(k.ipsets, encode_utf8(from))->0;
                let j = ipset_position(k.ipsets, encode_utf8(to))->0;
                lemma_ipset_position(k.ipsets, encode_utf8(from));
                lemma_ipset_position(k.ipsets, encode_utf8(to));
                let a = k.ipsets[i];
                let b = k.ipsets[j];
                let moved_up = IpsetRecord { name: a.name, ..b };
                let moved_down = IpsetRecord { name: b.name, ..a };
                lemma_ipset_unique_update(k.ipsets, i, moved_up);
                lemma_ipset_unique_update(k.ipsets.update(i, moved_up), j, moved_down);
            },
            _ => {},
        }
    }
}

/// An nftables operation keeps the names unique.
pub proof fn lemma_nft_unique(k: KernelView, op: Operation<Seq<char>>, proto: u8)
    requires
        k.unique(),
    ensures
        nft_meaning(k, op, proto).0.unique(),
{
    let after = nft_meaning(k, op, proto).0;
    if after != k {
        match op {
            Operation::NftCreateTable { table, .. } => {
                lemma_table_push_unique(
                    k,
                    NftTableRecord { family: proto, name: encode_utf8(table), sets: Seq::empty() },
                );
            },
            Operation::NftDeleteTable { table, .. } => {
                lemma_table_position(k.tables, proto, encode_utf8(table));
                lemma_table_remove_unique(
                    k,
                    table_position(k.tables, proto, encode_utf8(table))->0,
                );
            },
            Operation::NftCreateSet { table, name, options, .. } => {
                let i = table_position(k.tables, proto, encode_utf8(table))->0;
                lemma_table_position(k.tables, proto, encode_utf8(table));
                let sets = k.tables[i].sets;
                assert(set_names_unique(k.tables[i].sets));
                let set = NftSetRecord {
                    name: encode_utf8(name),
                    shape: shape_of_options(options),
                    members: Seq::<IpEntry>::empty(),
                };
                lemma_set_unique_push(sets, set);
                lemma_with_sets_unique(k, i, sets.push(set));
            },
            Operation::NftDeleteSet { table, name, .. } => {
                let i = table_position(k.tables, proto, encode_utf8(table))->0;
                lemma_table_position(k.tables, proto, encode_utf8(table));
                let sets = k.tables[i].sets;
                assert(set_names_unique(k.tables[i].sets));
                lemma_set_position(sets, encode_utf8(name));
                let j = set_position(sets, encode_utf8(name))->0;
                lemma_set_unique_remove(sets, j);
                lemma_with_sets_unique(k, i, sets.remove(j));
            },
            Operation::NftFlush { table, name, .. }
            | Operation::NftAdd { table, name, .. }
            | Operation::NftDel { table, name, .. } => {
                let i = table_position(k.tables, proto, encode_utf8(table))->0;
                lemma_table_position(k.tables, proto, encode_utf8(table));
                lemma_set_position(k.tables[i].sets, encode_utf8(name));
                let j = set_position(k.tables[i].sets, encode_utf8(name))->0;
                lemma_with_members_unique(k, i, j, after.tables[i].sets[j].members);
                assert(after.tables[i].sets =~= with_members(
                    k,
                    i,
                    j,
                    after.tables[i].sets[j].members,
                ).tables[i].sets);
                assert(after.tables =~= with_members(
                    k,
                    i,
                    j,
                    after.tables[i].sets[j].members,
                ).tables);
            },
            _ => {},
        }
    }
}

/// Every operation keeps a coherent kernel coherent: the members of every
/// set still fit the set, and every name still stands for one object.
pub proof fn theorem_coherent(k: KernelView, op: Operation<Seq<char>>)
    requires
        k.coherent(),
    ensures
        meaning(k, op).0.coherent(),
{
    lemma_meaning_fitting(k, op);
    match op {
        Operation::NftRename { .. } | Operation::NftSwap { .. } => {},
        Operation::NftCreateTable { family, .. }
        | Operation::NftDeleteTable { family, .. }
        | Operation::NftListTables { family }
        | Operation::NftCreateSet { family, .. }
        | Operation::NftDeleteSet { family, .. }
        | Operation::NftFlush { family, .. }
        | Operation::NftAdd { family, .. }
        | Operation::NftDel { family, .. }
        | Operation::NftTest { family, .. }
        | Operation::NftList { family, .. } => {
            if nft_proto(family) is Some {
                lemma_nft_unique(k, op, nft_proto(family)->0);
            }
        },
        _ => {
            lemma_ipset_unique(k, op);
        },
    }
}

} // verus!
