//! What holds of the operations, whatever the kernel and the arguments.
//!
//! The laws speak of [`meaning`], which is what the operations of
//! [`crate::loopback::Client`] do to the kernel and hand back, and what
//! [`crate::refinement::theorem_perform`] shows the protocol stack to
//! come to.

use vstd::prelude::*;
use vstd::utf8::encode_utf8;
use crate::entry::{IpAddress, IpEntry, IpSetCreateOptions, NftSetCreateOptions};
use crate::error::{describe, ErrorView, KERNEL_EBUSY};
use crate::fields::valid_name;
use crate::kernel::{proto_width, with_members, with_sets, KernelView};
use crate::meaning::{meaning, with_ipset};
use crate::message::{IPSET_MAX_NAME, NFT_MAX_NAME};
use crate::operation::{Operation, OutcomeView};
use crate::reply::addresses;
use crate::request::{nft_proto, shape_of_options};
use crate::store::{
    add_one,
    distinct,
    has_member,
    ipset_position,
    lemma_add_one,
    lemma_ipset_position,
    lemma_ipset_position_push,
    lemma_ipset_position_same,
    lemma_ipset_removed_gone,
    lemma_ipset_renamed,
    lemma_set_removed_gone,
    lemma_table_removed_gone,
    lemma_set_position,
    lemma_set_position_push,
    lemma_set_position_same,
    lemma_table_position,
    lemma_table_position_same,
    lemma_without,
    set_names_unique,
    set_position,
    table_position,
    without,
    IpsetRecord,
    NftSetRecord,
    NftSetView,
};

verus! {

/// An entry for an address, without a timeout.
pub open spec fn plain(addr: IpAddress) -> IpEntry {
    IpEntry { addr, timeout: None }
}

/// Whether the kernel holds an ipset set `name` that takes addresses of
/// the width of `addr`.
pub open spec fn ipset_takes(k: KernelView, name: Seq<char>, addr: IpAddress) -> bool {
    let octets = encode_utf8(name);
    &&& valid_name(octets, IPSET_MAX_NAME as int)
    &&& ipset_position(k.ipsets, octets) is Some
    &&& addr.width() == proto_width(k.ipsets[ipset_position(k.ipsets, octets)->0].family)
}

/// On ipset, an address that was added is a member, and one that was
/// deleted is none.
///
/// For every set and every address of the width of the set: adding the
/// address succeeds, or fails because it is there already; either way a
/// test then says "yes". Deleting it then succeeds, and a test says "no".
pub proof fn law_ipset_add_test_del_test(
    k: KernelView,
    name: Seq<char>,
    entry: IpEntry,
    probe: IpEntry,
)
    requires
        ipset_takes(k, name, entry.addr),
        probe.addr == entry.addr,
    ensures
        ({
            let added = meaning(k, Operation::IpsetAdd { name, entry });
            let tested = meaning(added.0, Operation::IpsetTest { name, entry: probe });
            let deleted = meaning(tested.0, Operation::IpsetDel { name, entry: probe });
            let retested = meaning(deleted.0, Operation::IpsetTest { name, entry: probe });
            &&& added.1 == Ok::<OutcomeView, ErrorView>(OutcomeView::Done) || added.1 == Err::<
                OutcomeView,
                ErrorView,
            >(ErrorView::AlreadyExists)
            &&& tested.1 == Ok::<OutcomeView, ErrorView>(OutcomeView::Member(true))
            &&& deleted.1 == Ok::<OutcomeView, ErrorView>(OutcomeView::Done)
            &&& retested.1 == Ok::<OutcomeView, ErrorView>(OutcomeView::Member(false))
        }),
{
    let octets = encode_utf8(name);
    let i = ipset_position(k.ipsets, octets)->0;
    lemma_ipset_position(k.ipsets, octets);
    let set = k.ipsets[i];
    let added = meaning(k, Operation::IpsetAdd { name, entry });
    lemma_ipset_position_same(added.0.ipsets, k.ipsets, octets);
    lemma_add_one(set.members, entry, entry.addr);
    assert(has_member(added.0.ipsets[i].members, entry.addr)) by {
        if !has_member(set.members, entry.addr) {
            assert(add_one(set.members, entry) == set.members.push(entry));
        }
    }
    let tested = meaning(added.0, Operation::IpsetTest { name, entry: probe });
    assert(tested.0 == added.0);
    let deleted = meaning(tested.0, Operation::IpsetDel { name, entry: probe });
    lemma_ipset_position_same(deleted.0.ipsets, added.0.ipsets, octets);
    lemma_without(added.0.ipsets[i].members, entry.addr, entry.addr);
}

/// On ipset, adding an address whose width is not that of the set fails
/// with a family mismatch and leaves the kernel as it is.
pub proof fn law_ipset_family_mismatch(k: KernelView, name: Seq<char>, entry: IpEntry)
    requires
        valid_name(encode_utf8(name), IPSET_MAX_NAME as int),
        ipset_position(k.ipsets, encode_utf8(name)) is Some,
        entry.addr.width() != proto_width(
            k.ipsets[ipset_position(k.ipsets, encode_utf8(name))->0].family,
        ),
    ensures
        meaning(k, Operation::IpsetAdd { name, entry }) == (
            k,
            Err::<OutcomeView, ErrorView>(ErrorView::FamilyMismatch),
        ),
{
}

/// On ipset, every operation on a set that the kernel does not hold fails
/// with "not found" and leaves the kernel as it is.
pub proof fn law_ipset_missing_set(
    k: KernelView,
    name: Seq<char>,
    other: Seq<char>,
    entry: IpEntry,
)
    requires
        valid_name(encode_utf8(name), IPSET_MAX_NAME as int),
        valid_name(encode_utf8(other), IPSET_MAX_NAME as int),
        ipset_position(k.ipsets, encode_utf8(name)) is None,
    ensures
        ({
            let missing = (k, Err::<OutcomeView, ErrorView>(ErrorView::NotFound));
            &&& meaning(k, Operation::IpsetDestroy { name }) == missing
            &&& meaning(k, Operation::IpsetFlush { name }) == missing
            &&& meaning(k, Operation::IpsetList { name }) == missing
            &&& meaning(k, Operation::IpsetAdd { name, entry }) == missing
            &&& meaning(k, Operation::IpsetDel { name, entry }) == missing
            &&& meaning(k, Operation::IpsetTest { name, entry }) == missing
            &&& meaning(k, Operation::IpsetRename { from: name, to: other }) == missing
            &&& meaning(k, Operation::IpsetSwap { from: name, to: other }) == missing
        }),
{
}

/// On ipset, a set that was just created lists as empty.
pub proof fn law_ipset_fresh_set_is_empty(
    k: KernelView,
    name: Seq<char>,
    options: IpSetCreateOptions,
)
    requires
        valid_name(encode_utf8(name), IPSET_MAX_NAME as int),
        ipset_position(k.ipsets, encode_utf8(name)) is None,
    ensures
        ({
            let created = meaning(k, Operation::IpsetCreate { name, options });
            &&& created.1 == Ok::<OutcomeView, ErrorView>(OutcomeView::Done)
            &&& meaning(created.0, Operation::IpsetList { name }) == (
                created.0,
                Ok::<OutcomeView, ErrorView>(OutcomeView::Entries(Seq::empty())),
            )
        }),
{
    let octets = encode_utf8(name);
    let created = meaning(k, Operation::IpsetCreate { name, options });
    let set = created.0.ipsets[k.ipsets.len() as int];
    lemma_ipset_position_push(k.ipsets, set, octets);
    assert(created.0.ipsets == k.ipsets.push(set));
    assert(addresses(Seq::<IpEntry>::empty()) =~= Seq::<IpAddress>::empty());
}

/// The kernel after each of `addrs` was added to the ipset set `name`, in
/// order.
pub open spec fn ipset_filled(k: KernelView, name: Seq<char>, addrs: Seq<IpAddress>) -> KernelView
    decreases addrs.len(),
{
    if addrs.len() == 0 {
        k
    } else {
        meaning(
            ipset_filled(k, name, addrs.drop_last()),
            Operation::IpsetAdd { name, entry: plain(addrs.last()) },
        ).0
    }
}

/// On ipset, a set that was empty and got N distinct addresses lists
/// exactly those N addresses.
///
/// The listing holds them in the order they were added, so it has as many
/// entries as were added and holds each of them, in whatever order they
/// came.
pub proof fn law_ipset_list_after_adds(k: KernelView, name: Seq<char>, addrs: Seq<IpAddress>)
    requires
        valid_name(encode_utf8(name), IPSET_MAX_NAME as int),
        ipset_position(k.ipsets, encode_utf8(name)) is Some,
        k.ipsets[ipset_position(k.ipsets, encode_utf8(name))->0].members.len() == 0,
        addrs.no_duplicates(),
        forall|n: int|
            0 <= n < addrs.len() ==> (#[trigger] addrs[n]).width() == proto_width(
                k.ipsets[ipset_position(k.ipsets, encode_utf8(name))->0].family,
            ),
    ensures
        meaning(ipset_filled(k, name, addrs), Operation::IpsetList { name }).1 == Ok::<
            OutcomeView,
            ErrorView,
        >(OutcomeView::Entries(addrs)),
        ipset_position(ipset_filled(k, name, addrs).ipsets, encode_utf8(name)) == ipset_position(
            k.ipsets,
            encode_utf8(name),
        ),
        ({
            let i = ipset_position(k.ipsets, encode_utf8(name))->0;
            &&& addresses(ipset_filled(k, name, addrs).ipsets[i].members) == addrs
            &&& ipset_filled(k, name, addrs).ipsets[i].family == k.ipsets[i].family
            &&& ipset_filled(k, name, addrs).ipsets.len() == k.ipsets.len()
        }),
    decreases addrs.len(),
{
    let octets = encode_utf8(name);
    let i = ipset_position(k.ipsets, octets)->0;
    lemma_ipset_position(k.ipsets, octets);
    if addrs.len() == 0 {
        assert(addresses(k.ipsets[i].members) =~= addrs);
    } else {
        let front = addrs.drop_last();
        let last = addrs.last();
        assert forall|n: int| 0 <= n < front.len() implies (#[trigger] front[n]).width()
            == proto_width(k.ipsets[i].family) by {
            assert(front[n] == addrs[n]);
        }
        assert(front.no_duplicates()) by {
            assert forall|a: int, b: int| 0 <= a < front.len() && 0 <= b < front.len() && a
                != b implies front[a] != front[b] by {
                assert(front[a] == addrs[a]);
                assert(front[b] == addrs[b]);
            }
        }
        law_ipset_list_after_adds(k, name, front);
        let before = ipset_filled(k, name, front);
        let members = before.ipsets[i].members;
        assert(addrs[addrs.len() - 1] == last);
        assert(!has_member(members, last)) by {
            if has_member(members, last) {
                let p = choose|p: int| 0 <= p < members.len() && (#[trigger] members[p]).addr
                    == last;
                assert(addresses(members)[p] == members[p].addr);
                assert(front[p] == addrs[p]);
            }
        }
        let after = ipset_filled(k, name, addrs);
        assert(after == with_ipset(
            before,
            i,
            IpsetRecord { members: members.push(plain(last)), ..before.ipsets[i] },
        ));
        lemma_ipset_position_same(after.ipsets, before.ipsets, octets);
        assert(addresses(members.push(plain(last))) =~= addresses(members).push(last));
        assert(front.push(last) =~= addrs);
    }
}

/// Whether the kernel holds, in the table `table` of the family that
/// `family` names, a set `name` with keys of the width of `addr`.
pub open spec fn nft_takes(
    k: KernelView,
    family: Seq<char>,
    table: Seq<char>,
    name: Seq<char>,
    addr: IpAddress,
) -> bool {
    &&& nft_holds(k, family, table, name)
    &&& addr.width() == nft_set_of(k, family, table, name).shape.key_len
}

/// Whether the kernel holds, in the table `table` of the family that
/// `family` names, a set `name`.
pub open spec fn nft_holds(
    k: KernelView,
    family: Seq<char>,
    table: Seq<char>,
    name: Seq<char>,
) -> bool {
    &&& nft_proto(family) is Some
    &&& valid_name(encode_utf8(table), NFT_MAX_NAME as int)
    &&& valid_name(encode_utf8(name), NFT_MAX_NAME as int)
    &&& table_position(k.tables, nft_proto(family)->0, encode_utf8(table)) is Some
    &&& set_position(
        k.tables[table_position(k.tables, nft_proto(family)->0, encode_utf8(table))->0].sets,
        encode_utf8(name),
    ) is Some
}

/// The set `name` of the table `table`, if the kernel holds it.
pub open spec fn nft_set_of(
    k: KernelView,
    family: Seq<char>,
    table: Seq<char>,
    name: Seq<char>,
) -> NftSetView {
    let i = table_position(k.tables, nft_proto(family)->0, encode_utf8(table))->0;
    k.tables[i].sets[set_position(k.tables[i].sets, encode_utf8(name))->0]
}

/// Changing the members of a set leaves every table and set where it was,
/// and the set as it was but for its members.
pub proof fn lemma_nft_members_changed(
    k: KernelView,
    family: Seq<char>,
    table: Seq<char>,
    name: Seq<char>,
    members: Seq<IpEntry>,
)
    requires
        nft_holds(k, family, table, name),
    ensures
        ({
            let i = table_position(k.tables, nft_proto(family)->0, encode_utf8(table))->0;
            let j = set_position(k.tables[i].sets, encode_utf8(name))->0;
            let after = with_members(k, i, j, members);
            &&& 0 <= i < k.tables.len()
            &&& 0 <= j < k.tables[i].sets.len()
            &&& nft_holds(after, family, table, name)
            &&& table_position(after.tables, nft_proto(family)->0, encode_utf8(table)) == Some(i)
            &&& set_position(after.tables[i].sets, encode_utf8(name)) == Some(j)
            &&& nft_set_of(after, family, table, name).members == members
            &&& nft_set_of(after, family, table, name).shape == nft_set_of(
                k,
                family,
                table,
                name,
            ).shape
            &&& after.tables.len() == k.tables.len()
            &&& after.tables[i].sets.len() == k.tables[i].sets.len()
        }),
{
    let proto = nft_proto(family)->0;
    let i = table_position(k.tables, proto, encode_utf8(table))->0;
    lemma_table_position(k.tables, proto, encode_utf8(table));
    let j = set_position(k.tables[i].sets, encode_utf8(name))->0;
    lemma_set_position(k.tables[i].sets, encode_utf8(name));
    let after = with_members(k, i, j, members);
    lemma_table_position_same(after.tables, k.tables, proto, encode_utf8(table));
    lemma_set_position_same(after.tables[i].sets, k.tables[i].sets, encode_utf8(name));
}

/// On nftables, an address that was added is a member, and one that was
/// deleted is none.
///
/// For every set and every address of the width of the set, in a table of
/// whatever family: adding the address succeeds, and a test then says
/// "yes". Deleting it then succeeds, and a test says "no".
pub proof fn law_nft_add_test_del_test(
    k: KernelView,
    family: Seq<char>,
    table: Seq<char>,
    name: Seq<char>,
    entry: IpEntry,
    probe: IpEntry,
)
    requires
        nft_takes(k, family, table, name, entry.addr),
        probe.addr == entry.addr,
    ensures
        ({
            let added = meaning(k, Operation::NftAdd { family, table, name, entry });
            let tested = meaning(added.0, Operation::NftTest { family, table, name, entry: probe });
            let deleted = meaning(
                tested.0,
                Operation::NftDel { family, table, name, entry: probe },
            );
            let retested = meaning(
                deleted.0,
                Operation::NftTest { family, table, name, entry: probe },
            );
            &&& added.1 == Ok::<OutcomeView, ErrorView>(OutcomeView::Done)
            &&& tested.1 == Ok::<OutcomeView, ErrorView>(OutcomeView::Member(true))
            &&& deleted.1 == Ok::<OutcomeView, ErrorView>(OutcomeView::Done)
            &&& retested.1 == Ok::<OutcomeView, ErrorView>(OutcomeView::Member(false))
        }),
{
    let set = nft_set_of(k, family, table, name);
    let added = meaning(k, Operation::NftAdd { family, table, name, entry });
    lemma_nft_members_changed(k, family, table, name, add_one(set.members, entry));
    lemma_add_one(set.members, entry, entry.addr);
    let tested = meaning(added.0, Operation::NftTest { family, table, name, entry: probe });
    assert(tested.0 == added.0);
    let held = nft_set_of(added.0, family, table, name).members;
    let deleted = meaning(tested.0, Operation::NftDel { family, table, name, entry: probe });
    lemma_nft_members_changed(added.0, family, table, name, without(held, entry.addr));
    lemma_without(held, entry.addr, entry.addr);
}

/// On nftables, adding an address whose width is not that of the keys of
/// the set fails with a family mismatch and leaves the kernel as it is.
/// So do deleting it and asking for it.
pub proof fn law_nft_family_mismatch(
    k: KernelView,
    family: Seq<char>,
    table: Seq<char>,
    name: Seq<char>,
    entry: IpEntry,
)
    requires
        nft_holds(k, family, table, name),
        entry.addr.width() != nft_set_of(k, family, table, name).shape.key_len,
    ensures
        ({
            let mismatch = (k, Err::<OutcomeView, ErrorView>(ErrorView::FamilyMismatch));
            &&& meaning(k, Operation::NftAdd { family, table, name, entry }) == mismatch
            &&& meaning(k, Operation::NftDel { family, table, name, entry }) == mismatch
            &&& meaning(k, Operation::NftTest { family, table, name, entry }) == mismatch
        }),
{
}

/// On nftables, every operation on a set that the kernel does not hold,
/// or whose table it does not hold, fails with "not found" and leaves the
/// kernel as it is.
pub proof fn law_nft_missing_set(
    k: KernelView,
    family: Seq<char>,
    table: Seq<char>,
    name: Seq<char>,
    entry: IpEntry,
)
    requires
        nft_proto(family) is Some,
        valid_name(encode_utf8(table), NFT_MAX_NAME as int),
        valid_name(encode_utf8(name), NFT_MAX_NAME as int),
        !nft_holds(k, family, table, name),
    ensures
        ({
            let missing = (k, Err::<OutcomeView, ErrorView>(ErrorView::NotFound));
            &&& meaning(k, Operation::NftDeleteSet { family, table, name }) == missing
            &&& meaning(k, Operation::NftFlush { family, table, name }) == missing
            &&& meaning(k, Operation::NftList { family, table, name }) == missing
            &&& meaning(k, Operation::NftAdd { family, table, name, entry }) == missing
            &&& meaning(k, Operation::NftDel { family, table, name, entry }) == missing
            &&& meaning(k, Operation::NftTest { family, table, name, entry }) == missing
        }),
{
}

/// On nftables, rename and swap fail as unsupported, whatever their
/// arguments, and leave the kernel as it is.
pub proof fn law_nft_rename_swap_unsupported(
    k: KernelView,
    family: Seq<char>,
    table: Seq<char>,
    from: Seq<char>,
    to: Seq<char>,
)
    ensures
        meaning(k, Operation::NftRename { family, table, from, to }) == (
            k,
            Err::<OutcomeView, ErrorView>(ErrorView::Unsupported),
        ),
        meaning(k, Operation::NftSwap { family, table, from, to }) == (
            k,
            Err::<OutcomeView, ErrorView>(ErrorView::Unsupported),
        ),
{
}

/// On nftables, a flush empties the set and leaves every table and set in
/// place: the set then lists as empty, and creating it again fails because
/// it is still there, whatever kind of set is asked for.
pub proof fn law_nft_flush(
    k: KernelView,
    family: Seq<char>,
    table: Seq<char>,
    name: Seq<char>,
    options: NftSetCreateOptions,
)
    requires
        nft_holds(k, family, table, name),
    ensures
        ({
            let flushed = meaning(k, Operation::NftFlush { family, table, name });
            let i = table_position(k.tables, nft_proto(family)->0, encode_utf8(table))->0;
            let j = set_position(k.tables[i].sets, encode_utf8(name))->0;
            &&& flushed.1 == Ok::<OutcomeView, ErrorView>(OutcomeView::Done)
            &&& flushed.0 == with_members(k, i, j, Seq::empty())
            &&& flushed.0.ipsets == k.ipsets
            &&& flushed.0.tables.len() == k.tables.len()
            &&& flushed.0.tables[i].sets.len() == k.tables[i].sets.len()
            &&& nft_holds(flushed.0, family, table, name)
            &&& nft_set_of(flushed.0, family, table, name).shape == nft_set_of(
                k,
                family,
                table,
                name,
            ).shape
            &&& meaning(flushed.0, Operation::NftList { family, table, name }) == (
                flushed.0,
                Ok::<OutcomeView, ErrorView>(OutcomeView::Entries(Seq::empty())),
            )
            &&& meaning(flushed.0, Operation::NftCreateSet { family, table, name, options }) == (
                flushed.0,
                Err::<OutcomeView, ErrorView>(ErrorView::AlreadyExists),
            )
        }),
{
    lemma_nft_members_changed(k, family, table, name, Seq::empty());
    assert(addresses(Seq::<IpEntry>::empty()) =~= Seq::<IpAddress>::empty());
}

/// On nftables, a table that holds sets cannot be deleted; one that holds
/// none can. Deleting a set leaves the table with one set less.
pub proof fn law_nft_delete_table(
    k: KernelView,
    family: Seq<char>,
    table: Seq<char>,
    name: Seq<char>,
)
    requires
        nft_proto(family) is Some,
        valid_name(encode_utf8(table), NFT_MAX_NAME as int),
        table_position(k.tables, nft_proto(family)->0, encode_utf8(table)) is Some,
    ensures
        ({
            let i = table_position(k.tables, nft_proto(family)->0, encode_utf8(table))->0;
            let deleted = meaning(k, Operation::NftDeleteTable { family, table });
            let unset = meaning(k, Operation::NftDeleteSet { family, table, name });
            &&& k.tables[i].sets.len() > 0 ==> deleted == (
                k,
                Err::<OutcomeView, ErrorView>(
                    ErrorView::ProtocolError(KERNEL_EBUSY, describe(KERNEL_EBUSY)),
                ),
            )
            &&& k.tables[i].sets.len() == 0 ==> deleted == (
                KernelView { tables: k.tables.remove(i), ..k },
                Ok::<OutcomeView, ErrorView>(OutcomeView::Done),
            )
            &&& nft_holds(k, family, table, name) ==> {
                &&& unset.1 == Ok::<OutcomeView, ErrorView>(OutcomeView::Done)
                &&& table_position(unset.0.tables, nft_proto(family)->0, encode_utf8(table))
                    == Some(i)
                &&& unset.0.tables[i].sets.len() == k.tables[i].sets.len() - 1
            }
        }),
{
    let proto = nft_proto(family)->0;
    let i = table_position(k.tables, proto, encode_utf8(table))->0;
    lemma_table_position(k.tables, proto, encode_utf8(table));
    if nft_holds(k, family, table, name) {
        let j = set_position(k.tables[i].sets, encode_utf8(name))->0;
        lemma_set_position(k.tables[i].sets, encode_utf8(name));
        let unset = meaning(k, Operation::NftDeleteSet { family, table, name });
        assert(unset.0 == with_sets(k, i, k.tables[i].sets.remove(j)));
        lemma_table_position_same(unset.0.tables, k.tables, proto, encode_utf8(table));
    }
}

/// On nftables, a set that was just created lists as empty.
pub proof fn law_nft_fresh_set_is_empty(
    k: KernelView,
    family: Seq<char>,
    table: Seq<char>,
    name: Seq<char>,
    options: NftSetCreateOptions,
)
    requires
        nft_proto(family) is Some,
        valid_name(encode_utf8(table), NFT_MAX_NAME as int),
        valid_name(encode_utf8(name), NFT_MAX_NAME as int),
        table_position(k.tables, nft_proto(family)->0, encode_utf8(table)) is Some,
        !nft_holds(k, family, table, name),
    ensures
        ({
            let created = meaning(k, Operation::NftCreateSet { family, table, name, options });
            &&& created.1 == Ok::<OutcomeView, ErrorView>(OutcomeView::Done)
            &&& meaning(created.0, Operation::NftList { family, table, name }) == (
                created.0,
                Ok::<OutcomeView, ErrorView>(OutcomeView::Entries(Seq::empty())),
            )
        }),
{
    let proto = nft_proto(family)->0;
    let t = encode_utf8(table);
    let n = encode_utf8(name);
    let i = table_position(k.tables, proto, t)->0;
    lemma_table_position(k.tables, proto, t);
    let sets = k.tables[i].sets;
    let created = meaning(k, Operation::NftCreateSet { family, table, name, options });
    let set = NftSetRecord {
        name: n,
        shape: shape_of_options(options),
        members: Seq::<IpEntry>::empty(),
    };
    assert(created.0 == with_sets(k, i, sets.push(set)));
    lemma_table_position_same(created.0.tables, k.tables, proto, t);
    lemma_set_position_push(sets, set, n);
    assert(addresses(Seq::<IpEntry>::empty()) =~= Seq::<IpAddress>::empty());
}

/// The kernel after each of `addrs` was added to the nftables set `name`,
/// in order.
pub open spec fn nft_filled(
    k: KernelView,
    family: Seq<char>,
    table: Seq<char>,
    name: Seq<char>,
    addrs: Seq<IpAddress>,
) -> KernelView
    decreases addrs.len(),
{
    if addrs.len() == 0 {
        k
    } else {
        meaning(
            nft_filled(k, family, table, name, addrs.drop_last()),
            Operation::NftAdd { family, table, name, entry: plain(addrs.last()) },
        ).0
    }
}

/// On nftables, a set that was empty and got N distinct addresses lists
/// exactly those N addresses.
///
/// The listing holds them in the order they were added, so it has as many
/// entries as were added and holds each of them, in whatever order they
/// came.
pub proof fn law_nft_list_after_adds(
    k: KernelView,
    family: Seq<char>,
    table: Seq<char>,
    name: Seq<char>,
    addrs: Seq<IpAddress>,
)
    requires
        nft_holds(k, family, table, name),
        nft_set_of(k, family, table, name).members.len() == 0,
        addrs.no_duplicates(),
        forall|n: int|
            0 <= n < addrs.len() ==> (#[trigger] addrs[n]).width() == nft_set_of(
                k,
                family,
                table,
                name,
            ).shape.key_len,
    ensures
        meaning(
            nft_filled(k, family, table, name, addrs),
            Operation::NftList { family, table, name },
        ).1 == Ok::<OutcomeView, ErrorView>(OutcomeView::Entries(addrs)),
        nft_holds(nft_filled(k, family, table, name, addrs), family, table, name),
        addresses(nft_set_of(nft_filled(k, family, table, name, addrs), family, table, name).members)
            == addrs,
        nft_set_of(nft_filled(k, family, table, name, addrs), family, table, name).shape
            == nft_set_of(k, family, table, name).shape,
    decreases addrs.len(),
{
    if addrs.len() == 0 {
        assert(addresses(nft_set_of(k, family, table, name).members) =~= addrs);
    } else {
        let front = addrs.drop_last();
        let last = addrs.last();
        assert forall|n: int| 0 <= n < front.len() implies (#[trigger] front[n]).width()
            == nft_set_of(k, family, table, name).shape.key_len by {
            assert(front[n] == addrs[n]);
        }
        assert(front.no_duplicates()) by {
            assert forall|a: int, b: int| 0 <= a < front.len() && 0 <= b < front.len() && a
                != b implies front[a] != front[b] by {
                assert(front[a] == addrs[a]);
                assert(front[b] == addrs[b]);
            }
        }
        law_nft_list_after_adds(k, family, table, name, front);
        let before = nft_filled(k, family, table, name, front);
        let members = nft_set_of(before, family, table, name).members;
        assert(addrs[addrs.len() - 1] == last);
        assert(!has_member(members, last)) by {
            if has_member(members, last) {
                let p = choose|p: int| 0 <= p < members.len() && (#[trigger] members[p]).addr
                    == last;
                assert(addresses(members)[p] == members[p].addr);
                assert(front[p] == addrs[p]);
            }
        }
        lemma_nft_members_changed(before, family, table, name, members.push(plain(last)));
        assert(addresses(members.push(plain(last))) =~= addresses(members).push(last));
        assert(front.push(last) =~= addrs);
    }
}

/// An operation that fails leaves the kernel as it is: none is carried out
/// in part.
pub proof fn law_failure_changes_nothing(k: KernelView, op: Operation<Seq<char>>)
    ensures
        meaning(k, op).1 is Err ==> meaning(k, op).0 == k,
{
}

/// A test and a listing leave the kernel as it is, whatever they answer.
pub proof fn law_queries_change_nothing(k: KernelView, op: Operation<Seq<char>>)
    requires
        op is IpsetTest || op is IpsetList || op is NftTest || op is NftList || op
            is NftListTables,
    ensures
        meaning(k, op).0 == k,
{
}

/// On ipset, a set that was destroyed is gone: in a kernel whose names
/// each stand for one object, nothing is left under the name, and a
/// listing or a second destroy fails with "not found".
pub proof fn law_ipset_destroyed_is_gone(k: KernelView, name: Seq<char>)
    requires
        k.unique(),
        valid_name(encode_utf8(name), IPSET_MAX_NAME as int),
        ipset_position(k.ipsets, encode_utf8(name)) is Some,
    ensures
        ({
            let destroyed = meaning(k, Operation::IpsetDestroy { name });
            let missing = (destroyed.0, Err::<OutcomeView, ErrorView>(ErrorView::NotFound));
            &&& destroyed.1 == Ok::<OutcomeView, ErrorView>(OutcomeView::Done)
            &&& destroyed.0.ipsets.len() == k.ipsets.len() - 1
            &&& ipset_position(destroyed.0.ipsets, encode_utf8(name)) is None
            &&& meaning(destroyed.0, Operation::IpsetList { name }) == missing
            &&& meaning(destroyed.0, Operation::IpsetDestroy { name }) == missing
        }),
{
    let octets = encode_utf8(name);
    lemma_ipset_position(k.ipsets, octets);
    lemma_ipset_removed_gone(k.ipsets, ipset_position(k.ipsets, octets)->0);
}

/// On ipset, a set that was renamed is found under its new name only: in
/// a kernel whose names each stand for one object, a listing under the new
/// name gives what one under the old name gave, and nothing is left under
/// the old name.
pub proof fn law_ipset_renamed_is_moved(k: KernelView, from: Seq<char>, to: Seq<char>)
    requires
        k.unique(),
        valid_name(encode_utf8(from), IPSET_MAX_NAME as int),
        valid_name(encode_utf8(to), IPSET_MAX_NAME as int),
        ipset_position(k.ipsets, encode_utf8(from)) is Some,
        ipset_position(k.ipsets, encode_utf8(to)) is None,
    ensures
        ({
            let renamed = meaning(k, Operation::IpsetRename { from, to });
            &&& renamed.1 == Ok::<OutcomeView, ErrorView>(OutcomeView::Done)
            &&& renamed.0.ipsets.len() == k.ipsets.len()
            &&& meaning(renamed.0, Operation::IpsetList { name: from }) == (
                renamed.0,
                Err::<OutcomeView, ErrorView>(ErrorView::NotFound),
            )
            &&& meaning(renamed.0, Operation::IpsetList { name: to }) == (
                renamed.0,
                meaning(k, Operation::IpsetList { name: from }).1,
            )
        }),
{
    let first = encode_utf8(from);
    let second = encode_utf8(to);
    lemma_ipset_position(k.ipsets, first);
    let i = ipset_position(k.ipsets, first)->0;
    lemma_ipset_renamed(k.ipsets, i, IpsetRecord { name: second, ..k.ipsets[i] });
}

/// On nftables, a set or a table that was deleted is gone: in a kernel
/// whose names each stand for one object, nothing is left under the name,
/// and a listing of the set fails with "not found".
pub proof fn law_nft_deleted_is_gone(
    k: KernelView,
    family: Seq<char>,
    table: Seq<char>,
    name: Seq<char>,
)
    requires
        k.unique(),
        nft_proto(family) is Some,
        valid_name(encode_utf8(table), NFT_MAX_NAME as int),
        valid_name(encode_utf8(name), NFT_MAX_NAME as int),
        table_position(k.tables, nft_proto(family)->0, encode_utf8(table)) is Some,
    ensures
        ({
            let unset = meaning(k, Operation::NftDeleteSet { family, table, name });
            let dropped = meaning(k, Operation::NftDeleteTable { family, table });
            &&& nft_holds(k, family, table, name) ==> {
                &&& unset.1 == Ok::<OutcomeView, ErrorView>(OutcomeView::Done)
                &&& !nft_holds(unset.0, family, table, name)
                &&& meaning(unset.0, Operation::NftList { family, table, name }) == (
                    unset.0,
                    Err::<OutcomeView, ErrorView>(ErrorView::NotFound),
                )
            }
            &&& dropped.1 is Ok ==> {
                &&& table_position(dropped.0.tables, nft_proto(family)->0, encode_utf8(table))
                    is None
                &&& meaning(dropped.0, Operation::NftList { family, table, name }) == (
                    dropped.0,
                    Err::<OutcomeView, ErrorView>(ErrorView::NotFound),
                )
            }
        }),
{
    let proto = nft_proto(family)->0;
    let t = encode_utf8(table);
    let n = encode_utf8(name);
    let i = table_position(k.tables, proto, t)->0;
    lemma_table_position(k.tables, proto, t);
    lemma_table_removed_gone(k.tables, i);
    if nft_holds(k, family, table, name) {
        let sets = k.tables[i].sets;
        let j = set_position(sets, n)->0;
        lemma_set_position(sets, n);
        assert(set_names_unique(k.tables[i].sets));
        lemma_set_removed_gone(sets, j);
        let unset = meaning(k, Operation::NftDeleteSet { family, table, name });
        assert(unset.0 == with_sets(k, i, sets.remove(j)));
        lemma_table_position_same(unset.0.tables, k.tables, proto, t);
    }
}

} // verus!
