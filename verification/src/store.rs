//! What a kernel holds: ipset sets, and nftables tables with their sets.
//! These are the records of the reference kernel in [`crate::kernel`], and
//! the searches and updates on them.

use vstd::prelude::*;
use crate::entry::{IpAddress, IpEntry};
use crate::message::SetShape;

verus! {

/// An ipset set.
///
/// `B` is the type of a name, `L` the type of a list of members.
#[derive(Clone, Debug)]
pub struct IpsetRecord<B, L> {
    pub name: B,
    /// The name of the set type: `hash:ip` or `hash:net`.
    pub set_type: B,
    /// The protocol family of the set.
    pub family: u8,
    /// The default timeout of a member.
    pub timeout: Option<u32>,
    pub members: L,
}

/// A set of an nftables table.
#[derive(Clone, Debug)]
pub struct NftSetRecord<B, L> {
    pub name: B,
    pub shape: SetShape,
    pub members: L,
}

/// An nftables table. `S` is the type of the list of its sets.
#[derive(Clone, Debug)]
pub struct NftTableRecord<B, S> {
    pub family: u8,
    pub name: B,
    pub sets: S,
}

/// An ipset set as a mathematical value.
pub type IpsetView = IpsetRecord<Seq<u8>, Seq<IpEntry>>;

/// A set of an nftables table as a mathematical value.
pub type NftSetView = NftSetRecord<Seq<u8>, Seq<IpEntry>>;

/// An nftables table as a mathematical value.
pub type NftTableView = NftTableRecord<Seq<u8>, Seq<NftSetView>>;

impl View for IpsetRecord<Vec<u8>, Vec<IpEntry>> {
    type V = IpsetView;

    open spec fn view(&self) -> IpsetView {
        IpsetRecord {
            name: self.name@,
            set_type: self.set_type@,
            family: self.family,
            timeout: self.timeout,
            members: self.members@,
        }
    }
}

impl View for NftSetRecord<Vec<u8>, Vec<IpEntry>> {
    type V = NftSetView;

    open spec fn view(&self) -> NftSetView {
        NftSetRecord { name: self.name@, shape: self.shape, members: self.members@ }
    }
}

/// The sets of a vector as mathematical values.
pub open spec fn set_views(sets: Seq<NftSetRecord<Vec<u8>, Vec<IpEntry>>>) -> Seq<NftSetView> {
    Seq::new(sets.len(), |i: int| sets[i]@)
}

impl View for NftTableRecord<Vec<u8>, Vec<NftSetRecord<Vec<u8>, Vec<IpEntry>>>> {
    type V = NftTableView;

    open spec fn view(&self) -> NftTableView {
        NftTableRecord { family: self.family, name: self.name@, sets: set_views(self.sets@) }
    }
}

/// Whether `members` holds a member with the address `addr`.
pub open spec fn has_member(members: Seq<IpEntry>, addr: IpAddress) -> bool {
    exists|i: int| 0 <= i < members.len() && (#[trigger] members[i]).addr == addr
}

/// `members` without the members that have the address `addr`.
pub open spec fn without(members: Seq<IpEntry>, addr: IpAddress) -> Seq<IpEntry>
    decreases members.len(),
{
    if members.len() == 0 {
        Seq::empty()
    } else if members.last().addr == addr {
        without(members.drop_last(), addr)
    } else {
        without(members.drop_last(), addr).push(members.last())
    }
}

/// `members` with `e` behind them, unless they hold its address already.
pub open spec fn add_one(members: Seq<IpEntry>, e: IpEntry) -> Seq<IpEntry> {
    if has_member(members, e.addr) {
        members
    } else {
        members.push(e)
    }
}

/// `members` with each of `elements` added in turn.
pub open spec fn add_all(members: Seq<IpEntry>, elements: Seq<IpEntry>) -> Seq<IpEntry>
    decreases elements.len(),
{
    if elements.len() == 0 {
        members
    } else {
        add_all(add_one(members, elements[0]), elements.drop_first())
    }
}

/// `members` without the members that have the address of one of
/// `elements`.
pub open spec fn remove_all(members: Seq<IpEntry>, elements: Seq<IpEntry>) -> Seq<IpEntry>
    decreases elements.len(),
{
    if elements.len() == 0 {
        members
    } else {
        remove_all(without(members, elements[0].addr), elements.drop_first())
    }
}

/// Whether `members` holds the address of each of `elements`.
pub open spec fn all_present(members: Seq<IpEntry>, elements: Seq<IpEntry>) -> bool {
    forall|i: int| 0 <= i < elements.len() ==> has_member(members, (#[trigger] elements[i]).addr)
}

/// Those of `elements` whose address `members` holds, in order.
pub open spec fn present(members: Seq<IpEntry>, elements: Seq<IpEntry>) -> Seq<IpEntry>
    decreases elements.len(),
{
    if elements.len() == 0 {
        Seq::empty()
    } else if has_member(members, elements.last().addr) {
        present(members, elements.drop_last()).push(elements.last())
    } else {
        present(members, elements.drop_last())
    }
}

/// Whether each of `elements` has an address of `width` octets.
pub open spec fn all_width(elements: Seq<IpEntry>, width: nat) -> bool {
    forall|i: int| 0 <= i < elements.len() ==> (#[trigger] elements[i]).addr.width() == width
}

/// Position of the first ipset set named `name`.
pub open spec fn ipset_position(sets: Seq<IpsetView>, name: Seq<u8>) -> Option<int>
    decreases sets.len(),
{
    if sets.len() == 0 {
        None
    } else {
        match ipset_position(sets.drop_last(), name) {
            Some(i) => Some(i),
            None => if sets.last().name == name {
                Some(sets.len() - 1)
            } else {
                None
            },
        }
    }
}

/// Position of the first table of the family `family` named `name`.
pub open spec fn table_position(tables: Seq<NftTableView>, family: u8, name: Seq<u8>) -> Option<
    int,
>
    decreases tables.len(),
{
    if tables.len() == 0 {
        None
    } else {
        match table_position(tables.drop_last(), family, name) {
            Some(i) => Some(i),
            None => if tables.last().family == family && tables.last().name == name {
                Some(tables.len() - 1)
            } else {
                None
            },
        }
    }
}

/// Position of the first set named `name`.
pub open spec fn set_position(sets: Seq<NftSetView>, name: Seq<u8>) -> Option<int>
    decreases sets.len(),
{
    if sets.len() == 0 {
        None
    } else {
        match set_position(sets.drop_last(), name) {
            Some(i) => Some(i),
            None => if sets.last().name == name {
                Some(sets.len() - 1)
            } else {
                None
            },
        }
    }
}

/// `ipset_position` is the least position that holds a set of that name.
pub proof fn lemma_ipset_position(sets: Seq<IpsetView>, name: Seq<u8>)
    ensures
        match ipset_position(sets, name) {
            Some(i) => 0 <= i < sets.len() && sets[i].name == name && forall|j: int|
                0 <= j < i ==> sets[j].name != name,
            None => forall|j: int| 0 <= j < sets.len() ==> sets[j].name != name,
        },
    decreases sets.len(),
{
    if sets.len() > 0 {
        let front = sets.drop_last();
        lemma_ipset_position(front, name);
        assert forall|j: int| 0 <= j < front.len() implies front[j] == sets[j] by {}
    }
}

/// `table_position` is the least position that holds a table of that
/// family and name.
pub proof fn lemma_table_position(tables: Seq<NftTableView>, family: u8, name: Seq<u8>)
    ensures
        match table_position(tables, family, name) {
            Some(i) => 0 <= i < tables.len() && tables[i].family == family && tables[i].name
                == name && forall|j: int|
                0 <= j < i ==> !(tables[j].family == family && tables[j].name == name),
            None => forall|j: int|
                0 <= j < tables.len() ==> !(tables[j].family == family && tables[j].name == name),
        },
    decreases tables.len(),
{
    if tables.len() > 0 {
        let front = tables.drop_last();
        lemma_table_position(front, family, name);
        assert forall|j: int| 0 <= j < front.len() implies front[j] == tables[j] by {}
    }
}

/// `set_position` is the least position that holds a set of that name.
pub proof fn lemma_set_position(sets: Seq<NftSetView>, name: Seq<u8>)
    ensures
        match set_position(sets, name) {
            Some(i) => 0 <= i < sets.len() && sets[i].name == name && forall|j: int|
                0 <= j < i ==> sets[j].name != name,
            None => forall|j: int| 0 <= j < sets.len() ==> sets[j].name != name,
        },
    decreases sets.len(),
{
    if sets.len() > 0 {
        let front = sets.drop_last();
        lemma_set_position(front, name);
        assert forall|j: int| 0 <= j < front.len() implies front[j] == sets[j] by {}
    }
}

/// Whether two runs of octets are the same.
pub fn same_octets(a: &[u8], b: &[u8]) -> (same: bool)
    ensures
        same == (a@ == b@),
{
    if a.len() != b.len() {
        return false;
    }
    let n = a.len();
    let mut i: usize = 0;
    while i < n
        invariant
            n == a@.len(),
            n == b@.len(),
            i <= n,
            forall|j: int| 0 <= j < i ==> a@[j] == b@[j],
        decreases n - i,
    {
        if a[i] != b[i] {
            return false;
        }
        i += 1;
    }
    assert(a@ =~= b@);
    true
}

/// Whether `members` holds a member with the address `addr`.
pub fn find_member(members: &Vec<IpEntry>, addr: IpAddress) -> (found: bool)
    ensures
        found == has_member(members@, addr),
{
    let n = members.len();
    let mut i: usize = 0;
    while i < n
        invariant
            n == members@.len(),
            i <= n,
            forall|j: int| 0 <= j < i ==> members@[j].addr != addr,
        decreases n - i,
    {
        if members[i].addr == addr {
            return true;
        }
        i += 1;
    }
    false
}

/// `members` without the members that have the address `addr`.
pub fn drop_member(members: &Vec<IpEntry>, addr: IpAddress) -> (out: Vec<IpEntry>)
    ensures
        out@ == without(members@, addr),
{
    let mut out: Vec<IpEntry> = Vec::new();
    let n = members.len();
    let mut i: usize = 0;
    assert(members@.subrange(0, 0) =~= Seq::empty());
    while i < n
        invariant
            n == members@.len(),
            i <= n,
            out@ == without(members@.subrange(0, i as int), addr),
        decreases n - i,
    {
        let ghost next = members@.subrange(0, i as int + 1);
        assert(next.drop_last() =~= members@.subrange(0, i as int));
        if members[i].addr != addr {
            out.push(members[i]);
        }
        i += 1;
    }
    assert(members@.subrange(0, n as int) =~= members@);
    out
}

/// Nothing with the address `addr` is left in `without(members, addr)`,
/// and every other address is in it exactly if it was in `members`.
pub proof fn lemma_without(members: Seq<IpEntry>, addr: IpAddress, other: IpAddress)
    ensures
        !has_member(without(members, addr), addr),
        other != addr ==> (has_member(without(members, addr), other) <==> has_member(
            members,
            other,
        )),
        without(members, addr).len() <= members.len(),
    decreases members.len(),
{
    if members.len() > 0 {
        let front = members.drop_last();
        let last = members.last();
        lemma_without(front, addr, other);
        let kept = without(front, addr);
        if last.addr != addr {
            assert forall|i: int| 0 <= i < kept.push(last).len() implies (#[trigger] kept.push(
                last,
            )[i]).addr != addr by {
                if i < kept.len() {
                    assert(kept.push(last)[i] == kept[i]);
                }
            }
        }
        if other != addr {
            if has_member(members, other) {
                let i = choose|i: int| 0 <= i < members.len() && (#[trigger] members[i]).addr
                    == other;
                if i < front.len() {
                    assert(front[i].addr == other);
                    let j = choose|j: int| 0 <= j < kept.len() && (#[trigger] kept[j]).addr
                        == other;
                    assert(without(members, addr)[j] == kept[j]);
                } else {
                    assert(last.addr == other);
                    assert(without(members, addr) == kept.push(last));
                    assert(kept.push(last)[kept.len() as int].addr == other);
                }
            }
            if has_member(without(members, addr), other) {
                let w = without(members, addr);
                let j = choose|j: int| 0 <= j < w.len() && (#[trigger] w[j]).addr == other;
                if j < kept.len() {
                    assert(kept[j].addr == other);
                    let i = choose|i: int| 0 <= i < front.len() && (#[trigger] front[i]).addr
                        == other;
                    assert(members[i].addr == other);
                } else {
                    assert(members[members.len() - 1].addr == other);
                }
            }
        }
    }
}

/// A member that was added is held; what was held before still is.
pub proof fn lemma_add_one(members: Seq<IpEntry>, e: IpEntry, other: IpAddress)
    ensures
        has_member(add_one(members, e), e.addr),
        has_member(members, other) ==> has_member(add_one(members, e), other),
        has_member(add_one(members, e), other) ==> other == e.addr || has_member(members, other),
{
    let after = add_one(members, e);
    if !has_member(members, e.addr) {
        assert(after[members.len() as int].addr == e.addr);
        if has_member(members, other) {
            let i = choose|i: int| 0 <= i < members.len() && (#[trigger] members[i]).addr == other;
            assert(after[i].addr == other);
        }
        if has_member(after, other) {
            let i = choose|i: int| 0 <= i < after.len() && (#[trigger] after[i]).addr == other;
            if i < members.len() {
                assert(members[i].addr == other);
            }
        }
    }
}

/// Adding one element is what adding a list of one element does, and
/// likewise for removing and for being present.
pub proof fn lemma_one_element(members: Seq<IpEntry>, e: IpEntry)
    ensures
        add_all(members, seq![e]) == add_one(members, e),
        remove_all(members, seq![e]) == without(members, e.addr),
        all_present(members, seq![e]) == has_member(members, e.addr),
        present(members, seq![e]) == if has_member(members, e.addr) {
            seq![e]
        } else {
            Seq::empty()
        },
        all_width(seq![e], e.addr.width()),
        forall|w: nat| all_width(seq![e], w) ==> w == e.addr.width(),
{
    let one = seq![e];
    assert(one.drop_first() =~= Seq::<IpEntry>::empty());
    assert(one.drop_last() =~= Seq::<IpEntry>::empty());
    assert(add_all(add_one(members, e), Seq::empty()) == add_one(members, e));
    assert(remove_all(without(members, e.addr), Seq::empty()) == without(members, e.addr));
    assert(one[0] == e);
    assert(present(members, Seq::<IpEntry>::empty()) =~= Seq::<IpEntry>::empty());
    assert(Seq::<IpEntry>::empty().push(e) =~= seq![e]);
    assert forall|w: nat| all_width(seq![e], w) implies w == e.addr.width() by {
        assert(one[0].addr.width() == w);
    }
}

/// Whether no two of `members` have the same address.
pub open spec fn distinct(members: Seq<IpEntry>) -> bool {
    forall|i: int, j: int|
        0 <= i < j < members.len() ==> (#[trigger] members[i]).addr != (#[trigger] members[j]).addr
}

/// Taking an address out of members that do not hold it changes nothing.
pub proof fn lemma_without_absent(members: Seq<IpEntry>, addr: IpAddress)
    requires
        !has_member(members, addr),
    ensures
        without(members, addr) == members,
    decreases members.len(),
{
    if members.len() > 0 {
        let front = members.drop_last();
        assert(members.last() == members[members.len() - 1]);
        assert forall|i: int| 0 <= i < front.len() implies (#[trigger] front[i]).addr != addr by {
            assert(front[i] == members[i]);
        }
        lemma_without_absent(front, addr);
        assert(front.push(members.last()) =~= members);
    } else {
        assert(members =~= Seq::empty());
    }
}

/// Taking the address of the member at `p` out of members with distinct
/// addresses takes out that member and no other.
pub proof fn lemma_without_one(members: Seq<IpEntry>, p: int)
    requires
        distinct(members),
        0 <= p < members.len(),
    ensures
        without(members, members[p].addr) == members.remove(p),
    decreases members.len(),
{
    let addr = members[p].addr;
    let front = members.drop_last();
    let last = members.last();
    assert forall|i: int, j: int| 0 <= i < j < front.len() implies (#[trigger] front[i]).addr != (
    #[trigger] front[j]).addr by {
        assert(front[i] == members[i]);
        assert(front[j] == members[j]);
    }
    if p == members.len() - 1 {
        assert forall|i: int| 0 <= i < front.len() implies (#[trigger] front[i]).addr != addr by {
            assert(front[i] == members[i]);
        }
        lemma_without_absent(front, addr);
        assert(members.remove(p) =~= front);
    } else {
        assert(front[p] == members[p]);
        assert(last == members[members.len() - 1]);
        lemma_without_one(front, p);
        assert(front.remove(p).push(last) =~= members.remove(p));
    }
}

/// Position of a table depends on the families and names of the tables
/// alone.
pub proof fn lemma_table_position_same(
    a: Seq<NftTableView>,
    b: Seq<NftTableView>,
    family: u8,
    name: Seq<u8>,
)
    requires
        a.len() == b.len(),
        forall|i: int|
            0 <= i < a.len() ==> (#[trigger] a[i]).family == b[i].family && a[i].name == b[i].name,
    ensures
        table_position(a, family, name) == table_position(b, family, name),
    decreases a.len(),
{
    if a.len() > 0 {
        assert forall|i: int| 0 <= i < a.drop_last().len() implies (#[trigger] a.drop_last()[i]).family
            == b.drop_last()[i].family && a.drop_last()[i].name == b.drop_last()[i].name by {
            assert(a.drop_last()[i] == a[i]);
            assert(b.drop_last()[i] == b[i]);
        }
        lemma_table_position_same(a.drop_last(), b.drop_last(), family, name);
        assert(a.last() == a[a.len() - 1]);
        assert(b.last() == b[a.len() - 1]);
    }
}

/// Position of a set depends on the names of the sets alone.
pub proof fn lemma_set_position_same(a: Seq<NftSetView>, b: Seq<NftSetView>, name: Seq<u8>)
    requires
        a.len() == b.len(),
        forall|i: int| 0 <= i < a.len() ==> (#[trigger] a[i]).name == b[i].name,
    ensures
        set_position(a, name) == set_position(b, name),
    decreases a.len(),
{
    if a.len() > 0 {
        assert forall|i: int| 0 <= i < a.drop_last().len() implies (#[trigger] a.drop_last()[i]).name
            == b.drop_last()[i].name by {
            assert(a.drop_last()[i] == a[i]);
            assert(b.drop_last()[i] == b[i]);
        }
        lemma_set_position_same(a.drop_last(), b.drop_last(), name);
        assert(a.last() == a[a.len() - 1]);
        assert(b.last() == b[a.len() - 1]);
    }
}

/// Position of an ipset set depends on the names of the sets alone.
pub proof fn lemma_ipset_position_same(a: Seq<IpsetView>, b: Seq<IpsetView>, name: Seq<u8>)
    requires
        a.len() == b.len(),
        forall|i: int| 0 <= i < a.len() ==> (#[trigger] a[i]).name == b[i].name,
    ensures
        ipset_position(a, name) == ipset_position(b, name),
    decreases a.len(),
{
    if a.len() > 0 {
        assert forall|i: int| 0 <= i < a.drop_last().len() implies (#[trigger] a.drop_last()[i]).name
            == b.drop_last()[i].name by {
            assert(a.drop_last()[i] == a[i]);
            assert(b.drop_last()[i] == b[i]);
        }
        lemma_ipset_position_same(a.drop_last(), b.drop_last(), name);
        assert(a.last() == a[a.len() - 1]);
        assert(b.last() == b[a.len() - 1]);
    }
}

/// Where a name is found among ipset sets that got one more set behind
/// them.
pub proof fn lemma_ipset_position_push(sets: Seq<IpsetView>, set: IpsetView, name: Seq<u8>)
    ensures
        ipset_position(sets.push(set), name) == match ipset_position(sets, name) {
            Some(i) => Some(i),
            None => if set.name == name {
                Some(sets.len() as int)
            } else {
                None
            },
        },
{
    assert(sets.push(set).drop_last() =~= sets);
}

/// Where a name is found among sets that got one more set behind them.
pub proof fn lemma_set_position_push(sets: Seq<NftSetView>, set: NftSetView, name: Seq<u8>)
    ensures
        set_position(sets.push(set), name) == match set_position(sets, name) {
            Some(i) => Some(i),
            None => if set.name == name {
                Some(sets.len() as int)
            } else {
                None
            },
        },
{
    assert(sets.push(set).drop_last() =~= sets);
}

/// Whether no two ipset sets have one name.
pub open spec fn ipset_names_unique(sets: Seq<IpsetView>) -> bool {
    forall|i: int, j: int|
        0 <= i < j < sets.len() ==> (#[trigger] sets[i]).name != (#[trigger] sets[j]).name
}

/// Whether no two tables of one family have one name.
pub open spec fn table_names_unique(tables: Seq<NftTableView>) -> bool {
    forall|i: int, j: int|
        0 <= i < j < tables.len() ==> !((#[trigger] tables[i]).family == (
        #[trigger] tables[j]).family && tables[i].name == tables[j].name)
}

/// Whether no two sets have one name.
pub open spec fn set_names_unique(sets: Seq<NftSetView>) -> bool {
    forall|i: int, j: int|
        0 <= i < j < sets.len() ==> (#[trigger] sets[i]).name != (#[trigger] sets[j]).name
}

/// Ipset sets with distinct names keep them when a set of a name that none
/// of them has comes behind them.
pub proof fn lemma_ipset_unique_push(sets: Seq<IpsetView>, set: IpsetView)
    requires
        ipset_names_unique(sets),
        ipset_position(sets, set.name) is None,
    ensures
        ipset_names_unique(sets.push(set)),
{
    lemma_ipset_position(sets, set.name);
    let grown = sets.push(set);
    assert forall|i: int, j: int| 0 <= i < j < grown.len() implies (#[trigger] grown[i]).name != (
    #[trigger] grown[j]).name by {
        assert(grown[i] == sets[i]);
        if j < sets.len() {
            assert(grown[j] == sets[j]);
        }
    }
}

/// Ipset sets with distinct names keep them when one of them is taken out.
pub proof fn lemma_ipset_unique_remove(sets: Seq<IpsetView>, p: int)
    requires
        ipset_names_unique(sets),
        0 <= p < sets.len(),
    ensures
        ipset_names_unique(sets.remove(p)),
{
    let fewer = sets.remove(p);
    assert forall|i: int, j: int| 0 <= i < j < fewer.len() implies (#[trigger] fewer[i]).name != (
    #[trigger] fewer[j]).name by {
        let a = if i < p {
            i
        } else {
            i + 1
        };
        let b = if j < p {
            j
        } else {
            j + 1
        };
        assert(fewer[i] == sets[a]);
        assert(fewer[j] == sets[b]);
    }
}

/// Ipset sets with distinct names keep them when one of them is replaced by
/// a set of its own name, or of a name that none of them has.
pub proof fn lemma_ipset_unique_update(sets: Seq<IpsetView>, p: int, set: IpsetView)
    requires
        ipset_names_unique(sets),
        0 <= p < sets.len(),
        set.name == sets[p].name || ipset_position(sets, set.name) is None,
    ensures
        ipset_names_unique(sets.update(p, set)),
{
    lemma_ipset_position(sets, set.name);
    let changed = sets.update(p, set);
    assert forall|i: int, j: int| 0 <= i < j < changed.len() implies (#[trigger] changed[i]).name
        != (#[trigger] changed[j]).name by {
        if i != p {
            assert(changed[i] == sets[i]);
        }
        if j != p {
            assert(changed[j] == sets[j]);
        }
        assert(sets[i].name != sets[j].name);
    }
}

/// Tables with distinct names keep them when a table of a family and name
/// that none of them has comes behind them.
pub proof fn lemma_table_unique_push(tables: Seq<NftTableView>, table: NftTableView)
    requires
        table_names_unique(tables),
        table_position(tables, table.family, table.name) is None,
    ensures
        table_names_unique(tables.push(table)),
{
    lemma_table_position(tables, table.family, table.name);
    let grown = tables.push(table);
    assert forall|i: int, j: int| 0 <= i < j < grown.len() implies !((#[trigger] grown[i]).family
        == (#[trigger] grown[j]).family && grown[i].name == grown[j].name) by {
        assert(grown[i] == tables[i]);
        if j < tables.len() {
            assert(grown[j] == tables[j]);
        }
    }
}

/// Tables with distinct names keep them when one of them is taken out.
pub proof fn lemma_table_unique_remove(tables: Seq<NftTableView>, p: int)
    requires
        table_names_unique(tables),
        0 <= p < tables.len(),
    ensures
        table_names_unique(tables.remove(p)),
{
    let fewer = tables.remove(p);
    assert forall|i: int, j: int| 0 <= i < j < fewer.len() implies !((#[trigger] fewer[i]).family
        == (#[trigger] fewer[j]).family && fewer[i].name == fewer[j].name) by {
        let a = if i < p {
            i
        } else {
            i + 1
        };
        let b = if j < p {
            j
        } else {
            j + 1
        };
        assert(fewer[i] == tables[a]);
        assert(fewer[j] == tables[b]);
    }
}

/// Tables with distinct names keep them when one of them is replaced by a
/// table of its own family and name.
pub proof fn lemma_table_unique_update(tables: Seq<NftTableView>, p: int, table: NftTableView)
    requires
        table_names_unique(tables),
        0 <= p < tables.len(),
        table.family == tables[p].family,
        table.name == tables[p].name,
    ensures
        table_names_unique(tables.update(p, table)),
{
    let changed = tables.update(p, table);
    assert forall|i: int, j: int| 0 <= i < j < changed.len() implies !((
    #[trigger] changed[i]).family == (#[trigger] changed[j]).family && changed[i].name
        == changed[j].name) by {
        if i != p {
            assert(changed[i] == tables[i]);
        }
        if j != p {
            assert(changed[j] == tables[j]);
        }
        assert(!(tables[i].family == tables[j].family && tables[i].name == tables[j].name));
    }
}

/// Sets with distinct names keep them when a set of a name that none of
/// them has comes behind them.
pub proof fn lemma_set_unique_push(sets: Seq<NftSetView>, set: NftSetView)
    requires
        set_names_unique(sets),
        set_position(sets, set.name) is None,
    ensures
        set_names_unique(sets.push(set)),
{
    lemma_set_position(sets, set.name);
    let grown = sets.push(set);
    assert forall|i: int, j: int| 0 <= i < j < grown.len() implies (#[trigger] grown[i]).name != (
    #[trigger] grown[j]).name by {
        assert(grown[i] == sets[i]);
        if j < sets.len() {
            assert(grown[j] == sets[j]);
        }
    }
}

/// Sets with distinct names keep them when one of them is taken out.
pub proof fn lemma_set_unique_remove(sets: Seq<NftSetView>, p: int)
    requires
        set_names_unique(sets),
        0 <= p < sets.len(),
    ensures
        set_names_unique(sets.remove(p)),
{
    let fewer = sets.remove(p);
    assert forall|i: int, j: int| 0 <= i < j < fewer.len() implies (#[trigger] fewer[i]).name != (
    #[trigger] fewer[j]).name by {
        let a = if i < p {
            i
        } else {
            i + 1
        };
        let b = if j < p {
            j
        } else {
            j + 1
        };
        assert(fewer[i] == sets[a]);
        assert(fewer[j] == sets[b]);
    }
}

/// Sets with distinct names keep them when one of them is replaced by a
/// set of its own name.
pub proof fn lemma_set_unique_update(sets: Seq<NftSetView>, p: int, set: NftSetView)
    requires
        set_names_unique(sets),
        0 <= p < sets.len(),
        set.name == sets[p].name,
    ensures
        set_names_unique(sets.update(p, set)),
{
    let changed = sets.update(p, set);
    assert forall|i: int, j: int| 0 <= i < j < changed.len() implies (#[trigger] changed[i]).name
        != (#[trigger] changed[j]).name by {
        if i != p {
            assert(changed[i] == sets[i]);
        }
        if j != p {
            assert(changed[j] == sets[j]);
        }
        assert(sets[i].name != sets[j].name);
    }
}

/// Among ipset sets with distinct names, the name of a set that is taken
/// out is found no more.
pub proof fn lemma_ipset_removed_gone(sets: Seq<IpsetView>, p: int)
    requires
        ipset_names_unique(sets),
        0 <= p < sets.len(),
    ensures
        ipset_position(sets.remove(p), sets[p].name) is None,
{
    let fewer = sets.remove(p);
    lemma_ipset_position(fewer, sets[p].name);
    if ipset_position(fewer, sets[p].name) is Some {
        let q = ipset_position(fewer, sets[p].name)->0;
        if q < p {
            assert(fewer[q] == sets[q]);
            assert(sets[q].name != sets[p].name);
        } else {
            assert(fewer[q] == sets[q + 1]);
            assert(sets[p].name != sets[q + 1].name);
        }
    }
}

/// Among ipset sets with distinct names, a set that gets a name that none
/// of them has is found under the new name, and nothing under the old one.
pub proof fn lemma_ipset_renamed(sets: Seq<IpsetView>, p: int, set: IpsetView)
    requires
        ipset_names_unique(sets),
        0 <= p < sets.len(),
        ipset_position(sets, set.name) is None,
    ensures
        ipset_position(sets.update(p, set), sets[p].name) is None,
        ipset_position(sets.update(p, set), set.name) == Some(p),
{
    let changed = sets.update(p, set);
    lemma_ipset_position(sets, set.name);
    lemma_ipset_position(changed, sets[p].name);
    lemma_ipset_position(changed, set.name);
    assert(sets[p].name != set.name);
    assert(changed[p].name == set.name);
    if ipset_position(changed, sets[p].name) is Some {
        let q = ipset_position(changed, sets[p].name)->0;
        assert(q != p);
        assert(changed[q] == sets[q]);
        if q < p {
            assert(sets[q].name != sets[p].name);
        } else {
            assert(sets[p].name != sets[q].name);
        }
    }
    let q = ipset_position(changed, set.name)->0;
    if q < p {
        assert(changed[q] == sets[q]);
    }
}

/// Among tables with distinct names, the name of a table that is taken out
/// is found no more in its family.
pub proof fn lemma_table_removed_gone(tables: Seq<NftTableView>, p: int)
    requires
        table_names_unique(tables),
        0 <= p < tables.len(),
    ensures
        table_position(tables.remove(p), tables[p].family, tables[p].name) is None,
{
    let fewer = tables.remove(p);
    let found = table_position(fewer, tables[p].family, tables[p].name);
    lemma_table_position(fewer, tables[p].family, tables[p].name);
    if found is Some {
        let q = found->0;
        if q < p {
            assert(fewer[q] == tables[q]);
            assert(!(tables[q].family == tables[p].family && tables[q].name == tables[p].name));
        } else {
            assert(fewer[q] == tables[q + 1]);
            assert(!(tables[p].family == tables[q + 1].family && tables[p].name == tables[q
                + 1].name));
        }
    }
}

/// Among sets with distinct names, the name of a set that is taken out is
/// found no more.
pub proof fn lemma_set_removed_gone(sets: Seq<NftSetView>, p: int)
    requires
        set_names_unique(sets),
        0 <= p < sets.len(),
    ensures
        set_position(sets.remove(p), sets[p].name) is None,
{
    let fewer = sets.remove(p);
    lemma_set_position(fewer, sets[p].name);
    if set_position(fewer, sets[p].name) is Some {
        let q = set_position(fewer, sets[p].name)->0;
        if q < p {
            assert(fewer[q] == sets[q]);
            assert(sets[q].name != sets[p].name);
        } else {
            assert(fewer[q] == sets[q + 1]);
            assert(sets[p].name != sets[q + 1].name);
        }
    }
}

} // verus!
