//! The operations the library can run, as plain values.

use vstd::prelude::*;
use crate::entry::{IpAddress, IpEntry, IpSetCreateOptions, NftSetCreateOptions};

verus! {

/// One operation on a kernel set or table, tagged by the backend it goes to.
///
/// Every backend offers the same verbs; one that a backend cannot carry out
/// is still a value of this type and fails with
/// [`crate::error::Error::Unsupported`] when it is run.
///
/// `N` is the type of a name: `String` in executable code, `Seq<char>` in
/// specifications.
#[derive(Clone, Debug)]
#[allow(inconsistent_fields)]
pub enum Operation<N> {
    /// Create an ipset set.
    IpsetCreate { name: N, options: IpSetCreateOptions },
    /// Destroy an ipset set.
    IpsetDestroy { name: N },
    /// Remove every member of an ipset set.
    IpsetFlush { name: N },
    /// Give an ipset set another name.
    IpsetRename { from: N, to: N },
    /// Exchange the contents of two ipset sets.
    IpsetSwap { from: N, to: N },
    /// Add a member to an ipset set.
    IpsetAdd { name: N, entry: IpEntry },
    /// Remove a member from an ipset set.
    IpsetDel { name: N, entry: IpEntry },
    /// Ask whether an address is a member of an ipset set.
    IpsetTest { name: N, entry: IpEntry },
    /// List the members of an ipset set.
    IpsetList { name: N },
    /// Create an nftables table.
    NftCreateTable { family: N, table: N },
    /// Delete an nftables table. The kernel refuses while it holds sets.
    NftDeleteTable { family: N, table: N },
    /// List the tables of one family.
    NftListTables { family: N },
    /// Create a set in an nftables table.
    NftCreateSet { family: N, table: N, name: N, options: NftSetCreateOptions },
    /// Delete a set of an nftables table.
    NftDeleteSet { family: N, table: N, name: N },
    /// Remove every member of an nftables set: its members are listed and
    /// then deleted one by one, so another reader may see the set half empty.
    NftFlush { family: N, table: N, name: N },
    /// Rename an nftables set: not supported.
    NftRename { family: N, table: N, from: N, to: N },
    /// Swap two nftables sets: not supported.
    NftSwap { family: N, table: N, from: N, to: N },
    /// Add a member to an nftables set.
    NftAdd { family: N, table: N, name: N, entry: IpEntry },
    /// Remove a member from an nftables set.
    NftDel { family: N, table: N, name: N, entry: IpEntry },
    /// Ask whether an address is a member of an nftables set.
    NftTest { family: N, table: N, name: N, entry: IpEntry },
    /// List the members of an nftables set.
    NftList { family: N, table: N, name: N },
}

impl View for Operation<String> {
    type V = Operation<Seq<char>>;

    open spec fn view(&self) -> Operation<Seq<char>> {
        match *self {
            Operation::IpsetCreate { name, options } => Operation::IpsetCreate {
                name: name@,
                options,
            },
            Operation::IpsetDestroy { name } => Operation::IpsetDestroy { name: name@ },
            Operation::IpsetFlush { name } => Operation::IpsetFlush { name: name@ },
            Operation::IpsetRename { from, to } => Operation::IpsetRename { from: from@, to: to@ },
            Operation::IpsetSwap { from, to } => Operation::IpsetSwap { from: from@, to: to@ },
            Operation::IpsetAdd { name, entry } => Operation::IpsetAdd { name: name@, entry },
            Operation::IpsetDel { name, entry } => Operation::IpsetDel { name: name@, entry },
            Operation::IpsetTest { name, entry } => Operation::IpsetTest { name: name@, entry },
            Operation::IpsetList { name } => Operation::IpsetList { name: name@ },
            Operation::NftCreateTable { family, table } => Operation::NftCreateTable {
                family: family@,
                table: table@,
            },
            Operation::NftDeleteTable { family, table } => Operation::NftDeleteTable {
                family: family@,
                table: table@,
            },
            Operation::NftListTables { family } => Operation::NftListTables { family: family@ },
            Operation::NftCreateSet { family, table, name, options } => Operation::NftCreateSet {
                family: family@,
                table: table@,
                name: name@,
                options,
            },
            Operation::NftDeleteSet { family, table, name } => Operation::NftDeleteSet {
                family: family@,
                table: table@,
                name: name@,
            },
            Operation::NftFlush { family, table, name } => Operation::NftFlush {
                family: family@,
                table: table@,
                name: name@,
            },
            Operation::NftRename { family, table, from, to } => Operation::NftRename {
                family: family@,
                table: table@,
                from: from@,
                to: to@,
            },
            Operation::NftSwap { family, table, from, to } => Operation::NftSwap {
                family: family@,
                table: table@,
                from: from@,
                to: to@,
            },
            Operation::NftAdd { family, table, name, entry } => Operation::NftAdd {
                family: family@,
                table: table@,
                name: name@,
                entry,
            },
            Operation::NftDel { family, table, name, entry } => Operation::NftDel {
                family: family@,
                table: table@,
                name: name@,
                entry,
            },
            Operation::NftTest { family, table, name, entry } => Operation::NftTest {
                family: family@,
                table: table@,
                name: name@,
                entry,
            },
            Operation::NftList { family, table, name } => Operation::NftList {
                family: family@,
                table: table@,
                name: name@,
            },
        }
    }
}

/// What an operation that succeeded hands back.
#[derive(Clone, Debug)]
pub enum Outcome {
    /// The kernel did what was asked; there is nothing to report.
    Done,
    /// The answer to a membership test.
    Member(bool),
    /// The members of a set, in the order the kernel sent them.
    Entries(Vec<IpAddress>),
    /// The names of the tables of a family, in the order the kernel sent
    /// them.
    Tables(Vec<String>),
}

/// An [`Outcome`] as a mathematical value.
pub enum OutcomeView {
    Done,
    Member(bool),
    Entries(Seq<IpAddress>),
    Tables(Seq<Seq<char>>),
}

impl View for Outcome {
    type V = OutcomeView;

    open spec fn view(&self) -> OutcomeView {
        match *self {
            Outcome::Done => OutcomeView::Done,
            Outcome::Member(found) => OutcomeView::Member(found),
            Outcome::Entries(entries) => OutcomeView::Entries(entries@),
            Outcome::Tables(tables) => OutcomeView::Tables(
                Seq::new(tables@.len(), |i: int| tables@[i]@),
            ),
        }
    }
}

} // verus!
