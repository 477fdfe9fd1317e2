//! What a command line asks for, turned into an [`Operation`].
//!
//! Nothing here touches the kernel: each function decides which operation a
//! command stands for, or why it stands for none.

use vstd::prelude::*;
use vstd::string::StringExecFns;
use vstd::string::StrSliceExecFns;
use crate::entry::{
    IpAddress,
    IpEntry,
    IpSetCreateOptions,
    IpSetFamily,
    IpSetType,
    NftSetCreateOptions,
    NftSetType,
};
use crate::operation::Operation;
use crate::text::{dot_index, find_dot, lowercase, same_text, to_lowercase};

verus! {

/// Which kernel subsystem holds the sets.
#[derive(Clone, Copy, Debug, PartialEq, Eq, Structural)]
pub enum Backend {
    /// The legacy ipset subsystem.
    Ipset,
    /// nftables.
    Nftables,
}

impl Default for Backend {
    fn default() -> (b: Backend)
        ensures
            b == Backend::Nftables,
    {
        Backend::Nftables
    }
}

/// The subcommands that manage sets.
#[derive(Clone, Debug)]
pub enum SetCommands<N> {
    /// Create a set.
    New { set_name: N, table: Option<N>, family: N, set_type: N },
    /// Delete a set.
    Del { set_name: N, table: Option<N>, family: N },
    /// Rename a set.
    Rename { set_name_from: N, set_name_to: N },
    /// Swap two sets.
    Swap { set_name_from: N, set_name_to: N },
}

/// The subcommands that manage nftables tables.
#[derive(Clone, Debug)]
pub enum TableCommands<N> {
    /// Create a table.
    New { table_name: N, family: N },
    /// Delete a table.
    Del { table_name: N, family: N },
}

/// The characters of an optional string.
pub open spec fn text_of(s: Option<String>) -> Option<Seq<char>> {
    match s {
        Some(t) => Some(t@),
        None => None,
    }
}

/// The characters of an optional string slice.
pub open spec fn slice_text_of(s: Option<&str>) -> Option<Seq<char>> {
    match s {
        Some(t) => Some(t@),
        None => None,
    }
}

impl View for SetCommands<String> {
    type V = SetCommands<Seq<char>>;

    open spec fn view(&self) -> SetCommands<Seq<char>> {
        match *self {
            SetCommands::New { set_name, table, family, set_type } => SetCommands::New {
                set_name: set_name@,
                table: text_of(table),
                family: family@,
                set_type: set_type@,
            },
            SetCommands::Del { set_name, table, family } => SetCommands::Del {
                set_name: set_name@,
                table: text_of(table),
                family: family@,
            },
            SetCommands::Rename { set_name_from, set_name_to } => SetCommands::Rename {
                set_name_from: set_name_from@,
                set_name_to: set_name_to@,
            },
            SetCommands::Swap { set_name_from, set_name_to } => SetCommands::Swap {
                set_name_from: set_name_from@,
                set_name_to: set_name_to@,
            },
        }
    }
}

impl View for TableCommands<String> {
    type V = TableCommands<Seq<char>>;

    open spec fn view(&self) -> TableCommands<Seq<char>> {
        match *self {
            TableCommands::New { table_name, family } => TableCommands::New {
                table_name: table_name@,
                family: family@,
            },
            TableCommands::Del { table_name, family } => TableCommands::Del {
                table_name: table_name@,
                family: family@,
            },
        }
    }
}

/// A decision as a mathematical value: the operation to run, or the message
/// to show.
pub open spec fn decision(r: Result<Operation<String>, String>) -> Result<
    Operation<Seq<char>>,
    Seq<char>,
> {
    match r {
        Ok(op) => Ok(op@),
        Err(message) => Err(message@),
    }
}

/// Splits `<table>.<set>` at the first dot into the table and the set. A
/// name without a dot, or with nothing before or after its first dot, names
/// a set and no table.
pub open spec fn split_name(name: Seq<char>) -> (Option<Seq<char>>, Seq<char>) {
    let i = dot_index(name) as int;
    if 0 < i && i + 1 < name.len() {
        (Some(name.subrange(0, i)), name.subrange(i + 1, name.len() as int))
    } else {
        (None, name)
    }
}

/// The table given explicitly if there is one, else the one that came out of
/// the set's name.
pub open spec fn resolved(parsed: Option<Seq<char>>, explicit: Option<Seq<char>>) -> Option<
    Seq<char>,
> {
    match explicit {
        Some(t) => Some(t),
        None => parsed,
    }
}

/// The table a command addresses, from the set's name as typed and the
/// `--table` flag.
pub open spec fn table_of(set_name: Seq<char>, table: Option<Seq<char>>) -> Option<Seq<char>> {
    resolved(split_name(set_name).0, table)
}

/// Parses a set name that may carry a table in front: `<table>.<set>`.
/// Returns the table, if the name has one, and the set.
pub fn parse_table_set_name(name: &str) -> (r: (Option<&str>, &str))
    ensures
        slice_text_of(r.0) == split_name(name@).0,
        r.1@ == split_name(name@).1,
{
    let n = name.unicode_len();
    let i = find_dot(name);
    if 0 < i && i < n - 1 {
        let table = name.substring_char(0, i);
        let set = name.substring_char(i + 1, n);
        (Some(table), set)
    } else {
        (None, name)
    }
}

/// Picks the table of a command: the `--table` flag wins over the table that
/// was part of the set's name.
pub fn resolve_table<'a>(parsed_table: Option<&'a str>, explicit_table: Option<&'a str>) -> (r:
    Option<&'a str>)
    ensures
        r == if explicit_table is Some {
            explicit_table
        } else {
            parsed_table
        },
        slice_text_of(r) == resolved(slice_text_of(parsed_table), slice_text_of(explicit_table)),
{
    match explicit_table {
        Some(t) => Some(t),
        None => parsed_table,
    }
}

/// What the nftables backend says to a command that names no table.
pub const TABLE_REQUIRED: &'static str =
    "Table name is required for nftables backend (use -t/--table or <table>.<set> syntax)";

/// What a backend says to an operation it does not have.
pub const UNSUPPORTED_OPERATION: &'static str = "Unsupported operation in this backend";

/// What the ipset backend says to a table command.
pub const TABLES_NEED_NFTABLES: &'static str =
    "Table commands are only available for nftables backend";

/// The ipset set type that a lower-case token names, if it names one.
pub open spec fn ipset_type_token(token: Seq<char>) -> Option<IpSetType> {
    if token == "hash-ip"@ || token == "hash:ip"@ || token == "haship"@ {
        Some(IpSetType::HashIp)
    } else if token == "hash-net"@ || token == "hash:net"@ || token == "hashnet"@ {
        Some(IpSetType::HashNet)
    } else {
        None
    }
}

/// The ipset family that a lower-case token names, if it names one.
pub open spec fn ipset_family_token(token: Seq<char>) -> Option<IpSetFamily> {
    if token == "inet"@ || token == "ip"@ || token == "ipv4"@ {
        Some(IpSetFamily::Inet)
    } else if token == "inet6"@ || token == "ip6"@ || token == "ipv6"@ {
        Some(IpSetFamily::Inet6)
    } else {
        None
    }
}

/// The nftables set type that a lower-case type token names, if it names
/// one.
pub open spec fn nftset_type_token(token: Seq<char>) -> Option<NftSetType> {
    if token == "ipv4"@ || token == "ipv4_addr"@ || token == "hash-ip"@ || token == "hash:ip"@ {
        Some(NftSetType::Ipv4Addr)
    } else if token == "ipv6"@ || token == "ipv6_addr"@ {
        Some(NftSetType::Ipv6Addr)
    } else {
        None
    }
}

/// The nftables set type that goes with a lower-case family token: IPv6 for
/// `ip6` and `ipv6`, IPv4 for anything else.
pub open spec fn nftset_type_of_family(token: Seq<char>) -> NftSetType {
    if token == "ip6"@ || token == "ipv6"@ {
        NftSetType::Ipv6Addr
    } else {
        NftSetType::Ipv4Addr
    }
}

/// What [`parse_ipset_type`] returns, over the lower-case form of its
/// argument.
pub open spec fn parse_ipset_type_spec(type_str: Seq<char>) -> Result<IpSetType, Seq<char>> {
    match ipset_type_token(lowercase(type_str)) {
        Some(t) => Ok(t),
        None => Err("Unknown ipset type: "@ + type_str + ". Valid types: hash-ip, hash-net"@),
    }
}

/// What [`parse_ipset_family`] returns, over the lower-case form of its
/// argument.
pub open spec fn parse_ipset_family_spec(family_str: Seq<char>) -> Result<IpSetFamily, Seq<char>> {
    match ipset_family_token(lowercase(family_str)) {
        Some(f) => Ok(f),
        None => Err("Unknown family: "@ + family_str + ". Valid families: inet, inet6"@),
    }
}

/// What [`parse_nftset_type`] returns, over the lower-case forms of its
/// arguments.
pub open spec fn parse_nftset_type_spec(type_str: Seq<char>, family: Seq<char>) -> NftSetType {
    match nftset_type_token(lowercase(type_str)) {
        Some(t) => t,
        None => nftset_type_of_family(lowercase(family)),
    }
}

/// A parse result as a mathematical value.
pub open spec fn parsed<T>(r: Result<T, String>) -> Result<T, Seq<char>> {
    match r {
        Ok(t) => Ok(t),
        Err(message) => Err(message@),
    }
}

/// Reads an ipset set type from a token that is already in lower case.
pub fn ipset_type_from_token(token: &str) -> (r: Option<IpSetType>)
    ensures
        r == ipset_type_token(token@),
{
    if same_text(token, "hash-ip") || same_text(token, "hash:ip") || same_text(token, "haship") {
        Some(IpSetType::HashIp)
    } else if same_text(token, "hash-net") || same_text(token, "hash:net") || same_text(
        token,
        "hashnet",
    ) {
        Some(IpSetType::HashNet)
    } else {
        None
    }
}

/// Reads an ipset family from a token that is already in lower case.
pub fn ipset_family_from_token(token: &str) -> (r: Option<IpSetFamily>)
    ensures
        r == ipset_family_token(token@),
{
    if same_text(token, "inet") || same_text(token, "ip") || same_text(token, "ipv4") {
        Some(IpSetFamily::Inet)
    } else if same_text(token, "inet6") || same_text(token, "ip6") || same_text(token, "ipv6") {
        Some(IpSetFamily::Inet6)
    } else {
        None
    }
}

/// Reads an nftables set type from a type token and a family token that are
/// already in lower case. A type token that names no type leaves the choice
/// to the family.
pub fn nftset_type_from_tokens(type_token: &str, family_token: &str) -> (r: NftSetType)
    ensures
        r == match nftset_type_token(type_token@) {
            Some(t) => t,
            None => nftset_type_of_family(family_token@),
        },
{
    if same_text(type_token, "ipv4") || same_text(type_token, "ipv4_addr") || same_text(
        type_token,
        "hash-ip",
    ) || same_text(type_token, "hash:ip") {
        NftSetType::Ipv4Addr
    } else if same_text(type_token, "ipv6") || same_text(type_token, "ipv6_addr") {
        NftSetType::Ipv6Addr
    } else if same_text(family_token, "ip6") || same_text(family_token, "ipv6") {
        NftSetType::Ipv6Addr
    } else {
        NftSetType::Ipv4Addr
    }
}

/// Reads an ipset set type, in any letter case: `hash-ip`, `hash:ip` or
/// `haship`, and the same three spellings of `hash-net`. Anything else is an
/// error that quotes the argument.
pub fn parse_ipset_type(type_str: &str) -> (r: Result<IpSetType, String>)
    ensures
        parsed(r) == parse_ipset_type_spec(type_str@),
{
    let lowered = to_lowercase(type_str);
    match ipset_type_from_token(lowered.as_str()) {
        Some(t) => Ok(t),
        None => Err(
            String::from_str("Unknown ipset type: ").concat(type_str).concat(
                ". Valid types: hash-ip, hash-net",
            ),
        ),
    }
}

/// Reads an ipset family, in any letter case: `inet`, `ip` or `ipv4` for
/// IPv4, `inet6`, `ip6` or `ipv6` for IPv6. Anything else is an error that
/// quotes the argument.
pub fn parse_ipset_family(family_str: &str) -> (r: Result<IpSetFamily, String>)
    ensures
        parsed(r) == parse_ipset_family_spec(family_str@),
{
    let lowered = to_lowercase(family_str);
    match ipset_family_from_token(lowered.as_str()) {
        Some(f) => Ok(f),
        None => Err(
            String::from_str("Unknown family: ").concat(family_str).concat(
                ". Valid families: inet, inet6",
            ),
        ),
    }
}

/// Reads an nftables set type, in any letter case, from the type as typed
/// and, where that names none, from the family. It never fails: what it
/// cannot read is an IPv4 set.
pub fn parse_nftset_type(type_str: &str, family: &str) -> (r: Result<NftSetType, String>)
    ensures
        r == Ok::<NftSetType, String>(parse_nftset_type_spec(type_str@, family@)),
{
    let type_token = to_lowercase(type_str);
    let family_token = to_lowercase(family);
    Ok(nftset_type_from_tokens(type_token.as_str(), family_token.as_str()))
}

/// The operation that adding `entry` to a set stands for.
pub open spec fn handle_add_spec(
    backend: Backend,
    set_name: Seq<char>,
    entry: IpAddress,
    table: Option<Seq<char>>,
    family: Seq<char>,
) -> Result<Operation<Seq<char>>, Seq<char>> {
    let name = split_name(set_name).1;
    let entry = IpEntry { addr: entry, timeout: None };
    match backend {
        Backend::Ipset => Ok(Operation::IpsetAdd { name, entry }),
        Backend::Nftables => match table_of(set_name, table) {
            Some(table) => Ok(Operation::NftAdd { family, table, name, entry }),
            None => Err(TABLE_REQUIRED@),
        },
    }
}

/// The operation that deleting `entry` from a set stands for.
pub open spec fn handle_del_spec(
    backend: Backend,
    set_name: Seq<char>,
    entry: IpAddress,
    table: Option<Seq<char>>,
    family: Seq<char>,
) -> Result<Operation<Seq<char>>, Seq<char>> {
    let name = split_name(set_name).1;
    let entry = IpEntry { addr: entry, timeout: None };
    match backend {
        Backend::Ipset => Ok(Operation::IpsetDel { name, entry }),
        Backend::Nftables => match table_of(set_name, table) {
            Some(table) => Ok(Operation::NftDel { family, table, name, entry }),
            None => Err(TABLE_REQUIRED@),
        },
    }
}

/// The operation that listing a set stands for.
pub open spec fn handle_list_spec(
    backend: Backend,
    set_name: Seq<char>,
    table: Option<Seq<char>>,
    family: Seq<char>,
) -> Result<Operation<Seq<char>>, Seq<char>> {
    let name = split_name(set_name).1;
    match backend {
        Backend::Ipset => Ok(Operation::IpsetList { name }),
        Backend::Nftables => match table_of(set_name, table) {
            Some(table) => Ok(Operation::NftList { family, table, name }),
            None => Err(TABLE_REQUIRED@),
        },
    }
}

/// The operation that flushing a set stands for.
pub open spec fn handle_flush_spec(
    backend: Backend,
    set_name: Seq<char>,
    table: Option<Seq<char>>,
    family: Seq<char>,
) -> Result<Operation<Seq<char>>, Seq<char>> {
    let name = split_name(set_name).1;
    match backend {
        Backend::Ipset => Ok(Operation::IpsetFlush { name }),
        Backend::Nftables => match table_of(set_name, table) {
            Some(table) => Ok(Operation::NftFlush { family, table, name }),
            None => Err(TABLE_REQUIRED@),
        },
    }
}

/// The operation that renaming a set stands for.
pub open spec fn handle_rename_spec(
    backend: Backend,
    set_name_from: Seq<char>,
    set_name_to: Seq<char>,
) -> Result<Operation<Seq<char>>, Seq<char>> {
    match backend {
        Backend::Ipset => Ok(
            Operation::IpsetRename {
                from: split_name(set_name_from).1,
                to: split_name(set_name_to).1,
            },
        ),
        Backend::Nftables => Err(UNSUPPORTED_OPERATION@),
    }
}

/// The operation that swapping two sets stands for.
pub open spec fn handle_swap_spec(
    backend: Backend,
    set_name_from: Seq<char>,
    set_name_to: Seq<char>,
) -> Result<Operation<Seq<char>>, Seq<char>> {
    match backend {
        Backend::Ipset => Ok(
            Operation::IpsetSwap {
                from: split_name(set_name_from).1,
                to: split_name(set_name_to).1,
            },
        ),
        Backend::Nftables => Err(UNSUPPORTED_OPERATION@),
    }
}

/// The operation that creating a set stands for.
pub open spec fn handle_new_spec(
    backend: Backend,
    set_name: Seq<char>,
    table: Option<Seq<char>>,
    family: Seq<char>,
    set_type: Seq<char>,
) -> Result<Operation<Seq<char>>, Seq<char>> {
    let name = split_name(set_name).1;
    match backend {
        Backend::Ipset => match parse_ipset_type_spec(set_type) {
            Err(message) => Err(message),
            Ok(set_type) => match parse_ipset_family_spec(family) {
                Err(message) => Err(message),
                Ok(family) => Ok(
                    Operation::IpsetCreate {
                        name,
                        options: IpSetCreateOptions {
                            set_type,
                            family,
                            hashsize: None,
                            maxelem: None,
                            timeout: None,
                        },
                    },
                ),
            },
        },
        Backend::Nftables => match table_of(set_name, table) {
            None => Err(TABLE_REQUIRED@),
            Some(table) => Ok(
                Operation::NftCreateSet {
                    family,
                    table,
                    name,
                    options: NftSetCreateOptions {
                        set_type: parse_nftset_type_spec(set_type, family),
                        timeout: None,
                    },
                },
            ),
        },
    }
}

/// The operation that deleting a set stands for.
pub open spec fn handle_delete_spec(
    backend: Backend,
    set_name: Seq<char>,
    table: Option<Seq<char>>,
    family: Seq<char>,
) -> Result<Operation<Seq<char>>, Seq<char>> {
    let name = split_name(set_name).1;
    match backend {
        Backend::Ipset => Ok(Operation::IpsetDestroy { name }),
        Backend::Nftables => match table_of(set_name, table) {
            Some(table) => Ok(Operation::NftDeleteSet { family, table, name }),
            None => Err(TABLE_REQUIRED@),
        },
    }
}

/// The operation that a set subcommand stands for.
pub open spec fn handle_set_command_spec(
    backend: Backend,
    command: SetCommands<Seq<char>>,
) -> Result<Operation<Seq<char>>, Seq<char>> {
    match command {
        SetCommands::New { set_name, table, family, set_type } => handle_new_spec(
            backend,
            set_name,
            table,
            family,
            set_type,
        ),
        SetCommands::Del { set_name, table, family } => handle_delete_spec(
            backend,
            set_name,
            table,
            family,
        ),
        SetCommands::Rename { set_name_from, set_name_to } => handle_rename_spec(
            backend,
            set_name_from,
            set_name_to,
        ),
        SetCommands::Swap { set_name_from, set_name_to } => handle_swap_spec(
            backend,
            set_name_from,
            set_name_to,
        ),
    }
}

/// The operation that a table subcommand stands for.
pub open spec fn handle_table_command_spec(
    backend: Backend,
    command: TableCommands<Seq<char>>,
) -> Result<Operation<Seq<char>>, Seq<char>> {
    match backend {
        Backend::Ipset => Err(TABLES_NEED_NFTABLES@),
        Backend::Nftables => match command {
            TableCommands::New { table_name, family } => Ok(
                Operation::NftCreateTable { family, table: table_name },
            ),
            TableCommands::Del { table_name, family } => Ok(
                Operation::NftDeleteTable { family, table: table_name },
            ),
        },
    }
}

/// Decides what `add <set> <entry>` runs. On nftables the set needs a table,
/// from `--table` or from the set's name; without one the command is
/// refused.
pub fn handle_add(
    backend: Backend,
    set_name: &str,
    entry: IpAddress,
    table: Option<&str>,
    family: &str,
) -> (r: Result<Operation<String>, String>)
    ensures
        decision(r) == handle_add_spec(backend, set_name@, entry, slice_text_of(table), family@),
{
    let (parsed_table, actual_set_name) = parse_table_set_name(set_name);
    let resolved_table = resolve_table(parsed_table, table);
    let name = String::from_str(actual_set_name);
    let entry = IpEntry::new(entry);
    match backend {
        Backend::Ipset => Ok(Operation::IpsetAdd { name, entry }),
        Backend::Nftables => match resolved_table {
            Some(table) => Ok(
                Operation::NftAdd {
                    family: String::from_str(family),
                    table: String::from_str(table),
                    name,
                    entry,
                },
            ),
            None => Err(String::from_str(TABLE_REQUIRED)),
        },
    }
}

/// Decides what `del <set> <entry>` runs, as [`handle_add`] does for `add`.
pub fn handle_del(
    backend: Backend,
    set_name: &str,
    entry: IpAddress,
    table: Option<&str>,
    family: &str,
) -> (r: Result<Operation<String>, String>)
    ensures
        decision(r) == handle_del_spec(backend, set_name@, entry, slice_text_of(table), family@),
{
    let (parsed_table, actual_set_name) = parse_table_set_name(set_name);
    let resolved_table = resolve_table(parsed_table, table);
    let name = String::from_str(actual_set_name);
    let entry = IpEntry::new(entry);
    match backend {
        Backend::Ipset => Ok(Operation::IpsetDel { name, entry }),
        Backend::Nftables => match resolved_table {
            Some(table) => Ok(
                Operation::NftDel {
                    family: String::from_str(family),
                    table: String::from_str(table),
                    name,
                    entry,
                },
            ),
            None => Err(String::from_str(TABLE_REQUIRED)),
        },
    }
}

/// Decides what `list <set>` runs. The members that come back are the
/// caller's to print.
pub fn handle_list(backend: Backend, set_name: &str, table: Option<&str>, family: &str) -> (r:
    Result<Operation<String>, String>)
    ensures
        decision(r) == handle_list_spec(backend, set_name@, slice_text_of(table), family@),
{
    let (parsed_table, actual_set_name) = parse_table_set_name(set_name);
    let resolved_table = resolve_table(parsed_table, table);
    let name = String::from_str(actual_set_name);
    match backend {
        Backend::Ipset => Ok(Operation::IpsetList { name }),
        Backend::Nftables => match resolved_table {
            Some(table) => Ok(
                Operation::NftList {
                    family: String::from_str(family),
                    table: String::from_str(table),
                    name,
                },
            ),
            None => Err(String::from_str(TABLE_REQUIRED)),
        },
    }
}

/// Decides what `flush <set>` runs. ipset flushes in one step; on nftables
/// the operation that comes back lists the set and deletes what it finds.
pub fn handle_flush(backend: Backend, set_name: &str, table: Option<&str>, family: &str) -> (r:
    Result<Operation<String>, String>)
    ensures
        decision(r) == handle_flush_spec(backend, set_name@, slice_text_of(table), family@),
{
    let (parsed_table, actual_set_name) = parse_table_set_name(set_name);
    let resolved_table = resolve_table(parsed_table, table);
    let name = String::from_str(actual_set_name);
    match backend {
        Backend::Ipset => Ok(Operation::IpsetFlush { name }),
        Backend::Nftables => match resolved_table {
            Some(table) => Ok(
                Operation::NftFlush {
                    family: String::from_str(family),
                    table: String::from_str(table),
                    name,
                },
            ),
            None => Err(String::from_str(TABLE_REQUIRED)),
        },
    }
}

/// Decides what `set rename <from> <to>` runs. Only ipset can rename; a
/// table in front of either name is dropped.
pub fn handle_rename(backend: Backend, set_name_from: &str, set_name_to: &str) -> (r: Result<
    Operation<String>,
    String,
>)
    ensures
        decision(r) == handle_rename_spec(backend, set_name_from@, set_name_to@),
{
    let (_, actual_set_name_from) = parse_table_set_name(set_name_from);
    let (_, actual_set_name_to) = parse_table_set_name(set_name_to);
    match backend {
        Backend::Ipset => Ok(
            Operation::IpsetRename {
                from: String::from_str(actual_set_name_from),
                to: String::from_str(actual_set_name_to),
            },
        ),
        Backend::Nftables => Err(String::from_str(UNSUPPORTED_OPERATION)),
    }
}

/// Decides what `set swap <from> <to>` runs. Only ipset can swap; a table in
/// front of either name is dropped.
pub fn handle_swap(backend: Backend, set_name_from: &str, set_name_to: &str) -> (r: Result<
    Operation<String>,
    String,
>)
    ensures
        decision(r) == handle_swap_spec(backend, set_name_from@, set_name_to@),
{
    let (_, actual_set_name_from) = parse_table_set_name(set_name_from);
    let (_, actual_set_name_to) = parse_table_set_name(set_name_to);
    match backend {
        Backend::Ipset => Ok(
            Operation::IpsetSwap {
                from: String::from_str(actual_set_name_from),
                to: String::from_str(actual_set_name_to),
            },
        ),
        Backend::Nftables => Err(String::from_str(UNSUPPORTED_OPERATION)),
    }
}

/// The string slice inside an optional string.
fn as_slice(s: &Option<String>) -> (r: Option<&str>)
    ensures
        slice_text_of(r) == text_of(*s),
{
    match s {
        Some(t) => Some(t.as_str()),
        None => None,
    }
}

/// Decides what a set subcommand runs.
///
/// `new` reads the type and, for ipset, the family; an ipset type or family
/// that cannot be read refuses the command, the type first. On nftables
/// `new` and `del` need a table and are refused without one. `rename` and
/// `swap` are [`handle_rename`] and [`handle_swap`].
pub fn handle_set_command(backend: Backend, command: SetCommands<String>) -> (r: Result<
    Operation<String>,
    String,
>)
    ensures
        decision(r) == handle_set_command_spec(backend, command@),
{
    match command {
        SetCommands::New { set_name, table, family, set_type } => {
            let (parsed_table, actual_set_name) = parse_table_set_name(set_name.as_str());
            let resolved_table = resolve_table(parsed_table, as_slice(&table));
            let name = String::from_str(actual_set_name);
            match backend {
                Backend::Ipset => {
                    let set_type = match parse_ipset_type(set_type.as_str()) {
                        Ok(t) => t,
                        Err(message) => {
                            return Err(message);
                        },
                    };
                    let ip_family = match parse_ipset_family(family.as_str()) {
                        Ok(f) => f,
                        Err(message) => {
                            return Err(message);
                        },
                    };
                    let options = IpSetCreateOptions {
                        set_type,
                        family: ip_family,
                        hashsize: None,
                        maxelem: None,
                        timeout: None,
                    };
                    Ok(Operation::IpsetCreate { name, options })
                },
                Backend::Nftables => {
                    let table = match resolved_table {
                        Some(t) => String::from_str(t),
                        None => {
                            return Err(String::from_str(TABLE_REQUIRED));
                        },
                    };
                    let nft_type = match parse_nftset_type(set_type.as_str(), family.as_str()) {
                        Ok(t) => t,
                        Err(message) => {
                            return Err(message);
                        },
                    };
                    let options = NftSetCreateOptions { set_type: nft_type, timeout: None };
                    Ok(Operation::NftCreateSet { family, table, name, options })
                },
            }
        },
        SetCommands::Del { set_name, table, family } => {
            let (parsed_table, actual_set_name) = parse_table_set_name(set_name.as_str());
            let resolved_table = resolve_table(parsed_table, as_slice(&table));
            let name = String::from_str(actual_set_name);
            match backend {
                Backend::Ipset => Ok(Operation::IpsetDestroy { name }),
                Backend::Nftables => match resolved_table {
                    Some(t) => Ok(
                        Operation::NftDeleteSet { family, table: String::from_str(t), name },
                    ),
                    None => Err(String::from_str(TABLE_REQUIRED)),
                },
            }
        },
        SetCommands::Rename { set_name_from, set_name_to } => handle_rename(
            backend,
            set_name_from.as_str(),
            set_name_to.as_str(),
        ),
        SetCommands::Swap { set_name_from, set_name_to } => handle_swap(
            backend,
            set_name_from.as_str(),
            set_name_to.as_str(),
        ),
    }
}

/// Decides what a table subcommand runs. Tables exist on nftables only.
pub fn handle_table_command(backend: Backend, command: TableCommands<String>) -> (r: Result<
    Operation<String>,
    String,
>)
    ensures
        decision(r) == handle_table_command_spec(backend, command@),
{
    match backend {
        Backend::Ipset => Err(String::from_str(TABLES_NEED_NFTABLES)),
        Backend::Nftables => match command {
            TableCommands::New { table_name, family } => Ok(
                Operation::NftCreateTable { family, table: table_name },
            ),
            TableCommands::Del { table_name, family } => Ok(
                Operation::NftDeleteTable { family, table: table_name },
            ),
        },
    }
}

} // verus!
