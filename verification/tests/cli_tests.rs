//! What a command line stands for.

use ripset::cli::{
    handle_add, handle_del, handle_flush, handle_list, handle_rename, handle_set_command,
    handle_swap, handle_table_command, ipset_family_from_token, ipset_type_from_token,
    nftset_type_from_tokens, parse_ipset_family, parse_ipset_type, parse_nftset_type,
    parse_table_set_name, resolve_table, Backend, SetCommands, TableCommands, TABLE_REQUIRED,
};
use ripset::entry::{IpAddress, IpSetFamily, IpSetType, NftSetType};
use ripset::operation::Operation;

const ADDR: IpAddress = IpAddress::V4(0x0A00_0001);

#[test]
fn a_name_with_a_dot_is_table_and_set() {
    assert_eq!(parse_table_set_name("filter.blocked"), (Some("filter"), "blocked"));
    // the first dot splits
    assert_eq!(parse_table_set_name("a.b.c"), (Some("a"), "b.c"));
    assert_eq!(parse_table_set_name("t\u{e4}b.s\u{e9}t"), (Some("t\u{e4}b"), "s\u{e9}t"));
}

#[test]
fn a_name_without_table_or_set_around_the_dot_is_a_set() {
    assert_eq!(parse_table_set_name("blocked"), (None, "blocked"));
    assert_eq!(parse_table_set_name(".blocked"), (None, ".blocked"));
    assert_eq!(parse_table_set_name("filter."), (None, "filter."));
    assert_eq!(parse_table_set_name("."), (None, "."));
    assert_eq!(parse_table_set_name(""), (None, ""));
    assert_eq!(parse_table_set_name(".a.b"), (None, ".a.b"));
}

#[test]
fn the_table_flag_wins_over_the_table_in_the_name() {
    assert_eq!(resolve_table(Some("parsed"), Some("flag")), Some("flag"));
    assert_eq!(resolve_table(Some("parsed"), None), Some("parsed"));
    assert_eq!(resolve_table(None, Some("flag")), Some("flag"));
    assert_eq!(resolve_table(None, None), None);
}

#[test]
fn ipset_types_are_read_in_any_case_and_spelling() {
    for spelling in ["hash-ip", "hash:ip", "haship", "HASH-IP", "Hash:Ip", "HashIp"] {
        assert_eq!(parse_ipset_type(spelling), Ok(IpSetType::HashIp));
    }
    for spelling in ["hash-net", "hash:net", "hashnet", "HASH:NET"] {
        assert_eq!(parse_ipset_type(spelling), Ok(IpSetType::HashNet));
    }
    assert_eq!(
        parse_ipset_type("Bitmap"),
        Err("Unknown ipset type: Bitmap. Valid types: hash-ip, hash-net".to_string())
    );
    assert_eq!(
        parse_ipset_type(""),
        Err("Unknown ipset type: . Valid types: hash-ip, hash-net".to_string())
    );
}

#[test]
fn tokens_in_lower_case_are_read_as_they_stand() {
    assert_eq!(ipset_type_from_token("hash-ip"), Some(IpSetType::HashIp));
    assert_eq!(ipset_type_from_token("hashnet"), Some(IpSetType::HashNet));
    assert_eq!(ipset_type_from_token("HASH-IP"), None);
    assert_eq!(ipset_family_from_token("ipv6"), Some(IpSetFamily::Inet6));
    assert_eq!(ipset_family_from_token("IPV6"), None);
    assert_eq!(nftset_type_from_tokens("ipv6_addr", "ip"), NftSetType::Ipv6Addr);
    assert_eq!(nftset_type_from_tokens("IPV6", "ip6"), NftSetType::Ipv6Addr);
    assert_eq!(nftset_type_from_tokens("IPV6", "ip"), NftSetType::Ipv4Addr);
}

#[test]
fn ipset_families_are_read_in_any_case_and_spelling() {
    for spelling in ["inet", "ip", "ipv4", "INET", "IPv4"] {
        assert_eq!(parse_ipset_family(spelling), Ok(IpSetFamily::Inet));
    }
    for spelling in ["inet6", "ip6", "ipv6", "IPV6", "Inet6"] {
        assert_eq!(parse_ipset_family(spelling), Ok(IpSetFamily::Inet6));
    }
    assert_eq!(
        parse_ipset_family("ipx"),
        Err("Unknown family: ipx. Valid families: inet, inet6".to_string())
    );
}

#[test]
fn nftables_set_types_fall_back_on_the_family() {
    for spelling in ["ipv4", "ipv4_addr", "hash-ip", "hash:ip", "IPV4_ADDR"] {
        assert_eq!(parse_nftset_type(spelling, "ip6"), Ok(NftSetType::Ipv4Addr));
    }
    for spelling in ["ipv6", "ipv6_addr", "IPv6"] {
        assert_eq!(parse_nftset_type(spelling, "ip"), Ok(NftSetType::Ipv6Addr));
    }
    assert_eq!(parse_nftset_type("whatever", "ip6"), Ok(NftSetType::Ipv6Addr));
    assert_eq!(parse_nftset_type("whatever", "IPV6"), Ok(NftSetType::Ipv6Addr));
    assert_eq!(parse_nftset_type("whatever", "inet"), Ok(NftSetType::Ipv4Addr));
    assert_eq!(parse_nftset_type("hash-net", "inet6"), Ok(NftSetType::Ipv4Addr));
    assert_eq!(parse_nftset_type("", ""), Ok(NftSetType::Ipv4Addr));
}

#[test]
fn add_on_ipset_needs_no_table() {
    match handle_add(Backend::Ipset, "t.s", ADDR, None, "inet") {
        Ok(Operation::IpsetAdd { name, entry }) => {
            // the table in front of the name is dropped
            assert_eq!(name, "s");
            assert_eq!(entry.addr, ADDR);
            assert_eq!(entry.timeout, None);
        }
        other => panic!("{:?}", other),
    }
}

#[test]
fn add_on_nftables_takes_the_table_from_the_name_or_the_flag() {
    match handle_add(Backend::Nftables, "t.s", ADDR, None, "ip") {
        Ok(Operation::NftAdd { family, table, name, entry }) => {
            assert_eq!((family.as_str(), table.as_str(), name.as_str()), ("ip", "t", "s"));
            assert_eq!(entry.addr, ADDR);
        }
        other => panic!("{:?}", other),
    }
    match handle_add(Backend::Nftables, "t.s", ADDR, Some("flag"), "inet") {
        Ok(Operation::NftAdd { table, name, .. }) => {
            assert_eq!((table.as_str(), name.as_str()), ("flag", "s"));
        }
        other => panic!("{:?}", other),
    }
    match handle_add(Backend::Nftables, "s", ADDR, None, "inet") {
        Err(message) => assert_eq!(
            message,
            "Table name is required for nftables backend (use -t/--table or <table>.<set> syntax)"
        ),
        other => panic!("{:?}", other),
    }
}

#[test]
fn del_list_and_flush_follow_the_same_rule() {
    assert!(matches!(
        handle_del(Backend::Ipset, "s", ADDR, None, "inet"),
        Ok(Operation::IpsetDel { .. })
    ));
    assert!(matches!(
        handle_del(Backend::Nftables, "t.s", ADDR, None, "inet"),
        Ok(Operation::NftDel { .. })
    ));
    assert_eq!(
        handle_del(Backend::Nftables, "s", ADDR, None, "inet").unwrap_err(),
        TABLE_REQUIRED
    );
    assert!(matches!(
        handle_list(Backend::Ipset, "s", Some("ignored"), "inet"),
        Ok(Operation::IpsetList { .. })
    ));
    match handle_list(Backend::Nftables, "s", Some("t"), "ip6") {
        Ok(Operation::NftList { family, table, name }) => {
            assert_eq!((family.as_str(), table.as_str(), name.as_str()), ("ip6", "t", "s"));
        }
        other => panic!("{:?}", other),
    }
    assert_eq!(handle_list(Backend::Nftables, "s", None, "inet").unwrap_err(), TABLE_REQUIRED);
    assert!(matches!(
        handle_flush(Backend::Ipset, "s", None, "inet"),
        Ok(Operation::IpsetFlush { .. })
    ));
    assert!(matches!(
        handle_flush(Backend::Nftables, "t.s", None, "inet"),
        Ok(Operation::NftFlush { .. })
    ));
    assert_eq!(handle_flush(Backend::Nftables, ".s", None, "inet").unwrap_err(), TABLE_REQUIRED);
}

#[test]
fn rename_and_swap_exist_on_ipset_only() {
    match handle_rename(Backend::Ipset, "t.old", "new") {
        Ok(Operation::IpsetRename { from, to }) => {
            assert_eq!((from.as_str(), to.as_str()), ("old", "new"))
        }
        other => panic!("{:?}", other),
    }
    match handle_swap(Backend::Ipset, "a", "x.b") {
        Ok(Operation::IpsetSwap { from, to }) => {
            assert_eq!((from.as_str(), to.as_str()), ("a", "b"))
        }
        other => panic!("{:?}", other),
    }
    assert_eq!(
        handle_rename(Backend::Nftables, "t.a", "t.b").unwrap_err(),
        "Unsupported operation in this backend"
    );
    assert_eq!(
        handle_swap(Backend::Nftables, "a", "b").unwrap_err(),
        "Unsupported operation in this backend"
    );
}

fn new_set(set_name: &str, table: Option<&str>, family: &str, set_type: &str) -> SetCommands<String> {
    SetCommands::New {
        set_name: set_name.to_string(),
        table: table.map(str::to_string),
        family: family.to_string(),
        set_type: set_type.to_string(),
    }
}

#[test]
fn set_new_on_ipset_reads_type_and_family() {
    match handle_set_command(Backend::Ipset, new_set("s", None, "INET6", "Hash-Net")) {
        Ok(Operation::IpsetCreate { name, options }) => {
            assert_eq!(name, "s");
            assert_eq!(options.set_type, IpSetType::HashNet);
            assert_eq!(options.family, IpSetFamily::Inet6);
            assert_eq!(options.timeout, None);
            assert_eq!(options.hashsize, None);
            assert_eq!(options.maxelem, None);
        }
        other => panic!("{:?}", other),
    }
    // the type is read first
    assert_eq!(
        handle_set_command(Backend::Ipset, new_set("s", None, "bad", "worse")).unwrap_err(),
        "Unknown ipset type: worse. Valid types: hash-ip, hash-net"
    );
    assert_eq!(
        handle_set_command(Backend::Ipset, new_set("s", None, "bad", "hash-ip")).unwrap_err(),
        "Unknown family: bad. Valid families: inet, inet6"
    );
}

#[test]
fn set_new_on_nftables_needs_a_table_and_never_fails_on_the_type() {
    match handle_set_command(Backend::Nftables, new_set("t.s", None, "ip6", "hash-net")) {
        Ok(Operation::NftCreateSet { family, table, name, options }) => {
            assert_eq!((family.as_str(), table.as_str(), name.as_str()), ("ip6", "t", "s"));
            assert_eq!(options.set_type, NftSetType::Ipv6Addr);
            assert_eq!(options.timeout, None);
        }
        other => panic!("{:?}", other),
    }
    match handle_set_command(Backend::Nftables, new_set("s", Some("t"), "inet", "hash-ip")) {
        Ok(Operation::NftCreateSet { options, .. }) => {
            assert_eq!(options.set_type, NftSetType::Ipv4Addr)
        }
        other => panic!("{:?}", other),
    }
    assert_eq!(
        handle_set_command(Backend::Nftables, new_set("s", None, "inet", "ipv4")).unwrap_err(),
        TABLE_REQUIRED
    );
}

#[test]
fn set_del_rename_and_swap_are_dispatched() {
    let del = |name: &str, table: Option<&str>| SetCommands::Del {
        set_name: name.to_string(),
        table: table.map(str::to_string),
        family: "inet".to_string(),
    };
    assert!(matches!(
        handle_set_command(Backend::Ipset, del("s", None)),
        Ok(Operation::IpsetDestroy { .. })
    ));
    match handle_set_command(Backend::Nftables, del("x.s", Some("t"))) {
        Ok(Operation::NftDeleteSet { family, table, name }) => {
            assert_eq!((family.as_str(), table.as_str(), name.as_str()), ("inet", "t", "s"));
        }
        other => panic!("{:?}", other),
    }
    assert_eq!(handle_set_command(Backend::Nftables, del("s", None)).unwrap_err(), TABLE_REQUIRED);
    let rename = SetCommands::Rename {
        set_name_from: "a".to_string(),
        set_name_to: "b".to_string(),
    };
    assert!(matches!(
        handle_set_command(Backend::Ipset, rename.clone()),
        Ok(Operation::IpsetRename { .. })
    ));
    assert_eq!(
        handle_set_command(Backend::Nftables, rename).unwrap_err(),
        "Unsupported operation in this backend"
    );
    let swap = SetCommands::Swap { set_name_from: "a".to_string(), set_name_to: "b".to_string() };
    assert!(matches!(
        handle_set_command(Backend::Ipset, swap.clone()),
        Ok(Operation::IpsetSwap { .. })
    ));
    assert_eq!(
        handle_set_command(Backend::Nftables, swap).unwrap_err(),
        "Unsupported operation in this backend"
    );
}

#[test]
fn table_commands_exist_on_nftables_only() {
    let new = TableCommands::New { table_name: "t".to_string(), family: "ip".to_string() };
    let del = TableCommands::Del { table_name: "t".to_string(), family: "ip".to_string() };
    match handle_table_command(Backend::Nftables, new.clone()) {
        Ok(Operation::NftCreateTable { family, table }) => {
            assert_eq!((family.as_str(), table.as_str()), ("ip", "t"))
        }
        other => panic!("{:?}", other),
    }
    assert!(matches!(
        handle_table_command(Backend::Nftables, del.clone()),
        Ok(Operation::NftDeleteTable { .. })
    ));
    assert_eq!(
        handle_table_command(Backend::Ipset, new).unwrap_err(),
        "Table commands are only available for nftables backend"
    );
    assert_eq!(
        handle_table_command(Backend::Ipset, del).unwrap_err(),
        "Table commands are only available for nftables backend"
    );
}

#[test]
fn the_default_backend_is_nftables() {
    assert_eq!(Backend::default(), Backend::Nftables);
}
