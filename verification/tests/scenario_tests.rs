//! Whole operations against the reference kernel.

use ripset::entry::{
    IpAddress, IpEntry, IpSetCreateOptions, IpSetFamily, IpSetType, NftSetCreateOptions,
    NftSetType,
};
use ripset::error::Error;
use ripset::loopback::{perform, Client};
use ripset::memory::MemoryKernel;
use ripset::message::{Body, Echo, Message};
use ripset::operation::{Operation, Outcome};

fn v4(a: u8, b: u8, c: u8, d: u8) -> IpAddress {
    IpAddress::V4(u32::from_be_bytes([a, b, c, d]))
}

fn entry(addr: IpAddress) -> IpEntry {
    IpEntry::new(addr)
}

const V6: IpAddress = IpAddress::V6(0x2001_0db8_0000_0000_0000_0000_0000_0001);

fn ipset_with(name: &str, family: IpSetFamily) -> Client {
    let mut kernel = Client::new();
    let options = IpSetCreateOptions { family, ..Default::default() };
    kernel.ipset_create(name, &options).unwrap();
    kernel
}

fn nftset_with(family: &str, table: &str, name: &str, set_type: NftSetType) -> Client {
    let mut kernel = Client::new();
    kernel.nftset_create_table(family, table).unwrap();
    let options = NftSetCreateOptions { set_type, timeout: None };
    kernel.nftset_create_set(family, table, name, &options).unwrap();
    kernel
}

#[test]
fn ipset_create_add_test_list_del() {
    let mut kernel = Client::new();
    let options = IpSetCreateOptions {
        set_type: IpSetType::HashIp,
        family: IpSetFamily::Inet,
        ..Default::default()
    };
    kernel.ipset_create("s1", &options).unwrap();
    let addr = v4(10, 0, 0, 1);
    kernel.ipset_add("s1", entry(addr)).unwrap();
    assert_eq!(kernel.ipset_test("s1", entry(addr)).unwrap(), true);
    assert_eq!(kernel.ipset_list("s1").unwrap(), vec![addr]);
    kernel.ipset_del("s1", entry(addr)).unwrap();
    assert_eq!(kernel.ipset_test("s1", entry(addr)).unwrap(), false);
}

#[test]
fn nftables_table_set_add_list_delete() {
    let mut kernel = Client::new();
    kernel.nftset_create_table("inet", "t1").unwrap();
    let options = NftSetCreateOptions { set_type: NftSetType::Ipv4Addr, timeout: None };
    kernel.nftset_create_set("inet", "t1", "s2", &options).unwrap();
    let addr = v4(10, 0, 0, 5);
    kernel.nftset_add("inet", "t1", "s2", entry(addr)).unwrap();
    assert_eq!(kernel.nftset_list("inet", "t1", "s2").unwrap(), vec![addr]);
    kernel.nftset_delete_set("inet", "t1", "s2").unwrap();
    kernel.nftset_delete_table("inet", "t1").unwrap();
    assert!(kernel.nftset_list_tables("inet").unwrap().is_empty());
}

#[test]
fn a_fresh_set_lists_as_empty() {
    let mut kernel = ipset_with("s", IpSetFamily::Inet);
    assert_eq!(kernel.ipset_list("s").unwrap(), vec![]);
    let mut kernel = ipset_with("s6", IpSetFamily::Inet6);
    assert_eq!(kernel.ipset_list("s6").unwrap(), vec![]);
    let mut kernel = nftset_with("inet", "t", "s", NftSetType::Ipv4Addr);
    assert_eq!(kernel.nftset_list("inet", "t", "s").unwrap(), vec![]);
    let mut kernel = nftset_with("ip6", "t", "s", NftSetType::Ipv6Addr);
    assert_eq!(kernel.nftset_list("ip6", "t", "s").unwrap(), vec![]);
}

#[test]
fn nftables_flush_empties_the_set_and_keeps_it() {
    let mut kernel = nftset_with("inet", "t", "s", NftSetType::Ipv4Addr);
    for last in 1..=3 {
        kernel.nftset_add("inet", "t", "s", entry(v4(10, 0, 0, last))).unwrap();
    }
    assert_eq!(kernel.nftset_list("inet", "t", "s").unwrap().len(), 3);
    kernel.nftset_flush("inet", "t", "s").unwrap();
    assert_eq!(kernel.nftset_list("inet", "t", "s").unwrap(), vec![]);
    let options = NftSetCreateOptions::default();
    assert!(matches!(
        kernel.nftset_create_set("inet", "t", "s", &options),
        Err(Error::AlreadyExists)
    ));
    // the table is still there too, and still holds the set
    assert_eq!(kernel.nftset_list_tables("inet").unwrap(), vec!["t".to_string()]);
    assert!(matches!(kernel.nftset_delete_table("inet", "t"), Err(Error::ProtocolError(-16, _))));
}

#[test]
fn ipset_flush_empties_the_set_and_keeps_it() {
    let mut kernel = ipset_with("s", IpSetFamily::Inet);
    kernel.ipset_add("s", entry(v4(1, 1, 1, 1))).unwrap();
    kernel.ipset_add("s", entry(v4(2, 2, 2, 2))).unwrap();
    kernel.ipset_flush("s").unwrap();
    assert_eq!(kernel.ipset_list("s").unwrap(), vec![]);
    assert!(matches!(
        kernel.ipset_create("s", &IpSetCreateOptions::default()),
        Err(Error::AlreadyExists)
    ));
}

#[test]
fn what_was_added_is_a_member_and_what_was_deleted_is_none() {
    let cases: Vec<(IpSetFamily, NftSetType, &str, IpAddress)> = vec![
        (IpSetFamily::Inet, NftSetType::Ipv4Addr, "inet", v4(192, 168, 1, 1)),
        (IpSetFamily::Inet, NftSetType::Ipv4Addr, "ip", v4(0, 0, 0, 0)),
        (IpSetFamily::Inet6, NftSetType::Ipv6Addr, "inet", V6),
        (IpSetFamily::Inet6, NftSetType::Ipv6Addr, "ip6", IpAddress::V6(u128::MAX)),
    ];
    for (family, set_type, token, addr) in cases {
        let mut kernel = ipset_with("s", family);
        kernel.ipset_add("s", entry(addr)).unwrap();
        assert!(kernel.ipset_test("s", entry(addr)).unwrap());
        kernel.ipset_del("s", entry(addr)).unwrap();
        assert!(!kernel.ipset_test("s", entry(addr)).unwrap());

        let mut kernel = nftset_with(token, "t", "s", set_type);
        kernel.nftset_add(token, "t", "s", entry(addr)).unwrap();
        assert!(kernel.nftset_test(token, "t", "s", entry(addr)).unwrap());
        kernel.nftset_del(token, "t", "s", entry(addr)).unwrap();
        assert!(!kernel.nftset_test(token, "t", "s", entry(addr)).unwrap());
    }
}

#[test]
fn a_listing_holds_what_was_added_whatever_the_order() {
    let addrs: Vec<IpAddress> = (0..300u32).map(|n| IpAddress::V4(0x0A00_0000 + n * 7)).collect();
    let mut reversed = addrs.clone();
    reversed.reverse();
    for order in [addrs.clone(), reversed] {
        let mut kernel = ipset_with("s", IpSetFamily::Inet);
        for addr in &order {
            kernel.ipset_add("s", entry(*addr)).unwrap();
        }
        let listed = kernel.ipset_list("s").unwrap();
        assert_eq!(listed.len(), 300);
        for addr in &addrs {
            assert!(listed.contains(addr));
        }
        assert_eq!(listed, order);

        let mut kernel = nftset_with("inet", "t", "s", NftSetType::Ipv4Addr);
        for addr in &order {
            kernel.nftset_add("inet", "t", "s", entry(*addr)).unwrap();
        }
        let listed = kernel.nftset_list("inet", "t", "s").unwrap();
        assert_eq!(listed.len(), 300);
        for addr in &addrs {
            assert!(listed.contains(addr));
        }
        kernel.nftset_flush("inet", "t", "s").unwrap();
        assert!(kernel.nftset_list("inet", "t", "s").unwrap().is_empty());
    }
}

#[test]
fn an_address_of_the_wrong_width_is_a_family_mismatch() {
    let mut kernel = ipset_with("s", IpSetFamily::Inet);
    assert!(matches!(kernel.ipset_add("s", entry(V6)), Err(Error::FamilyMismatch)));
    assert!(matches!(kernel.ipset_test("s", entry(V6)), Err(Error::FamilyMismatch)));
    assert!(matches!(kernel.ipset_del("s", entry(V6)), Err(Error::FamilyMismatch)));
    assert_eq!(kernel.ipset_list("s").unwrap(), vec![]);

    let mut kernel = ipset_with("s6", IpSetFamily::Inet6);
    let addr = v4(10, 0, 0, 1);
    assert!(matches!(kernel.ipset_add("s6", entry(addr)), Err(Error::FamilyMismatch)));
    assert_eq!(kernel.ipset_list("s6").unwrap(), vec![]);

    // the kernel refuses: the table holds both widths, the set one
    let mut kernel = nftset_with("inet", "t", "s", NftSetType::Ipv4Addr);
    assert!(matches!(kernel.nftset_add("inet", "t", "s", entry(V6)), Err(Error::FamilyMismatch)));
    assert_eq!(kernel.nftset_list("inet", "t", "s").unwrap(), vec![]);

    // so it does in a table of one family: the width is held against the set
    let mut kernel = nftset_with("ip", "t", "s", NftSetType::Ipv4Addr);
    assert!(matches!(kernel.nftset_add("ip", "t", "s", entry(V6)), Err(Error::FamilyMismatch)));
    assert!(matches!(kernel.nftset_test("ip", "t", "s", entry(V6)), Err(Error::FamilyMismatch)));
    assert!(matches!(kernel.nftset_del("ip", "t", "s", entry(V6)), Err(Error::FamilyMismatch)));
    assert_eq!(kernel.nftset_list("ip", "t", "s").unwrap(), vec![]);

    let mut kernel = nftset_with("ip6", "t", "s", NftSetType::Ipv6Addr);
    let addr = v4(10, 0, 0, 1);
    let answer = kernel.nftset_add("ip6", "t", "s", entry(addr));
    assert!(matches!(answer, Err(Error::FamilyMismatch)));
    let answer = kernel.nftset_test("ip6", "t", "s", entry(addr));
    assert!(matches!(answer, Err(Error::FamilyMismatch)));
    let answer = kernel.nftset_del("ip6", "t", "s", entry(addr));
    assert!(matches!(answer, Err(Error::FamilyMismatch)));
    assert_eq!(kernel.nftset_list("ip6", "t", "s").unwrap(), vec![]);
}

#[test]
fn a_missing_nftables_set_is_not_found_whatever_the_width_of_the_address() {
    for family in ["ip", "ip6", "inet"] {
        let mut kernel = Client::new();
        for addr in [v4(10, 0, 0, 1), V6] {
            let answer = kernel.nftset_add(family, "t", "s", entry(addr));
            assert!(matches!(answer, Err(Error::NotFound)));
            let answer = kernel.nftset_del(family, "t", "s", entry(addr));
            assert!(matches!(answer, Err(Error::NotFound)));
            let answer = kernel.nftset_test(family, "t", "s", entry(addr));
            assert!(matches!(answer, Err(Error::NotFound)));
        }
        kernel.nftset_create_table(family, "t").unwrap();
        for addr in [v4(10, 0, 0, 1), V6] {
            let answer = kernel.nftset_add(family, "t", "s", entry(addr));
            assert!(matches!(answer, Err(Error::NotFound)));
            let answer = kernel.nftset_del(family, "t", "s", entry(addr));
            assert!(matches!(answer, Err(Error::NotFound)));
            let answer = kernel.nftset_test(family, "t", "s", entry(addr));
            assert!(matches!(answer, Err(Error::NotFound)));
        }
        assert!(kernel.nftset_list_tables(family).unwrap() == vec!["t".to_string()]);
    }
}

#[test]
fn a_table_of_any_family_takes_sets_of_either_width() {
    for family in ["ip", "ip6", "inet"] {
        let mut kernel = Client::new();
        kernel.nftset_create_table(family, "t").unwrap();
        let four = NftSetCreateOptions { set_type: NftSetType::Ipv4Addr, timeout: None };
        let six = NftSetCreateOptions { set_type: NftSetType::Ipv6Addr, timeout: Some(30) };
        kernel.nftset_create_set(family, "t", "s4", &four).unwrap();
        kernel.nftset_create_set(family, "t", "s6", &six).unwrap();
        let addr = v4(192, 0, 2, 7);
        kernel.nftset_add(family, "t", "s4", entry(addr)).unwrap();
        kernel.nftset_add(family, "t", "s6", entry(V6)).unwrap();
        assert_eq!(kernel.nftset_test(family, "t", "s4", entry(addr)).unwrap(), true);
        assert_eq!(kernel.nftset_test(family, "t", "s6", entry(V6)).unwrap(), true);
        assert_eq!(kernel.nftset_list(family, "t", "s4").unwrap(), vec![addr]);
        assert_eq!(kernel.nftset_list(family, "t", "s6").unwrap(), vec![V6]);
        kernel.nftset_del(family, "t", "s4", entry(addr)).unwrap();
        kernel.nftset_del(family, "t", "s6", entry(V6)).unwrap();
        assert_eq!(kernel.nftset_test(family, "t", "s4", entry(addr)).unwrap(), false);
        assert_eq!(kernel.nftset_test(family, "t", "s6", entry(V6)).unwrap(), false);
    }
}

#[test]
fn creating_an_nftables_set_that_exists_fails_whatever_is_asked_for() {
    let kinds = [NftSetType::Ipv4Addr, NftSetType::Ipv6Addr];
    for family in ["ip", "ip6", "inet"] {
        for held in kinds {
            for asked in kinds {
                for timeout in [None, Some(60)] {
                    let mut kernel = nftset_with(family, "t1", "s2", held);
                    let again = NftSetCreateOptions { set_type: asked, timeout };
                    assert!(matches!(
                        kernel.nftset_create_set(family, "t1", "s2", &again),
                        Err(Error::AlreadyExists)
                    ));
                    assert_eq!(kernel.nftset_list(family, "t1", "s2").unwrap(), vec![]);
                }
            }
        }
    }
}

#[test]
fn an_nftables_set_is_still_there_after_a_flush() {
    let kinds = [NftSetType::Ipv4Addr, NftSetType::Ipv6Addr];
    for family in ["ip", "ip6", "inet"] {
        for asked in kinds {
            let mut kernel = nftset_with(family, "t1", "s2", NftSetType::Ipv4Addr);
            kernel.nftset_add(family, "t1", "s2", entry(v4(10, 0, 0, 1))).unwrap();
            kernel.nftset_add(family, "t1", "s2", entry(v4(10, 0, 0, 2))).unwrap();
            kernel.nftset_flush(family, "t1", "s2").unwrap();
            assert_eq!(kernel.nftset_list(family, "t1", "s2").unwrap(), vec![]);
            let again = NftSetCreateOptions { set_type: asked, timeout: None };
            assert!(matches!(
                kernel.nftset_create_set(family, "t1", "s2", &again),
                Err(Error::AlreadyExists)
            ));
            assert_eq!(kernel.nftset_list_tables(family).unwrap(), vec!["t1".to_string()]);
            // and takes members as before
            kernel.nftset_add(family, "t1", "s2", entry(v4(10, 0, 0, 3))).unwrap();
            assert_eq!(kernel.nftset_list(family, "t1", "s2").unwrap(), vec![v4(10, 0, 0, 3)]);
        }
    }
}

#[test]
fn a_set_that_was_never_created_is_not_found() {
    let mut kernel = Client::new();
    let a = entry(v4(10, 0, 0, 1));
    assert!(matches!(kernel.ipset_add("nope", a), Err(Error::NotFound)));
    assert!(matches!(kernel.ipset_del("nope", a), Err(Error::NotFound)));
    assert!(matches!(kernel.ipset_test("nope", a), Err(Error::NotFound)));
    assert!(matches!(kernel.ipset_list("nope"), Err(Error::NotFound)));
    assert!(matches!(kernel.ipset_flush("nope"), Err(Error::NotFound)));
    assert!(matches!(kernel.ipset_destroy("nope"), Err(Error::NotFound)));
    assert!(matches!(kernel.ipset_rename("nope", "other"), Err(Error::NotFound)));
    assert!(matches!(kernel.ipset_swap("nope", "other"), Err(Error::NotFound)));

    // neither table nor set
    assert!(matches!(kernel.nftset_add("inet", "t", "nope", a), Err(Error::NotFound)));
    assert!(matches!(kernel.nftset_delete_table("inet", "t"), Err(Error::NotFound)));
    let options = NftSetCreateOptions::default();
    assert!(matches!(kernel.nftset_create_set("inet", "t", "s", &options), Err(Error::NotFound)));
    // the table, but not the set
    kernel.nftset_create_table("inet", "t").unwrap();
    assert!(matches!(kernel.nftset_add("inet", "t", "nope", a), Err(Error::NotFound)));
    assert!(matches!(kernel.nftset_del("inet", "t", "nope", a), Err(Error::NotFound)));
    assert!(matches!(kernel.nftset_test("inet", "t", "nope", a), Err(Error::NotFound)));
    assert!(matches!(kernel.nftset_list("inet", "t", "nope"), Err(Error::NotFound)));
    assert!(matches!(kernel.nftset_flush("inet", "t", "nope"), Err(Error::NotFound)));
    assert!(matches!(kernel.nftset_delete_set("inet", "t", "nope"), Err(Error::NotFound)));
    // the set, but in a table of another family
    kernel.nftset_create_set("inet", "t", "s", &options).unwrap();
    assert!(matches!(kernel.nftset_add("ip", "t", "s", a), Err(Error::NotFound)));
}

#[test]
fn rename_and_swap_on_nftables_are_unsupported() {
    let mut kernel = nftset_with("inet", "t", "a", NftSetType::Ipv4Addr);
    assert!(matches!(kernel.nftset_rename("inet", "t", "a", "b"), Err(Error::Unsupported)));
    assert!(matches!(kernel.nftset_swap("inet", "t", "a", "b"), Err(Error::Unsupported)));
    // whatever the arguments
    assert!(matches!(kernel.nftset_rename("", "", "", ""), Err(Error::Unsupported)));
    assert!(matches!(kernel.nftset_swap("bogus", "t", "a\0", "b"), Err(Error::Unsupported)));
    // and nothing has changed
    assert!(matches!(kernel.nftset_list("inet", "t", "a"), Ok(_)));
    assert!(matches!(kernel.nftset_list("inet", "t", "b"), Err(Error::NotFound)));
}

#[test]
fn a_table_that_holds_sets_cannot_be_deleted() {
    let mut kernel = nftset_with("inet", "t", "a", NftSetType::Ipv4Addr);
    kernel
        .nftset_create_set("inet", "t", "b", &NftSetCreateOptions::default())
        .unwrap();
    match kernel.nftset_delete_table("inet", "t") {
        Err(Error::ProtocolError(code, message)) => {
            assert_eq!(code, -16);
            assert_eq!(message, "object is in use");
        }
        other => panic!("{:?}", other),
    }
    kernel.nftset_delete_set("inet", "t", "a").unwrap();
    assert!(kernel.nftset_delete_table("inet", "t").is_err());
    kernel.nftset_delete_set("inet", "t", "b").unwrap();
    kernel.nftset_delete_table("inet", "t").unwrap();
    assert!(matches!(kernel.nftset_delete_table("inet", "t"), Err(Error::NotFound)));
}

#[test]
fn creating_what_exists_is_reported() {
    let mut kernel = ipset_with("s", IpSetFamily::Inet);
    assert!(matches!(
        kernel.ipset_create("s", &IpSetCreateOptions::default()),
        Err(Error::AlreadyExists)
    ));
    kernel.nftset_create_table("inet", "t").unwrap();
    assert!(matches!(kernel.nftset_create_table("inet", "t"), Err(Error::AlreadyExists)));
    // a table of the same name in another family is another table
    kernel.nftset_create_table("ip", "t").unwrap();
    assert_eq!(kernel.nftset_list_tables("inet").unwrap(), vec!["t".to_string()]);
    assert_eq!(kernel.nftset_list_tables("ip").unwrap(), vec!["t".to_string()]);
    assert!(kernel.nftset_list_tables("ip6").unwrap().is_empty());
}

#[test]
fn adding_twice_is_an_error_on_ipset_and_nothing_on_nftables() {
    let mut kernel = ipset_with("s", IpSetFamily::Inet);
    let a = entry(v4(10, 0, 0, 1));
    kernel.ipset_add("s", a).unwrap();
    assert!(matches!(kernel.ipset_add("s", a), Err(Error::AlreadyExists)));
    assert_eq!(kernel.ipset_list("s").unwrap().len(), 1);
    assert!(kernel.ipset_test("s", a).unwrap());

    let mut kernel = nftset_with("inet", "t", "s", NftSetType::Ipv4Addr);
    kernel.nftset_add("inet", "t", "s", a).unwrap();
    kernel.nftset_add("inet", "t", "s", a).unwrap();
    assert_eq!(kernel.nftset_list("inet", "t", "s").unwrap().len(), 1);
}

#[test]
fn deleting_what_is_not_there_is_not_found() {
    let mut kernel = ipset_with("s", IpSetFamily::Inet);
    assert!(matches!(kernel.ipset_del("s", entry(v4(1, 2, 3, 4))), Err(Error::NotFound)));
    let mut kernel = nftset_with("inet", "t", "s", NftSetType::Ipv4Addr);
    assert!(matches!(
        kernel.nftset_del("inet", "t", "s", entry(v4(1, 2, 3, 4))),
        Err(Error::NotFound)
    ));
}

#[test]
fn ipset_rename_and_swap() {
    let mut kernel = ipset_with("a", IpSetFamily::Inet);
    kernel.ipset_create("b", &IpSetCreateOptions::default()).unwrap();
    kernel.ipset_add("a", entry(v4(1, 1, 1, 1))).unwrap();
    kernel.ipset_add("b", entry(v4(2, 2, 2, 2))).unwrap();

    kernel.ipset_swap("a", "b").unwrap();
    assert_eq!(kernel.ipset_list("a").unwrap(), vec![v4(2, 2, 2, 2)]);
    assert_eq!(kernel.ipset_list("b").unwrap(), vec![v4(1, 1, 1, 1)]);

    assert!(matches!(kernel.ipset_rename("a", "b"), Err(Error::AlreadyExists)));
    kernel.ipset_rename("a", "c").unwrap();
    assert!(matches!(kernel.ipset_list("a"), Err(Error::NotFound)));
    assert_eq!(kernel.ipset_list("c").unwrap(), vec![v4(2, 2, 2, 2)]);

    // sets of different families do not swap
    let options = IpSetCreateOptions { family: IpSetFamily::Inet6, ..Default::default() };
    kernel.ipset_create("six", &options).unwrap();
    assert!(matches!(kernel.ipset_swap("c", "six"), Err(Error::ProtocolError(-4102, _))));
    // nor sets of different types
    let options = IpSetCreateOptions { set_type: IpSetType::HashNet, ..Default::default() };
    kernel.ipset_create("net", &options).unwrap();
    assert!(matches!(kernel.ipset_swap("c", "net"), Err(Error::ProtocolError(-4102, _))));
    assert!(matches!(kernel.ipset_swap("c", "gone"), Err(Error::NotFound)));
}

#[test]
fn ipset_destroy_takes_the_set_away() {
    let mut kernel = ipset_with("s", IpSetFamily::Inet);
    kernel.ipset_destroy("s").unwrap();
    assert!(matches!(kernel.ipset_list("s"), Err(Error::NotFound)));
    assert!(matches!(kernel.ipset_destroy("s"), Err(Error::NotFound)));
    kernel.ipset_create("s", &IpSetCreateOptions::default()).unwrap();
}

#[test]
fn names_that_do_not_fit_the_wire_are_malformed() {
    let mut kernel = Client::new();
    let options = IpSetCreateOptions::default();
    assert!(matches!(kernel.ipset_create("", &options), Err(Error::Malformed)));
    assert!(matches!(kernel.ipset_create("a\0b", &options), Err(Error::Malformed)));
    let longest = "x".repeat(31);
    kernel.ipset_create(&longest, &options).unwrap();
    assert!(matches!(kernel.ipset_create(&"x".repeat(32), &options), Err(Error::Malformed)));
    // the limit is in octets
    assert!(matches!(kernel.ipset_create(&"\u{e4}".repeat(16), &options), Err(Error::Malformed)));
    kernel.ipset_create(&"\u{e4}".repeat(15), &options).unwrap();
    assert!(matches!(kernel.ipset_rename(&longest, ""), Err(Error::Malformed)));

    kernel.nftset_create_table("inet", &"t".repeat(255)).unwrap();
    assert!(matches!(
        kernel.nftset_create_table("inet", &"t".repeat(256)),
        Err(Error::Malformed)
    ));
    assert!(matches!(kernel.nftset_create_table("inet", ""), Err(Error::Malformed)));
    assert!(matches!(kernel.nftset_list("inet", "t", ""), Err(Error::Malformed)));
}

#[test]
fn an_unknown_family_token_is_unsupported() {
    let mut kernel = Client::new();
    assert!(matches!(kernel.nftset_create_table("inet6", "t"), Err(Error::Unsupported)));
    assert!(matches!(kernel.nftset_create_table("INET", "t"), Err(Error::Unsupported)));
    assert!(matches!(kernel.nftset_create_table("", "t"), Err(Error::Unsupported)));
    assert!(matches!(kernel.nftset_list_tables("bridge"), Err(Error::Unsupported)));
}

#[test]
fn table_names_come_back_as_text() {
    let mut kernel = Client::new();
    kernel.nftset_create_table("inet", "t\u{e4}ble").unwrap();
    kernel.nftset_create_table("inet", "filter").unwrap();
    assert_eq!(
        kernel.nftset_list_tables("inet").unwrap(),
        vec!["t\u{e4}ble".to_string(), "filter".to_string()]
    );
}

#[test]
fn a_table_name_that_is_not_text_fails_the_listing() {
    let mut client = Client::new();
    let message = Message {
        kind: 0x0a00,
        flags: 5,
        sequence: 1,
        port: 0,
        body: Body::NftTable { family: 1, name: Some(vec![0xff, 0xfe]) },
    };
    let echo = Echo { length: 0, kind: 0x0a00, flags: 5, sequence: 1, port: 0 };
    let answer = client.kernel.react(&message, echo);
    assert!(matches!(answer[0].body, Body::Status { code: 0, .. }));
    assert!(matches!(client.nftset_list_tables("inet"), Err(Error::Malformed)));
}

#[test]
fn timeouts_travel_with_the_member() {
    let mut kernel = Client::new();
    let options = IpSetCreateOptions { timeout: Some(300), ..Default::default() };
    kernel.ipset_create("s", &options).unwrap();
    let addr = v4(10, 0, 0, 2);
    kernel.ipset_add("s", IpEntry::with_timeout(addr, 60)).unwrap();
    assert!(kernel.ipset_test("s", IpEntry::new(addr)).unwrap());
    let options = NftSetCreateOptions { set_type: NftSetType::Ipv4Addr, timeout: Some(300) };
    kernel.nftset_create_table("inet", "t").unwrap();
    kernel.nftset_create_set("inet", "t", "s", &options).unwrap();
    kernel.nftset_add("inet", "t", "s", IpEntry::with_timeout(addr, 60)).unwrap();
    assert!(kernel.nftset_test("inet", "t", "s", IpEntry::new(addr)).unwrap());
}

#[test]
fn the_result_does_not_depend_on_sequence_number_or_port() {
    for (sequence, port) in [(0, 0), (1, 77), (u32::MAX, u32::MAX), (12345, 1)] {
        let mut kernel = MemoryKernel::new();
        let create = Operation::IpsetCreate {
            name: "s".to_string(),
            options: IpSetCreateOptions::default(),
        };
        assert!(matches!(perform(&mut kernel, create, sequence, port), Ok(Outcome::Done)));
        let add = Operation::IpsetAdd { name: "s".to_string(), entry: entry(v4(1, 2, 3, 4)) };
        assert!(matches!(perform(&mut kernel, add, sequence, port), Ok(Outcome::Done)));
        let list = Operation::IpsetList { name: "s".to_string() };
        match perform(&mut kernel, list, sequence, port) {
            Ok(Outcome::Entries(entries)) => assert_eq!(entries, vec![v4(1, 2, 3, 4)]),
            other => panic!("{:?}", other),
        }
    }
}

#[test]
fn the_kernel_drops_a_datagram_it_cannot_take_apart() {
    let mut kernel = MemoryKernel::new();
    assert!(kernel.transmit(&[1, 2, 3]).is_empty());
    assert!(kernel.transmit(&[]).is_empty());
}

#[test]
fn the_kernel_refuses_a_request_it_cannot_decode() {
    let mut kernel = MemoryKernel::new();
    // an ipset message without attributes
    let datagram = [20, 0, 0, 0, 0x03, 0x06, 5, 0, 9, 0, 0, 0, 8, 0, 0, 0, 2, 0, 0, 0];
    let answers = kernel.transmit(&datagram);
    assert_eq!(answers.len(), 1);
    let expected: Vec<u8> = vec![
        36, 0, 0, 0, 2, 0, 0, 0, 9, 0, 0, 0, 8, 0, 0, 0,
        // EINVAL
        0xea, 0xff, 0xff, 0xff,
        // the header of the request
        20, 0, 0, 0, 0x03, 0x06, 5, 0, 9, 0, 0, 0, 8, 0, 0, 0,
    ];
    assert_eq!(answers[0], expected);
}

#[test]
fn the_kernel_refuses_another_protocol_version() {
    let mut kernel = MemoryKernel::new();
    // destroy "s" with protocol version 6
    let datagram = [
        36, 0, 0, 0, 0x03, 0x06, 5, 0, 1, 0, 0, 0, 0, 0, 0, 0, 2, 0, 0, 0, 5, 0, 1, 0, 6, 0, 0, 0,
        6, 0, 2, 0, b's', 0, 0, 0,
    ];
    let answers = kernel.transmit(&datagram);
    assert_eq!(answers.len(), 1);
    // -4097
    assert_eq!(&answers[0][16..20], &[0xff, 0xef, 0xff, 0xff]);
}

fn new_set(family: u8, key_type: u32, key_len: u32) -> Message<Vec<u8>, Vec<IpEntry>> {
    Message {
        kind: 0x0a09,
        flags: 5,
        sequence: 1,
        port: 0,
        body: Body::NftSet {
            family,
            table: b"t".to_vec(),
            name: b"s".to_vec(),
            shape: Some(ripset::message::SetShape { flags: 0, key_type, key_len, timeout: None }),
        },
    }
}

#[test]
fn the_kernel_looks_a_new_set_up_before_it_reads_its_shape() {
    let echo = Echo { length: 0, kind: 0x0a09, flags: 5, sequence: 1, port: 0 };

    // a set of IPv6 keys in a table of the family "ip"
    let mut client = Client::new();
    client.nftset_create_table("ip", "t").unwrap();
    let answer = client.kernel.react(&new_set(2, 8, 16), echo);
    assert!(matches!(answer[0].body, Body::Status { code: 0, .. }));
    assert_eq!(client.nftset_list("ip", "t", "s").unwrap(), vec![]);
    client.nftset_add("ip", "t", "s", entry(V6)).unwrap();

    // the set is there: EEXIST, whatever the shape
    let answer = client.kernel.react(&new_set(2, 8, 16), echo);
    assert!(matches!(answer[0].body, Body::Status { code: -17, .. }));
    let answer = client.kernel.react(&new_set(2, 7, 4), echo);
    assert!(matches!(answer[0].body, Body::Status { code: -17, .. }));
    let answer = client.kernel.react(&new_set(2, 7, 5), echo);
    assert!(matches!(answer[0].body, Body::Status { code: -17, .. }));
    assert_eq!(client.nftset_list("ip", "t", "s").unwrap(), vec![V6]);

    // no table: ENOENT; no set and keys of no address: EINVAL
    let answer = client.kernel.react(&new_set(10, 7, 4), echo);
    assert!(matches!(answer[0].body, Body::Status { code: -2, .. }));
    client.nftset_delete_set("ip", "t", "s").unwrap();
    let answer = client.kernel.react(&new_set(2, 7, 5), echo);
    assert!(matches!(answer[0].body, Body::Status { code: -22, .. }));
    assert!(matches!(client.nftset_list("ip", "t", "s"), Err(Error::NotFound)));
}

#[test]
fn a_new_caller_sends_from_port_zero_and_counts_from_one() {
    let mut client = Client::new();
    assert_eq!(client.sequence, 1);
    assert_eq!(client.port, 0);
    assert!(client.ipset_list("s").is_err());
    assert_eq!(client.sequence, 2);
    assert_eq!(client.port, 0);
    assert!(client.nftset_list_tables("inet").unwrap().is_empty());
    assert_eq!(client.sequence, 3);
}

#[test]
fn what_was_destroyed_or_deleted_is_gone() {
    let mut kernel = ipset_with("s", IpSetFamily::Inet);
    kernel.ipset_add("s", entry(v4(10, 0, 0, 1))).unwrap();
    kernel.ipset_destroy("s").unwrap();
    assert!(matches!(kernel.ipset_list("s"), Err(Error::NotFound)));
    assert!(matches!(kernel.ipset_destroy("s"), Err(Error::NotFound)));

    let mut kernel = nftset_with("ip", "t", "s", NftSetType::Ipv4Addr);
    kernel.nftset_delete_set("ip", "t", "s").unwrap();
    assert!(matches!(kernel.nftset_list("ip", "t", "s"), Err(Error::NotFound)));
    assert!(matches!(kernel.nftset_delete_set("ip", "t", "s"), Err(Error::NotFound)));
    kernel.nftset_delete_table("ip", "t").unwrap();
    assert!(matches!(kernel.nftset_delete_table("ip", "t"), Err(Error::NotFound)));
    assert!(kernel.nftset_list_tables("ip").unwrap().is_empty());
}

#[test]
fn a_renamed_set_is_found_under_its_new_name_only() {
    let mut kernel = ipset_with("old", IpSetFamily::Inet);
    let addr = v4(10, 0, 0, 1);
    kernel.ipset_add("old", entry(addr)).unwrap();
    kernel.ipset_rename("old", "new").unwrap();
    assert!(matches!(kernel.ipset_list("old"), Err(Error::NotFound)));
    assert_eq!(kernel.ipset_list("new").unwrap(), vec![addr]);

    // a name that is taken stays with the set that has it
    let options = IpSetCreateOptions { family: IpSetFamily::Inet, ..Default::default() };
    kernel.ipset_create("other", &options).unwrap();
    assert!(matches!(kernel.ipset_rename("other", "new"), Err(Error::AlreadyExists)));
    assert_eq!(kernel.ipset_list("new").unwrap(), vec![addr]);
    assert_eq!(kernel.ipset_list("other").unwrap(), vec![]);
}

#[test]
fn one_name_stands_for_one_table_in_each_family() {
    let mut kernel = Client::new();
    kernel.nftset_create_table("ip", "t").unwrap();
    kernel.nftset_create_table("ip6", "t").unwrap();
    kernel.nftset_create_table("inet", "t").unwrap();
    let options = NftSetCreateOptions { set_type: NftSetType::Ipv4Addr, timeout: None };
    kernel.nftset_create_set("ip6", "t", "s", &options).unwrap();
    assert!(matches!(kernel.nftset_list("ip", "t", "s"), Err(Error::NotFound)));
    assert!(matches!(kernel.nftset_list("inet", "t", "s"), Err(Error::NotFound)));
    assert_eq!(kernel.nftset_list("ip6", "t", "s").unwrap(), vec![]);
    kernel.nftset_delete_table("ip", "t").unwrap();
    assert_eq!(kernel.nftset_list_tables("ip6").unwrap(), vec!["t".to_string()]);
    assert_eq!(kernel.nftset_list_tables("inet").unwrap(), vec!["t".to_string()]);
    assert!(kernel.nftset_list_tables("ip").unwrap().is_empty());
}
