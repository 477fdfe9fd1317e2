//! The operations of both backends, run against the reference kernel.

use ripset::entry::{
    IpAddress, IpEntry, IpSetCreateOptions, IpSetFamily, NftSetCreateOptions, NftSetType,
};
use ripset::loopback::Client;

/// Reads an address as it is written: four decimal octets with dots, or
/// groups of hexadecimal digits with colons, `::` standing for zero groups.
fn ip(written: &str) -> IpAddress {
    if written.contains('.') {
        let octets: Vec<u8> = written.split('.').map(|part| part.parse().unwrap()).collect();
        assert_eq!(octets.len(), 4);
        return IpAddress::V4(u32::from_be_bytes([octets[0], octets[1], octets[2], octets[3]]));
    }
    let groups = |part: &str| -> Vec<u16> {
        part.split(':')
            .filter(|group| !group.is_empty())
            .map(|group| u16::from_str_radix(group, 16).unwrap())
            .collect()
    };
    let (front, back) = match written.split_once("::") {
        Some((front, back)) => (groups(front), groups(back)),
        None => (groups(written), Vec::new()),
    };
    assert!(front.len() + back.len() <= 8);
    let mut all = front;
    all.resize(8 - back.len(), 0);
    all.extend(back);
    let mut value: u128 = 0;
    for group in all {
        value = (value << 16) | u128::from(group);
    }
    IpAddress::V6(value)
}

fn text(addr: &IpAddress) -> String {
    match addr {
        IpAddress::V4(bits) => {
            let [a, b, c, d] = bits.to_be_bytes();
            format!("{a}.{b}.{c}.{d}")
        }
        IpAddress::V6(bits) => format!("{bits:032x}"),
    }
}

// =====================
// ipset tests
// =====================

#[test]
fn test_ipset_add_test_del_ipv4() {
    const SET_NAME: &str = "lipsets_test_v4";
    let mut kernel = Client::new();

    // Setup
    let _ = kernel.ipset_destroy(SET_NAME);
    let opts = IpSetCreateOptions::default();
    kernel.ipset_create(SET_NAME, &opts).expect("Failed to create ipset");

    let addr = ip("10.0.0.1");

    // Test that IP is not in set
    let exists = kernel.ipset_test(SET_NAME, addr.into()).expect("Failed to test IP");
    assert!(!exists, "IP should not exist initially");

    // Add IP to set
    kernel.ipset_add(SET_NAME, addr.into()).expect("Failed to add IP");

    // Test that IP is now in set
    let exists = kernel.ipset_test(SET_NAME, addr.into()).expect("Failed to test IP after add");
    assert!(exists, "IP should exist after add");

    // Delete IP from set
    kernel.ipset_del(SET_NAME, addr.into()).expect("Failed to delete IP");

    // Test that IP is no longer in set
    let exists = kernel.ipset_test(SET_NAME, addr.into()).expect("Failed to test IP after del");
    assert!(!exists, "IP should not exist after delete");

    // Cleanup
    let _ = kernel.ipset_destroy(SET_NAME);
}

#[test]
fn test_ipset_add_test_del_ipv6() {
    const SET_NAME: &str = "lipsets_test_v6";
    let mut kernel = Client::new();

    // Setup
    let _ = kernel.ipset_destroy(SET_NAME);
    let opts = IpSetCreateOptions {
        family: IpSetFamily::Inet6,
        ..Default::default()
    };
    kernel.ipset_create(SET_NAME, &opts).expect("Failed to create ipset6");

    let addr = ip("2001:db8::1");

    // Test that IP is not in set
    let exists = kernel.ipset_test(SET_NAME, addr.into()).expect("Failed to test IPv6");
    assert!(!exists, "IPv6 should not exist initially");

    // Add IP to set
    kernel.ipset_add(SET_NAME, addr.into()).expect("Failed to add IPv6");

    // Test that IP is now in set
    let exists = kernel.ipset_test(SET_NAME, addr.into()).expect("Failed to test IPv6 after add");
    assert!(exists, "IPv6 should exist after add");

    // Delete IP from set
    kernel.ipset_del(SET_NAME, addr.into()).expect("Failed to delete IPv6");

    // Test that IP is no longer in set
    let exists = kernel.ipset_test(SET_NAME, addr.into()).expect("Failed to test IPv6 after del");
    assert!(!exists, "IPv6 should not exist after delete");

    // Cleanup
    let _ = kernel.ipset_destroy(SET_NAME);
}

#[test]
fn test_ipset_with_timeout() {
    const SET_NAME: &str = "lipsets_test_timeout";
    let mut kernel = Client::new();

    // Setup
    let _ = kernel.ipset_destroy(SET_NAME);
    let opts = IpSetCreateOptions {
        timeout: Some(300),
        ..Default::default()
    };
    kernel.ipset_create(SET_NAME, &opts).expect("Failed to create ipset with timeout");

    let addr = ip("10.0.0.2");
    let entry = IpEntry::with_timeout(addr, 60);

    // Add IP with timeout
    kernel.ipset_add(SET_NAME, entry).expect("Failed to add IP with timeout");

    // Test that IP is in set
    let exists = kernel.ipset_test(SET_NAME, addr.into()).expect("Failed to test IP");
    assert!(exists, "IP should exist after add with timeout");

    // Cleanup
    let _ = kernel.ipset_destroy(SET_NAME);
}

#[test]
fn test_ipset_multiple_ips() {
    const SET_NAME: &str = "lipsets_test_multi";
    let mut kernel = Client::new();

    // Setup
    let _ = kernel.ipset_destroy(SET_NAME);
    let opts = IpSetCreateOptions::default();
    kernel.ipset_create(SET_NAME, &opts).expect("Failed to create ipset");

    let addrs: Vec<IpAddress> = vec![ip("10.0.0.10"), ip("10.0.0.11"), ip("10.0.0.12")];

    // Add all IPs
    for addr in &addrs {
        kernel.ipset_add(SET_NAME, (*addr).into()).expect("Failed to add IP");
    }

    // Test all IPs exist
    for addr in &addrs {
        let exists = kernel.ipset_test(SET_NAME, (*addr).into()).expect("Failed to test IP");
        assert!(exists, "IP {} should exist", text(addr));
    }

    // Delete all IPs
    for addr in &addrs {
        kernel.ipset_del(SET_NAME, (*addr).into()).expect("Failed to delete IP");
    }

    // Test all IPs are gone
    for addr in &addrs {
        let exists = kernel.ipset_test(SET_NAME, (*addr).into()).expect("Failed to test IP");
        assert!(!exists, "IP {} should not exist after delete", text(addr));
    }

    // Cleanup
    let _ = kernel.ipset_destroy(SET_NAME);
}

#[test]
fn test_ipset_nonexistent_set() {
    let mut kernel = Client::new();
    let addr = ip("10.0.0.1");

    let result = kernel.ipset_add("nonexistent_set_12345", addr.into());
    assert!(result.is_err(), "Should fail for nonexistent set");
}

#[test]
fn test_ipset_list() {
    const SET_NAME: &str = "lipsets_test_list";
    let mut kernel = Client::new();

    // Setup
    let _ = kernel.ipset_destroy(SET_NAME);
    let opts = IpSetCreateOptions::default();
    kernel.ipset_create(SET_NAME, &opts).expect("Failed to create ipset");

    // Initially empty
    let ips = kernel.ipset_list(SET_NAME).expect("Failed to list ipset");
    assert!(ips.is_empty(), "Set should be empty initially");

    // Add some IPs
    let addr1 = ip("10.0.0.1");
    let addr2 = ip("10.0.0.2");
    let addr3 = ip("10.0.0.3");

    kernel.ipset_add(SET_NAME, addr1.into()).expect("Failed to add IP");
    kernel.ipset_add(SET_NAME, addr2.into()).expect("Failed to add IP");
    kernel.ipset_add(SET_NAME, addr3.into()).expect("Failed to add IP");

    // List should now contain all three
    let ips = kernel.ipset_list(SET_NAME).expect("Failed to list ipset");
    assert_eq!(ips.len(), 3, "Set should contain 3 IPs");
    assert!(ips.contains(&addr1), "Set should contain addr1");
    assert!(ips.contains(&addr2), "Set should contain addr2");
    assert!(ips.contains(&addr3), "Set should contain addr3");

    // Delete one and verify
    kernel.ipset_del(SET_NAME, addr2.into()).expect("Failed to delete IP");
    let ips = kernel.ipset_list(SET_NAME).expect("Failed to list ipset");
    assert_eq!(ips.len(), 2, "Set should contain 2 IPs after delete");
    assert!(!ips.contains(&addr2), "Set should not contain addr2");

    // Cleanup
    let _ = kernel.ipset_destroy(SET_NAME);
}

// =====================
// nftset tests
// =====================

#[test]
fn test_nftset_add_test_del_ipv4() {
    const TABLE_NAME: &str = "lnftsets_test_v4";
    const SET_NAME: &str = "test_set";
    let mut kernel = Client::new();

    // Setup
    let _ = kernel.nftset_delete_table("inet", TABLE_NAME);
    kernel.nftset_create_table("inet", TABLE_NAME).expect("Failed to create table");
    let opts = NftSetCreateOptions::default();
    kernel.nftset_create_set("inet", TABLE_NAME, SET_NAME, &opts).expect("Failed to create set");

    let addr = ip("10.0.0.1");

    // Test that IP is not in set
    let exists =
        kernel.nftset_test("inet", TABLE_NAME, SET_NAME, addr.into()).expect("Failed to test IP");
    assert!(!exists, "IP should not exist initially");

    // Add IP to set
    kernel.nftset_add("inet", TABLE_NAME, SET_NAME, addr.into()).expect("Failed to add IP");

    // Test that IP is now in set
    let exists = kernel
        .nftset_test("inet", TABLE_NAME, SET_NAME, addr.into())
        .expect("Failed to test IP after add");
    assert!(exists, "IP should exist after add");

    // Delete IP from set
    kernel.nftset_del("inet", TABLE_NAME, SET_NAME, addr.into()).expect("Failed to delete IP");

    // Test that IP is no longer in set
    let exists = kernel
        .nftset_test("inet", TABLE_NAME, SET_NAME, addr.into())
        .expect("Failed to test IP after del");
    assert!(!exists, "IP should not exist after delete");

    // Cleanup
    let _ = kernel.nftset_delete_table("inet", TABLE_NAME);
}

#[test]
fn test_nftset_add_test_del_ipv6() {
    const TABLE_NAME: &str = "lnftsets_test_v6";
    const SET_NAME: &str = "test_set";
    let mut kernel = Client::new();

    // Setup
    let _ = kernel.nftset_delete_table("inet", TABLE_NAME);
    kernel.nftset_create_table("inet", TABLE_NAME).expect("Failed to create table");
    let opts = NftSetCreateOptions {
        set_type: NftSetType::Ipv6Addr,
        ..Default::default()
    };
    kernel.nftset_create_set("inet", TABLE_NAME, SET_NAME, &opts).expect("Failed to create set6");

    let addr = ip("2001:db8::1");

    // Test that IP is not in set
    let exists =
        kernel.nftset_test("inet", TABLE_NAME, SET_NAME, addr.into()).expect("Failed to test IPv6");
    assert!(!exists, "IPv6 should not exist initially");

    // Add IP to set
    kernel.nftset_add("inet", TABLE_NAME, SET_NAME, addr.into()).expect("Failed to add IPv6");

    // Test that IP is now in set
    let exists = kernel
        .nftset_test("inet", TABLE_NAME, SET_NAME, addr.into())
        .expect("Failed to test IPv6 after add");
    assert!(exists, "IPv6 should exist after add");

    // Delete IP from set
    kernel.nftset_del("inet", TABLE_NAME, SET_NAME, addr.into()).expect("Failed to delete IPv6");

    // Test that IP is no longer in set
    let exists = kernel
        .nftset_test("inet", TABLE_NAME, SET_NAME, addr.into())
        .expect("Failed to test IPv6 after del");
    assert!(!exists, "IPv6 should not exist after delete");

    // Cleanup
    let _ = kernel.nftset_delete_table("inet", TABLE_NAME);
}

#[test]
fn test_nftset_with_timeout() {
    const TABLE_NAME: &str = "lnftsets_test_timeout";
    const SET_NAME: &str = "test_set";
    let mut kernel = Client::new();

    // Setup
    let _ = kernel.nftset_delete_table("inet", TABLE_NAME);
    kernel.nftset_create_table("inet", TABLE_NAME).expect("Failed to create table");
    let opts = NftSetCreateOptions {
        timeout: Some(300),
        ..Default::default()
    };
    kernel
        .nftset_create_set("inet", TABLE_NAME, SET_NAME, &opts)
        .expect("Failed to create set with timeout");

    let addr = ip("10.0.0.2");
    let entry = IpEntry::with_timeout(addr, 60);

    // Add IP with timeout
    kernel.nftset_add("inet", TABLE_NAME, SET_NAME, entry).expect("Failed to add IP with timeout");

    // Test that IP is in set
    let exists =
        kernel.nftset_test("inet", TABLE_NAME, SET_NAME, addr.into()).expect("Failed to test IP");
    assert!(exists, "IP should exist after add with timeout");

    // Cleanup
    let _ = kernel.nftset_delete_table("inet", TABLE_NAME);
}

#[test]
fn test_nftset_multiple_ips() {
    const TABLE_NAME: &str = "lnftsets_test_multi";
    const SET_NAME: &str = "test_set";
    let mut kernel = Client::new();

    // Setup
    let _ = kernel.nftset_delete_table("inet", TABLE_NAME);
    kernel.nftset_create_table("inet", TABLE_NAME).expect("Failed to create table");
    let opts = NftSetCreateOptions::default();
    kernel.nftset_create_set("inet", TABLE_NAME, SET_NAME, &opts).expect("Failed to create set");

    let addrs: Vec<IpAddress> = vec![ip("10.0.0.10"), ip("10.0.0.11"), ip("10.0.0.12")];

    // Add all IPs
    for addr in &addrs {
        kernel.nftset_add("inet", TABLE_NAME, SET_NAME, (*addr).into()).expect("Failed to add IP");
    }

    // Test all IPs exist
    for addr in &addrs {
        let exists = kernel
            .nftset_test("inet", TABLE_NAME, SET_NAME, (*addr).into())
            .expect("Failed to test IP");
        assert!(exists, "IP {} should exist", text(addr));
    }

    // Delete all IPs
    for addr in &addrs {
        kernel
            .nftset_del("inet", TABLE_NAME, SET_NAME, (*addr).into())
            .expect("Failed to delete IP");
    }

    // Test all IPs are gone
    for addr in &addrs {
        let exists = kernel
            .nftset_test("inet", TABLE_NAME, SET_NAME, (*addr).into())
            .expect("Failed to test IP");
        assert!(!exists, "IP {} should not exist after delete", text(addr));
    }

    // Cleanup
    let _ = kernel.nftset_delete_table("inet", TABLE_NAME);
}

#[test]
fn test_nftset_nonexistent_set() {
    let mut kernel = Client::new();
    let addr = ip("10.0.0.1");

    let result = kernel.nftset_add("inet", "nonexistent_table", "nonexistent_set", addr.into());
    assert!(result.is_err(), "Should fail for nonexistent set");
}

#[test]
fn test_nftset_list() {
    const TABLE_NAME: &str = "lnftsets_test_list";
    const SET_NAME: &str = "test_set";
    let mut kernel = Client::new();

    // Setup
    let _ = kernel.nftset_delete_table("inet", TABLE_NAME);
    kernel.nftset_create_table("inet", TABLE_NAME).expect("Failed to create table");
    let opts = NftSetCreateOptions::default();
    kernel.nftset_create_set("inet", TABLE_NAME, SET_NAME, &opts).expect("Failed to create set");

    // Initially empty
    let ips = kernel.nftset_list("inet", TABLE_NAME, SET_NAME).expect("Failed to list nftset");
    assert!(ips.is_empty(), "Set should be empty initially");

    // Add some IPs
    let addr1 = ip("10.0.0.1");
    let addr2 = ip("10.0.0.2");
    let addr3 = ip("10.0.0.3");

    kernel.nftset_add("inet", TABLE_NAME, SET_NAME, addr1.into()).expect("Failed to add IP");
    kernel.nftset_add("inet", TABLE_NAME, SET_NAME, addr2.into()).expect("Failed to add IP");
    kernel.nftset_add("inet", TABLE_NAME, SET_NAME, addr3.into()).expect("Failed to add IP");

    // Verify with nftset_test
    assert!(
        kernel.nftset_test("inet", TABLE_NAME, SET_NAME, addr1.into()).unwrap(),
        "addr1 should exist via test"
    );
    assert!(
        kernel.nftset_test("inet", TABLE_NAME, SET_NAME, addr2.into()).unwrap(),
        "addr2 should exist via test"
    );
    assert!(
        kernel.nftset_test("inet", TABLE_NAME, SET_NAME, addr3.into()).unwrap(),
        "addr3 should exist via test"
    );

    // List should now contain all three
    let ips = kernel.nftset_list("inet", TABLE_NAME, SET_NAME).expect("Failed to list nftset");
    assert_eq!(ips.len(), 3, "Set should contain 3 IPs");
    assert!(ips.contains(&addr1), "Set should contain addr1");
    assert!(ips.contains(&addr2), "Set should contain addr2");
    assert!(ips.contains(&addr3), "Set should contain addr3");

    // Delete one and verify
    kernel.nftset_del("inet", TABLE_NAME, SET_NAME, addr2.into()).expect("Failed to delete IP");
    let ips = kernel.nftset_list("inet", TABLE_NAME, SET_NAME).expect("Failed to list nftset");
    assert_eq!(ips.len(), 2, "Set should contain 2 IPs after delete");
    assert!(!ips.contains(&addr2), "Set should not contain addr2");

    // Cleanup
    let _ = kernel.nftset_delete_table("inet", TABLE_NAME);
}

#[test]
fn test_nftset_list_tables() {
    const TABLE_NAME1: &str = "lnftsets_test_tables_1";
    const TABLE_NAME2: &str = "lnftsets_test_tables_2";
    let mut kernel = Client::new();

    // Setup - ensure clean state
    let _ = kernel.nftset_delete_table("inet", TABLE_NAME1);
    let _ = kernel.nftset_delete_table("inet", TABLE_NAME2);

    // Create two tables
    kernel.nftset_create_table("inet", TABLE_NAME1).expect("Failed to create table1");
    kernel.nftset_create_table("inet", TABLE_NAME2).expect("Failed to create table2");

    // List tables
    let tables = kernel.nftset_list_tables("inet").expect("Failed to list tables");

    // Should contain both tables we created
    assert!(
        tables.contains(&TABLE_NAME1.to_string()),
        "Should contain table1"
    );
    assert!(
        tables.contains(&TABLE_NAME2.to_string()),
        "Should contain table2"
    );

    // Delete one and verify
    kernel.nftset_delete_table("inet", TABLE_NAME1).expect("Failed to delete table1");
    let tables = kernel.nftset_list_tables("inet").expect("Failed to list tables after delete");
    assert!(
        !tables.contains(&TABLE_NAME1.to_string()),
        "Should not contain deleted table1"
    );
    assert!(
        tables.contains(&TABLE_NAME2.to_string()),
        "Should still contain table2"
    );

    // Cleanup
    let _ = kernel.nftset_delete_table("inet", TABLE_NAME2);
}

#[test]
fn addresses_are_read_as_written() {
    assert_eq!(ip("10.0.0.1"), IpAddress::V4(0x0A00_0001));
    assert_eq!(ip("255.255.255.255"), IpAddress::V4(u32::MAX));
    assert_eq!(ip("2001:db8::1"), IpAddress::V6(0x2001_0db8_0000_0000_0000_0000_0000_0001));
    assert_eq!(ip("::1"), IpAddress::V6(1));
    assert_eq!(ip("1:2:3:4:5:6:7:8"), IpAddress::V6(0x0001_0002_0003_0004_0005_0006_0007_0008));
}
