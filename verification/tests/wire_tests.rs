//! The octets on the wire: attributes, netlink framing and whole messages.

use ripset::attr::{decode, encode, encode_list, lookup, Attribute};
use ripset::bytes::{be128_vec, be32_vec, get_be128, get_be32, get_le16, get_le32};
use ripset::codec::{decode_message, encode_message, serialize, to_packet};
use ripset::entry::{IpAddress, IpEntry, IpSetCreateOptions, NftSetCreateOptions};
use ripset::error::Error;
use ripset::frame::{frame, split, Packet};
use ripset::message::{
    check_message, Body, Echo, IpsetBody, IpsetData, Message, SetShape, IPSET_CMD_LIST,
    NFT_MSG_NEWSETELEM, NFT_MSG_NEWTABLE,
};
use ripset::operation::Operation;
use ripset::request::request;

fn raw(tag: u16, payload: &[u8]) -> Attribute {
    Attribute { tag, nested: false, network_order: false, payload: payload.to_vec() }
}

#[test]
fn big_endian_numbers_have_their_octets_in_network_order() {
    assert_eq!(be32_vec(0x0A00_0001), vec![10, 0, 0, 1]);
    assert_eq!(be32_vec(60), vec![0, 0, 0, 60]);
    assert_eq!(be32_vec(u32::MAX), vec![255, 255, 255, 255]);
    assert_eq!(get_be32(&[10, 0, 0, 1]), 0x0A00_0001);
    let v6: u128 = 0x2001_0db8_0000_0000_0000_0000_0000_0001;
    assert_eq!(
        be128_vec(v6),
        vec![0x20, 0x01, 0x0d, 0xb8, 0, 0, 0, 0, 0, 0, 0, 0, 0, 0, 0, 1]
    );
    assert_eq!(get_be128(&be128_vec(v6)), v6);
    assert_eq!(get_be128(&be128_vec(u128::MAX)), u128::MAX);
    assert_eq!(get_be128(&be128_vec(0)), 0);
}

#[test]
fn little_endian_numbers_are_read_from_their_offset() {
    let octets = [0xaa, 0x34, 0x12, 0x78, 0x56, 0x34, 0x12];
    assert_eq!(get_le16(&octets, 1), 0x1234);
    assert_eq!(get_le32(&octets, 3), 0x1234_5678);
}

#[test]
fn an_attribute_is_length_tag_payload_and_padding() {
    let bytes = encode(&raw(2, b"s1\0")).unwrap();
    assert_eq!(bytes, vec![7, 0, 2, 0, b's', b'1', 0, 0]);

    // a payload of a multiple of four octets takes no padding
    let bytes = encode(&raw(3, &[1, 2, 3, 4])).unwrap();
    assert_eq!(bytes, vec![8, 0, 3, 0, 1, 2, 3, 4]);

    // an empty payload is a header alone
    let bytes = encode(&raw(9, &[])).unwrap();
    assert_eq!(bytes, vec![4, 0, 9, 0]);

    // one octet of payload takes three of padding
    let bytes = encode(&raw(1, &[7])).unwrap();
    assert_eq!(bytes, vec![5, 0, 1, 0, 7, 0, 0, 0]);
}

#[test]
fn the_nested_and_network_order_bits_are_the_two_highest_of_the_tag() {
    let nested = Attribute { tag: 7, nested: true, network_order: false, payload: vec![1, 2, 3, 4] };
    assert_eq!(encode(&nested).unwrap(), vec![8, 0, 0x07, 0x80, 1, 2, 3, 4]);

    let number =
        Attribute { tag: 6, nested: false, network_order: true, payload: be32_vec(60) };
    assert_eq!(encode(&number).unwrap(), vec![8, 0, 0x06, 0x40, 0, 0, 0, 60]);
}

#[test]
fn an_attribute_that_cannot_be_encoded_is_malformed() {
    assert!(matches!(encode(&raw(0, &[1])), Err(Error::Malformed)));
    assert!(matches!(encode(&raw(0x2000, &[1])), Err(Error::Malformed)));
    assert!(matches!(encode(&raw(1, &vec![0u8; 0xfffc])), Err(Error::Malformed)));
    // the longest payload that fits
    let bytes = encode(&raw(1, &vec![0u8; 0xfffb])).unwrap();
    assert_eq!(bytes.len(), 0x10000);
    assert_eq!(&bytes[..4], &[0xff, 0xff, 1, 0]);
}

#[test]
fn decoding_gives_back_what_was_encoded() {
    let attrs = vec![
        raw(1, &[7]),
        raw(2, b"name\0"),
        Attribute { tag: 7, nested: true, network_order: false, payload: vec![8, 0, 6, 0x40, 0, 0, 0, 9] },
        Attribute { tag: 6, nested: false, network_order: true, payload: be32_vec(300) },
    ];
    let bytes = encode_list(&attrs);
    let decoded = decode(&bytes, 11).unwrap();
    assert_eq!(decoded.len(), 4);
    for (a, b) in attrs.iter().zip(decoded.iter()) {
        assert_eq!(a.tag, b.tag);
        assert_eq!(a.nested, b.nested);
        assert_eq!(a.network_order, b.network_order);
        assert_eq!(a.payload, b.payload);
    }
    let inner = decode(&decoded[2].payload, 30).unwrap();
    assert_eq!(inner.len(), 1);
    assert_eq!(inner[0].tag, 6);
    assert_eq!(get_be32(&inner[0].payload), 9);
    assert_eq!(lookup(&decoded, 2).unwrap().payload, b"name\0".to_vec());
    assert!(lookup(&decoded, 5).is_none());
}

#[test]
fn decoding_an_empty_buffer_gives_no_attributes() {
    assert!(decode(&[], 5).unwrap().is_empty());
}

#[test]
fn a_length_that_reaches_past_the_buffer_is_malformed() {
    // declares 12 octets, 8 are there
    assert!(matches!(decode(&[12, 0, 1, 0, 1, 2, 3, 4], 5), Err(Error::Malformed)));
    // a length shorter than a header
    assert!(matches!(decode(&[3, 0, 1, 0], 5), Err(Error::Malformed)));
    // fewer than four octets left over
    assert!(matches!(decode(&[4, 0, 1, 0, 9, 9], 5), Err(Error::Malformed)));
    // the second attribute is cut off
    assert!(matches!(decode(&[4, 0, 1, 0, 8, 0, 2, 0, 1], 5), Err(Error::Malformed)));
}

#[test]
fn the_last_attribute_may_come_without_its_padding() {
    let decoded = decode(&[5, 0, 1, 0, 7], 5).unwrap();
    assert_eq!(decoded.len(), 1);
    assert_eq!(decoded[0].payload, vec![7]);
}

#[test]
fn unknown_tags_are_skipped_unless_they_must_be_understood() {
    // tag 9 is not among 1..=5 and is skipped
    let bytes = [4, 0, 9, 0, 5, 0, 1, 0, 7, 0, 0, 0];
    let decoded = decode(&bytes, 5).unwrap();
    assert_eq!(decoded.len(), 1);
    assert_eq!(decoded[0].tag, 1);

    // tag 0 is never known
    let decoded = decode(&[4, 0, 0, 0], 5).unwrap();
    assert!(decoded.is_empty());

    // tag 9 with the must-understand bit fails the reader that does not know it
    let bytes = [4, 0, 9, 0x20, 5, 0, 1, 0, 7, 0, 0, 0];
    assert!(matches!(decode(&bytes, 5), Err(Error::Malformed)));

    // a reader that knows tag 9 takes it, bit or no bit
    let decoded = decode(&bytes, 9).unwrap();
    assert_eq!(decoded.len(), 2);
    assert_eq!(decoded[0].tag, 9);
}

#[test]
fn a_netlink_message_is_header_payload_and_padding() {
    let packet = Packet { kind: 0x0609, flags: 5, sequence: 7, port: 9, payload: vec![1, 2, 3] };
    let bytes = frame(&packet);
    assert_eq!(
        bytes,
        vec![19, 0, 0, 0, 0x09, 0x06, 5, 0, 7, 0, 0, 0, 9, 0, 0, 0, 1, 2, 3, 0]
    );
}

#[test]
fn a_datagram_splits_into_its_messages() {
    let first = Packet { kind: 2, flags: 0, sequence: 1, port: 2, payload: vec![1, 2, 3, 4, 5] };
    let second = Packet { kind: 3, flags: 2, sequence: 1, port: 2, payload: vec![] };
    let mut datagram = frame(&first);
    datagram.extend(frame(&second));
    let packets = split(&datagram).unwrap();
    assert_eq!(packets.len(), 2);
    assert_eq!(packets[0].kind, 2);
    assert_eq!(packets[0].payload, vec![1, 2, 3, 4, 5]);
    assert_eq!(packets[1].kind, 3);
    assert_eq!(packets[1].flags, 2);
    assert_eq!(packets[1].sequence, 1);
    assert_eq!(packets[1].port, 2);
    assert!(packets[1].payload.is_empty());
    assert!(split(&[]).unwrap().is_empty());
}

#[test]
fn a_datagram_with_a_bad_length_is_malformed() {
    // shorter than a header
    assert!(matches!(split(&[1, 2, 3]), Err(Error::Malformed)));
    // length below sixteen
    let mut bytes = vec![0u8; 16];
    bytes[0] = 15;
    assert!(matches!(split(&bytes), Err(Error::Malformed)));
    // length beyond the datagram
    bytes[0] = 20;
    assert!(matches!(split(&bytes), Err(Error::Malformed)));
}

#[test]
fn the_request_that_adds_to_an_ipset_set_has_this_layout() {
    let op = Operation::IpsetAdd {
        name: "s1".to_string(),
        entry: IpEntry::new(IpAddress::V4(0x0A00_0001)),
    };
    let message = request(&op, 7, 9).unwrap();
    let bytes = encode_message(&message);
    let expected: Vec<u8> = vec![
        // netlink header: length 52, type ipset add, request and ack, sequence, port
        52, 0, 0, 0, 0x09, 0x06, 5, 0, 7, 0, 0, 0, 9, 0, 0, 0,
        // family IPv4, version 0, resource 0
        2, 0, 0, 0,
        // protocol version 7
        5, 0, 1, 0, 7, 0, 0, 0,
        // set name "s1"
        7, 0, 2, 0, b's', b'1', 0, 0,
        // data { ip { ipv4 address in network order } }
        16, 0, 7, 0x80, 12, 0, 1, 0x80, 8, 0, 1, 0x40, 10, 0, 0, 1,
    ];
    assert_eq!(bytes, expected);
}

#[test]
fn a_timeout_is_four_octets_of_seconds_in_network_order() {
    let op = Operation::IpsetAdd {
        name: "s1".to_string(),
        entry: IpEntry::with_timeout(IpAddress::V4(0x0A00_0002), 60),
    };
    let bytes = encode_message(&request(&op, 1, 0).unwrap());
    let tail: Vec<u8> = vec![
        24, 0, 7, 0x80, 12, 0, 1, 0x80, 8, 0, 1, 0x40, 10, 0, 0, 2, 8, 0, 6, 0x40, 0, 0, 0, 60,
    ];
    assert_eq!(&bytes[bytes.len() - tail.len()..], &tail[..]);
    assert_eq!(bytes.len(), 60);

    // without a timeout the attribute is left out
    let op = Operation::IpsetAdd {
        name: "s1".to_string(),
        entry: IpEntry::new(IpAddress::V4(0x0A00_0002)),
    };
    assert_eq!(encode_message(&request(&op, 1, 0).unwrap()).len(), 52);
}

#[test]
fn an_ipv6_address_is_sixteen_octets_under_its_own_tag() {
    let addr = IpAddress::V6(0x2001_0db8_0000_0000_0000_0000_0000_0001);
    let op = Operation::IpsetTest { name: "s6".to_string(), entry: IpEntry::new(addr) };
    let bytes = encode_message(&request(&op, 1, 0).unwrap());
    let tail: Vec<u8> = vec![
        28, 0, 7, 0x80, 24, 0, 1, 0x80, 20, 0, 2, 0x40, 0x20, 0x01, 0x0d, 0xb8, 0, 0, 0, 0, 0, 0,
        0, 0, 0, 0, 0, 1,
    ];
    assert_eq!(&bytes[bytes.len() - tail.len()..], &tail[..]);
    // family IPv6 in the header of the message
    assert_eq!(bytes[16], 10);
    // type: ipset test
    assert_eq!(&bytes[4..6], &[0x0b, 0x06]);
}

#[test]
fn the_request_that_creates_an_ipset_set_names_type_revision_and_family() {
    let options = IpSetCreateOptions {
        timeout: Some(300),
        hashsize: Some(1024),
        maxelem: Some(65536),
        ..Default::default()
    };
    let op = Operation::IpsetCreate { name: "s1".to_string(), options };
    let bytes = encode_message(&request(&op, 3, 4).unwrap());
    let expected: Vec<u8> = vec![
        92, 0, 0, 0, 0x02, 0x06, 5, 0, 3, 0, 0, 0, 4, 0, 0, 0,
        2, 0, 0, 0,
        5, 0, 1, 0, 7, 0, 0, 0,
        7, 0, 2, 0, b's', b'1', 0, 0,
        // type name "hash:ip"
        12, 0, 3, 0, b'h', b'a', b's', b'h', b':', b'i', b'p', 0,
        // revision 0
        5, 0, 4, 0, 0, 0, 0, 0,
        // family IPv4
        5, 0, 5, 0, 2, 0, 0, 0,
        // data { timeout 300, hashsize 1024, maxelem 65536 }
        28, 0, 7, 0x80,
        8, 0, 6, 0x40, 0, 0, 1, 44,
        8, 0, 18, 0x40, 0, 0, 4, 0,
        8, 0, 19, 0x40, 0, 1, 0, 0,
    ];
    assert_eq!(bytes, expected);
}

#[test]
fn the_request_that_lists_asks_for_a_dump() {
    let op = Operation::IpsetList { name: "s1".to_string() };
    let bytes = encode_message(&request(&op, 1, 0).unwrap());
    assert_eq!(&bytes[4..8], &[0x07, 0x06, 0x01, 0x03]);
    let op = Operation::NftList {
        family: "inet".to_string(),
        table: "t".to_string(),
        name: "s".to_string(),
    };
    let bytes = encode_message(&request(&op, 1, 0).unwrap());
    assert_eq!(&bytes[4..8], &[0x0d, 0x0a, 0x01, 0x03]);
}

#[test]
fn the_request_that_creates_an_nftables_set_has_this_layout() {
    let op = Operation::NftCreateSet {
        family: "inet".to_string(),
        table: "t1".to_string(),
        name: "s2".to_string(),
        options: NftSetCreateOptions::default(),
    };
    let bytes = encode_message(&request(&op, 1, 0).unwrap());
    let expected: Vec<u8> = vec![
        60, 0, 0, 0, 0x09, 0x0a, 5, 0, 1, 0, 0, 0, 0, 0, 0, 0,
        // family inet
        1, 0, 0, 0,
        7, 0, 1, 0, b't', b'1', 0, 0,
        7, 0, 2, 0, b's', b'2', 0, 0,
        // flags 0, key type ipv4_addr, key width 4
        8, 0, 3, 0, 0, 0, 0, 0,
        8, 0, 4, 0, 0, 0, 0, 7,
        8, 0, 5, 0, 0, 0, 0, 4,
    ];
    assert_eq!(bytes, expected);
}

#[test]
fn a_set_with_a_default_timeout_has_the_timeout_flag() {
    let op = Operation::NftCreateSet {
        family: "ip6".to_string(),
        table: "t1".to_string(),
        name: "s2".to_string(),
        options: NftSetCreateOptions {
            set_type: ripset::entry::NftSetType::Ipv6Addr,
            timeout: Some(300),
        },
    };
    let bytes = encode_message(&request(&op, 1, 0).unwrap());
    let tail: Vec<u8> = vec![
        8, 0, 3, 0, 0, 0, 0, 0x10, 8, 0, 4, 0, 0, 0, 0, 8, 8, 0, 5, 0, 0, 0, 0, 16, 8, 0, 11, 0,
        0, 0, 1, 44,
    ];
    assert_eq!(&bytes[bytes.len() - tail.len()..], &tail[..]);
    assert_eq!(bytes[16], 10);
}

#[test]
fn the_request_that_adds_to_an_nftables_set_holds_a_list_of_one_element() {
    let op = Operation::NftAdd {
        family: "ip".to_string(),
        table: "t1".to_string(),
        name: "s2".to_string(),
        entry: IpEntry::with_timeout(IpAddress::V4(0x0A00_0005), 60),
    };
    let bytes = encode_message(&request(&op, 1, 0).unwrap());
    let expected: Vec<u8> = vec![
        64, 0, 0, 0, 0x0c, 0x0a, 5, 0, 1, 0, 0, 0, 0, 0, 0, 0,
        2, 0, 0, 0,
        7, 0, 1, 0, b't', b'1', 0, 0,
        7, 0, 2, 0, b's', b'2', 0, 0,
        // elements { element { key { value }, timeout } }
        28, 0, 3, 0x80,
        24, 0, 1, 0x80,
        12, 0, 1, 0x80, 8, 0, 1, 0, 10, 0, 0, 5,
        8, 0, 4, 0, 0, 0, 0, 60,
    ];
    assert_eq!(bytes, expected);
}

#[test]
fn the_request_for_the_tables_of_a_family_holds_no_attributes() {
    let op = Operation::NftListTables { family: "inet".to_string() };
    let bytes = encode_message(&request(&op, 5, 6).unwrap());
    assert_eq!(
        bytes,
        vec![20, 0, 0, 0, 0x01, 0x0a, 0x01, 0x03, 5, 0, 0, 0, 6, 0, 0, 0, 1, 0, 0, 0]
    );
}

#[test]
fn an_acknowledgement_is_code_zero_and_the_header_of_the_request() {
    let bytes: Vec<u8> = vec![
        36, 0, 0, 0, 2, 0, 0, 0, 7, 0, 0, 0, 9, 0, 0, 0,
        0, 0, 0, 0,
        52, 0, 0, 0, 0x09, 0x06, 5, 0, 7, 0, 0, 0, 9, 0, 0, 0,
    ];
    let packets = split(&bytes).unwrap();
    let message = decode_message(&packets[0]).unwrap();
    assert_eq!(message.sequence, 7);
    assert_eq!(message.port, 9);
    match message.body {
        Body::Status { code, request } => {
            assert_eq!(code, 0);
            assert_eq!(
                request,
                Echo { length: 52, kind: 0x0609, flags: 5, sequence: 7, port: 9 }
            );
        }
        other => panic!("not a status: {:?}", other),
    }
    // and back
    assert_eq!(encode_message(&message), bytes);
}

#[test]
fn an_error_code_is_a_negative_number_of_four_octets() {
    let bytes: Vec<u8> = vec![
        36, 0, 0, 0, 2, 0, 0, 0, 1, 0, 0, 0, 0, 0, 0, 0,
        0xfe, 0xff, 0xff, 0xff,
        20, 0, 0, 0, 0x03, 0x06, 5, 0, 1, 0, 0, 0, 0, 0, 0, 0,
    ];
    let message = decode_message(&split(&bytes).unwrap()[0]).unwrap();
    assert!(matches!(message.body, Body::Status { code: -2, .. }));

    let other = Message {
        kind: 2,
        flags: 0,
        sequence: 1,
        port: 0,
        body: Body::Status {
            code: -4103,
            request: Echo { length: 0, kind: 0, flags: 0, sequence: 0, port: 0 },
        },
    };
    let encoded = encode_message(&other);
    assert_eq!(&encoded[16..20], &[0xf9, 0xef, 0xff, 0xff]);
    let back = decode_message(&split(&encoded).unwrap()[0]).unwrap();
    assert!(matches!(back.body, Body::Status { code: -4103, .. }));

    let lowest = Message {
        body: Body::Status {
            code: i32::MIN,
            request: Echo { length: 0, kind: 0, flags: 0, sequence: 0, port: 0 },
        },
        ..other
    };
    let back = decode_message(&split(&encode_message(&lowest)).unwrap()[0]).unwrap();
    assert!(matches!(back.body, Body::Status { code: i32::MIN, .. }));
}

#[test]
fn an_error_message_that_is_too_short_is_malformed() {
    let packet = Packet { kind: 2, flags: 0, sequence: 1, port: 0, payload: vec![0; 19] };
    assert!(matches!(decode_message(&packet), Err(Error::Malformed)));
    let packet = Packet { kind: 0x0607, flags: 0, sequence: 1, port: 0, payload: vec![2, 0, 0] };
    assert!(matches!(decode_message(&packet), Err(Error::Malformed)));
}

#[test]
fn an_ipset_message_without_a_set_name_is_malformed() {
    // protocol alone
    let packet = Packet {
        kind: 0x0607,
        flags: 0,
        sequence: 1,
        port: 0,
        payload: vec![2, 0, 0, 0, 5, 0, 1, 0, 7, 0, 0, 0],
    };
    assert!(matches!(decode_message(&packet), Err(Error::Malformed)));
    // a name without its zero octet
    let packet = Packet {
        kind: 0x0607,
        flags: 0,
        sequence: 1,
        port: 0,
        payload: vec![2, 0, 0, 0, 5, 0, 1, 0, 7, 0, 0, 0, 6, 0, 2, 0, b's', b'1', 0, 0],
    };
    assert!(matches!(decode_message(&packet), Err(Error::Malformed)));
}

#[test]
fn a_message_of_an_unknown_type_is_read_as_other() {
    let packet = Packet { kind: 1, flags: 0, sequence: 1, port: 0, payload: vec![1, 2, 3] };
    assert!(matches!(decode_message(&packet).unwrap().body, Body::Other));
    let packet = Packet { kind: 0x0a0f, flags: 0, sequence: 1, port: 0, payload: vec![] };
    assert!(matches!(decode_message(&packet).unwrap().body, Body::Other));
}

#[test]
fn a_listing_of_an_ipset_set_is_read_member_by_member() {
    let members = vec![
        IpEntry::new(IpAddress::V4(0x0A00_0001)),
        IpEntry::with_timeout(IpAddress::V4(0x0A00_0002), 30),
    ];
    let message = Message {
        kind: IPSET_CMD_LIST,
        flags: 2,
        sequence: 4,
        port: 5,
        body: Body::Ipset(IpsetBody {
            family: 2,
            protocol: 7,
            name: b"s1".to_vec(),
            second: None,
            revision: None,
            set_family: None,
            data: None,
            members: members.clone(),
        }),
    };
    let bytes = serialize(&message).unwrap();
    let back = decode_message(&split(&bytes).unwrap()[0]).unwrap();
    match back.body {
        Body::Ipset(body) => {
            assert_eq!(body.name, b"s1".to_vec());
            assert_eq!(body.members, members);
            assert_eq!(body.protocol, 7);
            assert!(body.data.is_none());
        }
        other => panic!("not an ipset message: {:?}", other),
    }
}

#[test]
fn attributes_that_are_not_modelled_are_ignored() {
    // a member with a packet counter (tag 25) beside its address
    let mut data = encode(&Attribute {
        tag: 1,
        nested: true,
        network_order: false,
        payload: encode(&Attribute {
            tag: 1,
            nested: false,
            network_order: true,
            payload: vec![10, 0, 0, 9],
        })
        .unwrap(),
    })
    .unwrap();
    data.extend(
        encode(&Attribute {
            tag: 25,
            nested: false,
            network_order: true,
            payload: vec![0, 0, 0, 0, 0, 0, 0, 5],
        })
        .unwrap(),
    );
    let member = Attribute { tag: 7, nested: true, network_order: false, payload: data };
    let adt = Attribute {
        tag: 8,
        nested: true,
        network_order: false,
        payload: encode(&member).unwrap(),
    };
    let mut payload = vec![2, 0, 0, 0];
    payload.extend(encode_list(&vec![raw(1, &[7]), raw(2, b"s1\0"), adt]));
    let packet = Packet { kind: 0x0607, flags: 2, sequence: 1, port: 0, payload };
    match decode_message(&packet).unwrap().body {
        Body::Ipset(body) => {
            assert_eq!(body.members, vec![IpEntry::new(IpAddress::V4(0x0A00_0009))]);
        }
        other => panic!("not an ipset message: {:?}", other),
    }
}

#[test]
fn every_kind_of_message_survives_the_wire() {
    let messages = vec![
        Message {
            kind: NFT_MSG_NEWTABLE,
            flags: 2,
            sequence: 1,
            port: 2,
            body: Body::NftTable { family: 1, name: Some(b"filter".to_vec()) },
        },
        Message {
            kind: 0x0a09,
            flags: 5,
            sequence: 1,
            port: 2,
            body: Body::NftSet {
                family: 2,
                table: b"t".to_vec(),
                name: b"s".to_vec(),
                shape: Some(SetShape { flags: 0x10, key_type: 7, key_len: 4, timeout: Some(9) }),
            },
        },
        Message {
            kind: 0x0a0b,
            flags: 5,
            sequence: 1,
            port: 2,
            body: Body::NftSet { family: 2, table: b"t".to_vec(), name: b"s".to_vec(), shape: None },
        },
        Message {
            kind: NFT_MSG_NEWSETELEM,
            flags: 2,
            sequence: 1,
            port: 2,
            body: Body::NftElements {
                family: 10,
                table: b"t".to_vec(),
                set: b"s".to_vec(),
                elements: vec![
                    IpEntry::new(IpAddress::V6(1)),
                    IpEntry::with_timeout(IpAddress::V6(u128::MAX), u32::MAX),
                ],
            },
        },
        Message { kind: 3, flags: 2, sequence: 1, port: 2, body: Body::Done },
        Message {
            kind: 0x0602,
            flags: 5,
            sequence: 1,
            port: 2,
            body: Body::Ipset(IpsetBody {
                family: 10,
                protocol: 7,
                name: b"a".to_vec(),
                second: Some(b"hash:net".to_vec()),
                revision: Some(3),
                set_family: Some(10),
                data: Some(IpsetData {
                    addr: None,
                    timeout: Some(1),
                    hashsize: Some(2),
                    maxelem: Some(3),
                }),
                members: vec![],
            }),
        },
    ];
    for message in messages {
        assert!(check_message(&message));
        let bytes = serialize(&message).unwrap();
        assert_eq!(bytes.len() % 4, 0);
        let packets = split(&bytes).unwrap();
        assert_eq!(packets.len(), 1);
        assert_eq!(packets[0].payload, to_packet(&message).payload);
        let back = decode_message(&packets[0]).unwrap();
        assert_eq!(format!("{:?}", back), format!("{:?}", message));
    }
}

#[test]
fn a_message_that_does_not_fit_the_wire_is_not_serialized() {
    // a name with a zero octet
    let message = Message {
        kind: NFT_MSG_NEWTABLE,
        flags: 5,
        sequence: 1,
        port: 2,
        body: Body::NftTable { family: 1, name: Some(b"a\0b".to_vec()) },
    };
    assert!(!check_message(&message));
    assert!(matches!(serialize(&message), Err(Error::Malformed)));
    // a body under a type that does not carry it
    let message = Message { kind: 2, flags: 0, sequence: 1, port: 2, body: Body::Done };
    assert!(matches!(serialize(&message), Err(Error::Malformed)));
    // an ipset name of 32 octets
    let message = Message {
        kind: 0x0603,
        flags: 5,
        sequence: 1,
        port: 2,
        body: Body::Ipset(IpsetBody {
            family: 2,
            protocol: 7,
            name: vec![b'x'; 32],
            second: None,
            revision: None,
            set_family: None,
            data: None,
            members: vec![],
        }),
    };
    assert!(matches!(serialize(&message), Err(Error::Malformed)));
}
