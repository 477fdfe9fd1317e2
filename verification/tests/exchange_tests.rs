//! One request and its answers, and an operation as a sequence of
//! exchanges, with the kernel's answers written out by hand.

use ripset::codec::{encode_message, serialize};
use ripset::entry::{IpAddress, IpEntry};
use ripset::error::Error;
use ripset::exchange::{Exchange, Progress};
use ripset::message::{Body, Echo, IpsetBody, Message};
use ripset::operation::{Operation, Outcome};
use ripset::reply::conclude;
use ripset::session::{Session, Turn};

const ECHO: Echo = Echo { length: 0, kind: 0, flags: 0, sequence: 0, port: 0 };

fn status(sequence: u32, port: u32, code: i32) -> Vec<u8> {
    encode_message(&Message {
        kind: 2,
        flags: 0,
        sequence,
        port,
        body: Body::Status { code, request: ECHO },
    })
}

fn done(sequence: u32, port: u32) -> Vec<u8> {
    encode_message(&Message { kind: 3, flags: 2, sequence, port, body: Body::Done })
}

fn elements(sequence: u32, port: u32, addrs: &[u32]) -> Vec<u8> {
    encode_message(&Message {
        kind: 0x0a0c,
        flags: 2,
        sequence,
        port,
        body: Body::NftElements {
            family: 1,
            table: b"t".to_vec(),
            set: b"s".to_vec(),
            elements: addrs.iter().map(|a| IpEntry::new(IpAddress::V4(*a))).collect(),
        },
    })
}

fn members(sequence: u32, port: u32, addrs: &[u32]) -> Vec<u8> {
    encode_message(&Message {
        kind: 0x0607,
        flags: 2,
        sequence,
        port,
        body: Body::Ipset(IpsetBody {
            family: 2,
            protocol: 7,
            name: b"s".to_vec(),
            second: None,
            revision: None,
            set_family: None,
            data: None,
            members: addrs.iter().map(|a| IpEntry::new(IpAddress::V4(*a))).collect(),
        }),
    })
}

fn list_op() -> Operation<String> {
    Operation::IpsetList { name: "s".to_string() }
}

#[test]
fn an_acknowledgement_completes_an_exchange() {
    let mut exchange = Exchange::new(7, 9, false);
    assert_eq!(exchange.progress, Progress::Pending);
    exchange.receive(&status(7, 9, 0));
    assert_eq!(exchange.progress, Progress::Complete);
    assert!(exchange.bodies.is_empty());
}

#[test]
fn an_error_code_rejects_an_exchange() {
    let mut exchange = Exchange::new(7, 9, false);
    exchange.receive(&status(7, 9, -2));
    assert_eq!(exchange.progress, Progress::Rejected(-2));
}

#[test]
fn messages_with_another_sequence_or_port_are_dropped() {
    let mut exchange = Exchange::new(7, 9, false);
    exchange.receive(&status(8, 9, -2));
    assert_eq!(exchange.progress, Progress::Pending);
    exchange.receive(&status(7, 10, -2));
    assert_eq!(exchange.progress, Progress::Pending);
    exchange.receive(&members(6, 9, &[1]));
    assert!(exchange.bodies.is_empty());
    // even a foreign message that cannot be decoded is dropped
    let mut garbage = status(99, 9, 0);
    garbage.truncate(20);
    garbage[0] = 20;
    exchange.receive(&garbage);
    assert_eq!(exchange.progress, Progress::Pending);
    exchange.receive(&status(7, 9, 0));
    assert_eq!(exchange.progress, Progress::Complete);
}

#[test]
fn a_dump_collects_its_parts_until_the_end_marker() {
    let mut exchange = Exchange::new(1, 2, true);
    exchange.receive(&members(1, 2, &[10, 11]));
    assert_eq!(exchange.progress, Progress::Pending);
    // two messages in one datagram
    let mut datagram = members(1, 2, &[12]);
    datagram.extend(members(1, 2, &[13]));
    exchange.receive(&datagram);
    assert_eq!(exchange.progress, Progress::Pending);
    assert_eq!(exchange.bodies.len(), 3);
    // an acknowledgement does not end a dump
    exchange.receive(&status(1, 2, 0));
    assert_eq!(exchange.progress, Progress::Pending);
    exchange.receive(&done(1, 2));
    assert_eq!(exchange.progress, Progress::Complete);
    match conclude(&list_op(), &exchange) {
        Ok(Outcome::Entries(entries)) => assert_eq!(
            entries,
            vec![
                IpAddress::V4(10),
                IpAddress::V4(11),
                IpAddress::V4(12),
                IpAddress::V4(13)
            ]
        ),
        other => panic!("not a listing: {:?}", other),
    }
}

#[test]
fn an_error_aborts_a_dump_and_what_follows_is_ignored() {
    let mut exchange = Exchange::new(1, 2, true);
    exchange.receive(&members(1, 2, &[10]));
    let mut datagram = status(1, 2, -2);
    datagram.extend(members(1, 2, &[11]));
    datagram.extend(done(1, 2));
    exchange.receive(&datagram);
    assert_eq!(exchange.progress, Progress::Rejected(-2));
    exchange.receive(&members(1, 2, &[12]));
    exchange.receive(&done(1, 2));
    exchange.expire();
    assert_eq!(exchange.progress, Progress::Rejected(-2));
    assert_eq!(exchange.bodies.len(), 1);
    // no part of the listing is handed out
    assert!(matches!(conclude(&list_op(), &exchange), Err(Error::NotFound)));
}

#[test]
fn a_deadline_that_passes_times_the_exchange_out() {
    let mut exchange = Exchange::new(1, 2, true);
    exchange.receive(&members(1, 2, &[10]));
    exchange.expire();
    assert_eq!(exchange.progress, Progress::Expired);
    assert!(matches!(conclude(&list_op(), &exchange), Err(Error::Timeout)));
    // an answer that comes too late changes nothing
    exchange.receive(&done(1, 2));
    assert_eq!(exchange.progress, Progress::Expired);
}

#[test]
fn an_exchange_that_is_not_over_counts_as_timed_out() {
    let exchange = Exchange::new(1, 2, false);
    assert!(matches!(conclude(&list_op(), &exchange), Err(Error::Timeout)));
}

#[test]
fn the_deadline_does_not_touch_an_exchange_that_is_over() {
    let mut exchange = Exchange::new(1, 2, false);
    exchange.receive(&status(1, 2, 0));
    exchange.expire();
    assert_eq!(exchange.progress, Progress::Complete);
}

#[test]
fn a_malformed_answer_breaks_the_exchange() {
    let mut exchange = Exchange::new(1, 2, false);
    exchange.receive(&[1, 2, 3]);
    assert_eq!(exchange.progress, Progress::Broken);
    assert!(matches!(conclude(&list_op(), &exchange), Err(Error::Malformed)));

    // a message of ours whose attributes are cut off
    let mut exchange = Exchange::new(1, 2, true);
    let mut datagram = members(1, 2, &[10]);
    let last = datagram.len() - 1;
    datagram[last - 7] = 200;
    exchange.receive(&datagram);
    assert_eq!(exchange.progress, Progress::Broken);
}

#[test]
fn messages_that_are_not_modelled_are_skipped() {
    let mut exchange = Exchange::new(1, 2, false);
    // NLMSG_NOOP
    exchange.receive(&[16, 0, 0, 0, 1, 0, 0, 0, 1, 0, 0, 0, 2, 0, 0, 0]);
    assert_eq!(exchange.progress, Progress::Pending);
    assert!(exchange.bodies.is_empty());
}

#[test]
fn a_test_on_ipset_reads_the_kernel_code_as_yes_or_no() {
    let op = Operation::IpsetTest {
        name: "s".to_string(),
        entry: IpEntry::new(IpAddress::V4(1)),
    };
    let mut exchange = Exchange::new(1, 2, false);
    exchange.receive(&status(1, 2, 0));
    assert!(matches!(conclude(&op, &exchange), Ok(Outcome::Member(true))));
    let mut exchange = Exchange::new(1, 2, false);
    exchange.receive(&status(1, 2, -4103));
    assert!(matches!(conclude(&op, &exchange), Ok(Outcome::Member(false))));
    let mut exchange = Exchange::new(1, 2, false);
    exchange.receive(&status(1, 2, -2));
    assert!(matches!(conclude(&op, &exchange), Err(Error::NotFound)));
}

#[test]
fn the_member_code_of_ipset_means_exists_on_add_and_missing_on_del() {
    let entry = IpEntry::new(IpAddress::V4(1));
    let mut exchange = Exchange::new(1, 2, false);
    exchange.receive(&status(1, 2, -4103));
    let add = Operation::IpsetAdd { name: "s".to_string(), entry };
    assert!(matches!(conclude(&add, &exchange), Err(Error::AlreadyExists)));
    let del = Operation::IpsetDel { name: "s".to_string(), entry };
    assert!(matches!(conclude(&del, &exchange), Err(Error::NotFound)));
    // on any other operation the code is handed on
    let flush = Operation::IpsetFlush { name: "s".to_string() };
    assert!(matches!(conclude(&flush, &exchange), Err(Error::ProtocolError(-4103, _))));
}

#[test]
fn a_test_on_nftables_looks_for_the_address_in_the_answer() {
    let op = Operation::NftTest {
        family: "inet".to_string(),
        table: "t".to_string(),
        name: "s".to_string(),
        entry: IpEntry::new(IpAddress::V4(5)),
    };
    let mut exchange = Exchange::new(1, 2, false);
    exchange.receive(&elements(1, 2, &[5]));
    exchange.receive(&status(1, 2, 0));
    assert!(matches!(conclude(&op, &exchange), Ok(Outcome::Member(true))));

    let mut exchange = Exchange::new(1, 2, false);
    exchange.receive(&elements(1, 2, &[6]));
    exchange.receive(&status(1, 2, 0));
    assert!(matches!(conclude(&op, &exchange), Ok(Outcome::Member(false))));

    let mut exchange = Exchange::new(1, 2, false);
    exchange.receive(&status(1, 2, 0));
    assert!(matches!(conclude(&op, &exchange), Ok(Outcome::Member(false))));
}

#[test]
fn a_table_listing_gives_the_names_and_fails_on_a_name_that_is_not_text() {
    let table = |name: &[u8]| {
        encode_message(&Message {
            kind: 0x0a00,
            flags: 2,
            sequence: 1,
            port: 2,
            body: Body::NftTable { family: 1, name: Some(name.to_vec()) },
        })
    };
    let op = Operation::NftListTables { family: "inet".to_string() };
    let mut exchange = Exchange::new(1, 2, true);
    exchange.receive(&table(b"filter"));
    exchange.receive(&table("t\u{e4}ble".as_bytes()));
    exchange.receive(&done(1, 2));
    match conclude(&op, &exchange) {
        Ok(Outcome::Tables(names)) => {
            assert_eq!(names, vec!["filter".to_string(), "t\u{e4}ble".to_string()])
        }
        other => panic!("not a table listing: {:?}", other),
    }

    let mut exchange = Exchange::new(1, 2, true);
    exchange.receive(&table(b"filter"));
    exchange.receive(&table(&[0xff, 0xfe]));
    exchange.receive(&done(1, 2));
    assert!(matches!(conclude(&op, &exchange), Err(Error::Malformed)));
}

#[test]
fn an_operation_of_one_exchange_sends_once_and_finishes() {
    let op = Operation::IpsetDestroy { name: "s".to_string() };
    let (session, turn) = Session::start(op, 40, 9);
    let (request, mut exchange) = match turn {
        Turn::Send { request, exchange } => (request, exchange),
        other => panic!("nothing to send: {:?}", other),
    };
    assert_eq!(request.sequence, 40);
    assert_eq!(request.port, 9);
    assert_eq!(request.kind, 0x0603);
    assert!(serialize(&request).is_ok());
    exchange.receive(&status(40, 9, 0));
    let (_, turn) = session.resume(exchange);
    assert!(matches!(turn, Turn::Finish(Ok(Outcome::Done))));
}

#[test]
fn an_operation_that_is_refused_sends_nothing() {
    let op = Operation::NftRename {
        family: "inet".to_string(),
        table: "t".to_string(),
        from: "a".to_string(),
        to: "b".to_string(),
    };
    let (_, turn) = Session::start(op, 1, 2);
    assert!(matches!(turn, Turn::Finish(Err(Error::Unsupported))));
}

#[test]
fn a_flush_lists_and_then_deletes_each_member_in_turn() {
    let op = Operation::NftFlush {
        family: "inet".to_string(),
        table: "t".to_string(),
        name: "s".to_string(),
    };
    let (mut session, mut turn) = Session::start(op, u32::MAX, 9);
    let mut sent: Vec<(u16, u16, u32, Vec<IpEntry>)> = Vec::new();
    loop {
        match turn {
            Turn::Finish(result) => {
                assert!(matches!(result, Ok(Outcome::Done)));
                break;
            }
            Turn::Send { request, mut exchange } => {
                let elements_sent = match &request.body {
                    Body::NftElements { elements, .. } => elements.clone(),
                    other => panic!("not an element message: {:?}", other),
                };
                sent.push((request.kind, request.flags, request.sequence, elements_sent));
                if sent.len() == 1 {
                    exchange.receive(&elements(request.sequence, 9, &[10, 11]));
                    exchange.receive(&elements(request.sequence, 9, &[12]));
                    exchange.receive(&done(request.sequence, 9));
                } else {
                    exchange.receive(&status(request.sequence, 9, 0));
                }
                (session, turn) = session.resume(exchange);
            }
        }
    }
    let member = |a: u32| vec![IpEntry::new(IpAddress::V4(a))];
    assert_eq!(
        sent,
        vec![
            // the listing, then one deletion for each member in the order listed;
            // the sequence number goes on from the largest to 0
            (0x0a0d, 0x301, u32::MAX, vec![]),
            (0x0a0e, 0x005, 0, member(10)),
            (0x0a0e, 0x005, 1, member(11)),
            (0x0a0e, 0x005, 2, member(12)),
        ]
    );
}

#[test]
fn a_flush_stops_at_the_first_deletion_that_fails() {
    let op = Operation::NftFlush {
        family: "inet".to_string(),
        table: "t".to_string(),
        name: "s".to_string(),
    };
    let (mut session, mut turn) = Session::start(op, 1, 9);
    let mut requests = 0;
    let result = loop {
        match turn {
            Turn::Finish(result) => break result,
            Turn::Send { request, mut exchange } => {
                requests += 1;
                match requests {
                    1 => {
                        exchange.receive(&elements(request.sequence, 9, &[10, 11, 12]));
                        exchange.receive(&done(request.sequence, 9));
                    }
                    2 => exchange.receive(&status(request.sequence, 9, 0)),
                    _ => exchange.receive(&status(request.sequence, 9, -2)),
                }
                (session, turn) = session.resume(exchange);
            }
        }
    };
    assert!(matches!(result, Err(Error::NotFound)));
    assert_eq!(requests, 3);
}

#[test]
fn a_flush_whose_listing_fails_deletes_nothing() {
    let op = Operation::NftFlush {
        family: "inet".to_string(),
        table: "t".to_string(),
        name: "s".to_string(),
    };
    let (session, turn) = Session::start(op, 1, 9);
    let mut exchange = match turn {
        Turn::Send { exchange, .. } => exchange,
        other => panic!("nothing to send: {:?}", other),
    };
    exchange.expire();
    let (_, turn) = session.resume(exchange);
    assert!(matches!(turn, Turn::Finish(Err(Error::Timeout))));
}

#[test]
fn a_flush_of_an_empty_set_is_done_after_the_listing() {
    let op = Operation::NftFlush {
        family: "ip".to_string(),
        table: "t".to_string(),
        name: "s".to_string(),
    };
    let (session, turn) = Session::start(op, 1, 9);
    let mut exchange = match turn {
        Turn::Send { exchange, .. } => exchange,
        other => panic!("nothing to send: {:?}", other),
    };
    exchange.receive(&done(1, 9));
    let (_, turn) = session.resume(exchange);
    assert!(matches!(turn, Turn::Finish(Ok(Outcome::Done))));
}
