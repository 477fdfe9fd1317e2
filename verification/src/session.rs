//! An operation as a sequence of exchanges.
//!
//! Most operations are one exchange. Flushing an nftables set is several:
//! the set is listed, and each member that the listing held is deleted by a
//! request of its own. The set is not locked in between, so another reader
//! may see it half empty, and a member that someone else deleted meanwhile
//! fails the flush with "not found".
//!
//! A session says which request to send next and is told how the exchange
//! for it ended. It does no I/O: the caller sends the request, feeds the
//! [`Exchange`] until it is over, and comes back with it.

use vstd::prelude::*;
use crate::entry::{IpAddress, IpEntry};
use crate::error::{Error, ErrorView};
use crate::exchange::{begin_spec, Exchange, ExchangeView};
use crate::message::Message;
use crate::operation::{Operation, Outcome, OutcomeView};
use crate::reply::{conclude, conclude_spec, outcome_view};
use crate::request::{request, request_spec, FLAGS_DUMP};

verus! {

/// What is left to do of an operation.
///
/// `N` is the type of a name, `Q` the type of a list of addresses.
#[derive(Debug)]
pub enum Plan<N, Q> {
    /// An operation of one exchange, whose request has been sent.
    Single { op: Operation<N> },
    /// A flush whose listing has been sent.
    Listing { family: N, table: N, name: N },
    /// A flush that has the members `queue` left to delete, the last of
    /// them first. The request that deletes the last has been sent.
    Deleting { family: N, table: N, name: N, queue: Q },
}

impl View for Plan<String, Vec<IpAddress>> {
    type V = Plan<Seq<char>, Seq<IpAddress>>;

    open spec fn view(&self) -> Plan<Seq<char>, Seq<IpAddress>> {
        match *self {
            Plan::Single { op } => Plan::Single { op: op@ },
            Plan::Listing { family, table, name } => Plan::Listing {
                family: family@,
                table: table@,
                name: name@,
            },
            Plan::Deleting { family, table, name, queue } => Plan::Deleting {
                family: family@,
                table: table@,
                name: name@,
                queue: queue@,
            },
        }
    }
}

/// The state of an operation that is being run.
#[derive(Debug)]
pub struct Session {
    /// The port of the socket that the requests are sent from.
    pub port: u32,
    /// The sequence number of the request that was sent last.
    pub sequence: u32,
    pub plan: Plan<String, Vec<IpAddress>>,
}

/// A [`Session`] as a mathematical value.
pub struct SessionView {
    pub port: u32,
    pub sequence: u32,
    pub plan: Plan<Seq<char>, Seq<IpAddress>>,
}

impl View for Session {
    type V = SessionView;

    open spec fn view(&self) -> SessionView {
        SessionView { port: self.port, sequence: self.sequence, plan: self.plan@ }
    }
}

/// What the caller does next.
#[derive(Debug)]
pub enum Turn {
    /// Send `request`, and run `exchange` on what comes back.
    Send { request: Message<Vec<u8>, Vec<IpEntry>>, exchange: Exchange },
    /// The operation is over, with this result.
    Finish(Result<Outcome, Error>),
}

/// A [`Turn`] as a mathematical value.
pub enum TurnView {
    Send { request: Message<Seq<u8>, Seq<IpEntry>>, exchange: ExchangeView },
    Finish(Result<OutcomeView, ErrorView>),
}

impl View for Turn {
    type V = TurnView;

    open spec fn view(&self) -> TurnView {
        match *self {
            Turn::Send { request, exchange } => TurnView::Send {
                request: request@,
                exchange: exchange@,
            },
            Turn::Finish(r) => TurnView::Finish(outcome_view(r)),
        }
    }
}

/// The sequence number that follows `sequence`.
pub open spec fn next_sequence(sequence: u32) -> u32 {
    if sequence == u32::MAX {
        0
    } else {
        (sequence + 1) as u32
    }
}

/// The turn that sends the first request of `op` with the sequence number
/// `sequence`, or that finishes with the error that refuses `op`.
pub open spec fn send_spec(op: Operation<Seq<char>>, sequence: u32, port: u32) -> TurnView {
    match request_spec(op, sequence, port) {
        Err(e) => TurnView::Finish(Err(e)),
        Ok(request) => TurnView::Send {
            request,
            exchange: begin_spec(sequence, port, request.flags == FLAGS_DUMP),
        },
    }
}

/// What is left of an operation when its first request has been sent.
pub open spec fn plan_of(op: Operation<Seq<char>>) -> Plan<Seq<char>, Seq<IpAddress>> {
    match op {
        Operation::NftFlush { family, table, name } => Plan::Listing { family, table, name },
        _ => Plan::Single { op },
    }
}

/// The session and the first turn of an operation.
pub open spec fn start_spec(op: Operation<Seq<char>>, sequence: u32, port: u32) -> (
    SessionView,
    TurnView,
) {
    (SessionView { port, sequence, plan: plan_of(op) }, send_spec(op, sequence, port))
}

/// The session and the turn of a flush of the set `name` that has `queue`
/// left to delete: it is done if nothing is left, else it deletes the last
/// of them.
pub open spec fn delete_next_spec(
    port: u32,
    sequence: u32,
    family: Seq<char>,
    table: Seq<char>,
    name: Seq<char>,
    queue: Seq<IpAddress>,
) -> (SessionView, TurnView) {
    let plan = Plan::Deleting { family, table, name, queue };
    if queue.len() == 0 {
        (SessionView { port, sequence, plan }, TurnView::Finish(Ok(OutcomeView::Done)))
    } else {
        let next = next_sequence(sequence);
        (
            SessionView { port, sequence: next, plan },
            send_spec(
                Operation::NftDel {
                    family,
                    table,
                    name,
                    entry: IpEntry { addr: queue.last(), timeout: None },
                },
                next,
                port,
            ),
        )
    }
}

/// The session and the turn after the exchange `x` for the last request.
///
/// An operation of one exchange finishes with what the exchange means for
/// it. The listing of a flush, if it succeeded, is followed by the deletion
/// of the member it listed first; each deletion that succeeded by that of
/// the member listed next. The first exchange that failed finishes the
/// flush with its error.
pub open spec fn resume_spec(s: SessionView, x: ExchangeView) -> (SessionView, TurnView) {
    match s.plan {
        Plan::Single { op } => (s, TurnView::Finish(conclude_spec(op, x))),
        Plan::Listing { family, table, name } => match conclude_spec(
            Operation::NftFlush { family, table, name },
            x,
        ) {
            Ok(OutcomeView::Entries(listed)) => delete_next_spec(
                s.port,
                s.sequence,
                family,
                table,
                name,
                listed.reverse(),
            ),
            Ok(_) => (s, TurnView::Finish(Err(ErrorView::Malformed))),
            Err(e) => (s, TurnView::Finish(Err(e))),
        },
        Plan::Deleting { family, table, name, queue } => if queue.len() == 0 {
            (s, TurnView::Finish(Ok(OutcomeView::Done)))
        } else {
            match conclude_spec(
                Operation::NftDel {
                    family,
                    table,
                    name,
                    entry: IpEntry { addr: queue.last(), timeout: None },
                },
                x,
            ) {
                Ok(_) => delete_next_spec(
                    s.port,
                    s.sequence,
                    family,
                    table,
                    name,
                    queue.drop_last(),
                ),
                Err(e) => (s, TurnView::Finish(Err(e))),
            }
        },
    }
}

/// The first turn of `op`, sent with the sequence number `sequence`.
fn send(op: &Operation<String>, sequence: u32, port: u32) -> (turn: Turn)
    ensures
        turn@ == send_spec(op@, sequence, port),
        turn matches Turn::Send { request, .. } ==> request@.wf(),
{
    match request(op, sequence, port) {
        Err(e) => Turn::Finish(Err(e)),
        Ok(m) => {
            let dump = m.flags == FLAGS_DUMP;
            Turn::Send { request: m, exchange: Exchange::new(sequence, port, dump) }
        },
    }
}

/// The turn of a flush that has `queue` left to delete.
fn delete_next(
    port: u32,
    sequence: u32,
    family: String,
    table: String,
    name: String,
    queue: Vec<IpAddress>,
) -> (r: (Session, Turn))
    ensures
        (r.0@, r.1@) == delete_next_spec(port, sequence, family@, table@, name@, queue@),
        r.1 matches Turn::Send { request, .. } ==> request@.wf(),
{
    let n = queue.len();
    if n == 0 {
        let plan = Plan::Deleting { family, table, name, queue };
        return (Session { port, sequence, plan }, Turn::Finish(Ok(Outcome::Done)));
    }
    let next = if sequence == u32::MAX {
        0
    } else {
        sequence + 1
    };
    let op = Operation::NftDel {
        family: family.clone(),
        table: table.clone(),
        name: name.clone(),
        entry: IpEntry { addr: queue[n - 1], timeout: None },
    };
    let turn = send(&op, next, port);
    let plan = Plan::Deleting { family, table, name, queue };
    (Session { port, sequence: next, plan }, turn)
}

/// The addresses of `addrs` in the opposite order.
fn reversed(addrs: &Vec<IpAddress>) -> (out: Vec<IpAddress>)
    ensures
        out@ == addrs@.reverse(),
{
    let n = addrs.len();
    let mut out: Vec<IpAddress> = Vec::new();
    let mut i: usize = 0;
    while i < n
        invariant
            n == addrs@.len(),
            i <= n,
            out@.len() == i,
            forall|k: int| 0 <= k < i ==> out@[k] == addrs@[n - 1 - k],
        decreases n - i,
    {
        out.push(addrs[n - 1 - i]);
        i += 1;
    }
    assert(out@ =~= addrs@.reverse());
    out
}

impl Session {
    /// Begins an operation. `sequence` is the sequence number of its first
    /// request, `port` the port of the socket that will send it.
    pub fn start(op: Operation<String>, sequence: u32, port: u32) -> (r: (Session, Turn))
        ensures
            (r.0@, r.1@) == start_spec(op@, sequence, port),
            r.1 matches Turn::Send { request, .. } ==> request@.wf(),
    {
        let turn = send(&op, sequence, port);
        let plan = match op {
            Operation::NftFlush { family, table, name } => Plan::Listing { family, table, name },
            op => Plan::Single { op },
        };
        (Session { port, sequence, plan }, turn)
    }

    /// Goes on after the exchange for the last request has ended.
    pub fn resume(self, x: Exchange) -> (r: (Session, Turn))
        ensures
            (r.0@, r.1@) == resume_spec(self@, x@),
            r.1 matches Turn::Send { request, .. } ==> request@.wf(),
    {
        let port = self.port;
        let sequence = self.sequence;
        match self.plan {
            Plan::Single { op } => {
                let result = conclude(&op, &x);
                (Session { port, sequence, plan: Plan::Single { op } }, Turn::Finish(result))
            },
            Plan::Listing { family, table, name } => {
                let op = Operation::NftFlush {
                    family: family.clone(),
                    table: table.clone(),
                    name: name.clone(),
                };
                match conclude(&op, &x) {
                    Ok(Outcome::Entries(listed)) => delete_next(
                        port,
                        sequence,
                        family,
                        table,
                        name,
                        reversed(&listed),
                    ),
                    Ok(_) => (
                        Session { port, sequence, plan: Plan::Listing { family, table, name } },
                        Turn::Finish(Err(Error::Malformed)),
                    ),
                    Err(e) => (
                        Session { port, sequence, plan: Plan::Listing { family, table, name } },
                        Turn::Finish(Err(e)),
                    ),
                }
            },
            Plan::Deleting { family, table, name, queue } => {
                let mut queue = queue;
                let n = queue.len();
                if n == 0 {
                    let plan = Plan::Deleting { family, table, name, queue };
                    return (Session { port, sequence, plan }, Turn::Finish(Ok(Outcome::Done)));
                }
                let op = Operation::NftDel {
                    family: family.clone(),
                    table: table.clone(),
                    name: name.clone(),
                    entry: IpEntry { addr: queue[n - 1], timeout: None },
                };
                match conclude(&op, &x) {
                    Ok(_) => {
                        queue.pop();
                        assert(queue@ =~= self@.plan->Deleting_queue.drop_last());
                        delete_next(port, sequence, family, table, name, queue)
                    },
                    Err(e) => (
                        Session {
                            port,
                            sequence,
                            plan: Plan::Deleting { family, table, name, queue },
                        },
                        Turn::Finish(Err(e)),
                    ),
                }
            },
        }
    }
}

} // verus!
