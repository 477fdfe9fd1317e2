//! One request and the answers to it: the decisions of the transport.
//!
//! The caller owns the socket. It sends the request, hands every datagram
//! that arrives to [`Exchange::receive`], and calls [`Exchange::expire`]
//! when its deadline has passed. The exchange says when it is over and how
//! it ended.
//!
//! A message whose sequence number or port is not that of the request is
//! foreign and is dropped. An error message with a nonzero code ends the
//! exchange. An acknowledgement ends an exchange that is no dump; the end
//! marker ends a dump. Everything that arrives after the end is ignored.

use vstd::prelude::*;
use crate::codec::{decode_message, message_of};
use crate::entry::IpEntry;
use crate::frame::{packet_views, split, split_spec, Packet, PacketView};
use crate::message::Body;

verus! {

/// How far an exchange has come.
#[derive(Clone, Copy, Debug, PartialEq, Eq, Structural)]
pub enum Progress {
    /// The answer is not complete yet.
    Pending,
    /// The kernel acknowledged the request, or the dump reached its end.
    Complete,
    /// The kernel refused the request with this error code.
    Rejected(i32),
    /// A datagram or a message could not be decoded.
    Broken,
    /// The deadline passed before the answer was complete.
    Expired,
}

/// The state of one exchange.
#[derive(Debug)]
pub struct Exchange {
    /// The sequence number of the request.
    pub sequence: u32,
    /// The port of the socket that sent the request.
    pub port: u32,
    /// Whether the request asks for a dump.
    pub dump: bool,
    pub progress: Progress,
    /// What the messages that belong to the answer held, in the order they
    /// arrived.
    pub bodies: Vec<Body<Vec<u8>, Vec<IpEntry>>>,
}

/// An [`Exchange`] as a mathematical value.
pub struct ExchangeView {
    pub sequence: u32,
    pub port: u32,
    pub dump: bool,
    pub progress: Progress,
    pub bodies: Seq<Body<Seq<u8>, Seq<IpEntry>>>,
}

/// The bodies of a vector as mathematical values.
pub open spec fn body_views(bodies: Seq<Body<Vec<u8>, Vec<IpEntry>>>) -> Seq<
    Body<Seq<u8>, Seq<IpEntry>>,
> {
    Seq::new(bodies.len(), |i: int| bodies[i]@)
}

impl View for Exchange {
    type V = ExchangeView;

    open spec fn view(&self) -> ExchangeView {
        ExchangeView {
            sequence: self.sequence,
            port: self.port,
            dump: self.dump,
            progress: self.progress,
            bodies: body_views(self.bodies@),
        }
    }
}

/// The exchange that begins when a request has been sent.
pub open spec fn begin_spec(sequence: u32, port: u32, dump: bool) -> ExchangeView {
    ExchangeView { sequence, port, dump, progress: Progress::Pending, bodies: Seq::empty() }
}

/// The state after a message that belongs to the exchange was read.
pub open spec fn take_spec(x: ExchangeView, body: Body<Seq<u8>, Seq<IpEntry>>) -> ExchangeView {
    match body {
        Body::Status { code, .. } => if code != 0 {
            ExchangeView { progress: Progress::Rejected(code), ..x }
        } else if x.dump {
            x
        } else {
            ExchangeView { progress: Progress::Complete, ..x }
        },
        Body::Done => ExchangeView { progress: Progress::Complete, ..x },
        Body::Other => x,
        _ => ExchangeView { bodies: x.bodies.push(body), ..x },
    }
}

/// The state after one netlink message arrived.
///
/// An exchange that is over stays as it is. A message with another
/// sequence number or port is dropped. A message that cannot be decoded
/// breaks the exchange.
pub open spec fn absorb_spec(x: ExchangeView, p: PacketView) -> ExchangeView {
    if x.progress != Progress::Pending {
        x
    } else if p.sequence != x.sequence || p.port != x.port {
        x
    } else {
        match message_of(p) {
            None => ExchangeView { progress: Progress::Broken, ..x },
            Some(m) => take_spec(x, m.body),
        }
    }
}

/// The state after some netlink messages arrived one after the other.
pub open spec fn feed_spec(x: ExchangeView, packets: Seq<PacketView>) -> ExchangeView
    decreases packets.len(),
{
    if packets.len() == 0 {
        x
    } else {
        feed_spec(absorb_spec(x, packets[0]), packets.drop_first())
    }
}

/// The state after a datagram arrived. A datagram that cannot be taken
/// apart breaks an exchange that is not over.
pub open spec fn receive_spec(x: ExchangeView, datagram: Seq<u8>) -> ExchangeView {
    if x.progress != Progress::Pending {
        x
    } else {
        match split_spec(datagram) {
            None => ExchangeView { progress: Progress::Broken, ..x },
            Some(packets) => feed_spec(x, packets),
        }
    }
}

/// The state after the deadline passed: an exchange that is not over has
/// expired.
pub open spec fn expire_spec(x: ExchangeView) -> ExchangeView {
    if x.progress == Progress::Pending {
        ExchangeView { progress: Progress::Expired, ..x }
    } else {
        x
    }
}

/// A message whose sequence number or port is not that of the request
/// leaves the exchange as it is, whatever it holds.
pub proof fn law_foreign_message_is_dropped(x: ExchangeView, p: PacketView)
    requires
        p.sequence != x.sequence || p.port != x.port,
    ensures
        absorb_spec(x, p) == x,
{
}

/// Nothing changes an exchange that is over.
pub proof fn law_exchange_over_stays_over(x: ExchangeView, packets: Seq<PacketView>)
    requires
        x.progress != Progress::Pending,
    ensures
        feed_spec(x, packets) == x,
        expire_spec(x) == x,
    decreases packets.len(),
{
    if packets.len() > 0 {
        law_exchange_over_stays_over(x, packets.drop_first());
    }
}

impl Exchange {
    /// Begins the exchange for a request that was sent with the sequence
    /// number `sequence` from the port `port`.
    pub fn new(sequence: u32, port: u32, dump: bool) -> (x: Exchange)
        ensures
            x@ == begin_spec(sequence, port, dump),
    {
        let x = Exchange { sequence, port, dump, progress: Progress::Pending, bodies: Vec::new() };
        assert(x@.bodies =~= Seq::empty());
        x
    }

    /// Takes in one netlink message.
    pub fn absorb(&mut self, p: &Packet)
        ensures
            final(self)@ == absorb_spec(old(self)@, p@),
    {
        if self.progress != Progress::Pending {
            return ;
        }
        if p.sequence != self.sequence || p.port != self.port {
            return ;
        }
        let m = match decode_message(p) {
            Ok(m) => m,
            Err(_) => {
                self.progress = Progress::Broken;
                return ;
            },
        };
        match m.body {
            Body::Status { code, request } => {
                if code != 0 {
                    self.progress = Progress::Rejected(code);
                } else if !self.dump {
                    self.progress = Progress::Complete;
                }
            },
            Body::Done => {
                self.progress = Progress::Complete;
            },
            Body::Other => {},
            body => {
                let ghost before = self.bodies@;
                self.bodies.push(body);
                assert(body_views(self.bodies@) =~= body_views(before).push(body@));
            },
        }
    }

    /// Takes in one datagram: each of its messages, in order.
    pub fn receive(&mut self, datagram: &[u8])
        ensures
            final(self)@ == receive_spec(old(self)@, datagram@),
    {
        if self.progress != Progress::Pending {
            return ;
        }
        let packets = match split(datagram) {
            Ok(p) => p,
            Err(_) => {
                self.progress = Progress::Broken;
                return ;
            },
        };
        let n = packets.len();
        let mut i: usize = 0;
        assert(packet_views(packets@).skip(0) =~= packet_views(packets@));
        while i < n
            invariant
                n == packets@.len(),
                i <= n,
                feed_spec(old(self)@, packet_views(packets@)) == feed_spec(
                    self@,
                    packet_views(packets@).skip(i as int),
                ),
            decreases n - i,
        {
            let ghost rest = packet_views(packets@).skip(i as int);
            assert(rest[0] == packets@[i as int]@);
            assert(rest.drop_first() =~= packet_views(packets@).skip(i as int + 1));
            self.absorb(&packets[i]);
            i += 1;
        }
    }

    /// Tells the exchange that the deadline has passed.
    pub fn expire(&mut self)
        ensures
            final(self)@ == expire_spec(old(self)@),
    {
        if self.progress == Progress::Pending {
            self.progress = Progress::Expired;
        }
    }
}

} // verus!
