//! Netlink message framing: the header of sixteen octets, and a datagram as
//! a run of messages.
//!
//! The header holds the length of the message (header included, padding
//! not), its type, its flags, the sequence number of the request it belongs
//! to, and the port of the socket it is for. The kernel reads and writes the
//! five in the byte order of the machine; this library writes them least
//! significant octet first, as little-endian machines do. A message is
//! padded with zero octets to a multiple of four.

use vstd::prelude::*;
use crate::attr::{align4, padding, zeros};
use crate::bytes::{
    copy_range,
    get_le16,
    get_le32,
    le16,
    le16_at,
    le32,
    le32_at,
    lemma_le16,
    lemma_le32,
    put_all,
    put_le16,
    put_le32,
    put_zeros,
};
use crate::error::{Error, ErrorView};

verus! {

/// Octets of a netlink header.
pub const HEADER_LEN: usize = 16;

/// Message type: nothing, to be skipped.
pub const NLMSG_NOOP: u16 = 1;

/// Message type: an error code, or an acknowledgement if the code is 0.
pub const NLMSG_ERROR: u16 = 2;

/// Message type: the end of a dump.
pub const NLMSG_DONE: u16 = 3;

/// Message type: the kernel lost messages.
pub const NLMSG_OVERRUN: u16 = 4;

/// Flag: the message is a request.
pub const NLM_F_REQUEST: u16 = 0x001;

/// Flag: the message is one part of an answer in several parts.
pub const NLM_F_MULTI: u16 = 0x002;

/// Flag: the sender asks for an acknowledgement.
pub const NLM_F_ACK: u16 = 0x004;

/// Flags: the sender asks for a dump of every object that matches.
pub const NLM_F_DUMP: u16 = 0x300;

/// One netlink message: the fields of its header but the length, and what
/// follows the header.
#[derive(Clone, Debug)]
pub struct Packet {
    /// The message type.
    pub kind: u16,
    pub flags: u16,
    pub sequence: u32,
    pub port: u32,
    pub payload: Vec<u8>,
}

/// A [`Packet`] as a mathematical value.
pub struct PacketView {
    pub kind: u16,
    pub flags: u16,
    pub sequence: u32,
    pub port: u32,
    pub payload: Seq<u8>,
}

impl View for Packet {
    type V = PacketView;

    open spec fn view(&self) -> PacketView {
        PacketView {
            kind: self.kind,
            flags: self.flags,
            sequence: self.sequence,
            port: self.port,
            payload: self.payload@,
        }
    }
}

/// The packets of a vector as mathematical values.
pub open spec fn packet_views(packets: Seq<Packet>) -> Seq<PacketView> {
    Seq::new(packets.len(), |i: int| packets[i]@)
}

impl PacketView {
    /// Whether the length of the message fits the length field.
    pub open spec fn wf(self) -> bool {
        HEADER_LEN + self.payload.len() <= u32::MAX
    }

    /// Number of octets the message takes in a datagram, padding included.
    pub open spec fn size(self) -> int {
        align4(HEADER_LEN + self.payload.len())
    }
}

/// The exact octets of one message.
pub open spec fn packet_bytes(p: PacketView) -> Seq<u8> {
    le32((HEADER_LEN + p.payload.len()) as u32) + le16(p.kind) + le16(p.flags) + le32(p.sequence)
        + le32(p.port) + p.payload + zeros(padding(p.payload.len() as int))
}

/// The exact octets of a datagram that holds the messages `packets`.
pub open spec fn datagram_bytes(packets: Seq<PacketView>) -> Seq<u8>
    decreases packets.len(),
{
    if packets.len() == 0 {
        Seq::empty()
    } else {
        packet_bytes(packets[0]) + datagram_bytes(packets.drop_first())
    }
}

/// The messages of a datagram, in order. `None` if the datagram is
/// malformed: fewer than sixteen octets are left over, or a length is
/// shorter than a header or reaches past the end.
pub open spec fn split_spec(bytes: Seq<u8>) -> Option<Seq<PacketView>>
    decreases bytes.len(),
{
    if bytes.len() == 0 {
        Some(Seq::empty())
    } else if bytes.len() < HEADER_LEN {
        None
    } else {
        let len = le32_at(bytes, 0) as int;
        if len < HEADER_LEN || len > bytes.len() {
            None
        } else {
            let next = if align4(len) <= bytes.len() {
                align4(len)
            } else {
                bytes.len() as int
            };
            match split_spec(bytes.skip(next)) {
                None => None,
                Some(rest) => Some(
                    seq![
                        PacketView {
                            kind: le16_at(bytes, 4),
                            flags: le16_at(bytes, 6),
                            sequence: le32_at(bytes, 8),
                            port: le32_at(bytes, 12),
                            payload: bytes.subrange(HEADER_LEN as int, len),
                        },
                    ] + rest,
                ),
            }
        }
    }
}

/// A message takes as many octets as `size` says.
pub proof fn lemma_packet_len(p: PacketView)
    ensures
        packet_bytes(p).len() == p.size(),
        p.size() % 4 == 0,
        p.size() >= HEADER_LEN + p.payload.len(),
{
    lemma_le32((HEADER_LEN + p.payload.len()) as u32);
    lemma_le16(p.kind);
    lemma_le16(p.flags);
    lemma_le32(p.sequence);
    lemma_le32(p.port);
}

/// Splitting a datagram that starts with an encoded message yields that
/// message and what the rest splits into.
pub proof fn lemma_split_step(p: PacketView, tail: Seq<u8>)
    requires
        p.wf(),
    ensures
        split_spec(packet_bytes(p) + tail) == match split_spec(tail) {
            None => None,
            Some(rest) => Some(seq![p] + rest),
        },
{
    let bytes = packet_bytes(p) + tail;
    let len = HEADER_LEN as int + p.payload.len();
    lemma_packet_len(p);
    lemma_le32(len as u32);
    lemma_le16(p.kind);
    lemma_le16(p.flags);
    lemma_le32(p.sequence);
    lemma_le32(p.port);
    let head = le32(len as u32) + le16(p.kind) + le16(p.flags) + le32(p.sequence) + le32(p.port);
    assert(head.len() == 16);
    assert forall|i: int| 0 <= i < 16 implies bytes[i] == head[i] by {}
    assert(head[0] == le32(len as u32)[0]);
    assert(head[1] == le32(len as u32)[1]);
    assert(head[2] == le32(len as u32)[2]);
    assert(head[3] == le32(len as u32)[3]);
    assert(head[4] == le16(p.kind)[0]);
    assert(head[5] == le16(p.kind)[1]);
    assert(head[6] == le16(p.flags)[0]);
    assert(head[7] == le16(p.flags)[1]);
    assert(head[8] == le32(p.sequence)[0]);
    assert(head[9] == le32(p.sequence)[1]);
    assert(head[10] == le32(p.sequence)[2]);
    assert(head[11] == le32(p.sequence)[3]);
    assert(head[12] == le32(p.port)[0]);
    assert(head[13] == le32(p.port)[1]);
    assert(head[14] == le32(p.port)[2]);
    assert(head[15] == le32(p.port)[3]);
    assert(le32_at(bytes, 0) == len);
    assert(le16_at(bytes, 4) == p.kind);
    assert(le16_at(bytes, 6) == p.flags);
    assert(le32_at(bytes, 8) == p.sequence);
    assert(le32_at(bytes, 12) == p.port);
    assert(bytes.skip(p.size()) =~= tail);
    assert(bytes.subrange(HEADER_LEN as int, len) =~= p.payload);
}

/// Splitting the datagram made of some messages yields those messages.
pub proof fn law_split_datagram(packets: Seq<PacketView>)
    requires
        forall|i: int| 0 <= i < packets.len() ==> (#[trigger] packets[i]).wf(),
    ensures
        split_spec(datagram_bytes(packets)) == Some(packets),
    decreases packets.len(),
{
    if packets.len() > 0 {
        let rest = packets.drop_first();
        assert forall|i: int| 0 <= i < rest.len() implies (#[trigger] rest[i]).wf() by {
            assert(rest[i] == packets[i + 1]);
        }
        law_split_datagram(rest);
        lemma_split_step(packets[0], datagram_bytes(rest));
        assert(seq![packets[0]] + rest =~= packets);
    }
}

/// The messages that a datagram splits into have lengths that fit the
/// length field.
pub proof fn lemma_split_wf(datagram: Seq<u8>)
    ensures
        match split_spec(datagram) {
            Some(packets) => forall|i: int| 0 <= i < packets.len() ==> (#[trigger] packets[i]).wf(),
            None => true,
        },
    decreases datagram.len(),
{
    if datagram.len() >= HEADER_LEN {
        let len = le32_at(datagram, 0) as int;
        if HEADER_LEN <= len <= datagram.len() {
            let next = if align4(len) <= datagram.len() {
                align4(len)
            } else {
                datagram.len() as int
            };
            lemma_split_wf(datagram.skip(next));
            match split_spec(datagram.skip(next)) {
                Some(rest) => {
                    let packets = split_spec(datagram)->0;
                    assert forall|i: int| 0 <= i < packets.len() implies (#[trigger] packets[i]).wf() by {
                        if i > 0 {
                            assert(packets[i] == rest[i - 1]);
                        }
                    }
                },
                None => {},
            }
        }
    }
}

/// Appends the octets of one message to `buf`: header, payload, padding.
pub fn append_packet(buf: &mut Vec<u8>, p: &Packet)
    requires
        p@.wf(),
    ensures
        final(buf)@ == old(buf)@ + packet_bytes(p@),
{
    let len = p.payload.len();
    put_le32(buf, (HEADER_LEN + len) as u32);
    put_le16(buf, p.kind);
    put_le16(buf, p.flags);
    put_le32(buf, p.sequence);
    put_le32(buf, p.port);
    put_all(buf, p.payload.as_slice());
    put_zeros(buf, (4 - len % 4) % 4);
    assert(buf@ =~= old(buf)@ + packet_bytes(p@));
}

/// The octets of one message.
pub fn frame(p: &Packet) -> (bytes: Vec<u8>)
    requires
        p@.wf(),
    ensures
        bytes@ == packet_bytes(p@),
{
    let mut buf: Vec<u8> = Vec::new();
    append_packet(&mut buf, p);
    assert(buf@ =~= packet_bytes(p@));
    buf
}

/// The result of [`split`] as a mathematical value.
pub open spec fn split_result(r: Result<Vec<Packet>, Error>) -> Option<Seq<PacketView>> {
    match r {
        Ok(packets) => Some(packet_views(packets@)),
        Err(_) => None,
    }
}

/// Takes a datagram apart into its messages.
///
/// Fails with [`Error::Malformed`] if a length is shorter than a header or
/// reaches past the end of the datagram, or if octets are left over that
/// cannot hold a header.
pub fn split(bytes: &[u8]) -> (r: Result<Vec<Packet>, Error>)
    ensures
        split_result(r) == split_spec(bytes@),
        r is Err ==> r->Err_0@ == ErrorView::Malformed,
{
    let total = bytes.len();
    let mut out: Vec<Packet> = Vec::new();
    let mut pos: usize = 0;
    proof {
        assert(bytes@.skip(0) =~= bytes@);
        let whole = split_spec(bytes@);
        if whole is Some {
            assert(packet_views(out@) + whole->0 =~= whole->0);
        }
    }
    while pos < total
        invariant
            total == bytes@.len(),
            pos <= total,
            split_spec(bytes@) == match split_spec(bytes@.skip(pos as int)) {
                Some(rest) => Some(packet_views(out@) + rest),
                None => None,
            },
        decreases total - pos,
    {
        let ghost tail = bytes@.skip(pos as int);
        if total - pos < HEADER_LEN {
            return Err(Error::Malformed);
        }
        let len32 = get_le32(bytes, pos);
        assert(le32_at(tail, 0) == len32);
        if len32 < 16 || len32 as u64 > (total - pos) as u64 {
            return Err(Error::Malformed);
        }
        let len = len32 as usize;
        let rounded = (4 - len % 4) % 4;
        let step = if rounded <= total - pos - len {
            len + rounded
        } else {
            total - pos
        };
        let p = Packet {
            kind: get_le16(bytes, pos + 4),
            flags: get_le16(bytes, pos + 6),
            sequence: get_le32(bytes, pos + 8),
            port: get_le32(bytes, pos + 12),
            payload: copy_range(bytes, pos + HEADER_LEN, pos + len),
        };
        proof {
            assert(tail.skip(step as int) =~= bytes@.skip(pos + step));
            assert(tail.subrange(HEADER_LEN as int, len as int) =~= bytes@.subrange(
                pos + HEADER_LEN,
                pos + len,
            ));
            assert(le16_at(tail, 4) == p.kind);
            assert(le16_at(tail, 6) == p.flags);
            assert(le32_at(tail, 8) == p.sequence);
            assert(le32_at(tail, 12) == p.port);
            let rest = split_spec(bytes@.skip(pos + step));
            if rest is Some {
                assert(packet_views(out@.push(p)) =~= packet_views(out@) + seq![p@]);
                assert((packet_views(out@) + seq![p@]) + rest->0 =~= packet_views(out@) + (seq![
                    p@,
                ] + rest->0));
            }
        }
        out.push(p);
        pos = pos + step;
    }
    assert(bytes@.skip(pos as int) =~= Seq::<u8>::empty());
    assert(packet_views(out@) + Seq::<PacketView>::empty() =~= packet_views(out@));
    Ok(out)
}

} // verus!
