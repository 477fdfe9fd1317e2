//! Messages as octets: what stands behind the netlink header for each kind
//! of body, and the way back.
//!
//! An ipset or nftables message holds four octets in front of its
//! attributes: the protocol family, a version that is 0, and a resource
//! identifier that is 0. An error message holds the code as a signed
//! number of four octets and the header of the request. The end of a dump
//! holds four octets that nobody reads.

use vstd::prelude::*;
use crate::attr::encode_all;
use crate::bytes::{
    get_le16,
    get_le32,
    le16,
    le16_at,
    le32,
    le32_at,
    lemma_le16,
    lemma_le32,
    put_all,
    put_le16,
    put_le32,
    signed,
    unsigned,
};
use crate::entry::IpEntry;
use crate::error::{Error, ErrorView};
use crate::frame::{frame, packet_bytes, Packet, PacketView, NLMSG_DONE, NLMSG_ERROR};
use crate::ipset::{
    decode_ipset,
    encode_ipset,
    ipset_attrs,
    ipset_decode_spec,
    lemma_ipset_decode_encode,
};
use crate::message::{
    check_message,
    is_elements_kind,
    is_ipset_kind,
    is_set_kind,
    is_table_kind,
    Body,
    Echo,
    IpsetBody,
    Message,
    SetShape,
    NFT_MSG_DELSET,
    NFT_MSG_DELSETELEM,
    NFT_MSG_DELTABLE,
    NFT_MSG_GETSET,
    NFT_MSG_GETSETELEM,
    NFT_MSG_GETTABLE,
    NFT_MSG_NEWSET,
    NFT_MSG_NEWSETELEM,
    NFT_MSG_NEWTABLE,
};
use crate::nftables::{
    decode_elements,
    decode_set,
    decode_table,
    elements_attrs,
    elements_decode_spec,
    encode_elements,
    encode_set,
    encode_table,
    lemma_elements_decode_encode,
    lemma_set_decode_encode,
    lemma_table_decode_encode,
    set_attrs,
    set_decode_spec,
    table_attrs,
    table_decode_spec,
};

verus! {

/// Octets in front of the attributes of an ipset or nftables message.
pub const NFGEN_LEN: usize = 4;

/// Octets of an error message behind its netlink header: the code and the
/// header of the request.
pub const STATUS_LEN: usize = 20;

/// The four octets in front of the attributes: the family, version 0 and
/// resource 0.
pub open spec fn nfgen(family: u8) -> Seq<u8> {
    seq![family, 0u8, 0u8, 0u8]
}

/// The sixteen octets of the header that an error message echoes.
pub open spec fn echo_bytes(e: Echo) -> Seq<u8> {
    le32(e.length) + le16(e.kind) + le16(e.flags) + le32(e.sequence) + le32(e.port)
}

/// The header that stands at `i`.
pub open spec fn echo_at(s: Seq<u8>, i: int) -> Echo {
    Echo {
        length: le32_at(s, i),
        kind: le16_at(s, i + 4),
        flags: le16_at(s, i + 6),
        sequence: le32_at(s, i + 8),
        port: le32_at(s, i + 12),
    }
}

/// The exact octets behind the netlink header of a message with the body
/// `body`.
pub open spec fn payload_spec(body: Body<Seq<u8>, Seq<IpEntry>>) -> Seq<u8> {
    match body {
        Body::Status { code, request } => le32(unsigned(code)) + echo_bytes(request),
        Body::Done => le32(0),
        Body::Ipset(b) => nfgen(b.family) + encode_all(ipset_attrs(b)),
        Body::NftTable { family, name } => nfgen(family) + encode_all(table_attrs(name)),
        Body::NftSet { family, table, name, shape } => nfgen(family) + encode_all(
            set_attrs(table, name, shape),
        ),
        Body::NftElements { family, table, set, elements } => nfgen(family) + encode_all(
            elements_attrs(table, set, elements),
        ),
        Body::Other => Seq::empty(),
    }
}

/// A message as a netlink message with an untyped payload.
pub open spec fn message_packet(m: Message<Seq<u8>, Seq<IpEntry>>) -> PacketView {
    PacketView {
        kind: m.kind,
        flags: m.flags,
        sequence: m.sequence,
        port: m.port,
        payload: payload_spec(m.body),
    }
}

/// The body that the payload of a message of type `kind` stands for.
/// `None` if the payload is malformed. A type that the library does not
/// model gives [`Body::Other`], whatever the payload.
pub open spec fn body_spec(kind: u16, payload: Seq<u8>) -> Option<Body<Seq<u8>, Seq<IpEntry>>> {
    if kind == NLMSG_ERROR {
        if payload.len() >= STATUS_LEN {
            Some(Body::Status { code: signed(le32_at(payload, 0)), request: echo_at(payload, 4) })
        } else {
            None
        }
    } else if kind == NLMSG_DONE {
        Some(Body::Done)
    } else if is_ipset_kind(kind) {
        if payload.len() >= NFGEN_LEN {
            match ipset_decode_spec(payload[0], payload.skip(NFGEN_LEN as int)) {
                Some(b) => Some(Body::Ipset(b)),
                None => None,
            }
        } else {
            None
        }
    } else if is_table_kind(kind) {
        if payload.len() >= NFGEN_LEN {
            table_decode_spec(payload[0], payload.skip(NFGEN_LEN as int))
        } else {
            None
        }
    } else if is_set_kind(kind) {
        if payload.len() >= NFGEN_LEN {
            set_decode_spec(payload[0], payload.skip(NFGEN_LEN as int))
        } else {
            None
        }
    } else if is_elements_kind(kind) {
        if payload.len() >= NFGEN_LEN {
            elements_decode_spec(payload[0], payload.skip(NFGEN_LEN as int))
        } else {
            None
        }
    } else {
        Some(Body::Other)
    }
}

/// The message that a netlink message stands for. `None` if its payload
/// is malformed.
pub open spec fn message_of(p: PacketView) -> Option<Message<Seq<u8>, Seq<IpEntry>>> {
    match body_spec(p.kind, p.payload) {
        Some(body) => Some(
            Message { kind: p.kind, flags: p.flags, sequence: p.sequence, port: p.port, body },
        ),
        None => None,
    }
}

/// An error message is read back from its payload.
pub proof fn lemma_status_roundtrip(code: i32, request: Echo)
    ensures
        payload_spec(Body::Status { code, request }).len() == STATUS_LEN,
        body_spec(NLMSG_ERROR, payload_spec(Body::Status { code, request })) == Some(
            Body::<Seq<u8>, Seq<IpEntry>>::Status { code, request },
        ),
{
    let payload = payload_spec(Body::Status { code, request });
    let head = le32(unsigned(code));
    let echo = echo_bytes(request);
    lemma_echo(request);
    lemma_le32(unsigned(code));
    assert(payload.len() == 20);
    assert(payload[0] == head[0] && payload[1] == head[1] && payload[2] == head[2] && payload[3]
        == head[3]);
    lemma_code(code);
    assert(le32_at(payload, 0) == le32_at(head, 0));
    assert(echo_at(payload, 4) == echo_at(echo, 0)) by {
        assert forall|i: int| 0 <= i < 16 implies payload[4 + i] == echo[i] by {}
    }
}

/// An error code is read back from its four octets.
pub proof fn lemma_code(code: i32)
    ensures
        le32(unsigned(code)).len() == 4,
        signed(le32_at(le32(unsigned(code)), 0)) == code,
{
    lemma_le32(unsigned(code));
}

/// An ipset message is read back from its payload.
pub proof fn lemma_ipset_body_roundtrip(kind: u16, b: IpsetBody<Seq<u8>, Seq<IpEntry>>)
    requires
        is_ipset_kind(kind),
        b.wf(),
    ensures
        payload_spec(Body::Ipset(b)).len() <= 43000,
        body_spec(kind, payload_spec(Body::Ipset(b))) == Some(Body::Ipset(b)),
{
    let payload = payload_spec(Body::Ipset(b));
    lemma_ipset_decode_encode(b);
    assert(payload.skip(4) =~= encode_all(ipset_attrs(b)));
}

/// A table message is read back from its payload.
pub proof fn lemma_table_body_roundtrip(kind: u16, family: u8, name: Option<Seq<u8>>)
    requires
        (Body::<Seq<u8>, Seq<IpEntry>>::NftTable { family, name }).wf(kind),
    ensures
        payload_spec(Body::NftTable { family, name }).len() <= 43000,
        body_spec(kind, payload_spec(Body::NftTable { family, name })) == Some(
            Body::<Seq<u8>, Seq<IpEntry>>::NftTable { family, name },
        ),
{
    let payload = payload_spec(Body::NftTable { family, name });
    lemma_table_decode_encode(family, name);
    assert(payload.skip(4) =~= encode_all(table_attrs(name)));
}

/// A set message is read back from its payload.
pub proof fn lemma_set_body_roundtrip(
    kind: u16,
    family: u8,
    table: Seq<u8>,
    name: Seq<u8>,
    shape: Option<SetShape>,
)
    requires
        (Body::<Seq<u8>, Seq<IpEntry>>::NftSet { family, table, name, shape }).wf(kind),
    ensures
        payload_spec(Body::NftSet { family, table, name, shape }).len() <= 43000,
        body_spec(kind, payload_spec(Body::NftSet { family, table, name, shape })) == Some(
            Body::<Seq<u8>, Seq<IpEntry>>::NftSet { family, table, name, shape },
        ),
{
    let payload = payload_spec(Body::NftSet { family, table, name, shape });
    lemma_set_decode_encode(family, table, name, shape);
    assert(payload.skip(4) =~= encode_all(set_attrs(table, name, shape)));
}

/// An element message is read back from its payload.
pub proof fn lemma_elements_body_roundtrip(
    kind: u16,
    family: u8,
    table: Seq<u8>,
    set: Seq<u8>,
    elements: Seq<IpEntry>,
)
    requires
        (Body::<Seq<u8>, Seq<IpEntry>>::NftElements { family, table, set, elements }).wf(kind),
    ensures
        payload_spec(Body::NftElements { family, table, set, elements }).len() <= 43000,
        body_spec(kind, payload_spec(Body::NftElements { family, table, set, elements }))
            == Some(Body::<Seq<u8>, Seq<IpEntry>>::NftElements { family, table, set, elements }),
{
    let payload = payload_spec(Body::NftElements { family, table, set, elements });
    lemma_elements_decode_encode(family, table, set, elements);
    assert(payload.skip(4) =~= encode_all(elements_attrs(table, set, elements)));
}

/// The payload of a body that can be put on the wire is shorter than
/// 43000 octets, and reading it gives the body back.
pub proof fn lemma_body_roundtrip(kind: u16, body: Body<Seq<u8>, Seq<IpEntry>>)
    requires
        body.wf(kind),
    ensures
        payload_spec(body).len() <= 43000,
        body_spec(kind, payload_spec(body)) == Some(body),
{
    match body {
        Body::Status { code, request } => {
            lemma_status_roundtrip(code, request);
        },
        Body::Done => {
            lemma_le32(0);
        },
        Body::Ipset(b) => {
            lemma_ipset_body_roundtrip(kind, b);
        },
        Body::NftTable { family, name } => {
            lemma_table_body_roundtrip(kind, family, name);
        },
        Body::NftSet { family, table, name, shape } => {
            lemma_set_body_roundtrip(kind, family, table, name, shape);
        },
        Body::NftElements { family, table, set, elements } => {
            lemma_elements_body_roundtrip(kind, family, table, set, elements);
        },
        Body::Other => {},
    }
}

/// Reading the echoed header from its sixteen octets gives it back.
pub proof fn lemma_echo(e: Echo)
    ensures
        echo_bytes(e).len() == 16,
        echo_at(echo_bytes(e), 0) == e,
{
    let s = echo_bytes(e);
    lemma_le32(e.length);
    lemma_le16(e.kind);
    lemma_le16(e.flags);
    lemma_le32(e.sequence);
    lemma_le32(e.port);
    assert(s[0] == le32(e.length)[0] && s[1] == le32(e.length)[1] && s[2] == le32(e.length)[2]
        && s[3] == le32(e.length)[3]);
    assert(s[4] == le16(e.kind)[0] && s[5] == le16(e.kind)[1]);
    assert(s[6] == le16(e.flags)[0] && s[7] == le16(e.flags)[1]);
    assert(s[8] == le32(e.sequence)[0] && s[9] == le32(e.sequence)[1] && s[10] == le32(
        e.sequence,
    )[2] && s[11] == le32(e.sequence)[3]);
    assert(s[12] == le32(e.port)[0] && s[13] == le32(e.port)[1] && s[14] == le32(e.port)[2]
        && s[15] == le32(e.port)[3]);
}

/// A message that can be put on the wire is read back from its netlink
/// message.
pub proof fn lemma_message_roundtrip(m: Message<Seq<u8>, Seq<IpEntry>>)
    requires
        m.wf(),
    ensures
        message_packet(m).wf(),
        message_of(message_packet(m)) == Some(m),
{
    lemma_body_roundtrip(m.kind, m.body);
}

/// The octets `family, 0, 0, 0` followed by `attrs`.
fn with_nfgen(family: u8, attrs: Vec<u8>) -> (payload: Vec<u8>)
    ensures
        payload@ == nfgen(family) + attrs@,
{
    let mut payload: Vec<u8> = Vec::new();
    payload.push(family);
    payload.push(0);
    payload.push(0);
    payload.push(0);
    put_all(&mut payload, attrs.as_slice());
    assert(payload@ =~= nfgen(family) + attrs@);
    payload
}

/// Turns a message into a netlink message with an untyped payload.
pub fn to_packet(m: &Message<Vec<u8>, Vec<IpEntry>>) -> (p: Packet)
    requires
        m@.wf(),
    ensures
        p@ == message_packet(m@),
        p@.wf(),
{
    proof {
        lemma_message_roundtrip(m@);
    }
    let payload = match &m.body {
        Body::Status { code, request } => {
            let mut payload: Vec<u8> = Vec::new();
            let raw: u32 = if *code >= 0 {
                *code as u32
            } else {
                ((*code + 0x7fff_ffff) + 1) as u32 + 0x8000_0000
            };
            put_le32(&mut payload, raw);
            put_le32(&mut payload, request.length);
            put_le16(&mut payload, request.kind);
            put_le16(&mut payload, request.flags);
            put_le32(&mut payload, request.sequence);
            put_le32(&mut payload, request.port);
            proof {
                lemma_le32(raw);
                lemma_echo(*request);
            }
            assert(payload@ =~= payload_spec(m@.body));
            payload
        },
        Body::Done => {
            let mut payload: Vec<u8> = Vec::new();
            put_le32(&mut payload, 0);
            assert(payload@ =~= payload_spec(m@.body));
            payload
        },
        Body::Ipset(b) => with_nfgen(b.family, encode_ipset(b)),
        Body::NftTable { family, name } => with_nfgen(*family, encode_table(name)),
        Body::NftSet { family, table, name, shape } => with_nfgen(
            *family,
            encode_set(table, name, shape),
        ),
        Body::NftElements { family, table, set, elements } => with_nfgen(
            *family,
            encode_elements(table, set, elements),
        ),
        Body::Other => Vec::new(),
    };
    Packet { kind: m.kind, flags: m.flags, sequence: m.sequence, port: m.port, payload }
}

/// The result of [`decode_message`] as a mathematical value.
pub open spec fn decoded_message(r: Result<Message<Vec<u8>, Vec<IpEntry>>, Error>) -> Option<
    Message<Seq<u8>, Seq<IpEntry>>,
> {
    match r {
        Ok(m) => Some(m@),
        Err(_) => None,
    }
}

/// Reads the typed message out of a netlink message.
///
/// Fails with [`Error::Malformed`] if the payload is too short for its
/// type or its attributes cannot be decoded. A message of a type that the
/// library does not model is read as [`Body::Other`].
pub fn decode_message(p: &Packet) -> (r: Result<Message<Vec<u8>, Vec<IpEntry>>, Error>)
    ensures
        decoded_message(r) == message_of(p@),
        r is Err ==> r->Err_0@ == ErrorView::Malformed,
{
    let kind = p.kind;
    let payload = p.payload.as_slice();
    let body = if kind == NLMSG_ERROR {
        if payload.len() < STATUS_LEN {
            return Err(Error::Malformed);
        }
        let raw = get_le32(payload, 0);
        let code: i32 = if raw < 0x8000_0000 {
            raw as i32
        } else {
            ((raw - 0x8000_0000) as i32 - 0x7fff_ffff) - 1
        };
        let request = Echo {
            length: get_le32(payload, 4),
            kind: get_le16(payload, 8),
            flags: get_le16(payload, 10),
            sequence: get_le32(payload, 12),
            port: get_le32(payload, 16),
        };
        Body::Status { code, request }
    } else if kind == NLMSG_DONE {
        Body::Done
    } else if kind / 256 == 6 || kind == NFT_MSG_NEWTABLE || kind == NFT_MSG_GETTABLE || kind
        == NFT_MSG_DELTABLE || kind == NFT_MSG_NEWSET || kind == NFT_MSG_GETSET || kind
        == NFT_MSG_DELSET || kind == NFT_MSG_NEWSETELEM || kind == NFT_MSG_GETSETELEM || kind
        == NFT_MSG_DELSETELEM {
        if payload.len() < NFGEN_LEN {
            return Err(Error::Malformed);
        }
        let family = payload[0];
        let attrs = vstd::slice::slice_subrange(payload, NFGEN_LEN, payload.len());
        assert(attrs@ =~= p@.payload.skip(NFGEN_LEN as int));
        let decoded = if kind / 256 == 6 {
            match decode_ipset(family, attrs) {
                Ok(b) => Ok(Body::Ipset(b)),
                Err(e) => Err(e),
            }
        } else if kind == NFT_MSG_NEWTABLE || kind == NFT_MSG_GETTABLE || kind
            == NFT_MSG_DELTABLE {
            decode_table(family, attrs)
        } else if kind == NFT_MSG_NEWSET || kind == NFT_MSG_GETSET || kind == NFT_MSG_DELSET {
            decode_set(family, attrs)
        } else {
            decode_elements(family, attrs)
        };
        match decoded {
            Ok(body) => body,
            Err(e) => {
                return Err(e);
            },
        }
    } else {
        Body::Other
    };
    Ok(Message { kind, flags: p.flags, sequence: p.sequence, port: p.port, body })
}

/// The exact octets of a message: its netlink header, what its body lays
/// out behind it, and padding.
pub open spec fn message_bytes(m: Message<Seq<u8>, Seq<IpEntry>>) -> Seq<u8> {
    packet_bytes(message_packet(m))
}

/// Encodes a message that can be put on the wire.
pub fn encode_message(m: &Message<Vec<u8>, Vec<IpEntry>>) -> (bytes: Vec<u8>)
    requires
        m@.wf(),
    ensures
        bytes@ == message_bytes(m@),
{
    let p = to_packet(m);
    frame(&p)
}

/// Encodes a message, or fails with [`Error::Malformed`] if it cannot be
/// put on the wire: its type does not carry its body, one of its names is
/// empty, too long or holds a zero octet, or it holds more members than
/// one message does.
pub fn serialize(m: &Message<Vec<u8>, Vec<IpEntry>>) -> (r: Result<Vec<u8>, Error>)
    ensures
        match r {
            Ok(bytes) => m@.wf() && bytes@ == message_bytes(m@),
            Err(e) => !m@.wf() && e@ == ErrorView::Malformed,
        },
{
    if check_message(m) {
        Ok(encode_message(m))
    } else {
        Err(Error::Malformed)
    }
}

} // verus!
