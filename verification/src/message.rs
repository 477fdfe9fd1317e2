//! The messages of the two protocols as typed values.
//!
//! A request and the answer to it are values of one type, [`Message`]: the
//! kernel answers a query with messages of the form that creates the
//! object. [`crate::codec`] turns a message into octets and back.

use vstd::prelude::*;
use crate::entry::{IpAddress, IpEntry};
use crate::fields::{check_name, valid_name};
use crate::frame::{NLMSG_DONE, NLMSG_ERROR};

verus! {

/// Message type: create an ipset set.
pub const IPSET_CMD_CREATE: u16 = 0x0602;

/// Message type: destroy an ipset set.
pub const IPSET_CMD_DESTROY: u16 = 0x0603;

/// Message type: remove every member of an ipset set.
pub const IPSET_CMD_FLUSH: u16 = 0x0604;

/// Message type: rename an ipset set.
pub const IPSET_CMD_RENAME: u16 = 0x0605;

/// Message type: swap two ipset sets.
pub const IPSET_CMD_SWAP: u16 = 0x0606;

/// Message type: list an ipset set.
pub const IPSET_CMD_LIST: u16 = 0x0607;

/// Message type: add a member to an ipset set.
pub const IPSET_CMD_ADD: u16 = 0x0609;

/// Message type: remove a member from an ipset set.
pub const IPSET_CMD_DEL: u16 = 0x060a;

/// Message type: test whether an address is in an ipset set.
pub const IPSET_CMD_TEST: u16 = 0x060b;

/// Message type: create an nftables table, or one table of a listing.
pub const NFT_MSG_NEWTABLE: u16 = 0x0a00;

/// Message type: ask for nftables tables.
pub const NFT_MSG_GETTABLE: u16 = 0x0a01;

/// Message type: delete an nftables table.
pub const NFT_MSG_DELTABLE: u16 = 0x0a02;

/// Message type: create an nftables set.
pub const NFT_MSG_NEWSET: u16 = 0x0a09;

/// Message type: ask for nftables sets.
pub const NFT_MSG_GETSET: u16 = 0x0a0a;

/// Message type: delete an nftables set.
pub const NFT_MSG_DELSET: u16 = 0x0a0b;

/// Message type: add members to an nftables set, or members of a listing.
pub const NFT_MSG_NEWSETELEM: u16 = 0x0a0c;

/// Message type: ask for members of an nftables set.
pub const NFT_MSG_GETSETELEM: u16 = 0x0a0d;

/// Message type: remove members from an nftables set.
pub const NFT_MSG_DELSETELEM: u16 = 0x0a0e;

/// The longest name of an ipset set, in octets.
pub const IPSET_MAX_NAME: usize = 31;

/// The longest name of an nftables table or set, in octets.
pub const NFT_MAX_NAME: usize = 255;

/// The largest number of members that one message carries.
pub const MAX_MEMBERS: usize = 1024;

/// Protocol family: IPv4 and IPv6 together (nftables `inet`).
pub const NFPROTO_INET: u8 = 1;

/// Protocol family: IPv4.
pub const NFPROTO_IPV4: u8 = 2;

/// Protocol family: IPv6.
pub const NFPROTO_IPV6: u8 = 10;

/// The header of the request that an acknowledgement answers.
#[derive(Clone, Copy, Debug, PartialEq, Eq, Structural)]
pub struct Echo {
    pub length: u32,
    pub kind: u16,
    pub flags: u16,
    pub sequence: u32,
    pub port: u32,
}

/// The data block of an ipset message: a member, or what a set is created
/// with.
#[derive(Clone, Copy, Debug, PartialEq, Eq, Structural)]
pub struct IpsetData {
    pub addr: Option<IpAddress>,
    pub timeout: Option<u32>,
    pub hashsize: Option<u32>,
    pub maxelem: Option<u32>,
}

/// What an nftables set is made of.
#[derive(Clone, Copy, Debug, PartialEq, Eq, Structural)]
pub struct SetShape {
    /// Set flags; [`crate::nftables::NFT_SET_TIMEOUT`] enables timeouts.
    pub flags: u32,
    /// The data type of the keys, as the `nft` tool numbers them.
    pub key_type: u32,
    /// Width of a key in octets.
    pub key_len: u32,
    /// Default lifetime of a member in seconds.
    pub timeout: Option<u32>,
}

/// What an ipset message holds behind its netlink header.
#[derive(Clone, Debug)]
pub struct IpsetBody<B, L> {
    /// The protocol family in the message header.
    pub family: u8,
    /// The protocol version the sender speaks.
    pub protocol: u8,
    pub name: B,
    /// The name of the set type on create; the other set on rename and
    /// swap.
    pub second: Option<B>,
    /// The revision of the set type.
    pub revision: Option<u8>,
    /// The protocol family of the set.
    pub set_family: Option<u8>,
    pub data: Option<IpsetData>,
    /// The members of a listing.
    pub members: L,
}

/// What a message holds behind its netlink header.
///
/// `B` is the type of a name, `L` the type of a list of members.
#[derive(Clone, Debug)]
#[allow(inconsistent_fields)]
pub enum Body<B, L> {
    /// An error code with the header of the request it answers. Code 0
    /// acknowledges the request.
    Status { code: i32, request: Echo },
    /// The end of an answer in several parts.
    Done,
    /// An ipset message.
    Ipset(IpsetBody<B, L>),
    /// An nftables table.
    NftTable { family: u8, name: Option<B> },
    /// An nftables set.
    NftSet { family: u8, table: B, name: B, shape: Option<SetShape> },
    /// Members of an nftables set.
    NftElements { family: u8, table: B, set: B, elements: L },
    /// A message of a type this library does not model. A reader skips it.
    Other,
}

/// One netlink message of either protocol.
#[derive(Clone, Debug)]
pub struct Message<B, L> {
    /// The message type.
    pub kind: u16,
    pub flags: u16,
    pub sequence: u32,
    pub port: u32,
    pub body: Body<B, L>,
}

/// A message in memory.
pub type WireMessage = Message<Vec<u8>, Vec<IpEntry>>;

/// A message as a mathematical value.
pub type MessageView = Message<Seq<u8>, Seq<IpEntry>>;

/// An optional name as an optional sequence of octets.
pub open spec fn name_view(name: Option<Vec<u8>>) -> Option<Seq<u8>> {
    match name {
        Some(n) => Some(n@),
        None => None,
    }
}

impl View for IpsetBody<Vec<u8>, Vec<IpEntry>> {
    type V = IpsetBody<Seq<u8>, Seq<IpEntry>>;

    open spec fn view(&self) -> IpsetBody<Seq<u8>, Seq<IpEntry>> {
        IpsetBody {
            family: self.family,
            protocol: self.protocol,
            name: self.name@,
            second: name_view(self.second),
            revision: self.revision,
            set_family: self.set_family,
            data: self.data,
            members: self.members@,
        }
    }
}

impl IpsetBody<Seq<u8>, Seq<IpEntry>> {
    /// Whether the body can be put on the wire: its names are names, and
    /// its members are no more than one message holds.
    pub open spec fn wf(self) -> bool {
        &&& valid_name(self.name, IPSET_MAX_NAME as int)
        &&& valid_opt_name(self.second, IPSET_MAX_NAME as int)
        &&& self.members.len() <= MAX_MEMBERS
    }
}

impl View for Body<Vec<u8>, Vec<IpEntry>> {
    type V = Body<Seq<u8>, Seq<IpEntry>>;

    open spec fn view(&self) -> Body<Seq<u8>, Seq<IpEntry>> {
        match *self {
            Body::Status { code, request } => Body::Status { code, request },
            Body::Done => Body::Done,
            Body::Ipset(body) => Body::Ipset(body@),
            Body::NftTable { family, name } => Body::NftTable { family, name: name_view(name) },
            Body::NftSet { family, table, name, shape } => Body::NftSet {
                family,
                table: table@,
                name: name@,
                shape,
            },
            Body::NftElements { family, table, set, elements } => Body::NftElements {
                family,
                table: table@,
                set: set@,
                elements: elements@,
            },
            Body::Other => Body::Other,
        }
    }
}

impl View for Message<Vec<u8>, Vec<IpEntry>> {
    type V = Message<Seq<u8>, Seq<IpEntry>>;

    open spec fn view(&self) -> Message<Seq<u8>, Seq<IpEntry>> {
        Message {
            kind: self.kind,
            flags: self.flags,
            sequence: self.sequence,
            port: self.port,
            body: self.body@,
        }
    }
}

/// Whether `kind` is a message type of the ipset subsystem.
pub open spec fn is_ipset_kind(kind: u16) -> bool {
    kind / 256 == 6
}

/// Whether `kind` is a message type that carries an nftables table.
pub open spec fn is_table_kind(kind: u16) -> bool {
    kind == NFT_MSG_NEWTABLE || kind == NFT_MSG_GETTABLE || kind == NFT_MSG_DELTABLE
}

/// Whether `kind` is a message type that carries an nftables set.
pub open spec fn is_set_kind(kind: u16) -> bool {
    kind == NFT_MSG_NEWSET || kind == NFT_MSG_GETSET || kind == NFT_MSG_DELSET
}

/// Whether `kind` is a message type that carries members of an nftables
/// set.
pub open spec fn is_elements_kind(kind: u16) -> bool {
    kind == NFT_MSG_NEWSETELEM || kind == NFT_MSG_GETSETELEM || kind == NFT_MSG_DELSETELEM
}

/// Whether an optional name, if there is one, can be put on the wire.
pub open spec fn valid_opt_name(name: Option<Seq<u8>>, max: int) -> bool {
    match name {
        Some(n) => valid_name(n, max),
        None => true,
    }
}

impl Body<Seq<u8>, Seq<IpEntry>> {
    /// Whether the body can be put on the wire in a message of type `kind`:
    /// the type is one that carries such a body, its names are names, and
    /// its members are no more than one message holds.
    pub open spec fn wf(self, kind: u16) -> bool {
        match self {
            Body::Status { .. } => kind == NLMSG_ERROR,
            Body::Done => kind == NLMSG_DONE,
            Body::Ipset(body) => is_ipset_kind(kind) && body.wf(),
            Body::NftTable { name, .. } => {
                &&& is_table_kind(kind)
                &&& valid_opt_name(name, NFT_MAX_NAME as int)
            },
            Body::NftSet { table, name, .. } => {
                &&& is_set_kind(kind)
                &&& valid_name(table, NFT_MAX_NAME as int)
                &&& valid_name(name, NFT_MAX_NAME as int)
            },
            Body::NftElements { table, set, elements, .. } => {
                &&& is_elements_kind(kind)
                &&& valid_name(table, NFT_MAX_NAME as int)
                &&& valid_name(set, NFT_MAX_NAME as int)
                &&& elements.len() <= MAX_MEMBERS
            },
            Body::Other => {
                &&& kind != NLMSG_ERROR
                &&& kind != NLMSG_DONE
                &&& !is_ipset_kind(kind)
                &&& !is_table_kind(kind)
                &&& !is_set_kind(kind)
                &&& !is_elements_kind(kind)
            },
        }
    }
}

impl Message<Seq<u8>, Seq<IpEntry>> {
    /// Whether the message can be put on the wire.
    pub open spec fn wf(self) -> bool {
        self.body.wf(self.kind)
    }
}

/// Whether an optional name, if there is one, can be put on the wire.
fn check_opt_name(name: &Option<Vec<u8>>, max: usize) -> (ok: bool)
    ensures
        ok == valid_opt_name(name_view(*name), max as int),
{
    match name {
        Some(n) => check_name(n.as_slice(), max),
        None => true,
    }
}

/// Whether a message can be put on the wire: its type is one that carries
/// its body, its names are neither empty nor too long and hold no zero
/// octet, and its members are no more than one message holds.
pub fn check_message(m: &Message<Vec<u8>, Vec<IpEntry>>) -> (ok: bool)
    ensures
        ok == m@.wf(),
{
    let kind = m.kind;
    match &m.body {
        Body::Status { .. } => kind == NLMSG_ERROR,
        Body::Done => kind == NLMSG_DONE,
        Body::Ipset(b) => kind / 256 == 6 && check_name(b.name.as_slice(), IPSET_MAX_NAME)
            && check_opt_name(&b.second, IPSET_MAX_NAME) && b.members.len() <= MAX_MEMBERS,
        Body::NftTable { name, .. } => (kind == NFT_MSG_NEWTABLE || kind == NFT_MSG_GETTABLE
            || kind == NFT_MSG_DELTABLE) && check_opt_name(name, NFT_MAX_NAME),
        Body::NftSet { table, name, .. } => (kind == NFT_MSG_NEWSET || kind == NFT_MSG_GETSET
            || kind == NFT_MSG_DELSET) && check_name(table.as_slice(), NFT_MAX_NAME)
            && check_name(name.as_slice(), NFT_MAX_NAME),
        Body::NftElements { table, set, elements, .. } => (kind == NFT_MSG_NEWSETELEM || kind
            == NFT_MSG_GETSETELEM || kind == NFT_MSG_DELSETELEM) && check_name(
            table.as_slice(),
            NFT_MAX_NAME,
        ) && check_name(set.as_slice(), NFT_MAX_NAME) && elements.len() <= MAX_MEMBERS,
        Body::Other => kind != NLMSG_ERROR && kind != NLMSG_DONE && kind / 256 != 6 && kind
            != NFT_MSG_NEWTABLE && kind != NFT_MSG_GETTABLE && kind != NFT_MSG_DELTABLE && kind
            != NFT_MSG_NEWSET && kind != NFT_MSG_GETSET && kind != NFT_MSG_DELSET && kind
            != NFT_MSG_NEWSETELEM && kind != NFT_MSG_GETSETELEM && kind != NFT_MSG_DELSETELEM,
    }
}

} // verus!
