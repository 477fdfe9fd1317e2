//! The two backend adapters, outward half: which message an operation
//! sends.
//!
//! ipset operations map to the commands of the ipset protocol, each named
//! by the set. nftables operations are scoped by a family token (`inet`,
//! `ip` or `ip6`) and a table. Every request has the request flag; one that
//! changes the kernel's state or tests a member asks for an
//! acknowledgement, one that lists asks for a dump.

use vstd::prelude::*;
use vstd::string::StrSliceExecFns;
use vstd::utf8::encode_utf8;
use crate::entry::{
    IpAddress,
    IpEntry,
    IpSetCreateOptions,
    IpSetFamily,
    IpSetType,
    NftSetCreateOptions,
    NftSetType,
};
use crate::error::{Error, ErrorView};
use crate::fields::check_name;
use crate::frame::{NLM_F_ACK, NLM_F_DUMP, NLM_F_REQUEST};
use crate::ipset::{IPSET_PROTOCOL, IPSET_REVISION};
use crate::message::{
    is_elements_kind,
    is_set_kind,
    is_table_kind,
    Body,
    IpsetBody,
    IpsetData,
    Message,
    SetShape,
    IPSET_CMD_ADD,
    IPSET_CMD_CREATE,
    IPSET_CMD_DEL,
    IPSET_CMD_DESTROY,
    IPSET_CMD_FLUSH,
    IPSET_CMD_LIST,
    IPSET_CMD_RENAME,
    IPSET_CMD_SWAP,
    IPSET_CMD_TEST,
    IPSET_MAX_NAME,
    NFPROTO_INET,
    NFPROTO_IPV4,
    NFPROTO_IPV6,
    NFT_MAX_NAME,
    NFT_MSG_DELSET,
    NFT_MSG_DELSETELEM,
    NFT_MSG_DELTABLE,
    NFT_MSG_GETSETELEM,
    NFT_MSG_GETTABLE,
    NFT_MSG_NEWSET,
    NFT_MSG_NEWSETELEM,
    NFT_MSG_NEWTABLE,
};
use crate::nftables::{NFT_SET_TIMEOUT, NFT_TYPE_IP6ADDR, NFT_TYPE_IPADDR};
use crate::operation::Operation;
use crate::text::same_text;

verus! {

/// Flags of a request that changes state or tests a member: the request
/// flag and the flag that asks for an acknowledgement.
pub const FLAGS_ACK: u16 = 0x005;

/// Flags of a request that lists: the request flag and the dump flags.
pub const FLAGS_DUMP: u16 = 0x301;

/// The flag words of the requests are made of the netlink flags as their
/// names say.
pub proof fn law_request_flags()
    ensures
        FLAGS_ACK == NLM_F_REQUEST | NLM_F_ACK,
        FLAGS_DUMP == NLM_F_REQUEST | NLM_F_DUMP,
{
    assert(0x005u16 == 0x001u16 | 0x004u16) by (bit_vector);
    assert(0x301u16 == 0x001u16 | 0x300u16) by (bit_vector);
}

/// The octets `hash:ip`.
pub open spec fn hash_ip() -> Seq<u8> {
    seq![104u8, 97u8, 115u8, 104u8, 58u8, 105u8, 112u8]
}

/// The octets `hash:net`.
pub open spec fn hash_net() -> Seq<u8> {
    seq![104u8, 97u8, 115u8, 104u8, 58u8, 110u8, 101u8, 116u8]
}

/// The name of an ipset set type on the wire.
pub open spec fn set_type_octets(t: IpSetType) -> Seq<u8> {
    match t {
        IpSetType::HashIp => hash_ip(),
        IpSetType::HashNet => hash_net(),
    }
}

/// The protocol family of an ipset family.
pub open spec fn ipset_proto(f: IpSetFamily) -> u8 {
    match f {
        IpSetFamily::Inet => NFPROTO_IPV4,
        IpSetFamily::Inet6 => NFPROTO_IPV6,
    }
}

/// The protocol family of an address.
pub open spec fn addr_proto(a: IpAddress) -> u8 {
    match a {
        IpAddress::V4(_) => NFPROTO_IPV4,
        IpAddress::V6(_) => NFPROTO_IPV6,
    }
}

/// The protocol family that an nftables family token names: `inet`, `ip`
/// or `ip6`.
pub open spec fn nft_proto(token: Seq<char>) -> Option<u8> {
    if token == "inet"@ {
        Some(NFPROTO_INET)
    } else if token == "ip"@ {
        Some(NFPROTO_IPV4)
    } else if token == "ip6"@ {
        Some(NFPROTO_IPV6)
    } else {
        None
    }
}

/// An ipset request.
pub open spec fn ipset_message(
    kind: u16,
    flags: u16,
    sequence: u32,
    port: u32,
    body: IpsetBody<Seq<u8>, Seq<IpEntry>>,
) -> Result<Message<Seq<u8>, Seq<IpEntry>>, ErrorView> {
    if body.wf() {
        Ok(Message { kind, flags, sequence, port, body: Body::Ipset(body) })
    } else {
        Err(ErrorView::Malformed)
    }
}

/// The body of an ipset request that holds a name and nothing else.
pub open spec fn ipset_plain(name: Seq<char>) -> IpsetBody<Seq<u8>, Seq<IpEntry>> {
    IpsetBody {
        family: NFPROTO_IPV4,
        protocol: IPSET_PROTOCOL,
        name: encode_utf8(name),
        second: None,
        revision: None,
        set_family: None,
        data: None,
        members: Seq::empty(),
    }
}

/// The body of an ipset request that holds two names.
pub open spec fn ipset_pair(from: Seq<char>, to: Seq<char>) -> IpsetBody<Seq<u8>, Seq<IpEntry>> {
    IpsetBody {
        family: NFPROTO_IPV4,
        protocol: IPSET_PROTOCOL,
        name: encode_utf8(from),
        second: Some(encode_utf8(to)),
        revision: None,
        set_family: None,
        data: None,
        members: Seq::empty(),
    }
}

/// The body of an ipset request that holds a name and a member.
pub open spec fn ipset_member(name: Seq<char>, entry: IpEntry) -> IpsetBody<
    Seq<u8>,
    Seq<IpEntry>,
> {
    IpsetBody {
        family: addr_proto(entry.addr),
        protocol: IPSET_PROTOCOL,
        name: encode_utf8(name),
        second: None,
        revision: None,
        set_family: None,
        data: Some(
            IpsetData {
                addr: Some(entry.addr),
                timeout: entry.timeout,
                hashsize: None,
                maxelem: None,
            },
        ),
        members: Seq::empty(),
    }
}

/// The body of the ipset request that creates a set.
pub open spec fn ipset_create(name: Seq<char>, options: IpSetCreateOptions) -> IpsetBody<
    Seq<u8>,
    Seq<IpEntry>,
> {
    IpsetBody {
        family: ipset_proto(options.family),
        protocol: IPSET_PROTOCOL,
        name: encode_utf8(name),
        second: Some(set_type_octets(options.set_type)),
        revision: Some(IPSET_REVISION),
        set_family: Some(ipset_proto(options.family)),
        data: Some(
            IpsetData {
                addr: None,
                timeout: options.timeout,
                hashsize: options.hashsize,
                maxelem: options.maxelem,
            },
        ),
        members: Seq::empty(),
    }
}

/// What an nftables set with the options `options` is made of: keys of 4
/// or 16 octets, and the timeout flag if there is a default timeout.
pub open spec fn shape_of_options(options: NftSetCreateOptions) -> SetShape {
    SetShape {
        flags: if options.timeout is Some {
            NFT_SET_TIMEOUT
        } else {
            0
        },
        key_type: match options.set_type {
            NftSetType::Ipv4Addr => NFT_TYPE_IPADDR,
            NftSetType::Ipv6Addr => NFT_TYPE_IP6ADDR,
        },
        key_len: options.set_type.width() as u32,
        timeout: options.timeout,
    }
}

/// An nftables body with the protocol family `proto` in its header.
pub open spec fn with_proto(body: Body<Seq<u8>, Seq<IpEntry>>, proto: u8) -> Body<
    Seq<u8>,
    Seq<IpEntry>,
> {
    match body {
        Body::NftTable { name, .. } => Body::NftTable { family: proto, name },
        Body::NftSet { table, name, shape, .. } => Body::NftSet {
            family: proto,
            table,
            name,
            shape,
        },
        Body::NftElements { table, set, elements, .. } => Body::NftElements {
            family: proto,
            table,
            set,
            elements,
        },
        _ => body,
    }
}

/// An nftables request, if the family token names a family and the body
/// can be put on the wire. An unknown token is
/// [`ErrorView::Unsupported`]; a name that is no name is
/// [`ErrorView::Malformed`]. The family token says in which family the table
/// is looked up, and no more: whether an address or a key fits is for the
/// kernel to say.
pub open spec fn nft_message(
    kind: u16,
    flags: u16,
    sequence: u32,
    port: u32,
    family: Seq<char>,
    body: Body<Seq<u8>, Seq<IpEntry>>,
) -> Result<Message<Seq<u8>, Seq<IpEntry>>, ErrorView> {
    match nft_proto(family) {
        None => Err(ErrorView::Unsupported),
        Some(proto) => if !with_proto(body, proto).wf(kind) {
            Err(ErrorView::Malformed)
        } else {
            Ok(Message { kind, flags, sequence, port, body: with_proto(body, proto) })
        },
    }
}

/// The first request of an operation, or the error that refuses the
/// operation before anything is sent.
///
/// Rename and swap on nftables are [`ErrorView::Unsupported`], whatever
/// their arguments. Flushing an nftables set starts with the request that
/// lists it.
#[verifier::opaque]
pub open spec fn request_spec(op: Operation<Seq<char>>, sequence: u32, port: u32) -> Result<
    Message<Seq<u8>, Seq<IpEntry>>,
    ErrorView,
> {
    match op {
        Operation::IpsetCreate { name, options } => ipset_message(
            IPSET_CMD_CREATE,
            FLAGS_ACK,
            sequence,
            port,
            ipset_create(name, options),
        ),
        Operation::IpsetDestroy { name } => ipset_message(
            IPSET_CMD_DESTROY,
            FLAGS_ACK,
            sequence,
            port,
            ipset_plain(name),
        ),
        Operation::IpsetFlush { name } => ipset_message(
            IPSET_CMD_FLUSH,
            FLAGS_ACK,
            sequence,
            port,
            ipset_plain(name),
        ),
        Operation::IpsetRename { from, to } => ipset_message(
            IPSET_CMD_RENAME,
            FLAGS_ACK,
            sequence,
            port,
            ipset_pair(from, to),
        ),
        Operation::IpsetSwap { from, to } => ipset_message(
            IPSET_CMD_SWAP,
            FLAGS_ACK,
            sequence,
            port,
            ipset_pair(from, to),
        ),
        Operation::IpsetAdd { name, entry } => ipset_message(
            IPSET_CMD_ADD,
            FLAGS_ACK,
            sequence,
            port,
            ipset_member(name, entry),
        ),
        Operation::IpsetDel { name, entry } => ipset_message(
            IPSET_CMD_DEL,
            FLAGS_ACK,
            sequence,
            port,
            ipset_member(name, entry),
        ),
        Operation::IpsetTest { name, entry } => ipset_message(
            IPSET_CMD_TEST,
            FLAGS_ACK,
            sequence,
            port,
            ipset_member(name, entry),
        ),
        Operation::IpsetList { name } => ipset_message(
            IPSET_CMD_LIST,
            FLAGS_DUMP,
            sequence,
            port,
            ipset_plain(name),
        ),
        Operation::NftCreateTable { family, table } => nft_message(
            NFT_MSG_NEWTABLE,
            FLAGS_ACK,
            sequence,
            port,
            family,
            Body::NftTable { family: 0, name: Some(encode_utf8(table)) },
        ),
        Operation::NftDeleteTable { family, table } => nft_message(
            NFT_MSG_DELTABLE,
            FLAGS_ACK,
            sequence,
            port,
            family,
            Body::NftTable { family: 0, name: Some(encode_utf8(table)) },
        ),
        Operation::NftListTables { family } => nft_message(
            NFT_MSG_GETTABLE,
            FLAGS_DUMP,
            sequence,
            port,
            family,
            Body::NftTable { family: 0, name: None },
        ),
        Operation::NftCreateSet { family, table, name, options } => nft_message(
            NFT_MSG_NEWSET,
            FLAGS_ACK,
            sequence,
            port,
            family,
            Body::NftSet {
                    family: 0,
                    table: encode_utf8(table),
                    name: encode_utf8(name),
                    shape: Some(shape_of_options(options)),
                },
        ),
        Operation::NftDeleteSet { family, table, name } => nft_message(
            NFT_MSG_DELSET,
            FLAGS_ACK,
            sequence,
            port,
            family,
            Body::NftSet {
                    family: 0,
                    table: encode_utf8(table),
                    name: encode_utf8(name),
                    shape: None,
                },
        ),
        Operation::NftFlush { family, table, name } => nft_message(
            NFT_MSG_GETSETELEM,
            FLAGS_DUMP,
            sequence,
            port,
            family,
            Body::NftElements {
                    family: 0,
                    table: encode_utf8(table),
                    set: encode_utf8(name),
                    elements: Seq::empty(),
                },
        ),
        Operation::NftRename { .. } => Err(ErrorView::Unsupported),
        Operation::NftSwap { .. } => Err(ErrorView::Unsupported),
        Operation::NftAdd { family, table, name, entry } => nft_message(
            NFT_MSG_NEWSETELEM,
            FLAGS_ACK,
            sequence,
            port,
            family,
            Body::NftElements {
                    family: 0,
                    table: encode_utf8(table),
                    set: encode_utf8(name),
                    elements: seq![entry],
                },
        ),
        Operation::NftDel { family, table, name, entry } => nft_message(
            NFT_MSG_DELSETELEM,
            FLAGS_ACK,
            sequence,
            port,
            family,
            Body::NftElements {
                    family: 0,
                    table: encode_utf8(table),
                    set: encode_utf8(name),
                    elements: seq![entry],
                },
        ),
        Operation::NftTest { family, table, name, entry } => nft_message(
            NFT_MSG_GETSETELEM,
            FLAGS_ACK,
            sequence,
            port,
            family,
            Body::NftElements {
                    family: 0,
                    table: encode_utf8(table),
                    set: encode_utf8(name),
                    elements: seq![entry],
                },
        ),
        Operation::NftList { family, table, name } => nft_message(
            NFT_MSG_GETSETELEM,
            FLAGS_DUMP,
            sequence,
            port,
            family,
            Body::NftElements {
                    family: 0,
                    table: encode_utf8(table),
                    set: encode_utf8(name),
                    elements: Seq::empty(),
                },
        ),
    }
}

/// The octets of a name.
fn octets(name: &String) -> (v: Vec<u8>)
    ensures
        v@ == encode_utf8(name@),
{
    name.as_str().as_bytes_vec()
}

/// The protocol family that an nftables family token names.
pub fn parse_nft_family(token: &str) -> (r: Option<u8>)
    ensures
        r == nft_proto(token@),
{
    if same_text(token, "inet") {
        Some(NFPROTO_INET)
    } else if same_text(token, "ip") {
        Some(NFPROTO_IPV4)
    } else if same_text(token, "ip6") {
        Some(NFPROTO_IPV6)
    } else {
        None
    }
}

/// The result of [`request`] as a mathematical value.
pub open spec fn request_view(r: Result<Message<Vec<u8>, Vec<IpEntry>>, Error>) -> Result<
    Message<Seq<u8>, Seq<IpEntry>>,
    ErrorView,
> {
    match r {
        Ok(m) => Ok(m@),
        Err(e) => Err(e@),
    }
}

/// Builds an ipset request, or refuses a name that cannot be put on the
/// wire.
fn ipset_request(
    kind: u16,
    flags: u16,
    sequence: u32,
    port: u32,
    body: IpsetBody<Vec<u8>, Vec<IpEntry>>,
) -> (r: Result<Message<Vec<u8>, Vec<IpEntry>>, Error>)
    requires
        body@.members.len() == 0,
    ensures
        request_view(r) == ipset_message(kind, flags, sequence, port, body@),
{
    if !check_name(body.name.as_slice(), IPSET_MAX_NAME) {
        return Err(Error::Malformed);
    }
    match &body.second {
        Some(second) => if !check_name(second.as_slice(), IPSET_MAX_NAME) {
            return Err(Error::Malformed);
        },
        None => {},
    }
    Ok(Message { kind, flags, sequence, port, body: Body::Ipset(body) })
}

/// The body of an ipset request that holds a name and nothing else.
fn plain_body(name: &String) -> (b: IpsetBody<Vec<u8>, Vec<IpEntry>>)
    ensures
        b@ == ipset_plain(name@),
{
    IpsetBody {
        family: NFPROTO_IPV4,
        protocol: IPSET_PROTOCOL,
        name: octets(name),
        second: None,
        revision: None,
        set_family: None,
        data: None,
        members: Vec::new(),
    }
}

/// The body of an ipset request that holds two names.
fn pair_body(from: &String, to: &String) -> (b: IpsetBody<Vec<u8>, Vec<IpEntry>>)
    ensures
        b@ == ipset_pair(from@, to@),
{
    IpsetBody {
        family: NFPROTO_IPV4,
        protocol: IPSET_PROTOCOL,
        name: octets(from),
        second: Some(octets(to)),
        revision: None,
        set_family: None,
        data: None,
        members: Vec::new(),
    }
}

/// The body of an ipset request that holds a name and a member.
fn member_body(name: &String, entry: IpEntry) -> (b: IpsetBody<Vec<u8>, Vec<IpEntry>>)
    ensures
        b@ == ipset_member(name@, entry),
{
    IpsetBody {
        family: match entry.addr {
            IpAddress::V4(_) => NFPROTO_IPV4,
            IpAddress::V6(_) => NFPROTO_IPV6,
        },
        protocol: IPSET_PROTOCOL,
        name: octets(name),
        second: None,
        revision: None,
        set_family: None,
        data: Some(
            IpsetData {
                addr: Some(entry.addr),
                timeout: entry.timeout,
                hashsize: None,
                maxelem: None,
            },
        ),
        members: Vec::new(),
    }
}

/// The body of the ipset request that creates a set.
fn create_body(name: &String, options: &IpSetCreateOptions) -> (b: IpsetBody<
    Vec<u8>,
    Vec<IpEntry>,
>)
    ensures
        b@ == ipset_create(name@, *options),
{
    let proto = match options.family {
        IpSetFamily::Inet => NFPROTO_IPV4,
        IpSetFamily::Inet6 => NFPROTO_IPV6,
    };
    let set_type = match options.set_type {
        IpSetType::HashIp => {
            let v: Vec<u8> = vec![104u8, 97u8, 115u8, 104u8, 58u8, 105u8, 112u8];
            assert(v@ =~= hash_ip());
            v
        },
        IpSetType::HashNet => {
            let v: Vec<u8> = vec![104u8, 97u8, 115u8, 104u8, 58u8, 110u8, 101u8, 116u8];
            assert(v@ =~= hash_net());
            v
        },
    };
    IpsetBody {
        family: proto,
        protocol: IPSET_PROTOCOL,
        name: octets(name),
        second: Some(set_type),
        revision: Some(IPSET_REVISION),
        set_family: Some(proto),
        data: Some(
            IpsetData {
                addr: None,
                timeout: options.timeout,
                hashsize: options.hashsize,
                maxelem: options.maxelem,
            },
        ),
        members: Vec::new(),
    }
}

/// Whether an nftables body can be put on the wire in a message of type
/// `kind` that carries such a body.
fn check_nft_body(kind: u16, body: &Body<Vec<u8>, Vec<IpEntry>>) -> (ok: bool)
    requires
        body@ is NftTable ==> is_table_kind(kind),
        body@ is NftSet ==> is_set_kind(kind),
        body@ is NftElements ==> is_elements_kind(kind),
        body@ is NftTable || body@ is NftSet || body@ is NftElements,
        body@ is NftElements ==> body@->NftElements_elements.len() <= 1,
    ensures
        ok == body@.wf(kind),
{
    match body {
        Body::NftTable { name, .. } => match name {
            Some(n) => check_name(n.as_slice(), NFT_MAX_NAME),
            None => true,
        },
        Body::NftSet { table, name, .. } => check_name(table.as_slice(), NFT_MAX_NAME)
            && check_name(name.as_slice(), NFT_MAX_NAME),
        Body::NftElements { table, set, .. } => check_name(table.as_slice(), NFT_MAX_NAME)
            && check_name(set.as_slice(), NFT_MAX_NAME),
        _ => false,
    }
}

/// Builds an nftables request from a body whose family is already set, or
/// refuses it.
fn nft_request(
    kind: u16,
    flags: u16,
    sequence: u32,
    port: u32,
    proto: u8,
    body: Body<Vec<u8>, Vec<IpEntry>>,
) -> (r: Result<Message<Vec<u8>, Vec<IpEntry>>, Error>)
    requires
        body@ is NftTable ==> is_table_kind(kind),
        body@ is NftSet ==> is_set_kind(kind),
        body@ is NftElements ==> is_elements_kind(kind),
        body@ is NftTable || body@ is NftSet || body@ is NftElements,
        body@ is NftElements ==> body@->NftElements_elements.len() <= 1,
        body@ == with_proto(body@, proto),
    ensures
        request_view(r) == if !body@.wf(kind) {
            Err(ErrorView::Malformed)
        } else {
            Ok(Message { kind, flags, sequence, port, body: body@ })
        },
{
    if !check_nft_body(kind, &body) {
        return Err(Error::Malformed);
    }
    Ok(Message { kind, flags, sequence, port, body })
}

/// Builds the first request of an operation.
///
/// Nothing is sent for an operation that is refused here: rename and swap
/// on nftables and an unknown family token give [`Error::Unsupported`],
/// and a name that is empty, too long or holds a zero octet gives
/// [`Error::Malformed`]. Every other operation is sent, whatever the widths
/// of its address or keys: a mismatch is the kernel's to report.
pub fn request(op: &Operation<String>, sequence: u32, port: u32) -> (r: Result<
    Message<Vec<u8>, Vec<IpEntry>>,
    Error,
>)
    ensures
        request_view(r) == request_spec(op@, sequence, port),
        r is Ok ==> r->Ok_0@.wf(),
{
    reveal(request_spec);
    match op {
        Operation::IpsetCreate { name, options } => ipset_request(
            IPSET_CMD_CREATE,
            FLAGS_ACK,
            sequence,
            port,
            create_body(name, options),
        ),
        Operation::IpsetDestroy { name } => ipset_request(
            IPSET_CMD_DESTROY,
            FLAGS_ACK,
            sequence,
            port,
            plain_body(name),
        ),
        Operation::IpsetFlush { name } => ipset_request(
            IPSET_CMD_FLUSH,
            FLAGS_ACK,
            sequence,
            port,
            plain_body(name),
        ),
        Operation::IpsetRename { from, to } => ipset_request(
            IPSET_CMD_RENAME,
            FLAGS_ACK,
            sequence,
            port,
            pair_body(from, to),
        ),
        Operation::IpsetSwap { from, to } => ipset_request(
            IPSET_CMD_SWAP,
            FLAGS_ACK,
            sequence,
            port,
            pair_body(from, to),
        ),
        Operation::IpsetAdd { name, entry } => ipset_request(
            IPSET_CMD_ADD,
            FLAGS_ACK,
            sequence,
            port,
            member_body(name, *entry),
        ),
        Operation::IpsetDel { name, entry } => ipset_request(
            IPSET_CMD_DEL,
            FLAGS_ACK,
            sequence,
            port,
            member_body(name, *entry),
        ),
        Operation::IpsetTest { name, entry } => ipset_request(
            IPSET_CMD_TEST,
            FLAGS_ACK,
            sequence,
            port,
            member_body(name, *entry),
        ),
        Operation::IpsetList { name } => ipset_request(
            IPSET_CMD_LIST,
            FLAGS_DUMP,
            sequence,
            port,
            plain_body(name),
        ),
        Operation::NftCreateTable { family, table } => match parse_nft_family(family.as_str()) {
            None => Err(Error::Unsupported),
            Some(proto) => nft_request(
                NFT_MSG_NEWTABLE,
                FLAGS_ACK,
                sequence,
                port,
                proto,
                Body::NftTable { family: proto, name: Some(octets(table)) },
            ),
        },
        Operation::NftDeleteTable { family, table } => match parse_nft_family(family.as_str()) {
            None => Err(Error::Unsupported),
            Some(proto) => nft_request(
                NFT_MSG_DELTABLE,
                FLAGS_ACK,
                sequence,
                port,
                proto,
                Body::NftTable { family: proto, name: Some(octets(table)) },
            ),
        },
        Operation::NftListTables { family } => match parse_nft_family(family.as_str()) {
            None => Err(Error::Unsupported),
            Some(proto) => nft_request(
                NFT_MSG_GETTABLE,
                FLAGS_DUMP,
                sequence,
                port,
                proto,
                Body::NftTable { family: proto, name: None },
            ),
        },
        Operation::NftCreateSet { family, table, name, options } => match parse_nft_family(
            family.as_str(),
        ) {
            None => Err(Error::Unsupported),
            Some(proto) => {
                let (key_type, key_len): (u32, u32) = match options.set_type {
                    NftSetType::Ipv4Addr => (NFT_TYPE_IPADDR, 4),
                    NftSetType::Ipv6Addr => (NFT_TYPE_IP6ADDR, 16),
                };
                let flags: u32 = match options.timeout {
                    Some(_) => NFT_SET_TIMEOUT,
                    None => 0,
                };
                let shape = SetShape { flags, key_type, key_len, timeout: options.timeout };
                nft_request(
                    NFT_MSG_NEWSET,
                    FLAGS_ACK,
                    sequence,
                    port,
                    proto,
                    Body::NftSet {
                        family: proto,
                        table: octets(table),
                        name: octets(name),
                        shape: Some(shape),
                    },
                )
            },
        },
        Operation::NftDeleteSet { family, table, name } => match parse_nft_family(
            family.as_str(),
        ) {
            None => Err(Error::Unsupported),
            Some(proto) => nft_request(
                NFT_MSG_DELSET,
                FLAGS_ACK,
                sequence,
                port,
                proto,
                Body::NftSet {
                    family: proto,
                    table: octets(table),
                    name: octets(name),
                    shape: None,
                },
            ),
        },
        Operation::NftFlush { family, table, name } => match parse_nft_family(family.as_str()) {
            None => Err(Error::Unsupported),
            Some(proto) => nft_request(
                NFT_MSG_GETSETELEM,
                FLAGS_DUMP,
                sequence,
                port,
                proto,
                Body::NftElements {
                    family: proto,
                    table: octets(table),
                    set: octets(name),
                    elements: Vec::new(),
                },
            ),
        },
        Operation::NftRename { .. } => Err(Error::Unsupported),
        Operation::NftSwap { .. } => Err(Error::Unsupported),
        Operation::NftAdd { family, table, name, entry } => match parse_nft_family(
            family.as_str(),
        ) {
            None => Err(Error::Unsupported),
            Some(proto) => {
                let elements: Vec<IpEntry> = vec![*entry];
                assert(elements@ =~= seq![*entry]);
                nft_request(
                    NFT_MSG_NEWSETELEM,
                    FLAGS_ACK,
                    sequence,
                    port,
                    proto,
                    Body::NftElements {
                        family: proto,
                        table: octets(table),
                        set: octets(name),
                        elements,
                    },
                )
            },
        },
        Operation::NftDel { family, table, name, entry } => match parse_nft_family(
            family.as_str(),
        ) {
            None => Err(Error::Unsupported),
            Some(proto) => {
                let elements: Vec<IpEntry> = vec![*entry];
                assert(elements@ =~= seq![*entry]);
                nft_request(
                    NFT_MSG_DELSETELEM,
                    FLAGS_ACK,
                    sequence,
                    port,
                    proto,
                    Body::NftElements {
                        family: proto,
                        table: octets(table),
                        set: octets(name),
                        elements,
                    },
                )
            },
        },
        Operation::NftTest { family, table, name, entry } => match parse_nft_family(
            family.as_str(),
        ) {
            None => Err(Error::Unsupported),
            Some(proto) => {
                let elements: Vec<IpEntry> = vec![*entry];
                assert(elements@ =~= seq![*entry]);
                nft_request(
                    NFT_MSG_GETSETELEM,
                    FLAGS_ACK,
                    sequence,
                    port,
                    proto,
                    Body::NftElements {
                        family: proto,
                        table: octets(table),
                        set: octets(name),
                        elements,
                    },
                )
            },
        },
        Operation::NftList { family, table, name } => match parse_nft_family(family.as_str()) {
            None => Err(Error::Unsupported),
            Some(proto) => nft_request(
                NFT_MSG_GETSETELEM,
                FLAGS_DUMP,
                sequence,
                port,
                proto,
                Body::NftElements {
                    family: proto,
                    table: octets(table),
                    set: octets(name),
                    elements: Vec::new(),
                },
            ),
        },
    }
}

} // verus!
