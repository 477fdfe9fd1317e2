//! The ipset protocol: how its messages are laid out in attributes.
//!
//! Every message names a set. A create message adds the name of the set
//! type, its revision, the protocol family and a data block with the
//! defaults of the set. Add, del and test carry a data block with one
//! member: a nested address attribute and, where the member has one, its
//! timeout. Rename and swap carry a second name. A listing comes back as
//! messages whose data blocks stand one per member in a nested attribute.

use vstd::prelude::*;
use crate::attr::{
    decode,
    decode_spec,
    encode_all,
    encode_list,
    find,
    fits,
    lemma_find_with,
    lemma_fits_empty,
    lemma_fits_roundtrip,
    lemma_fits_with,
    lemma_nest_wf,
    lemma_views_push,
    lookup,
    nest,
    number,
    raw,
    total_size,
    views,
    with,
    Attribute,
    AttributeView,
};
use crate::entry::{IpAddress, IpEntry};
use crate::error::{Error, ErrorView};
use crate::fields::{
    addr_octets,
    addr_of,
    addr_vec,
    cstr,
    lemma_addr_roundtrip,
    lemma_opt_number,
    lemma_read_name,
    lemma_read_number,
    lemma_read_u8,
    opt_name,
    opt_number,
    opt_u8,
    parse_addr,
    push_name,
    push_nested,
    push_number,
    push_u8,
    read_name,
    read_name_spec,
    read_nested,
    read_nested_spec,
    read_u32,
    read_u32_spec,
    read_u8,
    read_u8_spec,
};
use crate::message::{IpsetBody, IpsetData, IPSET_MAX_NAME, MAX_MEMBERS};

verus! {

/// The version of the ipset protocol that this library speaks.
pub const IPSET_PROTOCOL: u8 = 7;

/// The revision of a set type that a create message asks for: the first,
/// which every kernel has.
pub const IPSET_REVISION: u8 = 0;

/// Attribute of a message: the protocol version.
pub const ATTR_PROTOCOL: u16 = 1;

/// Attribute of a message: the name of the set.
pub const ATTR_SETNAME: u16 = 2;

/// Attribute of a message: the name of the set type, or the second set.
pub const ATTR_TYPENAME: u16 = 3;

/// Attribute of a message: the revision of the set type.
pub const ATTR_REVISION: u16 = 4;

/// Attribute of a message: the protocol family of the set.
pub const ATTR_FAMILY: u16 = 5;

/// Attribute of a message: a data block.
pub const ATTR_DATA: u16 = 7;

/// Attribute of a message: the data blocks of several members.
pub const ATTR_ADT: u16 = 8;

/// Attribute of a message: the line of a batch that a message stands for.
pub const ATTR_LINENO: u16 = 9;

/// The largest tag of a message that the protocol defines.
pub const ATTR_CMD_MAX: u16 = 11;

/// Attribute of a data block: the address.
pub const ATTR_IP: u16 = 1;

/// Attribute of a data block: a timeout in seconds.
pub const ATTR_TIMEOUT: u16 = 6;

/// Attribute of a data block: the initial size of the hash table.
pub const ATTR_HASHSIZE: u16 = 18;

/// Attribute of a data block: the largest number of members.
pub const ATTR_MAXELEM: u16 = 19;

/// The largest tag of a data block that the protocol defines.
pub const ATTR_DATA_MAX: u16 = 30;

/// Attribute of an address: an IPv4 address.
pub const ATTR_IPADDR_IPV4: u16 = 1;

/// Attribute of an address: an IPv6 address.
pub const ATTR_IPADDR_IPV6: u16 = 2;

/// The tag that goes with the width of an address.
pub open spec fn ipaddr_tag(a: IpAddress) -> u16 {
    match a {
        IpAddress::V4(_) => ATTR_IPADDR_IPV4,
        IpAddress::V6(_) => ATTR_IPADDR_IPV6,
    }
}

/// The address attribute of a data block: the octets of the address in an
/// attribute that says which family it is of, nested in `ATTR_IP`.
pub open spec fn ip_attr(a: IpAddress) -> AttributeView {
    nest(ATTR_IP, seq![number(ipaddr_tag(a), addr_octets(a))])
}

/// An optional address as an optional attribute.
pub open spec fn opt_ip(a: Option<IpAddress>) -> Option<AttributeView> {
    match a {
        Some(a) => Some(ip_attr(a)),
        None => None,
    }
}

/// The attributes of a data block: the address, the timeout, the hash size
/// and the largest number of members, each only if it is there.
pub open spec fn data_attrs(d: IpsetData) -> Seq<AttributeView> {
    with(
        with(
            with(with(Seq::empty(), opt_ip(d.addr)), opt_number(ATTR_TIMEOUT, d.timeout)),
            opt_number(ATTR_HASHSIZE, d.hashsize),
        ),
        opt_number(ATTR_MAXELEM, d.maxelem),
    )
}

/// The data block of a member.
pub open spec fn member_data(e: IpEntry) -> IpsetData {
    IpsetData { addr: Some(e.addr), timeout: e.timeout, hashsize: None, maxelem: None }
}

/// A member of a listing: its data block as a nested attribute.
pub open spec fn member_attr(e: IpEntry) -> AttributeView {
    nest(ATTR_DATA, data_attrs(member_data(e)))
}

/// The members of a listing, one nested data block each.
pub open spec fn members_attrs(members: Seq<IpEntry>) -> Seq<AttributeView> {
    Seq::new(members.len(), |i: int| member_attr(members[i]))
}

/// The data block of a message as an optional attribute.
pub open spec fn opt_data(d: Option<IpsetData>) -> Option<AttributeView> {
    match d {
        Some(d) => Some(nest(ATTR_DATA, data_attrs(d))),
        None => None,
    }
}

/// The members of a message as an optional attribute: none if there are no
/// members.
pub open spec fn opt_members(members: Seq<IpEntry>) -> Option<AttributeView> {
    if members.len() > 0 {
        Some(nest(ATTR_ADT, members_attrs(members)))
    } else {
        None
    }
}

/// The attributes of an ipset message, in the order they are written:
/// protocol version and set name, then what else the message holds.
pub open spec fn ipset_attrs(b: IpsetBody<Seq<u8>, Seq<IpEntry>>) -> Seq<AttributeView> {
    with(
        with(
            with(
                with(
                    with(
                        seq![raw(ATTR_PROTOCOL, seq![b.protocol]), raw(ATTR_SETNAME, cstr(b.name))],
                        opt_name(ATTR_TYPENAME, b.second),
                    ),
                    opt_u8(ATTR_REVISION, b.revision),
                ),
                opt_u8(ATTR_FAMILY, b.set_family),
            ),
            opt_data(b.data),
        ),
        opt_members(b.members),
    )
}

/// The address in the attributes of an `ATTR_IP`: the IPv4 attribute if it
/// is there and has four octets, else the IPv6 attribute if it is there
/// and has sixteen.
pub open spec fn ip_of(ip: Seq<AttributeView>) -> Option<IpAddress> {
    match find(ip, ATTR_IPADDR_IPV4) {
        Some(a) => if a.payload.len() == 4 {
            addr_of(a.payload)
        } else {
            None
        },
        None => match find(ip, ATTR_IPADDR_IPV6) {
            Some(a) => if a.payload.len() == 16 {
                addr_of(a.payload)
            } else {
                None
            },
            None => None,
        },
    }
}

/// The address of a data block, in the three cases of
/// [`read_u8_spec`].
pub open spec fn read_ip_spec(children: Seq<AttributeView>) -> Option<Option<IpAddress>> {
    match read_nested_spec(children, ATTR_IP, ATTR_IPADDR_IPV6) {
        None => None,
        Some(None) => Some(None),
        Some(Some(ip)) => match ip_of(ip) {
            Some(a) => Some(Some(a)),
            None => None,
        },
    }
}

/// The data block that a run of attributes stands for. `None` if one of
/// the attributes it reads has a payload of the wrong form.
pub open spec fn data_of(children: Seq<AttributeView>) -> Option<IpsetData> {
    match (
        read_ip_spec(children),
        read_u32_spec(children, ATTR_TIMEOUT),
        read_u32_spec(children, ATTR_HASHSIZE),
        read_u32_spec(children, ATTR_MAXELEM),
    ) {
        (Some(addr), Some(timeout), Some(hashsize), Some(maxelem)) => Some(
            IpsetData { addr, timeout, hashsize, maxelem },
        ),
        _ => None,
    }
}

/// The member that a nested data block stands for. `None` if the block is
/// malformed or holds no address.
pub open spec fn member_of(a: AttributeView) -> Option<IpEntry> {
    match decode_spec(a.payload, ATTR_DATA_MAX) {
        None => None,
        Some(children) => match data_of(children) {
            Some(d) => match d.addr {
                Some(addr) => Some(IpEntry { addr, timeout: d.timeout }),
                None => None,
            },
            None => None,
        },
    }
}

/// The members that the attributes of an `ATTR_ADT` stand for: one per data
/// block, in order. Attributes that are no data blocks are skipped. `None`
/// if a data block is malformed.
pub open spec fn members_of(children: Seq<AttributeView>) -> Option<Seq<IpEntry>>
    decreases children.len(),
{
    if children.len() == 0 {
        Some(Seq::empty())
    } else {
        match members_of(children.drop_last()) {
            None => None,
            Some(front) => if children.last().tag != ATTR_DATA {
                Some(front)
            } else {
                match member_of(children.last()) {
                    Some(e) => Some(front.push(e)),
                    None => None,
                }
            },
        }
    }
}

/// The data block of a message, in the three cases of [`read_u8_spec`].
pub open spec fn read_data_spec(attrs: Seq<AttributeView>) -> Option<Option<IpsetData>> {
    match read_nested_spec(attrs, ATTR_DATA, ATTR_DATA_MAX) {
        None => None,
        Some(None) => Some(None),
        Some(Some(children)) => match data_of(children) {
            Some(d) => Some(Some(d)),
            None => None,
        },
    }
}

/// The members of a message: none if it has no `ATTR_ADT`. `None` if the
/// attribute is malformed.
pub open spec fn read_members_spec(attrs: Seq<AttributeView>) -> Option<Seq<IpEntry>> {
    match read_nested_spec(attrs, ATTR_ADT, ATTR_CMD_MAX) {
        None => None,
        Some(None) => Some(Seq::empty()),
        Some(Some(children)) => members_of(children),
    }
}

/// The ipset message that a run of attributes and the family of the
/// message header stand for. `None` if the protocol version or the set name
/// is missing, or if one of the attributes it reads is malformed.
pub open spec fn ipset_body_of(family: u8, attrs: Seq<AttributeView>) -> Option<
    IpsetBody<Seq<u8>, Seq<IpEntry>>,
> {
    match (
        read_u8_spec(attrs, ATTR_PROTOCOL),
        read_name_spec(attrs, ATTR_SETNAME),
        read_name_spec(attrs, ATTR_TYPENAME),
        read_u8_spec(attrs, ATTR_REVISION),
        read_u8_spec(attrs, ATTR_FAMILY),
        read_data_spec(attrs),
        read_members_spec(attrs),
    ) {
        (
            Some(Some(protocol)),
            Some(Some(name)),
            Some(second),
            Some(revision),
            Some(set_family),
            Some(data),
            Some(members),
        ) => Some(
            IpsetBody { family, protocol, name, second, revision, set_family, data, members },
        ),
        _ => None,
    }
}

/// The address attribute is encodable and takes at most 28 octets; reading
/// it gives the address back.
pub proof fn lemma_ip_attr(a: IpAddress)
    ensures
        ip_attr(a).wf(),
        ip_attr(a).tag == ATTR_IP,
        ip_attr(a).size() <= 28,
        decode_spec(ip_attr(a).payload, ATTR_IPADDR_IPV6) == Some(
            seq![number(ipaddr_tag(a), addr_octets(a))],
        ),
        ip_of(seq![number(ipaddr_tag(a), addr_octets(a))]) == Some(a),
{
    let inner = number(ipaddr_tag(a), addr_octets(a));
    lemma_addr_roundtrip(a);
    lemma_fits_empty(ATTR_IPADDR_IPV6);
    assert(Seq::<AttributeView>::empty().push(inner) =~= seq![inner]);
    lemma_fits_with(Seq::empty(), Some(inner), ATTR_IPADDR_IPV6, 0, 20);
    lemma_fits_roundtrip(seq![inner], ATTR_IPADDR_IPV6, 20);
    lemma_nest_wf(ATTR_IP, seq![inner], ATTR_IPADDR_IPV6, 20);
    lemma_find_with(Seq::empty(), Some(inner));
}

/// A data block fits a payload: it takes at most 52 octets, or 36 without a
/// hash size and a largest number of members.
pub proof fn lemma_data_fits(d: IpsetData)
    ensures
        fits(data_attrs(d), ATTR_DATA_MAX, 52),
        d.hashsize is None && d.maxelem is None ==> total_size(data_attrs(d)) <= 36,
{
    let s0 = Seq::<AttributeView>::empty();
    let s1 = with(s0, opt_ip(d.addr));
    let s2 = with(s1, opt_number(ATTR_TIMEOUT, d.timeout));
    let s3 = with(s2, opt_number(ATTR_HASHSIZE, d.hashsize));
    let s4 = with(s3, opt_number(ATTR_MAXELEM, d.maxelem));
    lemma_fits_empty(ATTR_DATA_MAX);
    if d.addr is Some {
        lemma_ip_attr(d.addr->0);
    }
    lemma_opt_number(ATTR_TIMEOUT, d.timeout);
    lemma_opt_number(ATTR_HASHSIZE, d.hashsize);
    lemma_opt_number(ATTR_MAXELEM, d.maxelem);
    lemma_fits_with(s0, opt_ip(d.addr), ATTR_DATA_MAX, 0, 28);
    lemma_fits_with(s1, opt_number(ATTR_TIMEOUT, d.timeout), ATTR_DATA_MAX, 28, 8);
    if d.hashsize is None && d.maxelem is None {
        assert(s4 == s2);
    }
    lemma_fits_with(s2, opt_number(ATTR_HASHSIZE, d.hashsize), ATTR_DATA_MAX, 36, 8);
    lemma_fits_with(s3, opt_number(ATTR_MAXELEM, d.maxelem), ATTR_DATA_MAX, 44, 8);
}

/// Where each attribute of a data block is found.
pub proof fn lemma_data_find(d: IpsetData)
    ensures
        find(data_attrs(d), ATTR_IP) == opt_ip(d.addr),
        find(data_attrs(d), ATTR_TIMEOUT) == opt_number(ATTR_TIMEOUT, d.timeout),
        find(data_attrs(d), ATTR_HASHSIZE) == opt_number(ATTR_HASHSIZE, d.hashsize),
        find(data_attrs(d), ATTR_MAXELEM) == opt_number(ATTR_MAXELEM, d.maxelem),
{
    let s0 = Seq::<AttributeView>::empty();
    let s1 = with(s0, opt_ip(d.addr));
    let s2 = with(s1, opt_number(ATTR_TIMEOUT, d.timeout));
    let s3 = with(s2, opt_number(ATTR_HASHSIZE, d.hashsize));
    lemma_find_with(s0, opt_ip(d.addr));
    lemma_find_with(s1, opt_number(ATTR_TIMEOUT, d.timeout));
    lemma_find_with(s2, opt_number(ATTR_HASHSIZE, d.hashsize));
    lemma_find_with(s3, opt_number(ATTR_MAXELEM, d.maxelem));
}

/// Reading the address where an address attribute is found, or none is,
/// gives the address back.
pub proof fn lemma_read_ip(attrs: Seq<AttributeView>, addr: Option<IpAddress>)
    requires
        find(attrs, ATTR_IP) == opt_ip(addr),
    ensures
        read_ip_spec(attrs) == Some(addr),
{
    if addr is Some {
        lemma_ip_attr(addr->0);
    }
}

/// Reading the data block where a data attribute is found, or none is,
/// gives the block back.
pub proof fn lemma_read_data(attrs: Seq<AttributeView>, data: Option<IpsetData>)
    requires
        find(attrs, ATTR_DATA) == opt_data(data),
    ensures
        read_data_spec(attrs) == Some(data),
{
    if data is Some {
        lemma_data_fits(data->0);
        lemma_data_roundtrip(data->0);
        lemma_fits_roundtrip(data_attrs(data->0), ATTR_DATA_MAX, 52);
    }
}

/// Reading the members where a member list is found, or none is, gives the
/// members back.
pub proof fn lemma_read_members(attrs: Seq<AttributeView>, members: Seq<IpEntry>)
    requires
        find(attrs, ATTR_ADT) == opt_members(members),
    ensures
        read_members_spec(attrs) == Some(members),
{
    if members.len() == 0 {
        assert(members =~= Seq::empty());
    } else {
        lemma_members_fits(members);
        lemma_members_roundtrip(members);
        lemma_fits_roundtrip(members_attrs(members), ATTR_CMD_MAX, 40 * (members.len() as int));
    }
}

/// Reading a data block gives the block back.
pub proof fn lemma_data_roundtrip(d: IpsetData)
    ensures
        data_of(data_attrs(d)) == Some(d),
{
    let attrs = data_attrs(d);
    lemma_data_find(d);
    lemma_read_ip(attrs, d.addr);
    lemma_read_number(attrs, ATTR_TIMEOUT, d.timeout);
    lemma_read_number(attrs, ATTR_HASHSIZE, d.hashsize);
    lemma_read_number(attrs, ATTR_MAXELEM, d.maxelem);
}

/// A member is encodable and takes at most 40 octets; reading it gives the
/// member back.
pub proof fn lemma_member_attr(e: IpEntry)
    ensures
        member_attr(e).wf(),
        member_attr(e).tag == ATTR_DATA,
        member_attr(e).size() <= 40,
        member_of(member_attr(e)) == Some(e),
{
    lemma_data_fits(member_data(e));
    lemma_data_roundtrip(member_data(e));
    lemma_nest_wf(ATTR_DATA, data_attrs(member_data(e)), ATTR_DATA_MAX, 36);
    lemma_fits_roundtrip(data_attrs(member_data(e)), ATTR_DATA_MAX, 36);
}

/// The members of a listing take at most 40 octets each.
pub proof fn lemma_members_fits(members: Seq<IpEntry>)
    ensures
        fits(members_attrs(members), ATTR_CMD_MAX, 40 * (members.len() as int)),
    decreases members.len(),
{
    let attrs = members_attrs(members);
    if members.len() == 0 {
        assert(attrs =~= Seq::empty());
    } else {
        let front = members.drop_last();
        let e = members.last();
        lemma_members_fits(front);
        lemma_member_attr(e);
        assert(attrs =~= with(members_attrs(front), Some(member_attr(e))));
        lemma_fits_with(
            members_attrs(front),
            Some(member_attr(e)),
            ATTR_CMD_MAX,
            40 * (front.len() as int),
            40,
        );
    }
}

/// Reading the members of a listing gives the members back.
pub proof fn lemma_members_roundtrip(members: Seq<IpEntry>)
    ensures
        members_of(members_attrs(members)) == Some(members),
    decreases members.len(),
{
    let attrs = members_attrs(members);
    if members.len() == 0 {
        assert(attrs =~= Seq::empty());
    } else {
        let front = members.drop_last();
        let e = members.last();
        lemma_members_roundtrip(front);
        lemma_member_attr(e);
        assert(attrs.drop_last() =~= members_attrs(front));
        assert(attrs.last() == member_attr(e));
        assert(front.push(e) =~= members);
    }
}

/// The attributes of an ipset message that can be put on the wire fit a
/// message.
pub proof fn lemma_ipset_fits(b: IpsetBody<Seq<u8>, Seq<IpEntry>>)
    requires
        b.wf(),
    ensures
        fits(ipset_attrs(b), ATTR_CMD_MAX, 42000),
{
    let a1 = raw(ATTR_PROTOCOL, seq![b.protocol]);
    let a2 = raw(ATTR_SETNAME, cstr(b.name));
    let e = Seq::<AttributeView>::empty();
    let s0 = seq![a1, a2];
    let s1 = with(s0, opt_name(ATTR_TYPENAME, b.second));
    let s2 = with(s1, opt_u8(ATTR_REVISION, b.revision));
    let s3 = with(s2, opt_u8(ATTR_FAMILY, b.set_family));
    let s4 = with(s3, opt_data(b.data));
    assert(s0 =~= e.push(a1).push(a2));
    lemma_fits_empty(ATTR_CMD_MAX);
    lemma_fits_with(e, Some(a1), ATTR_CMD_MAX, 0, 8);
    lemma_fits_with(e.push(a1), Some(a2), ATTR_CMD_MAX, 8, 36);
    lemma_fits_with(s0, opt_name(ATTR_TYPENAME, b.second), ATTR_CMD_MAX, 44, 36);
    lemma_fits_with(s1, opt_u8(ATTR_REVISION, b.revision), ATTR_CMD_MAX, 80, 8);
    lemma_fits_with(s2, opt_u8(ATTR_FAMILY, b.set_family), ATTR_CMD_MAX, 88, 8);
    if b.data is Some {
        lemma_data_fits(b.data->0);
        lemma_nest_wf(ATTR_DATA, data_attrs(b.data->0), ATTR_DATA_MAX, 52);
    }
    lemma_fits_with(s3, opt_data(b.data), ATTR_CMD_MAX, 96, 56);
    if b.members.len() > 0 {
        lemma_members_fits(b.members);
        lemma_nest_wf(ATTR_ADT, members_attrs(b.members), ATTR_CMD_MAX, 40 * MAX_MEMBERS);
    }
    lemma_fits_with(s4, opt_members(b.members), ATTR_CMD_MAX, 152, 40 * MAX_MEMBERS + 4);
}

/// Where each attribute of an ipset message is found.
pub proof fn lemma_ipset_find(b: IpsetBody<Seq<u8>, Seq<IpEntry>>)
    ensures
        find(ipset_attrs(b), ATTR_PROTOCOL) == Some(raw(ATTR_PROTOCOL, seq![b.protocol])),
        find(ipset_attrs(b), ATTR_SETNAME) == Some(raw(ATTR_SETNAME, cstr(b.name))),
        find(ipset_attrs(b), ATTR_TYPENAME) == opt_name(ATTR_TYPENAME, b.second),
        find(ipset_attrs(b), ATTR_REVISION) == opt_u8(ATTR_REVISION, b.revision),
        find(ipset_attrs(b), ATTR_FAMILY) == opt_u8(ATTR_FAMILY, b.set_family),
        find(ipset_attrs(b), ATTR_DATA) == opt_data(b.data),
        find(ipset_attrs(b), ATTR_ADT) == opt_members(b.members),
{
    let a1 = raw(ATTR_PROTOCOL, seq![b.protocol]);
    let a2 = raw(ATTR_SETNAME, cstr(b.name));
    let e = Seq::<AttributeView>::empty();
    let s0 = seq![a1, a2];
    let s1 = with(s0, opt_name(ATTR_TYPENAME, b.second));
    let s2 = with(s1, opt_u8(ATTR_REVISION, b.revision));
    let s3 = with(s2, opt_u8(ATTR_FAMILY, b.set_family));
    let s4 = with(s3, opt_data(b.data));
    assert(s0 =~= with(with(e, Some(a1)), Some(a2)));
    lemma_find_with(e, Some(a1));
    lemma_find_with(with(e, Some(a1)), Some(a2));
    lemma_find_with(s0, opt_name(ATTR_TYPENAME, b.second));
    lemma_find_with(s1, opt_u8(ATTR_REVISION, b.revision));
    lemma_find_with(s2, opt_u8(ATTR_FAMILY, b.set_family));
    lemma_find_with(s3, opt_data(b.data));
    lemma_find_with(s4, opt_members(b.members));
}

/// Reading the attributes of an ipset message that can be put on the wire
/// gives the message back.
pub proof fn lemma_ipset_roundtrip(b: IpsetBody<Seq<u8>, Seq<IpEntry>>)
    requires
        b.wf(),
    ensures
        ipset_body_of(b.family, ipset_attrs(b)) == Some(b),
{
    let attrs = ipset_attrs(b);
    lemma_ipset_find(b);
    lemma_read_u8(attrs, ATTR_PROTOCOL, Some(b.protocol));
    lemma_read_name(attrs, ATTR_SETNAME, Some(b.name), IPSET_MAX_NAME as int);
    lemma_read_name(attrs, ATTR_TYPENAME, b.second, IPSET_MAX_NAME as int);
    lemma_read_u8(attrs, ATTR_REVISION, b.revision);
    lemma_read_u8(attrs, ATTR_FAMILY, b.set_family);
    lemma_read_data(attrs, b.data);
    lemma_read_members(attrs, b.members);
}

/// Builds the attributes of a data block.
pub fn build_data(d: &IpsetData) -> (attrs: Vec<Attribute>)
    ensures
        views(attrs@) == data_attrs(*d),
{
    let mut attrs: Vec<Attribute> = Vec::new();
    assert(views(attrs@) =~= Seq::<AttributeView>::empty());
    match d.addr {
        Some(a) => {
            let mut inner: Vec<Attribute> = Vec::new();
            let tag = match a {
                IpAddress::V4(_) => ATTR_IPADDR_IPV4,
                IpAddress::V6(_) => ATTR_IPADDR_IPV6,
            };
            let octets = Attribute {
                tag,
                nested: false,
                network_order: true,
                payload: addr_vec(a),
            };
            proof {
                lemma_views_push(inner@, octets);
                assert(views(inner@.push(octets)) =~= seq![number(ipaddr_tag(a), addr_octets(a))]);
                lemma_addr_roundtrip(a);
            }
            inner.push(octets);
            push_nested(&mut attrs, ATTR_IP, &inner);
        },
        None => {},
    }
    match d.timeout {
        Some(t) => push_number(&mut attrs, ATTR_TIMEOUT, t),
        None => {},
    }
    match d.hashsize {
        Some(h) => push_number(&mut attrs, ATTR_HASHSIZE, h),
        None => {},
    }
    match d.maxelem {
        Some(m) => push_number(&mut attrs, ATTR_MAXELEM, m),
        None => {},
    }
    attrs
}

/// Builds the attributes of the members of a listing.
pub fn build_members(members: &Vec<IpEntry>) -> (attrs: Vec<Attribute>)
    ensures
        views(attrs@) == members_attrs(members@),
{
    let mut attrs: Vec<Attribute> = Vec::new();
    let n = members.len();
    let mut i: usize = 0;
    assert(views(attrs@) =~= members_attrs(members@.subrange(0, 0)));
    while i < n
        invariant
            n == members@.len(),
            i <= n,
            views(attrs@) == members_attrs(members@.subrange(0, i as int)),
        decreases n - i,
    {
        let e = members[i];
        let d = IpsetData { addr: Some(e.addr), timeout: e.timeout, hashsize: None, maxelem: None };
        let children = build_data(&d);
        proof {
            lemma_data_fits(d);
        }
        push_nested(&mut attrs, ATTR_DATA, &children);
        i += 1;
        assert(views(attrs@) =~= members_attrs(members@.subrange(0, i as int)));
    }
    assert(members@.subrange(0, n as int) =~= members@);
    attrs
}

/// The octets of the attributes of an ipset message.
pub fn encode_ipset(b: &IpsetBody<Vec<u8>, Vec<IpEntry>>) -> (bytes: Vec<u8>)
    requires
        b@.wf(),
    ensures
        bytes@ == encode_all(ipset_attrs(b@)),
{
    let mut attrs: Vec<Attribute> = Vec::new();
    assert(views(attrs@) =~= Seq::<AttributeView>::empty());
    push_u8(&mut attrs, ATTR_PROTOCOL, b.protocol);
    push_name(&mut attrs, ATTR_SETNAME, b.name.as_slice());
    assert(views(attrs@) =~= seq![
        raw(ATTR_PROTOCOL, seq![b.protocol]),
        raw(ATTR_SETNAME, cstr(b@.name)),
    ]);
    match &b.second {
        Some(second) => push_name(&mut attrs, ATTR_TYPENAME, second.as_slice()),
        None => {},
    }
    match b.revision {
        Some(r) => push_u8(&mut attrs, ATTR_REVISION, r),
        None => {},
    }
    match b.set_family {
        Some(f) => push_u8(&mut attrs, ATTR_FAMILY, f),
        None => {},
    }
    match &b.data {
        Some(d) => {
            let children = build_data(d);
            proof {
                lemma_data_fits(*d);
            }
            push_nested(&mut attrs, ATTR_DATA, &children);
        },
        None => {},
    }
    if b.members.len() > 0 {
        let children = build_members(&b.members);
        proof {
            lemma_members_fits(b@.members);
        }
        push_nested(&mut attrs, ATTR_ADT, &children);
    }
    proof {
        lemma_ipset_fits(b@);
    }
    encode_list(&attrs)
}

/// Reads the address of a data block.
pub fn parse_ip(children: &Vec<Attribute>) -> (r: Result<Option<IpAddress>, Error>)
    ensures
        r is Ok ==> read_ip_spec(views(children@)) == Some(r->Ok_0),
        r is Err ==> read_ip_spec(views(children@)) is None && r->Err_0@ == ErrorView::Malformed,
{
    let ip = match read_nested(children, ATTR_IP, ATTR_IPADDR_IPV6) {
        Ok(Some(ip)) => ip,
        Ok(None) => {
            return Ok(None);
        },
        Err(e) => {
            return Err(e);
        },
    };
    let found = match lookup(&ip, ATTR_IPADDR_IPV4) {
        Some(a) => if a.payload.len() == 4 {
            parse_addr(a.payload.as_slice())
        } else {
            None
        },
        None => match lookup(&ip, ATTR_IPADDR_IPV6) {
            Some(a) => if a.payload.len() == 16 {
                parse_addr(a.payload.as_slice())
            } else {
                None
            },
            None => None,
        },
    };
    match found {
        Some(a) => Ok(Some(a)),
        None => Err(Error::Malformed),
    }
}

/// Reads a data block from its attributes.
pub fn parse_data(children: &Vec<Attribute>) -> (r: Result<IpsetData, Error>)
    ensures
        r is Ok ==> data_of(views(children@)) == Some(r->Ok_0),
        r is Err ==> data_of(views(children@)) is None && r->Err_0@ == ErrorView::Malformed,
{
    let addr = match parse_ip(children) {
        Ok(a) => a,
        Err(e) => {
            return Err(e);
        },
    };
    let timeout = match read_u32(children, ATTR_TIMEOUT) {
        Ok(t) => t,
        Err(e) => {
            return Err(e);
        },
    };
    let hashsize = match read_u32(children, ATTR_HASHSIZE) {
        Ok(h) => h,
        Err(e) => {
            return Err(e);
        },
    };
    let maxelem = match read_u32(children, ATTR_MAXELEM) {
        Ok(m) => m,
        Err(e) => {
            return Err(e);
        },
    };
    Ok(IpsetData { addr, timeout, hashsize, maxelem })
}

/// Reads one member from a nested data block.
pub fn parse_member(a: &Attribute) -> (r: Result<IpEntry, Error>)
    ensures
        r is Ok ==> member_of(a@) == Some(r->Ok_0),
        r is Err ==> member_of(a@) is None && r->Err_0@ == ErrorView::Malformed,
{
    let children = match decode(a.payload.as_slice(), ATTR_DATA_MAX) {
        Ok(c) => c,
        Err(e) => {
            return Err(e);
        },
    };
    let d = match parse_data(&children) {
        Ok(d) => d,
        Err(e) => {
            return Err(e);
        },
    };
    match d.addr {
        Some(addr) => Ok(IpEntry { addr, timeout: d.timeout }),
        None => Err(Error::Malformed),
    }
}

/// Reads the members of a listing from the attributes of an `ATTR_ADT`.
pub fn parse_members(children: &Vec<Attribute>) -> (r: Result<Vec<IpEntry>, Error>)
    ensures
        r is Ok ==> members_of(views(children@)) == Some(r->Ok_0@),
        r is Err ==> members_of(views(children@)) is None && r->Err_0@ == ErrorView::Malformed,
{
    let mut out: Vec<IpEntry> = Vec::new();
    let n = children.len();
    let mut i: usize = 0;
    assert(views(children@).subrange(0, 0) =~= Seq::<AttributeView>::empty());
    while i < n
        invariant
            n == children@.len(),
            i <= n,
            members_of(views(children@).subrange(0, i as int)) == Some(out@),
        decreases n - i,
    {
        let ghost all = views(children@);
        let ghost next = all.subrange(0, i as int + 1);
        proof {
            assert(next.drop_last() =~= all.subrange(0, i as int));
            assert(next.last() == children@[i as int]@);
        }
        if children[i].tag == ATTR_DATA {
            match parse_member(&children[i]) {
                Ok(e) => out.push(e),
                Err(e) => {
                    proof {
                        lemma_members_of_prefix(all, i as int + 1);
                    }
                    return Err(e);
                },
            }
        }
        i += 1;
    }
    assert(views(children@).subrange(0, n as int) =~= views(children@));
    Ok(out)
}

/// If a front part of a run holds a malformed data block, so does the run.
pub proof fn lemma_members_of_prefix(children: Seq<AttributeView>, k: int)
    requires
        0 <= k <= children.len(),
        members_of(children.subrange(0, k)) is None,
    ensures
        members_of(children) is None,
    decreases children.len() - k,
{
    if k < children.len() {
        let next = children.subrange(0, k + 1);
        assert(next.drop_last() =~= children.subrange(0, k));
        lemma_members_of_prefix(children, k + 1);
    } else {
        assert(children.subrange(0, k) =~= children);
    }
}

/// What [`decode_ipset`] makes of the octets behind the header of an ipset
/// message.
pub open spec fn ipset_decode_spec(family: u8, bytes: Seq<u8>) -> Option<
    IpsetBody<Seq<u8>, Seq<IpEntry>>,
> {
    match decode_spec(bytes, ATTR_CMD_MAX) {
        None => None,
        Some(attrs) => ipset_body_of(family, attrs),
    }
}

/// Reads an ipset message from the octets of its attributes.
///
/// Fails with [`Error::Malformed`] if the attributes are malformed, if the
/// protocol version or the set name is missing, or if an attribute that the
/// library reads does not hold what it should.
pub fn decode_ipset(family: u8, bytes: &[u8]) -> (r: Result<
    IpsetBody<Vec<u8>, Vec<IpEntry>>,
    Error,
>)
    ensures
        r is Ok ==> ipset_decode_spec(family, bytes@) == Some(r->Ok_0@),
        r is Err ==> ipset_decode_spec(family, bytes@) is None && r->Err_0@
            == ErrorView::Malformed,
{
    let attrs = match decode(bytes, ATTR_CMD_MAX) {
        Ok(a) => a,
        Err(e) => {
            return Err(e);
        },
    };
    let protocol = match read_u8(&attrs, ATTR_PROTOCOL) {
        Ok(Some(p)) => p,
        _ => {
            return Err(Error::Malformed);
        },
    };
    let name = match read_name(&attrs, ATTR_SETNAME) {
        Ok(Some(n)) => n,
        _ => {
            return Err(Error::Malformed);
        },
    };
    let second = match read_name(&attrs, ATTR_TYPENAME) {
        Ok(s) => s,
        Err(e) => {
            return Err(e);
        },
    };
    let revision = match read_u8(&attrs, ATTR_REVISION) {
        Ok(r) => r,
        Err(e) => {
            return Err(e);
        },
    };
    let set_family = match read_u8(&attrs, ATTR_FAMILY) {
        Ok(f) => f,
        Err(e) => {
            return Err(e);
        },
    };
    let data = match read_nested(&attrs, ATTR_DATA, ATTR_DATA_MAX) {
        Ok(Some(children)) => match parse_data(&children) {
            Ok(d) => Some(d),
            Err(e) => {
                return Err(e);
            },
        },
        Ok(None) => None,
        Err(e) => {
            return Err(e);
        },
    };
    let members = match read_nested(&attrs, ATTR_ADT, ATTR_CMD_MAX) {
        Ok(Some(children)) => match parse_members(&children) {
            Ok(m) => m,
            Err(e) => {
                return Err(e);
            },
        },
        Ok(None) => Vec::new(),
        Err(e) => {
            return Err(e);
        },
    };
    Ok(IpsetBody { family, protocol, name, second, revision, set_family, data, members })
}

/// Octets that were encoded from an ipset message decode to that message.
pub proof fn lemma_ipset_decode_encode(b: IpsetBody<Seq<u8>, Seq<IpEntry>>)
    requires
        b.wf(),
    ensures
        encode_all(ipset_attrs(b)).len() <= 42000,
        ipset_decode_spec(b.family, encode_all(ipset_attrs(b))) == Some(b),
{
    lemma_ipset_fits(b);
    lemma_fits_roundtrip(ipset_attrs(b), ATTR_CMD_MAX, 42000);
    lemma_ipset_roundtrip(b);
}

} // verus!
