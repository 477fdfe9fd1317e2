//! The values that attributes carry: names, small numbers and addresses,
//! and how they are written to and read from a run of attributes.

use vstd::prelude::*;
use crate::attr::{
    all_wf,
    decode,
    decode_spec,
    encode_list,
    find,
    lemma_views_push,
    lookup,
    nest,
    number,
    raw,
    views,
    Attribute,
    AttributeView,
    MAX_TAG,
};
use crate::bytes::{
    be128,
    be128_vec,
    be32,
    be32_of,
    be32_vec,
    be_number,
    get_be128,
    get_be32,
    lemma_be_number_bound,
    lemma_be_number_of_octets,
    lemma_be_octets_len,
    lemma_be32,
    lemma_pow256_16,
    put_all,
};
use crate::entry::IpAddress;
use crate::error::{Error, ErrorView};

verus! {

/// A name as it stands in an attribute: its octets and a zero octet.
pub open spec fn cstr(name: Seq<u8>) -> Seq<u8> {
    name.push(0u8)
}

/// Whether `name` can be put on the wire as a name of at most `max` octets:
/// it is not empty, not longer than `max`, and holds no zero octet.
pub open spec fn valid_name(name: Seq<u8>, max: int) -> bool {
    &&& 1 <= name.len() <= max
    &&& forall|i: int| 0 <= i < name.len() ==> name[i] != 0
}

/// The name that a payload holds: the octets in front of its one zero
/// octet, which is the last. `None` if the payload is not of that form or
/// the name is empty.
pub open spec fn name_of(payload: Seq<u8>) -> Option<Seq<u8>> {
    if payload.len() >= 2 && payload.last() == 0 && (forall|i: int|
        0 <= i < payload.len() - 1 ==> payload[i] != 0) {
        Some(payload.drop_last())
    } else {
        None
    }
}

/// The octet that a payload of one octet holds.
pub open spec fn u8_of(payload: Seq<u8>) -> Option<u8> {
    if payload.len() == 1 {
        Some(payload[0])
    } else {
        None
    }
}

/// The number that a payload of four octets holds, in network byte order.
pub open spec fn u32_of(payload: Seq<u8>) -> Option<u32> {
    if payload.len() == 4 {
        Some(be32_of(payload))
    } else {
        None
    }
}

/// The octets of an address in network byte order: four or sixteen.
pub open spec fn addr_octets(a: IpAddress) -> Seq<u8> {
    match a {
        IpAddress::V4(x) => be32(x),
        IpAddress::V6(x) => be128(x),
    }
}

/// The address that a payload holds: IPv4 if it has four octets, IPv6 if
/// it has sixteen, none otherwise.
pub open spec fn addr_of(payload: Seq<u8>) -> Option<IpAddress> {
    if payload.len() == 4 {
        Some(IpAddress::V4(be32_of(payload)))
    } else if payload.len() == 16 {
        Some(IpAddress::V6(be_number(payload) as u128))
    } else {
        None
    }
}

/// What reading the attribute `tag` as one octet gives: `Some(None)` if the
/// run holds no such attribute, `Some(Some(v))` if its payload is the octet
/// `v`, `None` if its payload is anything else.
pub open spec fn read_u8_spec(attrs: Seq<AttributeView>, tag: u16) -> Option<Option<u8>> {
    match find(attrs, tag) {
        None => Some(None),
        Some(a) => match u8_of(a.payload) {
            Some(v) => Some(Some(v)),
            None => None,
        },
    }
}

/// What reading the attribute `tag` as a number of four octets gives, in
/// the three cases of [`read_u8_spec`].
pub open spec fn read_u32_spec(attrs: Seq<AttributeView>, tag: u16) -> Option<Option<u32>> {
    match find(attrs, tag) {
        None => Some(None),
        Some(a) => match u32_of(a.payload) {
            Some(v) => Some(Some(v)),
            None => None,
        },
    }
}

/// What reading the attribute `tag` as a name gives, in the three cases of
/// [`read_u8_spec`].
pub open spec fn read_name_spec(attrs: Seq<AttributeView>, tag: u16) -> Option<Option<Seq<u8>>> {
    match find(attrs, tag) {
        None => Some(None),
        Some(a) => match name_of(a.payload) {
            Some(v) => Some(Some(v)),
            None => None,
        },
    }
}

/// What reading the attribute `tag` as a run of attributes gives, in the
/// three cases of [`read_u8_spec`]; the reader knows the tags `1..=max_tag`.
pub open spec fn read_nested_spec(attrs: Seq<AttributeView>, tag: u16, max_tag: u16) -> Option<
    Option<Seq<AttributeView>>,
> {
    match find(attrs, tag) {
        None => Some(None),
        Some(a) => match decode_spec(a.payload, max_tag) {
            Some(v) => Some(Some(v)),
            None => None,
        },
    }
}

/// An optional name as an optional attribute.
pub open spec fn opt_name(tag: u16, name: Option<Seq<u8>>) -> Option<AttributeView> {
    match name {
        Some(n) => Some(raw(tag, cstr(n))),
        None => None,
    }
}

/// An optional octet as an optional attribute.
pub open spec fn opt_u8(tag: u16, v: Option<u8>) -> Option<AttributeView> {
    match v {
        Some(x) => Some(raw(tag, seq![x])),
        None => None,
    }
}

/// An optional number as an optional attribute flagged as being in network
/// byte order.
pub open spec fn opt_number(tag: u16, v: Option<u32>) -> Option<AttributeView> {
    match v {
        Some(x) => Some(number(tag, be32(x))),
        None => None,
    }
}

/// An optional number as an optional plain attribute.
pub open spec fn opt_value(tag: u16, v: Option<u32>) -> Option<AttributeView> {
    match v {
        Some(x) => Some(raw(tag, be32(x))),
        None => None,
    }
}

/// A name that was written is read back.
pub proof fn lemma_name_roundtrip(name: Seq<u8>, max: int)
    requires
        valid_name(name, max),
    ensures
        name_of(cstr(name)) == Some(name),
{
    assert(cstr(name).drop_last() =~= name);
}

/// A number that was written in four octets is read back.
pub proof fn lemma_u32_roundtrip(x: u32)
    ensures
        be32(x).len() == 4,
        u32_of(be32(x)) == Some(x),
{
    lemma_be32(x);
}

/// An address that was written is read back.
pub proof fn lemma_addr_roundtrip(a: IpAddress)
    ensures
        addr_octets(a).len() == a.width(),
        addr_of(addr_octets(a)) == Some(a),
{
    match a {
        IpAddress::V4(x) => {
            lemma_be32(x);
        },
        IpAddress::V6(x) => {
            lemma_be_octets_len(x as nat, 16);
            lemma_pow256_16();
            lemma_be_number_of_octets(x as nat, 16);
        },
    }
}

/// The octets of an address in network byte order.
pub fn addr_vec(a: IpAddress) -> (v: Vec<u8>)
    ensures
        v@ == addr_octets(a),
{
    match a {
        IpAddress::V4(x) => be32_vec(x),
        IpAddress::V6(x) => be128_vec(x),
    }
}

/// Reads an address from a payload of four or sixteen octets.
pub fn parse_addr(payload: &[u8]) -> (r: Option<IpAddress>)
    ensures
        r == addr_of(payload@),
{
    if payload.len() == 4 {
        Some(IpAddress::V4(get_be32(payload)))
    } else if payload.len() == 16 {
        proof {
            lemma_be_number_bound(payload@);
            lemma_pow256_16();
        }
        Some(IpAddress::V6(get_be128(payload)))
    } else {
        None
    }
}

/// Reads a name from a payload.
pub fn parse_name(payload: &[u8]) -> (r: Option<Vec<u8>>)
    ensures
        match r {
            Some(name) => name_of(payload@) == Some(name@),
            None => name_of(payload@) is None,
        },
{
    let n = payload.len();
    if n < 2 || payload[n - 1] != 0 {
        return None;
    }
    let mut name: Vec<u8> = Vec::new();
    let mut i: usize = 0;
    while i < n - 1
        invariant
            n == payload@.len(),
            n >= 2,
            i <= n - 1,
            name@ == payload@.subrange(0, i as int),
            forall|j: int| 0 <= j < i ==> payload@[j] != 0,
        decreases n - i,
    {
        if payload[i] == 0 {
            return None;
        }
        name.push(payload[i]);
        i += 1;
        assert(name@ =~= payload@.subrange(0, i as int));
    }
    assert(payload@.subrange(0, n - 1) =~= payload@.drop_last());
    Some(name)
}

/// Whether a name can be put on the wire as a name of at most `max` octets.
pub fn check_name(name: &[u8], max: usize) -> (ok: bool)
    ensures
        ok == valid_name(name@, max as int),
{
    let n = name.len();
    if n < 1 || n > max {
        return false;
    }
    let mut i: usize = 0;
    while i < n
        invariant
            n == name@.len(),
            i <= n,
            forall|j: int| 0 <= j < i ==> name@[j] != 0,
        decreases n - i,
    {
        if name[i] == 0 {
            return false;
        }
        i += 1;
    }
    true
}

/// Adds a plain attribute.
pub fn push_raw(attrs: &mut Vec<Attribute>, tag: u16, payload: Vec<u8>)
    ensures
        views(final(attrs)@) == views(old(attrs)@).push(raw(tag, payload@)),
{
    let a = Attribute { tag, nested: false, network_order: false, payload };
    proof {
        lemma_views_push(attrs@, a);
    }
    attrs.push(a);
}

/// Adds a name.
pub fn push_name(attrs: &mut Vec<Attribute>, tag: u16, name: &[u8])
    ensures
        views(final(attrs)@) == views(old(attrs)@).push(raw(tag, cstr(name@))),
{
    let mut payload: Vec<u8> = Vec::new();
    put_all(&mut payload, name);
    payload.push(0);
    assert(payload@ =~= cstr(name@));
    push_raw(attrs, tag, payload);
}

/// Adds one octet.
pub fn push_u8(attrs: &mut Vec<Attribute>, tag: u16, v: u8)
    ensures
        views(final(attrs)@) == views(old(attrs)@).push(raw(tag, seq![v])),
{
    let mut payload: Vec<u8> = Vec::new();
    payload.push(v);
    assert(payload@ =~= seq![v]);
    push_raw(attrs, tag, payload);
}

/// Adds a number of four octets, flagged as being in network byte order.
pub fn push_number(attrs: &mut Vec<Attribute>, tag: u16, v: u32)
    ensures
        views(final(attrs)@) == views(old(attrs)@).push(number(tag, be32(v))),
{
    let a = Attribute { tag, nested: false, network_order: true, payload: be32_vec(v) };
    proof {
        lemma_views_push(attrs@, a);
    }
    attrs.push(a);
}

/// Adds a number of four octets in network byte order, without the flag.
pub fn push_value(attrs: &mut Vec<Attribute>, tag: u16, v: u32)
    ensures
        views(final(attrs)@) == views(old(attrs)@).push(raw(tag, be32(v))),
{
    push_raw(attrs, tag, be32_vec(v));
}

/// Adds an attribute that holds the attributes `children`.
pub fn push_nested(attrs: &mut Vec<Attribute>, tag: u16, children: &Vec<Attribute>)
    requires
        all_wf(views(children@)),
    ensures
        views(final(attrs)@) == views(old(attrs)@).push(nest(tag, views(children@))),
{
    let a = Attribute {
        tag,
        nested: true,
        network_order: false,
        payload: encode_list(children),
    };
    proof {
        lemma_views_push(attrs@, a);
    }
    attrs.push(a);
}

/// Reads the attribute `tag` as one octet.
pub fn read_u8(attrs: &Vec<Attribute>, tag: u16) -> (r: Result<Option<u8>, Error>)
    ensures
        r is Ok ==> read_u8_spec(views(attrs@), tag) == Some(r->Ok_0),
        r is Err ==> read_u8_spec(views(attrs@), tag) is None && r->Err_0@
            == ErrorView::Malformed,
{
    match lookup(attrs, tag) {
        None => Ok(None),
        Some(a) => if a.payload.len() == 1 {
            Ok(Some(a.payload[0]))
        } else {
            Err(Error::Malformed)
        },
    }
}

/// Reads the attribute `tag` as a number of four octets.
pub fn read_u32(attrs: &Vec<Attribute>, tag: u16) -> (r: Result<Option<u32>, Error>)
    ensures
        r is Ok ==> read_u32_spec(views(attrs@), tag) == Some(r->Ok_0),
        r is Err ==> read_u32_spec(views(attrs@), tag) is None && r->Err_0@
            == ErrorView::Malformed,
{
    match lookup(attrs, tag) {
        None => Ok(None),
        Some(a) => if a.payload.len() == 4 {
            Ok(Some(get_be32(a.payload.as_slice())))
        } else {
            Err(Error::Malformed)
        },
    }
}

/// An optional vector as an optional sequence.
pub open spec fn opt_bytes(v: Option<Vec<u8>>) -> Option<Seq<u8>> {
    match v {
        Some(b) => Some(b@),
        None => None,
    }
}

/// Reads the attribute `tag` as a name.
pub fn read_name(attrs: &Vec<Attribute>, tag: u16) -> (r: Result<Option<Vec<u8>>, Error>)
    ensures
        r is Ok ==> read_name_spec(views(attrs@), tag) == Some(
            opt_bytes(r->Ok_0),
        ),
        r is Err ==> read_name_spec(views(attrs@), tag) is None && r->Err_0@
            == ErrorView::Malformed,
{
    match lookup(attrs, tag) {
        None => Ok(None),
        Some(a) => match parse_name(a.payload.as_slice()) {
            Some(name) => Ok(Some(name)),
            None => Err(Error::Malformed),
        },
    }
}

/// An optional vector of attributes as an optional sequence of views.
pub open spec fn opt_views(v: Option<Vec<Attribute>>) -> Option<Seq<AttributeView>> {
    match v {
        Some(a) => Some(views(a@)),
        None => None,
    }
}

/// Reads the attribute `tag` as a run of attributes with tags in
/// `1..=max_tag`.
pub fn read_nested(attrs: &Vec<Attribute>, tag: u16, max_tag: u16) -> (r: Result<
    Option<Vec<Attribute>>,
    Error,
>)
    ensures
        r is Ok ==> read_nested_spec(views(attrs@), tag, max_tag) == Some(opt_views(r->Ok_0)),
        r is Err ==> read_nested_spec(views(attrs@), tag, max_tag) is None && r->Err_0@
            == ErrorView::Malformed,
{
    match lookup(attrs, tag) {
        None => Ok(None),
        Some(a) => match decode(a.payload.as_slice(), max_tag) {
            Ok(children) => Ok(Some(children)),
            Err(_) => Err(Error::Malformed),
        },
    }
}

/// Reading a number where a plain number attribute is found, or none is,
/// gives the number back.
pub proof fn lemma_read_value(attrs: Seq<AttributeView>, tag: u16, v: Option<u32>)
    requires
        find(attrs, tag) == opt_value(tag, v),
    ensures
        read_u32_spec(attrs, tag) == Some(v),
{
    if v is Some {
        lemma_u32_roundtrip(v->0);
    }
}

/// Reading a number where a flagged number attribute is found, or none is,
/// gives the number back.
pub proof fn lemma_read_number(attrs: Seq<AttributeView>, tag: u16, v: Option<u32>)
    requires
        find(attrs, tag) == opt_number(tag, v),
    ensures
        read_u32_spec(attrs, tag) == Some(v),
{
    if v is Some {
        lemma_u32_roundtrip(v->0);
    }
}

/// Reading a name where a name attribute is found, or none is, gives the
/// name back.
pub proof fn lemma_read_name(attrs: Seq<AttributeView>, tag: u16, name: Option<Seq<u8>>, max: int)
    requires
        find(attrs, tag) == opt_name(tag, name),
        name is Some ==> valid_name(name->0, max),
    ensures
        read_name_spec(attrs, tag) == Some(name),
{
    if name is Some {
        lemma_name_roundtrip(name->0, max);
    }
}

/// Reading an octet where an octet attribute is found, or none is, gives
/// the octet back.
pub proof fn lemma_read_u8(attrs: Seq<AttributeView>, tag: u16, v: Option<u8>)
    requires
        find(attrs, tag) == opt_u8(tag, v),
    ensures
        read_u8_spec(attrs, tag) == Some(v),
{
}

/// An optional number attribute, where there is one, is encodable and takes
/// eight octets.
pub proof fn lemma_opt_number(tag: u16, v: Option<u32>)
    requires
        1 <= tag <= MAX_TAG,
    ensures
        opt_number(tag, v) is Some ==> opt_number(tag, v)->0.wf() && opt_number(tag, v)->0.tag
            == tag && opt_number(tag, v)->0.size() == 8,
        opt_value(tag, v) is Some ==> opt_value(tag, v)->0.wf() && opt_value(tag, v)->0.tag == tag
            && opt_value(tag, v)->0.size() == 8,
        opt_number(tag, v) is Some <==> v is Some,
        opt_value(tag, v) is Some <==> v is Some,
{
    if v is Some {
        lemma_be32(v->0);
    }
}

} // verus!
