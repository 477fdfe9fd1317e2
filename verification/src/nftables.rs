//! The nftables protocol: how its messages are laid out in attributes.
//!
//! A table message holds the name of the table. A set message holds the
//! table, the name of the set and, when the set is created, the width and
//! type of its keys, its flags and its default timeout. An element message
//! holds the table, the set and a list of elements; each element holds its
//! key, the octets of an address, and, where it has one, its timeout.

use vstd::prelude::*;
use crate::attr::{
    decode,
    decode_spec,
    encode_all,
    encode_list,
    find,
    fits,
    lemma_find_with,
    lemma_fits_empty,
    lemma_fits_roundtrip,
    lemma_fits_with,
    lemma_nest_wf,
    lookup,
    nest,
    raw,
    views,
    with,
    Attribute,
    AttributeView,
};
use crate::bytes::be32;
use crate::entry::{IpAddress, IpEntry};
use crate::error::{Error, ErrorView};
use crate::fields::{
    addr_octets,
    addr_of,
    addr_vec,
    cstr,
    lemma_addr_roundtrip,
    lemma_name_roundtrip,
    lemma_opt_number,
    lemma_read_name,
    lemma_read_value,
    opt_name,
    opt_value,
    parse_addr,
    push_name,
    push_nested,
    push_raw,
    push_value,
    read_name,
    read_name_spec,
    read_nested,
    read_nested_spec,
    read_u32,
    read_u32_spec,
    valid_name,
};
use crate::message::{name_view, valid_opt_name, Body, SetShape, MAX_MEMBERS, NFT_MAX_NAME};

verus! {

/// Attribute of a table message: the name of the table.
pub const NFTA_TABLE_NAME: u16 = 1;

/// The largest tag of a table message that the protocol defines.
pub const NFTA_TABLE_MAX: u16 = 7;

/// Attribute of a set message: the table of the set.
pub const NFTA_SET_TABLE: u16 = 1;

/// Attribute of a set message: the name of the set.
pub const NFTA_SET_NAME: u16 = 2;

/// Attribute of a set message: the flags of the set.
pub const NFTA_SET_FLAGS: u16 = 3;

/// Attribute of a set message: the data type of the keys.
pub const NFTA_SET_KEY_TYPE: u16 = 4;

/// Attribute of a set message: the width of a key in octets.
pub const NFTA_SET_KEY_LEN: u16 = 5;

/// Attribute of a set message: the default timeout of a member in seconds.
pub const NFTA_SET_TIMEOUT: u16 = 11;

/// The largest tag of a set message that the protocol defines.
pub const NFTA_SET_MAX: u16 = 19;

/// Attribute of an element message: the table of the set.
pub const NFTA_SET_ELEM_LIST_TABLE: u16 = 1;

/// Attribute of an element message: the name of the set.
pub const NFTA_SET_ELEM_LIST_SET: u16 = 2;

/// Attribute of an element message: the list of elements.
pub const NFTA_SET_ELEM_LIST_ELEMENTS: u16 = 3;

/// The largest tag of an element message that the protocol defines.
pub const NFTA_SET_ELEM_LIST_MAX: u16 = 4;

/// Attribute of a list: one element.
pub const NFTA_LIST_ELEM: u16 = 1;

/// Attribute of an element: its key.
pub const NFTA_SET_ELEM_KEY: u16 = 1;

/// Attribute of an element: its timeout in seconds.
pub const NFTA_SET_ELEM_TIMEOUT: u16 = 4;

/// The largest tag of an element that the protocol defines.
pub const NFTA_SET_ELEM_MAX: u16 = 11;

/// Attribute of a key: its octets.
pub const NFTA_DATA_VALUE: u16 = 1;

/// The largest tag of a key that the protocol defines.
pub const NFTA_DATA_MAX: u16 = 2;

/// Set flag: the members of the set can expire.
pub const NFT_SET_TIMEOUT: u32 = 0x10;

/// Key type: an IPv4 address.
pub const NFT_TYPE_IPADDR: u32 = 7;

/// Key type: an IPv6 address.
pub const NFT_TYPE_IP6ADDR: u32 = 8;

/// The attributes of a table message: the name, if there is one.
pub open spec fn table_attrs(name: Option<Seq<u8>>) -> Seq<AttributeView> {
    with(Seq::empty(), opt_name(NFTA_TABLE_NAME, name))
}

/// The flags of a set as an optional attribute.
pub open spec fn opt_flags(shape: Option<SetShape>) -> Option<AttributeView> {
    match shape {
        Some(s) => Some(raw(NFTA_SET_FLAGS, be32(s.flags))),
        None => None,
    }
}

/// The key type of a set as an optional attribute.
pub open spec fn opt_key_type(shape: Option<SetShape>) -> Option<AttributeView> {
    match shape {
        Some(s) => Some(raw(NFTA_SET_KEY_TYPE, be32(s.key_type))),
        None => None,
    }
}

/// The key width of a set as an optional attribute.
pub open spec fn opt_key_len(shape: Option<SetShape>) -> Option<AttributeView> {
    match shape {
        Some(s) => Some(raw(NFTA_SET_KEY_LEN, be32(s.key_len))),
        None => None,
    }
}

/// The default timeout of a set as an optional attribute.
pub open spec fn opt_set_timeout(shape: Option<SetShape>) -> Option<AttributeView> {
    match shape {
        Some(s) => opt_value(NFTA_SET_TIMEOUT, s.timeout),
        None => None,
    }
}

/// The attributes of a set message, in the order they are written: table
/// and name, then flags, key type, key width and timeout if the message
/// says what the set is made of.
pub open spec fn set_attrs(table: Seq<u8>, name: Seq<u8>, shape: Option<SetShape>) -> Seq<
    AttributeView,
> {
    with(
        with(
            with(
                with(
                    seq![raw(NFTA_SET_TABLE, cstr(table)), raw(NFTA_SET_NAME, cstr(name))],
                    opt_flags(shape),
                ),
                opt_key_type(shape),
            ),
            opt_key_len(shape),
        ),
        opt_set_timeout(shape),
    )
}

/// The key of an element: the octets of the address, nested in
/// `NFTA_SET_ELEM_KEY`.
pub open spec fn key_attr(a: IpAddress) -> AttributeView {
    nest(NFTA_SET_ELEM_KEY, seq![raw(NFTA_DATA_VALUE, addr_octets(a))])
}

/// The attributes of an element: its key and, if it has one, its timeout.
pub open spec fn elem_attrs(e: IpEntry) -> Seq<AttributeView> {
    with(seq![key_attr(e.addr)], opt_value(NFTA_SET_ELEM_TIMEOUT, e.timeout))
}

/// One element of a list.
pub open spec fn elem_attr(e: IpEntry) -> AttributeView {
    nest(NFTA_LIST_ELEM, elem_attrs(e))
}

/// The elements of a list.
pub open spec fn elems_attrs(elements: Seq<IpEntry>) -> Seq<AttributeView> {
    Seq::new(elements.len(), |i: int| elem_attr(elements[i]))
}

/// The list of elements as an optional attribute: none if there are no
/// elements.
pub open spec fn opt_elems(elements: Seq<IpEntry>) -> Option<AttributeView> {
    if elements.len() > 0 {
        Some(nest(NFTA_SET_ELEM_LIST_ELEMENTS, elems_attrs(elements)))
    } else {
        None
    }
}

/// The attributes of an element message: table, set and the list of
/// elements.
pub open spec fn elements_attrs(table: Seq<u8>, set: Seq<u8>, elements: Seq<IpEntry>) -> Seq<
    AttributeView,
> {
    with(
        seq![
            raw(NFTA_SET_ELEM_LIST_TABLE, cstr(table)),
            raw(NFTA_SET_ELEM_LIST_SET, cstr(set)),
        ],
        opt_elems(elements),
    )
}

/// The table message that a run of attributes stands for. `None` if the
/// name is malformed.
pub open spec fn table_of(family: u8, attrs: Seq<AttributeView>) -> Option<
    Body<Seq<u8>, Seq<IpEntry>>,
> {
    match read_name_spec(attrs, NFTA_TABLE_NAME) {
        Some(name) => Some(Body::NftTable { family, name }),
        None => None,
    }
}

/// What a set is made of, as a set message says it: nothing if the message
/// gives no key width; flags and key type that are not given are 0. `None`
/// if one of the four attributes is malformed.
pub open spec fn shape_of(attrs: Seq<AttributeView>) -> Option<Option<SetShape>> {
    match (
        read_u32_spec(attrs, NFTA_SET_FLAGS),
        read_u32_spec(attrs, NFTA_SET_KEY_TYPE),
        read_u32_spec(attrs, NFTA_SET_KEY_LEN),
        read_u32_spec(attrs, NFTA_SET_TIMEOUT),
    ) {
        (Some(flags), Some(key_type), Some(key_len), Some(timeout)) => match key_len {
            Some(key_len) => Some(
                Some(
                    SetShape {
                        flags: match flags {
                            Some(f) => f,
                            None => 0,
                        },
                        key_type: match key_type {
                            Some(k) => k,
                            None => 0,
                        },
                        key_len,
                        timeout,
                    },
                ),
            ),
            None => Some(None),
        },
        _ => None,
    }
}

/// The set message that a run of attributes stands for. `None` if the
/// table or the name is missing, or an attribute is malformed.
pub open spec fn set_of(family: u8, attrs: Seq<AttributeView>) -> Option<
    Body<Seq<u8>, Seq<IpEntry>>,
> {
    match (
        read_name_spec(attrs, NFTA_SET_TABLE),
        read_name_spec(attrs, NFTA_SET_NAME),
        shape_of(attrs),
    ) {
        (Some(Some(table)), Some(Some(name)), Some(shape)) => Some(
            Body::NftSet { family, table, name, shape },
        ),
        _ => None,
    }
}

/// The address that the attributes of an element hold as its key.
pub open spec fn key_of(children: Seq<AttributeView>) -> Option<IpAddress> {
    match read_nested_spec(children, NFTA_SET_ELEM_KEY, NFTA_DATA_MAX) {
        Some(Some(key)) => match find(key, NFTA_DATA_VALUE) {
            Some(value) => addr_of(value.payload),
            None => None,
        },
        _ => None,
    }
}

/// The element that a nested attribute of a list stands for. `None` if it
/// is malformed, has no key, or its key is no address.
pub open spec fn elem_of(a: AttributeView) -> Option<IpEntry> {
    match decode_spec(a.payload, NFTA_SET_ELEM_MAX) {
        None => None,
        Some(children) => match (
            key_of(children),
            read_u32_spec(children, NFTA_SET_ELEM_TIMEOUT),
        ) {
            (Some(addr), Some(timeout)) => Some(IpEntry { addr, timeout }),
            _ => None,
        },
    }
}

/// The elements that the attributes of a list stand for, in order.
/// Attributes that are no elements are skipped. `None` if an element is
/// malformed.
pub open spec fn elems_of(children: Seq<AttributeView>) -> Option<Seq<IpEntry>>
    decreases children.len(),
{
    if children.len() == 0 {
        Some(Seq::empty())
    } else {
        match elems_of(children.drop_last()) {
            None => None,
            Some(front) => if children.last().tag != NFTA_LIST_ELEM {
                Some(front)
            } else {
                match elem_of(children.last()) {
                    Some(e) => Some(front.push(e)),
                    None => None,
                }
            },
        }
    }
}

/// The elements of an element message: none if it has no list.
pub open spec fn read_elems_spec(attrs: Seq<AttributeView>) -> Option<Seq<IpEntry>> {
    match read_nested_spec(attrs, NFTA_SET_ELEM_LIST_ELEMENTS, NFTA_LIST_ELEM) {
        None => None,
        Some(None) => Some(Seq::empty()),
        Some(Some(children)) => elems_of(children),
    }
}

/// The element message that a run of attributes stands for. `None` if the
/// table or the set is missing, or an attribute is malformed.
pub open spec fn elements_of(family: u8, attrs: Seq<AttributeView>) -> Option<
    Body<Seq<u8>, Seq<IpEntry>>,
> {
    match (
        read_name_spec(attrs, NFTA_SET_ELEM_LIST_TABLE),
        read_name_spec(attrs, NFTA_SET_ELEM_LIST_SET),
        read_elems_spec(attrs),
    ) {
        (Some(Some(table)), Some(Some(set)), Some(elements)) => Some(
            Body::NftElements { family, table, set, elements },
        ),
        _ => None,
    }
}

/// The attributes of a table message fit a message, and reading them gives
/// the name back.
pub proof fn lemma_table_attrs(family: u8, name: Option<Seq<u8>>)
    requires
        valid_opt_name(name, NFT_MAX_NAME as int),
    ensures
        fits(table_attrs(name), NFTA_TABLE_MAX, 260),
        table_of(family, table_attrs(name)) == Some(
            Body::<Seq<u8>, Seq<IpEntry>>::NftTable { family, name },
        ),
{
    let e = Seq::<AttributeView>::empty();
    lemma_fits_empty(NFTA_TABLE_MAX);
    lemma_fits_with(e, opt_name(NFTA_TABLE_NAME, name), NFTA_TABLE_MAX, 0, 260);
    lemma_find_with(e, opt_name(NFTA_TABLE_NAME, name));
    if name is Some {
        lemma_name_roundtrip(name->0, NFT_MAX_NAME as int);
    }
}

/// The attributes of a set message fit a message.
pub proof fn lemma_set_fits(table: Seq<u8>, name: Seq<u8>, shape: Option<SetShape>)
    requires
        valid_name(table, NFT_MAX_NAME as int),
        valid_name(name, NFT_MAX_NAME as int),
    ensures
        fits(set_attrs(table, name, shape), NFTA_SET_MAX, 552),
{
    let a1 = raw(NFTA_SET_TABLE, cstr(table));
    let a2 = raw(NFTA_SET_NAME, cstr(name));
    let e = Seq::<AttributeView>::empty();
    let s0 = seq![a1, a2];
    let s1 = with(s0, opt_flags(shape));
    let s2 = with(s1, opt_key_type(shape));
    let s3 = with(s2, opt_key_len(shape));
    assert(s0 =~= e.push(a1).push(a2));
    lemma_fits_empty(NFTA_SET_MAX);
    lemma_fits_with(e, Some(a1), NFTA_SET_MAX, 0, 260);
    lemma_fits_with(e.push(a1), Some(a2), NFTA_SET_MAX, 260, 260);
    if shape is Some {
        lemma_opt_number(NFTA_SET_FLAGS, Some(shape->0.flags));
        lemma_opt_number(NFTA_SET_KEY_TYPE, Some(shape->0.key_type));
        lemma_opt_number(NFTA_SET_KEY_LEN, Some(shape->0.key_len));
        lemma_opt_number(NFTA_SET_TIMEOUT, shape->0.timeout);
    }
    lemma_fits_with(s0, opt_flags(shape), NFTA_SET_MAX, 520, 8);
    lemma_fits_with(s1, opt_key_type(shape), NFTA_SET_MAX, 528, 8);
    lemma_fits_with(s2, opt_key_len(shape), NFTA_SET_MAX, 536, 8);
    lemma_fits_with(s3, opt_set_timeout(shape), NFTA_SET_MAX, 544, 8);
}

/// Where each attribute of a set message is found.
pub proof fn lemma_set_find(table: Seq<u8>, name: Seq<u8>, shape: Option<SetShape>)
    ensures
        find(set_attrs(table, name, shape), NFTA_SET_TABLE) == Some(
            raw(NFTA_SET_TABLE, cstr(table)),
        ),
        find(set_attrs(table, name, shape), NFTA_SET_NAME) == Some(
            raw(NFTA_SET_NAME, cstr(name)),
        ),
        find(set_attrs(table, name, shape), NFTA_SET_FLAGS) == opt_flags(shape),
        find(set_attrs(table, name, shape), NFTA_SET_KEY_TYPE) == opt_key_type(shape),
        find(set_attrs(table, name, shape), NFTA_SET_KEY_LEN) == opt_key_len(shape),
        find(set_attrs(table, name, shape), NFTA_SET_TIMEOUT) == opt_set_timeout(shape),
{
    let a1 = raw(NFTA_SET_TABLE, cstr(table));
    let a2 = raw(NFTA_SET_NAME, cstr(name));
    let e = Seq::<AttributeView>::empty();
    let s0 = seq![a1, a2];
    let s1 = with(s0, opt_flags(shape));
    let s2 = with(s1, opt_key_type(shape));
    let s3 = with(s2, opt_key_len(shape));
    assert(s0 =~= with(with(e, Some(a1)), Some(a2)));
    lemma_find_with(e, Some(a1));
    lemma_find_with(with(e, Some(a1)), Some(a2));
    lemma_find_with(s0, opt_flags(shape));
    lemma_find_with(s1, opt_key_type(shape));
    lemma_find_with(s2, opt_key_len(shape));
    lemma_find_with(s3, opt_set_timeout(shape));
}

/// Reading what a set is made of where its four attributes are found, or
/// none of them is, gives it back.
pub proof fn lemma_shape_roundtrip(attrs: Seq<AttributeView>, shape: Option<SetShape>)
    requires
        find(attrs, NFTA_SET_FLAGS) == opt_flags(shape),
        find(attrs, NFTA_SET_KEY_TYPE) == opt_key_type(shape),
        find(attrs, NFTA_SET_KEY_LEN) == opt_key_len(shape),
        find(attrs, NFTA_SET_TIMEOUT) == opt_set_timeout(shape),
    ensures
        shape_of(attrs) == Some(shape),
{
    match shape {
        Some(s) => {
            lemma_read_value(attrs, NFTA_SET_FLAGS, Some(s.flags));
            lemma_read_value(attrs, NFTA_SET_KEY_TYPE, Some(s.key_type));
            lemma_read_value(attrs, NFTA_SET_KEY_LEN, Some(s.key_len));
            lemma_read_value(attrs, NFTA_SET_TIMEOUT, s.timeout);
        },
        None => {
            lemma_read_value(attrs, NFTA_SET_FLAGS, None);
            lemma_read_value(attrs, NFTA_SET_KEY_TYPE, None);
            lemma_read_value(attrs, NFTA_SET_KEY_LEN, None);
            lemma_read_value(attrs, NFTA_SET_TIMEOUT, None);
        },
    }
}

/// Reading the attributes of a set message gives the message back.
pub proof fn lemma_set_roundtrip(
    family: u8,
    table: Seq<u8>,
    name: Seq<u8>,
    shape: Option<SetShape>,
)
    requires
        valid_name(table, NFT_MAX_NAME as int),
        valid_name(name, NFT_MAX_NAME as int),
    ensures
        set_of(family, set_attrs(table, name, shape)) == Some(
            Body::<Seq<u8>, Seq<IpEntry>>::NftSet { family, table, name, shape },
        ),
{
    let attrs = set_attrs(table, name, shape);
    lemma_set_find(table, name, shape);
    lemma_read_name(attrs, NFTA_SET_TABLE, Some(table), NFT_MAX_NAME as int);
    lemma_read_name(attrs, NFTA_SET_NAME, Some(name), NFT_MAX_NAME as int);
    lemma_shape_roundtrip(attrs, shape);
}

/// An element of a list is encodable and takes at most 40 octets; reading
/// it gives the element back.
pub proof fn lemma_elem_attr(e: IpEntry)
    ensures
        elem_attr(e).wf(),
        elem_attr(e).tag == NFTA_LIST_ELEM,
        elem_attr(e).size() <= 40,
        fits(elem_attrs(e), NFTA_SET_ELEM_MAX, 36),
        elem_of(elem_attr(e)) == Some(e),
{
    let value = raw(NFTA_DATA_VALUE, addr_octets(e.addr));
    let key = key_attr(e.addr);
    let none = Seq::<AttributeView>::empty();
    lemma_addr_roundtrip(e.addr);
    lemma_fits_empty(NFTA_DATA_MAX);
    assert(none.push(value) =~= seq![value]);
    lemma_fits_with(none, Some(value), NFTA_DATA_MAX, 0, 20);
    lemma_fits_roundtrip(seq![value], NFTA_DATA_MAX, 20);
    lemma_nest_wf(NFTA_SET_ELEM_KEY, seq![value], NFTA_DATA_MAX, 20);
    lemma_find_with(none, Some(value));
    lemma_fits_empty(NFTA_SET_ELEM_MAX);
    assert(none.push(key) =~= seq![key]);
    lemma_opt_number(NFTA_SET_ELEM_TIMEOUT, e.timeout);
    lemma_fits_with(none, Some(key), NFTA_SET_ELEM_MAX, 0, 24);
    lemma_fits_with(
        seq![key],
        opt_value(NFTA_SET_ELEM_TIMEOUT, e.timeout),
        NFTA_SET_ELEM_MAX,
        24,
        8,
    );
    lemma_fits_roundtrip(elem_attrs(e), NFTA_SET_ELEM_MAX, 36);
    lemma_nest_wf(NFTA_LIST_ELEM, elem_attrs(e), NFTA_SET_ELEM_MAX, 36);
    lemma_find_with(none, Some(key));
    lemma_find_with(seq![key], opt_value(NFTA_SET_ELEM_TIMEOUT, e.timeout));
    assert(key_of(elem_attrs(e)) == Some(e.addr));
    lemma_read_value(elem_attrs(e), NFTA_SET_ELEM_TIMEOUT, e.timeout);
}

/// The elements of a list take at most 40 octets each.
pub proof fn lemma_elems_fits(elements: Seq<IpEntry>)
    ensures
        fits(elems_attrs(elements), NFTA_LIST_ELEM, 40 * (elements.len() as int)),
    decreases elements.len(),
{
    let attrs = elems_attrs(elements);
    if elements.len() == 0 {
        assert(attrs =~= Seq::empty());
    } else {
        let front = elements.drop_last();
        let e = elements.last();
        lemma_elems_fits(front);
        lemma_elem_attr(e);
        assert(attrs =~= with(elems_attrs(front), Some(elem_attr(e))));
        lemma_fits_with(
            elems_attrs(front),
            Some(elem_attr(e)),
            NFTA_LIST_ELEM,
            40 * (front.len() as int),
            40,
        );
    }
}

/// Reading the elements of a list gives the elements back.
pub proof fn lemma_elems_roundtrip(elements: Seq<IpEntry>)
    ensures
        elems_of(elems_attrs(elements)) == Some(elements),
    decreases elements.len(),
{
    let attrs = elems_attrs(elements);
    if elements.len() == 0 {
        assert(attrs =~= Seq::empty());
    } else {
        let front = elements.drop_last();
        let e = elements.last();
        lemma_elems_roundtrip(front);
        lemma_elem_attr(e);
        assert(attrs.drop_last() =~= elems_attrs(front));
        assert(attrs.last() == elem_attr(e));
        assert(front.push(e) =~= elements);
    }
}

/// The attributes of an element message fit a message.
pub proof fn lemma_elements_fits(table: Seq<u8>, set: Seq<u8>, elements: Seq<IpEntry>)
    requires
        valid_name(table, NFT_MAX_NAME as int),
        valid_name(set, NFT_MAX_NAME as int),
        elements.len() <= MAX_MEMBERS,
    ensures
        fits(elements_attrs(table, set, elements), NFTA_SET_ELEM_LIST_MAX, 42000),
{
    let a1 = raw(NFTA_SET_ELEM_LIST_TABLE, cstr(table));
    let a2 = raw(NFTA_SET_ELEM_LIST_SET, cstr(set));
    let e = Seq::<AttributeView>::empty();
    let s0 = seq![a1, a2];
    assert(s0 =~= e.push(a1).push(a2));
    lemma_fits_empty(NFTA_SET_ELEM_LIST_MAX);
    lemma_fits_with(e, Some(a1), NFTA_SET_ELEM_LIST_MAX, 0, 260);
    lemma_fits_with(e.push(a1), Some(a2), NFTA_SET_ELEM_LIST_MAX, 260, 260);
    if elements.len() > 0 {
        lemma_elems_fits(elements);
        lemma_nest_wf(
            NFTA_SET_ELEM_LIST_ELEMENTS,
            elems_attrs(elements),
            NFTA_LIST_ELEM,
            40 * MAX_MEMBERS,
        );
    }
    lemma_fits_with(s0, opt_elems(elements), NFTA_SET_ELEM_LIST_MAX, 520, 40 * MAX_MEMBERS + 4);
}

/// Reading the attributes of an element message gives the message back.
pub proof fn lemma_elements_roundtrip(
    family: u8,
    table: Seq<u8>,
    set: Seq<u8>,
    elements: Seq<IpEntry>,
)
    requires
        valid_name(table, NFT_MAX_NAME as int),
        valid_name(set, NFT_MAX_NAME as int),
        elements.len() <= MAX_MEMBERS,
    ensures
        elements_of(family, elements_attrs(table, set, elements)) == Some(
            Body::<Seq<u8>, Seq<IpEntry>>::NftElements { family, table, set, elements },
        ),
{
    let a1 = raw(NFTA_SET_ELEM_LIST_TABLE, cstr(table));
    let a2 = raw(NFTA_SET_ELEM_LIST_SET, cstr(set));
    let e = Seq::<AttributeView>::empty();
    let s0 = seq![a1, a2];
    let attrs = elements_attrs(table, set, elements);
    assert(s0 =~= with(with(e, Some(a1)), Some(a2)));
    lemma_find_with(e, Some(a1));
    lemma_find_with(with(e, Some(a1)), Some(a2));
    lemma_find_with(s0, opt_elems(elements));
    lemma_name_roundtrip(table, NFT_MAX_NAME as int);
    lemma_name_roundtrip(set, NFT_MAX_NAME as int);
    assert(read_name_spec(attrs, NFTA_SET_ELEM_LIST_TABLE) == Some(Some(table)));
    assert(read_name_spec(attrs, NFTA_SET_ELEM_LIST_SET) == Some(Some(set)));
    assert(read_elems_spec(attrs) == Some(elements)) by {
        if elements.len() == 0 {
            assert(elements =~= Seq::empty());
        } else {
            lemma_elems_fits(elements);
            lemma_elems_roundtrip(elements);
            lemma_fits_roundtrip(
                elems_attrs(elements),
                NFTA_LIST_ELEM,
                40 * (elements.len() as int),
            );
        }
    }
}

/// The octets of the attributes of a table message.
pub fn encode_table(name: &Option<Vec<u8>>) -> (bytes: Vec<u8>)
    requires
        valid_opt_name(name_view(*name), NFT_MAX_NAME as int),
    ensures
        bytes@ == encode_all(table_attrs(name_view(*name))),
{
    let mut attrs: Vec<Attribute> = Vec::new();
    assert(views(attrs@) =~= Seq::<AttributeView>::empty());
    match name {
        Some(n) => push_name(&mut attrs, NFTA_TABLE_NAME, n.as_slice()),
        None => {},
    }
    proof {
        lemma_table_attrs(0, name_view(*name));
    }
    encode_list(&attrs)
}

/// The octets of the attributes of a set message.
pub fn encode_set(table: &Vec<u8>, name: &Vec<u8>, shape: &Option<SetShape>) -> (bytes: Vec<u8>)
    requires
        valid_name(table@, NFT_MAX_NAME as int),
        valid_name(name@, NFT_MAX_NAME as int),
    ensures
        bytes@ == encode_all(set_attrs(table@, name@, *shape)),
{
    let mut attrs: Vec<Attribute> = Vec::new();
    assert(views(attrs@) =~= Seq::<AttributeView>::empty());
    push_name(&mut attrs, NFTA_SET_TABLE, table.as_slice());
    push_name(&mut attrs, NFTA_SET_NAME, name.as_slice());
    assert(views(attrs@) =~= seq![
        raw(NFTA_SET_TABLE, cstr(table@)),
        raw(NFTA_SET_NAME, cstr(name@)),
    ]);
    match shape {
        Some(s) => {
            push_value(&mut attrs, NFTA_SET_FLAGS, s.flags);
            push_value(&mut attrs, NFTA_SET_KEY_TYPE, s.key_type);
            push_value(&mut attrs, NFTA_SET_KEY_LEN, s.key_len);
            match s.timeout {
                Some(t) => push_value(&mut attrs, NFTA_SET_TIMEOUT, t),
                None => {},
            }
        },
        None => {},
    }
    proof {
        lemma_set_fits(table@, name@, *shape);
    }
    encode_list(&attrs)
}

/// Builds the attributes of the elements of a list.
pub fn build_elems(elements: &Vec<IpEntry>) -> (attrs: Vec<Attribute>)
    ensures
        views(attrs@) == elems_attrs(elements@),
{
    let mut attrs: Vec<Attribute> = Vec::new();
    let n = elements.len();
    let mut i: usize = 0;
    assert(views(attrs@) =~= elems_attrs(elements@.subrange(0, 0)));
    while i < n
        invariant
            n == elements@.len(),
            i <= n,
            views(attrs@) == elems_attrs(elements@.subrange(0, i as int)),
        decreases n - i,
    {
        let e = elements[i];
        let mut value: Vec<Attribute> = Vec::new();
        assert(views(value@) =~= Seq::<AttributeView>::empty());
        push_raw(&mut value, NFTA_DATA_VALUE, addr_vec(e.addr));
        let mut children: Vec<Attribute> = Vec::new();
        assert(views(children@) =~= Seq::<AttributeView>::empty());
        proof {
            lemma_elem_attr(e);
            lemma_addr_roundtrip(e.addr);
            assert(views(value@) =~= seq![raw(NFTA_DATA_VALUE, addr_octets(e.addr))]);
        }
        push_nested(&mut children, NFTA_SET_ELEM_KEY, &value);
        assert(views(children@) =~= seq![key_attr(e.addr)]);
        match e.timeout {
            Some(t) => push_value(&mut children, NFTA_SET_ELEM_TIMEOUT, t),
            None => {},
        }
        push_nested(&mut attrs, NFTA_LIST_ELEM, &children);
        i += 1;
        assert(views(attrs@) =~= elems_attrs(elements@.subrange(0, i as int)));
    }
    assert(elements@.subrange(0, n as int) =~= elements@);
    attrs
}

/// The octets of the attributes of an element message.
pub fn encode_elements(table: &Vec<u8>, set: &Vec<u8>, elements: &Vec<IpEntry>) -> (bytes: Vec<
    u8,
>)
    requires
        valid_name(table@, NFT_MAX_NAME as int),
        valid_name(set@, NFT_MAX_NAME as int),
        elements@.len() <= MAX_MEMBERS,
    ensures
        bytes@ == encode_all(elements_attrs(table@, set@, elements@)),
{
    let mut attrs: Vec<Attribute> = Vec::new();
    assert(views(attrs@) =~= Seq::<AttributeView>::empty());
    push_name(&mut attrs, NFTA_SET_ELEM_LIST_TABLE, table.as_slice());
    push_name(&mut attrs, NFTA_SET_ELEM_LIST_SET, set.as_slice());
    assert(views(attrs@) =~= seq![
        raw(NFTA_SET_ELEM_LIST_TABLE, cstr(table@)),
        raw(NFTA_SET_ELEM_LIST_SET, cstr(set@)),
    ]);
    if elements.len() > 0 {
        let children = build_elems(elements);
        proof {
            lemma_elems_fits(elements@);
        }
        push_nested(&mut attrs, NFTA_SET_ELEM_LIST_ELEMENTS, &children);
    }
    proof {
        lemma_elements_fits(table@, set@, elements@);
    }
    encode_list(&attrs)
}

/// What [`decode_table`] makes of the octets behind the header of a table
/// message.
pub open spec fn table_decode_spec(family: u8, bytes: Seq<u8>) -> Option<
    Body<Seq<u8>, Seq<IpEntry>>,
> {
    match decode_spec(bytes, NFTA_TABLE_MAX) {
        None => None,
        Some(attrs) => table_of(family, attrs),
    }
}

/// What [`decode_set`] makes of the octets behind the header of a set
/// message.
pub open spec fn set_decode_spec(family: u8, bytes: Seq<u8>) -> Option<
    Body<Seq<u8>, Seq<IpEntry>>,
> {
    match decode_spec(bytes, NFTA_SET_MAX) {
        None => None,
        Some(attrs) => set_of(family, attrs),
    }
}

/// What [`decode_elements`] makes of the octets behind the header of an
/// element message.
pub open spec fn elements_decode_spec(family: u8, bytes: Seq<u8>) -> Option<
    Body<Seq<u8>, Seq<IpEntry>>,
> {
    match decode_spec(bytes, NFTA_SET_ELEM_LIST_MAX) {
        None => None,
        Some(attrs) => elements_of(family, attrs),
    }
}

/// Reads a table message from the octets of its attributes. Fails with
/// [`Error::Malformed`] if they are malformed.
pub fn decode_table(family: u8, bytes: &[u8]) -> (r: Result<Body<Vec<u8>, Vec<IpEntry>>, Error>)
    ensures
        r is Ok ==> table_decode_spec(family, bytes@) == Some(r->Ok_0@),
        r is Err ==> table_decode_spec(family, bytes@) is None && r->Err_0@
            == ErrorView::Malformed,
{
    let attrs = match decode(bytes, NFTA_TABLE_MAX) {
        Ok(a) => a,
        Err(e) => {
            return Err(e);
        },
    };
    match read_name(&attrs, NFTA_TABLE_NAME) {
        Ok(name) => Ok(Body::NftTable { family, name }),
        Err(e) => Err(e),
    }
}

/// Reads a set message from the octets of its attributes. Fails with
/// [`Error::Malformed`] if they are malformed or name no table or no set.
pub fn decode_set(family: u8, bytes: &[u8]) -> (r: Result<Body<Vec<u8>, Vec<IpEntry>>, Error>)
    ensures
        r is Ok ==> set_decode_spec(family, bytes@) == Some(r->Ok_0@),
        r is Err ==> set_decode_spec(family, bytes@) is None && r->Err_0@
            == ErrorView::Malformed,
{
    let attrs = match decode(bytes, NFTA_SET_MAX) {
        Ok(a) => a,
        Err(e) => {
            return Err(e);
        },
    };
    let table = match read_name(&attrs, NFTA_SET_TABLE) {
        Ok(Some(t)) => t,
        _ => {
            return Err(Error::Malformed);
        },
    };
    let name = match read_name(&attrs, NFTA_SET_NAME) {
        Ok(Some(n)) => n,
        _ => {
            return Err(Error::Malformed);
        },
    };
    let flags = match read_u32(&attrs, NFTA_SET_FLAGS) {
        Ok(f) => f,
        Err(e) => {
            return Err(e);
        },
    };
    let key_type = match read_u32(&attrs, NFTA_SET_KEY_TYPE) {
        Ok(k) => k,
        Err(e) => {
            return Err(e);
        },
    };
    let key_len = match read_u32(&attrs, NFTA_SET_KEY_LEN) {
        Ok(k) => k,
        Err(e) => {
            return Err(e);
        },
    };
    let timeout = match read_u32(&attrs, NFTA_SET_TIMEOUT) {
        Ok(t) => t,
        Err(e) => {
            return Err(e);
        },
    };
    let shape = match key_len {
        Some(key_len) => Some(
            SetShape {
                flags: match flags {
                    Some(f) => f,
                    None => 0,
                },
                key_type: match key_type {
                    Some(k) => k,
                    None => 0,
                },
                key_len,
                timeout,
            },
        ),
        None => None,
    };
    Ok(Body::NftSet { family, table, name, shape })
}

/// Reads one element from a nested attribute of a list.
pub fn parse_elem(a: &Attribute) -> (r: Result<IpEntry, Error>)
    ensures
        r is Ok ==> elem_of(a@) == Some(r->Ok_0),
        r is Err ==> elem_of(a@) is None && r->Err_0@ == ErrorView::Malformed,
{
    let children = match decode(a.payload.as_slice(), NFTA_SET_ELEM_MAX) {
        Ok(c) => c,
        Err(e) => {
            return Err(e);
        },
    };
    let key = match read_nested(&children, NFTA_SET_ELEM_KEY, NFTA_DATA_MAX) {
        Ok(Some(k)) => k,
        _ => {
            return Err(Error::Malformed);
        },
    };
    let addr = match lookup(&key, NFTA_DATA_VALUE) {
        Some(value) => match parse_addr(value.payload.as_slice()) {
            Some(a) => a,
            None => {
                return Err(Error::Malformed);
            },
        },
        None => {
            return Err(Error::Malformed);
        },
    };
    let timeout = match read_u32(&children, NFTA_SET_ELEM_TIMEOUT) {
        Ok(t) => t,
        Err(e) => {
            return Err(e);
        },
    };
    Ok(IpEntry { addr, timeout })
}

/// If a front part of a list holds a malformed element, so does the list.
pub proof fn lemma_elems_of_prefix(children: Seq<AttributeView>, k: int)
    requires
        0 <= k <= children.len(),
        elems_of(children.subrange(0, k)) is None,
    ensures
        elems_of(children) is None,
    decreases children.len() - k,
{
    if k < children.len() {
        let next = children.subrange(0, k + 1);
        assert(next.drop_last() =~= children.subrange(0, k));
        lemma_elems_of_prefix(children, k + 1);
    } else {
        assert(children.subrange(0, k) =~= children);
    }
}

/// Reads the elements of a list.
pub fn parse_elems(children: &Vec<Attribute>) -> (r: Result<Vec<IpEntry>, Error>)
    ensures
        r is Ok ==> elems_of(views(children@)) == Some(r->Ok_0@),
        r is Err ==> elems_of(views(children@)) is None && r->Err_0@ == ErrorView::Malformed,
{
    let mut out: Vec<IpEntry> = Vec::new();
    let n = children.len();
    let mut i: usize = 0;
    assert(views(children@).subrange(0, 0) =~= Seq::<AttributeView>::empty());
    while i < n
        invariant
            n == children@.len(),
            i <= n,
            elems_of(views(children@).subrange(0, i as int)) == Some(out@),
        decreases n - i,
    {
        let ghost all = views(children@);
        let ghost next = all.subrange(0, i as int + 1);
        proof {
            assert(next.drop_last() =~= all.subrange(0, i as int));
            assert(next.last() == children@[i as int]@);
        }
        if children[i].tag == NFTA_LIST_ELEM {
            match parse_elem(&children[i]) {
                Ok(e) => out.push(e),
                Err(e) => {
                    proof {
                        lemma_elems_of_prefix(all, i as int + 1);
                    }
                    return Err(e);
                },
            }
        }
        i += 1;
    }
    assert(views(children@).subrange(0, n as int) =~= views(children@));
    Ok(out)
}

/// Reads an element message from the octets of its attributes. Fails with
/// [`Error::Malformed`] if they are malformed or name no table or no set.
pub fn decode_elements(family: u8, bytes: &[u8]) -> (r: Result<
    Body<Vec<u8>, Vec<IpEntry>>,
    Error,
>)
    ensures
        r is Ok ==> elements_decode_spec(family, bytes@) == Some(r->Ok_0@),
        r is Err ==> elements_decode_spec(family, bytes@) is None && r->Err_0@
            == ErrorView::Malformed,
{
    let attrs = match decode(bytes, NFTA_SET_ELEM_LIST_MAX) {
        Ok(a) => a,
        Err(e) => {
            return Err(e);
        },
    };
    let table = match read_name(&attrs, NFTA_SET_ELEM_LIST_TABLE) {
        Ok(Some(t)) => t,
        _ => {
            return Err(Error::Malformed);
        },
    };
    let set = match read_name(&attrs, NFTA_SET_ELEM_LIST_SET) {
        Ok(Some(s)) => s,
        _ => {
            return Err(Error::Malformed);
        },
    };
    let elements = match read_nested(&attrs, NFTA_SET_ELEM_LIST_ELEMENTS, NFTA_LIST_ELEM) {
        Ok(Some(children)) => match parse_elems(&children) {
            Ok(e) => e,
            Err(e) => {
                return Err(e);
            },
        },
        Ok(None) => Vec::new(),
        Err(e) => {
            return Err(e);
        },
    };
    Ok(Body::NftElements { family, table, set, elements })
}

/// Octets that were encoded from a table message decode to that message.
pub proof fn lemma_table_decode_encode(family: u8, name: Option<Seq<u8>>)
    requires
        valid_opt_name(name, NFT_MAX_NAME as int),
    ensures
        encode_all(table_attrs(name)).len() <= 260,
        table_decode_spec(family, encode_all(table_attrs(name))) == Some(
            Body::<Seq<u8>, Seq<IpEntry>>::NftTable { family, name },
        ),
{
    lemma_table_attrs(family, name);
    lemma_fits_roundtrip(table_attrs(name), NFTA_TABLE_MAX, 260);
}

/// Octets that were encoded from a set message decode to that message.
pub proof fn lemma_set_decode_encode(
    family: u8,
    table: Seq<u8>,
    name: Seq<u8>,
    shape: Option<SetShape>,
)
    requires
        valid_name(table, NFT_MAX_NAME as int),
        valid_name(name, NFT_MAX_NAME as int),
    ensures
        encode_all(set_attrs(table, name, shape)).len() <= 552,
        set_decode_spec(family, encode_all(set_attrs(table, name, shape))) == Some(
            Body::<Seq<u8>, Seq<IpEntry>>::NftSet { family, table, name, shape },
        ),
{
    lemma_set_fits(table, name, shape);
    lemma_set_roundtrip(family, table, name, shape);
    lemma_fits_roundtrip(set_attrs(table, name, shape), NFTA_SET_MAX, 552);
}

/// Octets that were encoded from an element message decode to that
/// message.
pub proof fn lemma_elements_decode_encode(
    family: u8,
    table: Seq<u8>,
    set: Seq<u8>,
    elements: Seq<IpEntry>,
)
    requires
        valid_name(table, NFT_MAX_NAME as int),
        valid_name(set, NFT_MAX_NAME as int),
        elements.len() <= MAX_MEMBERS,
    ensures
        encode_all(elements_attrs(table, set, elements)).len() <= 42000,
        elements_decode_spec(family, encode_all(elements_attrs(table, set, elements))) == Some(
            Body::<Seq<u8>, Seq<IpEntry>>::NftElements { family, table, set, elements },
        ),
{
    lemma_elements_fits(table, set, elements);
    lemma_elements_roundtrip(family, table, set, elements);
    lemma_fits_roundtrip(elements_attrs(table, set, elements), NFTA_SET_ELEM_LIST_MAX, 42000);
}

} // verus!
