//! The attribute codec: tagged, length-prefixed values, padded to four
//! octets, as both kernel subsystems carry them.
//!
//! An attribute on the wire is a length of two octets (header and payload,
//! without the padding), a tag word of two octets, the payload, and zero
//! octets up to the next multiple of four. Bit 15 of the tag word says that
//! the payload is itself a run of attributes, bit 14 that it is a number in
//! network byte order, and bit 13 that a reader which does not know the tag
//! must give up instead of skipping the attribute.
//!
//! A tree of attributes is never built as linked values: the payload of a
//! nested attribute is the encoding of its children, and a reader walks one
//! level at a time.

use vstd::prelude::*;
use crate::bytes::{
    copy_range,
    get_le16,
    le16,
    le16_at,
    lemma_le16,
    put_all,
    put_le16,
    put_zeros,
};
use crate::error::{Error, ErrorView};

verus! {

/// Tag bit: the payload is a run of attributes.
pub const NESTED: u16 = 0x8000;

/// Tag bit: the payload is a number in network byte order.
pub const NETWORK_ORDER: u16 = 0x4000;

/// Tag bit: a reader that does not know the tag must fail.
pub const MUST_UNDERSTAND: u16 = 0x2000;

/// The largest tag, the three flag bits left out.
pub const MAX_TAG: u16 = 0x1fff;

/// Octets in front of a payload.
pub const HEADER_LEN: usize = 4;

/// The longest payload whose length still fits the length field.
pub const MAX_PAYLOAD: usize = 0xfffb;

/// One attribute, one level of the tree.
#[derive(Clone, Debug)]
pub struct Attribute {
    /// The tag, without the flag bits.
    pub tag: u16,
    /// Whether the payload is the encoding of further attributes.
    pub nested: bool,
    /// Whether the payload is a number in network byte order.
    pub network_order: bool,
    pub payload: Vec<u8>,
}

/// An [`Attribute`] as a mathematical value.
pub struct AttributeView {
    pub tag: u16,
    pub nested: bool,
    pub network_order: bool,
    pub payload: Seq<u8>,
}

impl View for Attribute {
    type V = AttributeView;

    open spec fn view(&self) -> AttributeView {
        AttributeView {
            tag: self.tag,
            nested: self.nested,
            network_order: self.network_order,
            payload: self.payload@,
        }
    }
}

/// The attributes of a vector as mathematical values.
pub open spec fn views(attrs: Seq<Attribute>) -> Seq<AttributeView> {
    Seq::new(attrs.len(), |i: int| attrs[i]@)
}

/// A plain attribute.
pub open spec fn raw(tag: u16, payload: Seq<u8>) -> AttributeView {
    AttributeView { tag, nested: false, network_order: false, payload }
}

/// An attribute that holds a number in network byte order.
pub open spec fn number(tag: u16, payload: Seq<u8>) -> AttributeView {
    AttributeView { tag, nested: false, network_order: true, payload }
}

/// An attribute that holds the attributes `children`.
pub open spec fn nest(tag: u16, children: Seq<AttributeView>) -> AttributeView {
    AttributeView { tag, nested: true, network_order: false, payload: encode_all(children) }
}

/// Number of zero octets that follow a payload of `n` octets.
pub open spec fn padding(n: int) -> int {
    (4 - n % 4) % 4
}

/// `n` rounded up to a multiple of four.
pub open spec fn align4(n: int) -> int {
    n + padding(n)
}

/// `n` zero octets.
pub open spec fn zeros(n: int) -> Seq<u8> {
    Seq::new(n as nat, |i: int| 0u8)
}

impl AttributeView {
    /// Whether the attribute can be encoded: its tag is a tag, and its
    /// length fits the length field.
    pub open spec fn wf(self) -> bool {
        &&& 1 <= self.tag <= MAX_TAG
        &&& self.payload.len() <= MAX_PAYLOAD
    }

    /// The tag word: the tag and the two flag bits the writer sets.
    pub open spec fn word(self) -> u16 {
        (self.tag + if self.nested {
            NESTED as int
        } else {
            0
        } + if self.network_order {
            NETWORK_ORDER as int
        } else {
            0
        }) as u16
    }

    /// Number of octets the attribute takes on the wire, padding included.
    pub open spec fn size(self) -> int {
        align4(HEADER_LEN + self.payload.len())
    }
}

/// The exact octets of one attribute.
pub open spec fn encode_spec(a: AttributeView) -> Seq<u8> {
    le16((HEADER_LEN + a.payload.len()) as u16) + le16(a.word()) + a.payload + zeros(
        padding(a.payload.len() as int),
    )
}

/// The exact octets of a run of attributes: one after the other.
pub open spec fn encode_all(attrs: Seq<AttributeView>) -> Seq<u8>
    decreases attrs.len(),
{
    if attrs.len() == 0 {
        Seq::empty()
    } else {
        encode_spec(attrs[0]) + encode_all(attrs.drop_first())
    }
}

/// Whether every attribute of a run can be encoded.
pub open spec fn all_wf(attrs: Seq<AttributeView>) -> bool {
    forall|i: int| 0 <= i < attrs.len() ==> (#[trigger] attrs[i]).wf()
}

/// Number of octets a run of attributes takes on the wire.
pub open spec fn total_size(attrs: Seq<AttributeView>) -> int
    decreases attrs.len(),
{
    if attrs.len() == 0 {
        0
    } else {
        attrs[0].size() + total_size(attrs.drop_first())
    }
}

/// What a reader that knows the tags `1..=max_tag` makes of a buffer: the
/// attributes with those tags, in the order they stand in. `None` if the
/// buffer is malformed: fewer than four octets are left over, a length is
/// shorter than a header or reaches past the end, or an attribute with
/// another tag has the must-understand bit.
pub open spec fn decode_spec(bytes: Seq<u8>, max_tag: u16) -> Option<Seq<AttributeView>>
    decreases bytes.len(),
{
    if bytes.len() == 0 {
        Some(Seq::empty())
    } else if bytes.len() < HEADER_LEN {
        None
    } else {
        let len = le16_at(bytes, 0) as int;
        let word = le16_at(bytes, 2);
        if len < HEADER_LEN || len > bytes.len() {
            None
        } else {
            let next = if align4(len) <= bytes.len() {
                align4(len)
            } else {
                bytes.len() as int
            };
            match decode_spec(bytes.skip(next), max_tag) {
                None => None,
                Some(rest) => {
                    let tag = word % MUST_UNDERSTAND;
                    if 1 <= tag <= max_tag {
                        Some(
                            seq![
                                AttributeView {
                                    tag,
                                    nested: word >= NESTED,
                                    network_order: (word / NETWORK_ORDER) % 2 == 1,
                                    payload: bytes.subrange(HEADER_LEN as int, len),
                                },
                            ] + rest,
                        )
                    } else if (word / MUST_UNDERSTAND) % 2 == 1 {
                        None
                    } else {
                        Some(rest)
                    }
                },
            }
        }
    }
}

/// The first attribute of a run that has the tag `tag`.
pub open spec fn find(attrs: Seq<AttributeView>, tag: u16) -> Option<AttributeView>
    decreases attrs.len(),
{
    if attrs.len() == 0 {
        None
    } else if attrs[0].tag == tag {
        Some(attrs[0])
    } else {
        find(attrs.drop_first(), tag)
    }
}

/// An attribute takes as many octets as `size` says.
pub proof fn lemma_encode_len(a: AttributeView)
    ensures
        encode_spec(a).len() == a.size(),
        a.size() % 4 == 0,
        a.size() >= HEADER_LEN + a.payload.len(),
        a.size() < HEADER_LEN + a.payload.len() + 4,
{
    lemma_le16((HEADER_LEN + a.payload.len()) as u16);
    lemma_le16(a.word());
}

/// A run of attributes takes as many octets as `total_size` says.
pub proof fn lemma_encode_all_len(attrs: Seq<AttributeView>)
    ensures
        encode_all(attrs).len() == total_size(attrs),
        total_size(attrs) % 4 == 0,
        total_size(attrs) >= 0,
    decreases attrs.len(),
{
    if attrs.len() > 0 {
        lemma_encode_len(attrs[0]);
        lemma_encode_all_len(attrs.drop_first());
    }
}

/// Encoding two runs one after the other is encoding their concatenation.
pub proof fn lemma_encode_all_concat(a: Seq<AttributeView>, b: Seq<AttributeView>)
    ensures
        encode_all(a + b) == encode_all(a) + encode_all(b),
        total_size(a + b) == total_size(a) + total_size(b),
    decreases a.len(),
{
    if a.len() == 0 {
        assert(a + b =~= b);
        assert(encode_all(a) + encode_all(b) =~= encode_all(b));
    } else {
        assert((a + b).drop_first() =~= a.drop_first() + b);
        lemma_encode_all_concat(a.drop_first(), b);
        assert(encode_spec(a[0]) + (encode_all(a.drop_first()) + encode_all(b)) =~= (encode_spec(
            a[0],
        ) + encode_all(a.drop_first())) + encode_all(b));
    }
}

/// Encoding a run of one attribute is encoding the attribute.
pub proof fn lemma_encode_all_one(a: AttributeView)
    ensures
        encode_all(seq![a]) == encode_spec(a),
        total_size(seq![a]) == a.size(),
{
    assert(seq![a].drop_first() =~= Seq::<AttributeView>::empty());
    assert(encode_spec(a) + Seq::<u8>::empty() =~= encode_spec(a));
    assert(encode_all(seq![a]) == encode_spec(a) + encode_all(seq![a].drop_first()));
    assert(total_size(seq![a]) == a.size() + total_size(seq![a].drop_first()));
}

/// Reading one encoded attribute in front of a buffer: the reader sees its
/// length and tag word, its payload, and goes on behind its padding.
pub proof fn lemma_decode_step(a: AttributeView, tail: Seq<u8>, max_tag: u16)
    requires
        a.wf(),
    ensures
        decode_spec(encode_spec(a) + tail, max_tag) == match decode_spec(tail, max_tag) {
            None => None,
            Some(rest) => if a.tag <= max_tag {
                Some(seq![a] + rest)
            } else {
                Some(rest)
            },
        },
{
    let bytes = encode_spec(a) + tail;
    let len = HEADER_LEN as int + a.payload.len();
    lemma_encode_len(a);
    lemma_le16(len as u16);
    lemma_le16(a.word());
    assert(bytes[0] == le16(len as u16)[0]);
    assert(bytes[1] == le16(len as u16)[1]);
    assert(bytes[2] == le16(a.word())[0]);
    assert(bytes[3] == le16(a.word())[1]);
    assert(le16_at(bytes, 0) == len);
    assert(le16_at(bytes, 2) == a.word());
    assert(bytes.skip(a.size()) =~= tail);
    assert(bytes.subrange(HEADER_LEN as int, len) =~= a.payload);
    let word = a.word();
    assert(word % MUST_UNDERSTAND == a.tag);
    assert((word >= NESTED) == a.nested);
    assert(((word / NETWORK_ORDER) % 2 == 1) == a.network_order);
    assert((word / MUST_UNDERSTAND) % 2 == 0);
}

/// A reader that knows every tag of a run of encodable attributes reads
/// back exactly that run.
pub proof fn lemma_decode_encode(attrs: Seq<AttributeView>, max_tag: u16)
    requires
        all_wf(attrs),
        forall|i: int| 0 <= i < attrs.len() ==> (#[trigger] attrs[i]).tag <= max_tag,
    ensures
        decode_spec(encode_all(attrs), max_tag) == Some(attrs),
    decreases attrs.len(),
{
    if attrs.len() > 0 {
        let rest = attrs.drop_first();
        assert forall|i: int| 0 <= i < rest.len() implies (#[trigger] rest[i]).wf() && rest[i].tag
            <= max_tag by {
            assert(rest[i] == attrs[i + 1]);
        }
        lemma_decode_encode(rest, max_tag);
        lemma_decode_step(attrs[0], encode_all(rest), max_tag);
        assert(seq![attrs[0]] + rest =~= attrs);
    }
}

/// A reader skips the attributes whose tags it does not know and reads back
/// the others.
pub proof fn law_decode_skips_unknown(attrs: Seq<AttributeView>, max_tag: u16)
    requires
        all_wf(attrs),
    ensures
        decode_spec(encode_all(attrs), max_tag) == Some(
            attrs.filter(|a: AttributeView| a.tag <= max_tag),
        ),
    decreases attrs.len(),
{
    let known = |a: AttributeView| a.tag <= max_tag;
    reveal(Seq::filter);
    if attrs.len() == 0 {
        assert(attrs.filter(known) =~= Seq::empty());
    } else {
        let rest = attrs.drop_first();
        assert forall|i: int| 0 <= i < rest.len() implies (#[trigger] rest[i]).wf() by {
            assert(rest[i] == attrs[i + 1]);
        }
        law_decode_skips_unknown(rest, max_tag);
        lemma_decode_step(attrs[0], encode_all(rest), max_tag);
        assert(attrs =~= seq![attrs[0]] + rest);
        Seq::filter_distributes_over_add(seq![attrs[0]], rest, known);
        assert(seq![attrs[0]].filter(known) =~= if known(attrs[0]) {
            seq![attrs[0]]
        } else {
            Seq::empty()
        }) by {
            assert(seq![attrs[0]].drop_last() =~= Seq::<AttributeView>::empty());
            assert(Seq::<AttributeView>::empty().filter(known) =~= Seq::empty());
        }
    }
}

/// Appends the encoding of `attr` to `buf`.
pub fn append(buf: &mut Vec<u8>, attr: &Attribute)
    requires
        attr@.wf(),
    ensures
        final(buf)@ == old(buf)@ + encode_spec(attr@),
{
    let len = attr.payload.len();
    let mut word: u16 = attr.tag;
    if attr.nested {
        word = word + NESTED;
    }
    if attr.network_order {
        word = word + NETWORK_ORDER;
    }
    put_le16(buf, (HEADER_LEN + len) as u16);
    put_le16(buf, word);
    put_all(buf, attr.payload.as_slice());
    put_zeros(buf, (4 - len % 4) % 4);
    assert(buf@ =~= old(buf)@ + encode_spec(attr@));
}

/// Encodes one attribute: length, tag word, payload, padding.
///
/// Fails with [`Error::Malformed`] exactly if the attribute cannot be put
/// on the wire: its tag is 0 or has a flag bit, or its payload is longer
/// than the length field can say.
pub fn encode(attr: &Attribute) -> (r: Result<Vec<u8>, Error>)
    ensures
        match r {
            Ok(bytes) => attr@.wf() && bytes@ == encode_spec(attr@),
            Err(e) => !attr@.wf() && e@ == ErrorView::Malformed,
        },
{
    if attr.tag < 1 || attr.tag > MAX_TAG || attr.payload.len() > MAX_PAYLOAD {
        return Err(Error::Malformed);
    }
    let mut buf: Vec<u8> = Vec::new();
    append(&mut buf, attr);
    assert(buf@ =~= encode_spec(attr@));
    Ok(buf)
}

/// Encodes a run of attributes, one after the other.
pub fn encode_list(attrs: &Vec<Attribute>) -> (bytes: Vec<u8>)
    requires
        all_wf(views(attrs@)),
    ensures
        bytes@ == encode_all(views(attrs@)),
{
    let mut buf: Vec<u8> = Vec::new();
    let n = attrs.len();
    let mut i: usize = 0;
    while i < n
        invariant
            n == attrs@.len(),
            i <= n,
            all_wf(views(attrs@)),
            buf@ == encode_all(views(attrs@).subrange(0, i as int)),
        decreases n - i,
    {
        proof {
            let all = views(attrs@);
            let done = all.subrange(0, i as int);
            let next = all.subrange(0, i as int + 1);
            assert(all[i as int].wf());
            assert(next =~= done + seq![all[i as int]]);
            lemma_encode_all_concat(done, seq![all[i as int]]);
            lemma_encode_all_one(all[i as int]);
        }
        append(&mut buf, &attrs[i]);
        i += 1;
    }
    assert(views(attrs@).subrange(0, n as int) =~= views(attrs@));
    buf
}

/// The result of [`decode`] as a mathematical value.
pub open spec fn decoded(r: Result<Vec<Attribute>, Error>) -> Option<Seq<AttributeView>> {
    match r {
        Ok(attrs) => Some(views(attrs@)),
        Err(_) => None,
    }
}

/// What is decoded from a buffer when `front` was decoded from its first
/// octets and `rest` is what the octets behind them decode to.
pub open spec fn joined(front: Seq<AttributeView>, rest: Option<Seq<AttributeView>>) -> Option<
    Seq<AttributeView>,
> {
    match rest {
        Some(rest) => Some(front + rest),
        None => None,
    }
}

/// Walks a buffer of attributes and returns those with a tag in
/// `1..=max_tag`, in order. An attribute with another tag is skipped, unless
/// its must-understand bit is set.
///
/// Fails with [`Error::Malformed`] if a length is shorter than a header or
/// reaches past the end of the buffer, if fewer than four octets are left
/// over, or if an attribute with an unknown tag must be understood.
pub fn decode(bytes: &[u8], max_tag: u16) -> (r: Result<Vec<Attribute>, Error>)
    ensures
        decoded(r) == decode_spec(bytes@, max_tag),
        r is Err ==> r->Err_0@ == ErrorView::Malformed,
{
    let total = bytes.len();
    let mut out: Vec<Attribute> = Vec::new();
    let mut pos: usize = 0;
    proof {
        assert(bytes@.skip(0) =~= bytes@);
        let whole = decode_spec(bytes@, max_tag);
        if whole is Some {
            assert(views(out@) + whole->0 =~= whole->0);
        }
    }
    while pos < total
        invariant
            total == bytes@.len(),
            pos <= total,
            decode_spec(bytes@, max_tag) == joined(
                views(out@),
                decode_spec(bytes@.skip(pos as int), max_tag),
            ),
        decreases total - pos,
    {
        let ghost tail = bytes@.skip(pos as int);
        if total - pos < HEADER_LEN {
            return Err(Error::Malformed);
        }
        let len = get_le16(bytes, pos) as usize;
        let word = get_le16(bytes, pos + 2);
        assert(le16_at(tail, 0) == len);
        assert(le16_at(tail, 2) == word);
        if len < HEADER_LEN || len > total - pos {
            return Err(Error::Malformed);
        }
        let aligned = len + (4 - len % 4) % 4;
        let step = if aligned <= total - pos {
            aligned
        } else {
            total - pos
        };
        let tag = word % MUST_UNDERSTAND;
        assert(tail.skip(step as int) =~= bytes@.skip(pos + step));
        assert(tail.subrange(HEADER_LEN as int, len as int) =~= bytes@.subrange(
            pos + HEADER_LEN,
            pos + len,
        ));
        if 1 <= tag && tag <= max_tag {
            let attr = Attribute {
                tag,
                nested: word >= NESTED,
                network_order: (word / NETWORK_ORDER) % 2 == 1,
                payload: copy_range(bytes, pos + HEADER_LEN, pos + len),
            };
            proof {
                let rest = decode_spec(bytes@.skip(pos + step), max_tag);
                if rest is Some {
                    assert(views(out@.push(attr)) =~= views(out@) + seq![attr@]);
                    assert((views(out@) + seq![attr@]) + rest->0 =~= views(out@) + (seq![attr@]
                        + rest->0));
                }
            }
            out.push(attr);
        } else if (word / MUST_UNDERSTAND) % 2 == 1 {
            return Err(Error::Malformed);
        }
        pos = pos + step;
    }
    assert(bytes@.skip(pos as int) =~= Seq::<u8>::empty());
    assert(views(out@) + Seq::<AttributeView>::empty() =~= views(out@));
    Ok(out)
}

/// Position of the first attribute with the tag `tag`.
pub open spec fn position(attrs: Seq<AttributeView>, tag: u16) -> Option<int>
    decreases attrs.len(),
{
    if attrs.len() == 0 {
        None
    } else if attrs[0].tag == tag {
        Some(0)
    } else {
        match position(attrs.drop_first(), tag) {
            Some(i) => Some(i + 1),
            None => None,
        }
    }
}

/// `find` returns the attribute at `position`.
pub proof fn lemma_find_position(attrs: Seq<AttributeView>, tag: u16)
    ensures
        match position(attrs, tag) {
            Some(i) => 0 <= i < attrs.len() && attrs[i].tag == tag && find(attrs, tag) == Some(
                attrs[i],
            ) && forall|j: int| 0 <= j < i ==> attrs[j].tag != tag,
            None => find(attrs, tag) is None && forall|j: int|
                0 <= j < attrs.len() ==> attrs[j].tag != tag,
        },
    decreases attrs.len(),
{
    if attrs.len() > 0 && attrs[0].tag != tag {
        let rest = attrs.drop_first();
        lemma_find_position(rest, tag);
        match position(rest, tag) {
            Some(i) => {
                assert forall|j: int| 0 <= j < i + 1 implies attrs[j].tag != tag by {
                    if j > 0 {
                        assert(attrs[j] == rest[j - 1]);
                    }
                }
            },
            None => {
                assert forall|j: int| 0 <= j < attrs.len() implies attrs[j].tag != tag by {
                    if j > 0 {
                        assert(attrs[j] == rest[j - 1]);
                    }
                }
            },
        }
    }
}

/// The first attribute at or behind `from` that has the tag `tag` is what
/// `find` returns, if none before `from` has the tag.
pub proof fn lemma_find_at(attrs: Seq<AttributeView>, tag: u16, i: int)
    requires
        0 <= i <= attrs.len(),
        forall|j: int| 0 <= j < i ==> attrs[j].tag != tag,
        i < attrs.len() ==> attrs[i].tag == tag,
    ensures
        find(attrs, tag) == if i < attrs.len() {
            Some(attrs[i])
        } else {
            None
        },
{
    lemma_find_position(attrs, tag);
}

/// Looks up the first attribute with the tag `tag`.
pub fn lookup(attrs: &Vec<Attribute>, tag: u16) -> (r: Option<&Attribute>)
    ensures
        match r {
            Some(a) => find(views(attrs@), tag) == Some(a@),
            None => find(views(attrs@), tag) is None,
        },
{
    let n = attrs.len();
    let mut i: usize = 0;
    while i < n
        invariant
            n == attrs@.len(),
            i <= n,
            forall|j: int| 0 <= j < i ==> views(attrs@)[j].tag != tag,
        decreases n - i,
    {
        if attrs[i].tag == tag {
            proof {
                lemma_find_at(views(attrs@), tag, i as int);
            }
            return Some(&attrs[i]);
        }
        i += 1;
    }
    proof {
        lemma_find_at(views(attrs@), tag, n as int);
    }
    None
}

/// A run with one more attribute behind it, if there is one to add.
pub open spec fn with(attrs: Seq<AttributeView>, more: Option<AttributeView>) -> Seq<
    AttributeView,
> {
    match more {
        Some(a) => attrs.push(a),
        None => attrs,
    }
}

/// The views of a vector that got one more attribute.
pub proof fn lemma_views_push(attrs: Seq<Attribute>, a: Attribute)
    ensures
        views(attrs.push(a)) == views(attrs).push(a@),
{
    assert(views(attrs.push(a)) =~= views(attrs).push(a@));
}

/// Encoding a run with one more attribute behind it appends the encoding of
/// that attribute.
pub proof fn lemma_encode_all_push(attrs: Seq<AttributeView>, a: AttributeView)
    ensures
        encode_all(attrs.push(a)) == encode_all(attrs) + encode_spec(a),
        total_size(attrs.push(a)) == total_size(attrs) + a.size(),
{
    assert(attrs.push(a) =~= attrs + seq![a]);
    lemma_encode_all_concat(attrs, seq![a]);
    lemma_encode_all_one(a);
}

/// Looking a tag up in a run with one more attribute behind it: what stood
/// in the run wins.
pub proof fn lemma_find_push(attrs: Seq<AttributeView>, a: AttributeView, tag: u16)
    ensures
        find(attrs.push(a), tag) == if find(attrs, tag) is Some {
            find(attrs, tag)
        } else if a.tag == tag {
            Some(a)
        } else {
            None
        },
    decreases attrs.len(),
{
    if attrs.len() == 0 {
        assert(attrs.push(a).drop_first() =~= attrs);
    } else {
        assert(attrs.push(a).drop_first() =~= attrs.drop_first().push(a));
        lemma_find_push(attrs.drop_first(), a, tag);
    }
}

/// A run of encodable attributes with one more encodable attribute behind
/// it is encodable.
pub proof fn lemma_all_wf_push(attrs: Seq<AttributeView>, a: AttributeView)
    requires
        all_wf(attrs),
        a.wf(),
    ensures
        all_wf(attrs.push(a)),
{
    assert forall|i: int| 0 <= i < attrs.push(a).len() implies (#[trigger] attrs.push(a)[i]).wf() by {
        if i < attrs.len() {
            assert(attrs.push(a)[i] == attrs[i]);
        }
    }
}

/// Every tag of a run is at most `max_tag`.
pub open spec fn tags_within(attrs: Seq<AttributeView>, max_tag: u16) -> bool {
    forall|i: int| 0 <= i < attrs.len() ==> (#[trigger] attrs[i]).tag <= max_tag
}

/// `tags_within` holds of a run with one more attribute if it holds of the
/// run and of the attribute.
pub proof fn lemma_tags_within_push(attrs: Seq<AttributeView>, a: AttributeView, max_tag: u16)
    requires
        tags_within(attrs, max_tag),
        a.tag <= max_tag,
    ensures
        tags_within(attrs.push(a), max_tag),
{
    assert forall|i: int| 0 <= i < attrs.push(a).len() implies (#[trigger] attrs.push(a)[i]).tag
        <= max_tag by {
        if i < attrs.len() {
            assert(attrs.push(a)[i] == attrs[i]);
        }
    }
}

/// Whether a run can be encoded into at most `budget` octets for a reader
/// that knows the tags `1..=max_tag`.
pub open spec fn fits(attrs: Seq<AttributeView>, max_tag: u16, budget: int) -> bool {
    &&& all_wf(attrs)
    &&& tags_within(attrs, max_tag)
    &&& total_size(attrs) <= budget
}

/// The empty run fits any reader and any budget.
pub proof fn lemma_fits_empty(max_tag: u16)
    ensures
        fits(Seq::<AttributeView>::empty(), max_tag, 0),
{
}

/// A run that fits still fits with one more attribute behind it, in a
/// budget that is larger by the size of that attribute.
pub proof fn lemma_fits_with(
    attrs: Seq<AttributeView>,
    more: Option<AttributeView>,
    max_tag: u16,
    budget: int,
    extra: int,
)
    requires
        fits(attrs, max_tag, budget),
        extra >= 0,
        more is Some ==> more->0.wf() && more->0.tag <= max_tag && more->0.size() <= extra,
    ensures
        fits(with(attrs, more), max_tag, budget + extra),
{
    if more is Some {
        lemma_all_wf_push(attrs, more->0);
        lemma_tags_within_push(attrs, more->0, max_tag);
        lemma_encode_all_push(attrs, more->0);
    }
}

/// A run that fits is read back by the reader it fits.
pub proof fn lemma_fits_roundtrip(attrs: Seq<AttributeView>, max_tag: u16, budget: int)
    requires
        fits(attrs, max_tag, budget),
    ensures
        decode_spec(encode_all(attrs), max_tag) == Some(attrs),
        encode_all(attrs).len() == total_size(attrs),
        encode_all(attrs).len() <= budget,
{
    lemma_decode_encode(attrs, max_tag);
    lemma_encode_all_len(attrs);
}

/// A nested attribute whose children fit the payload is encodable, and its
/// size is that of its children and a header.
pub proof fn lemma_nest_wf(tag: u16, children: Seq<AttributeView>, max_tag: u16, budget: int)
    requires
        1 <= tag <= MAX_TAG,
        fits(children, max_tag, budget),
        budget <= MAX_PAYLOAD,
    ensures
        nest(tag, children).wf(),
        nest(tag, children).size() == HEADER_LEN + total_size(children),
        nest(tag, children).size() <= HEADER_LEN + budget,
{
    lemma_encode_all_len(children);
}

/// Looking any tag up in a run with one more attribute behind it, if there
/// is one: what stood in the run wins. Nothing is found in the empty run.
pub proof fn lemma_find_with(attrs: Seq<AttributeView>, more: Option<AttributeView>)
    ensures
        forall|tag: u16| #[trigger]
            find(with(attrs, more), tag) == if find(attrs, tag) is Some {
                find(attrs, tag)
            } else if more is Some && more->0.tag == tag {
                more
            } else {
                None
            },
        forall|tag: u16| #[trigger] find(Seq::<AttributeView>::empty(), tag) is None,
{
    assert forall|tag: u16| #[trigger]
        find(with(attrs, more), tag) == if find(attrs, tag) is Some {
            find(attrs, tag)
        } else if more is Some && more->0.tag == tag {
            more
        } else {
            None
        } by {
        if more is Some {
            lemma_find_push(attrs, more->0, tag);
        }
    }
}

} // verus!
