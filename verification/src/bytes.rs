//! Integers as octets, in the two byte orders that netlink uses: the header
//! of a message is in little-endian order, the values that ipset and
//! nftables carry in attributes are in network (big-endian) order.

use vstd::prelude::*;

verus! {

/// The two octets of `x`, least significant first.
#[verifier::opaque]
pub open spec fn le16(x: u16) -> Seq<u8> {
    seq![(x % 256) as u8, (x / 256) as u8]
}

/// The number whose octets, least significant first, stand at `i` and
/// `i + 1`.
pub open spec fn le16_at(s: Seq<u8>, i: int) -> u16 {
    (s[i] as int + 256 * (s[i + 1] as int)) as u16
}

/// The four octets of `x`, least significant first.
#[verifier::opaque]
pub open spec fn le32(x: u32) -> Seq<u8> {
    seq![
        (x % 256) as u8,
        ((x / 256) % 256) as u8,
        ((x / 65536) % 256) as u8,
        (x / 16777216) as u8,
    ]
}

/// The number whose octets, least significant first, stand at `i` to
/// `i + 3`.
pub open spec fn le32_at(s: Seq<u8>, i: int) -> u32 {
    (s[i] as int + 256 * (s[i + 1] as int) + 65536 * (s[i + 2] as int) + 16777216 * (s[i
        + 3] as int)) as u32
}

/// The four octets of `x`, most significant first.
#[verifier::opaque]
pub open spec fn be32(x: u32) -> Seq<u8> {
    seq![
        (x / 16777216) as u8,
        ((x / 65536) % 256) as u8,
        ((x / 256) % 256) as u8,
        (x % 256) as u8,
    ]
}

/// The number that four octets spell, most significant first.
pub open spec fn be32_of(s: Seq<u8>) -> u32 {
    (16777216 * (s[0] as int) + 65536 * (s[1] as int) + 256 * (s[2] as int) + s[3] as int) as u32
}

/// Two octets written least significant first are read back.
pub proof fn lemma_le16(x: u16)
    ensures
        le16(x).len() == 2,
        le16_at(le16(x), 0) == x,
{
    reveal(le16);
}

/// Four octets written least significant first are read back.
pub proof fn lemma_le32(x: u32)
    ensures
        le32(x).len() == 4,
        le32_at(le32(x), 0) == x,
{
    reveal(le32);
}

/// Four octets written most significant first are read back.
pub proof fn lemma_be32(x: u32)
    ensures
        be32(x).len() == 4,
        be32_of(be32(x)) == x,
{
    reveal(be32);
}

/// The signed number that an unsigned one stands for in two's complement.
pub open spec fn signed(x: u32) -> i32 {
    if x < 0x8000_0000 {
        x as i32
    } else {
        (x - 0x1_0000_0000) as i32
    }
}

/// The unsigned number that stands for a signed one in two's complement.
pub open spec fn unsigned(x: i32) -> u32 {
    if x >= 0 {
        x as u32
    } else {
        (x + 0x1_0000_0000) as u32
    }
}

/// The last `n` octets of the number `x`, most significant first.
pub open spec fn be_octets(x: nat, n: nat) -> Seq<u8>
    decreases n,
{
    if n == 0 {
        Seq::empty()
    } else {
        be_octets(x / 256, (n - 1) as nat).push((x % 256) as u8)
    }
}

/// The number that a run of octets spells, most significant first.
pub open spec fn be_number(s: Seq<u8>) -> nat
    decreases s.len(),
{
    if s.len() == 0 {
        0
    } else {
        be_number(s.drop_last()) * 256 + s.last() as nat
    }
}

/// The sixteen octets of `x`, most significant first.
pub open spec fn be128(x: u128) -> Seq<u8> {
    be_octets(x as nat, 16)
}

/// `256` to the power `n`.
pub open spec fn pow256(n: nat) -> nat
    decreases n,
{
    if n == 0 {
        1
    } else {
        256 * pow256((n - 1) as nat)
    }
}

/// `be_octets` yields `n` octets.
pub proof fn lemma_be_octets_len(x: nat, n: nat)
    ensures
        be_octets(x, n).len() == n,
    decreases n,
{
    if n > 0 {
        lemma_be_octets_len(x / 256, (n - 1) as nat);
    }
}

/// Reading back what `be_octets` wrote gives the number, as far as it fits
/// in `n` octets.
pub proof fn lemma_be_number_of_octets(x: nat, n: nat)
    requires
        x < pow256(n),
    ensures
        be_number(be_octets(x, n)) == x,
    decreases n,
{
    if n > 0 {
        let rest = be_octets(x / 256, (n - 1) as nat);
        let s = be_octets(x, n);
        assert(s.drop_last() =~= rest);
        assert(x / 256 < pow256((n - 1) as nat)) by {
            assert(pow256(n) == 256 * pow256((n - 1) as nat));
        }
        lemma_be_number_of_octets(x / 256, (n - 1) as nat);
    }
}

/// A run of `n` octets spells a number below `256` to the `n`.
pub proof fn lemma_be_number_bound(s: Seq<u8>)
    ensures
        be_number(s) < pow256(s.len()),
    decreases s.len(),
{
    if s.len() > 0 {
        lemma_be_number_bound(s.drop_last());
        assert(pow256(s.len()) == 256 * pow256((s.len() - 1) as nat));
    }
}

/// Sixteen octets hold every `u128`.
pub proof fn lemma_pow256_16()
    ensures
        pow256(16) == 0x1_0000_0000_0000_0000_0000_0000_0000_0000,
{
    reveal_with_fuel(pow256, 17);
}

/// Appends the two octets of `x`, least significant first.
pub fn put_le16(buf: &mut Vec<u8>, x: u16)
    ensures
        final(buf)@ == old(buf)@ + le16(x),
{
    buf.push((x % 256) as u8);
    buf.push((x / 256) as u8);
    reveal(le16);
    assert(buf@ =~= old(buf)@ + le16(x));
}

/// Appends the four octets of `x`, least significant first.
pub fn put_le32(buf: &mut Vec<u8>, x: u32)
    ensures
        final(buf)@ == old(buf)@ + le32(x),
{
    buf.push((x % 256) as u8);
    buf.push(((x / 256) % 256) as u8);
    buf.push(((x / 65536) % 256) as u8);
    buf.push((x / 16777216) as u8);
    reveal(le32);
    assert(buf@ =~= old(buf)@ + le32(x));
}

/// Reads two octets at `i`, least significant first.
pub fn get_le16(s: &[u8], i: usize) -> (x: u16)
    requires
        i + 2 <= s@.len(),
    ensures
        x == le16_at(s@, i as int),
{
    let lo: u16 = s[i] as u16;
    let hi: u16 = s[i + 1] as u16;
    lo + 256 * hi
}

/// Reads four octets at `i`, least significant first.
pub fn get_le32(s: &[u8], i: usize) -> (x: u32)
    requires
        i + 4 <= s@.len(),
    ensures
        x == le32_at(s@, i as int),
{
    let b0: u32 = s[i] as u32;
    let b1: u32 = s[i + 1] as u32;
    let b2: u32 = s[i + 2] as u32;
    let b3: u32 = s[i + 3] as u32;
    b0 + 256 * b1 + 65536 * b2 + 16777216 * b3
}

/// Appends the octets of `src`.
pub fn put_all(buf: &mut Vec<u8>, src: &[u8])
    ensures
        final(buf)@ == old(buf)@ + src@,
{
    let n = src.len();
    let mut i: usize = 0;
    while i < n
        invariant
            n == src@.len(),
            i <= n,
            buf@ == old(buf)@ + src@.subrange(0, i as int),
        decreases n - i,
    {
        buf.push(src[i]);
        i += 1;
        assert(buf@ =~= old(buf)@ + src@.subrange(0, i as int));
    }
    assert(src@.subrange(0, n as int) =~= src@);
}

/// Appends `n` zero octets.
pub fn put_zeros(buf: &mut Vec<u8>, n: usize)
    ensures
        final(buf)@ == old(buf)@ + Seq::new(n as nat, |i: int| 0u8),
{
    let mut i: usize = 0;
    while i < n
        invariant
            i <= n,
            buf@ == old(buf)@ + Seq::new(i as nat, |k: int| 0u8),
        decreases n - i,
    {
        buf.push(0);
        i += 1;
        assert(buf@ =~= old(buf)@ + Seq::new(i as nat, |k: int| 0u8));
    }
}

/// The octets of `s` from `from` up to `to`, as a vector.
pub fn copy_range(s: &[u8], from: usize, to: usize) -> (v: Vec<u8>)
    requires
        from <= to <= s@.len(),
    ensures
        v@ == s@.subrange(from as int, to as int),
{
    let mut v: Vec<u8> = Vec::new();
    let mut i: usize = from;
    while i < to
        invariant
            from <= i <= to <= s@.len(),
            v@ == s@.subrange(from as int, i as int),
        decreases to - i,
    {
        v.push(s[i]);
        i += 1;
        assert(v@ =~= s@.subrange(from as int, i as int));
    }
    v
}

/// The four octets of `x`, most significant first.
pub fn be32_vec(x: u32) -> (v: Vec<u8>)
    ensures
        v@ == be32(x),
{
    let mut v: Vec<u8> = Vec::new();
    v.push((x / 16777216) as u8);
    v.push(((x / 65536) % 256) as u8);
    v.push(((x / 256) % 256) as u8);
    v.push((x % 256) as u8);
    reveal(be32);
    assert(v@ =~= be32(x));
    v
}

/// Reads a number from exactly four octets, most significant first.
pub fn get_be32(s: &[u8]) -> (x: u32)
    requires
        s@.len() == 4,
    ensures
        x == be32_of(s@),
{
    let b0: u32 = s[0] as u32;
    let b1: u32 = s[1] as u32;
    let b2: u32 = s[2] as u32;
    let b3: u32 = s[3] as u32;
    16777216 * b0 + 65536 * b1 + 256 * b2 + b3
}

/// The sixteen octets of `x`, most significant first.
pub fn be128_vec(x: u128) -> (v: Vec<u8>)
    ensures
        v@ == be128(x),
{
    let mut v: Vec<u8> = Vec::new();
    let mut i: usize = 0;
    let mut rest: u128 = x;
    // Octets come out least significant first; they are put in place from
    // the back.
    while i < 16
        invariant
            i <= 16,
            v@.len() == i,
            be_octets(rest as nat, (16 - i) as nat) + v@ == be128(x),
        decreases 16 - i,
    {
        let octet = (rest % 256) as u8;
        proof {
            let n = (16 - i) as nat;
            assert(be_octets(rest as nat, n) == be_octets(rest as nat / 256, (n - 1) as nat).push(
                octet,
            ));
            assert(be_octets(rest as nat / 256, (n - 1) as nat).push(octet) + v@ =~= be_octets(
                rest as nat / 256,
                (n - 1) as nat,
            ) + (seq![octet] + v@));
        }
        let ghost before = v@;
        v.insert(0, octet);
        assert(v@ =~= seq![octet] + before);
        rest = rest / 256;
        i += 1;
    }
    assert(be_octets(rest as nat, 0) + v@ =~= v@);
    v
}

/// Reads a number from exactly sixteen octets, most significant first.
pub fn get_be128(s: &[u8]) -> (x: u128)
    requires
        s@.len() == 16,
    ensures
        x == be_number(s@),
{
    let mut x: u128 = 0;
    let mut i: usize = 0;
    while i < 16
        invariant
            i <= 16,
            s@.len() == 16,
            x == be_number(s@.subrange(0, i as int)),
        decreases 16 - i,
    {
        proof {
            let prefix = s@.subrange(0, i as int + 1);
            assert(prefix.drop_last() =~= s@.subrange(0, i as int));
            assert(prefix.last() == s@[i as int]);
            lemma_be_number_bound(s@.subrange(0, i as int));
            lemma_be_number_bound(prefix);
            lemma_pow256_mono(prefix.len(), 16);
            lemma_pow256_16();
        }
        x = x * 256 + s[i] as u128;
        i += 1;
    }
    assert(s@.subrange(0, 16) =~= s@);
    x
}

/// `pow256` grows with its argument.
pub proof fn lemma_pow256_mono(a: nat, b: nat)
    requires
        a <= b,
    ensures
        pow256(a) <= pow256(b),
        pow256(a) > 0,
    decreases b,
{
    if a == 0 {
        if b > 0 {
            lemma_pow256_mono(0, (b - 1) as nat);
        }
    } else if a < b {
        lemma_pow256_mono(a, (b - 1) as nat);
    } else {
        lemma_pow256_mono((a - 1) as nat, (b - 1) as nat);
    }
}

} // verus!
