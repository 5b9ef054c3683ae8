//! Big-endian encoding of fixed-width integers, as used by the on-disk
//! record and checkpoint formats.
use vstd::prelude::*;

verus! {

/// The four bytes of `x`, most significant first.
pub open spec fn be32(x: u32) -> Seq<u8> {
    seq![(x >> 24u32) as u8, (x >> 16u32) as u8, (x >> 8u32) as u8, x as u8]
}

/// The eight bytes of `x`, most significant first.
pub open spec fn be64(x: u64) -> Seq<u8> {
    seq![
        (x >> 56u64) as u8, (x >> 48u64) as u8, (x >> 40u64) as u8, (x >> 32u64) as u8,
        (x >> 24u64) as u8, (x >> 16u64) as u8, (x >> 8u64) as u8, x as u8,
    ]
}

pub open spec fn u32_of_parts(b0: u8, b1: u8, b2: u8, b3: u8) -> u32 {
    ((b0 as u32) << 24u32) | ((b1 as u32) << 16u32) | ((b2 as u32) << 8u32) | (b3 as u32)
}

pub open spec fn u64_of_parts(b0: u8, b1: u8, b2: u8, b3: u8, b4: u8, b5: u8, b6: u8, b7: u8) -> u64 {
    ((b0 as u64) << 56u64) | ((b1 as u64) << 48u64) | ((b2 as u64) << 40u64) | ((b3 as u64) << 32u64)
        | ((b4 as u64) << 24u64) | ((b5 as u64) << 16u64) | ((b6 as u64) << 8u64) | (b7 as u64)
}

/// The `u32` whose big-endian bytes start at `pos` in `s`.
pub open spec fn from_be32(s: Seq<u8>, pos: int) -> u32 {
    u32_of_parts(s[pos], s[pos + 1], s[pos + 2], s[pos + 3])
}

/// The `u64` whose big-endian bytes start at `pos` in `s`.
pub open spec fn from_be64(s: Seq<u8>, pos: int) -> u64 {
    u64_of_parts(s[pos], s[pos + 1], s[pos + 2], s[pos + 3], s[pos + 4], s[pos + 5], s[pos + 6], s[pos + 7])
}

proof fn lemma_u32_parts(x: u32)
    ensures
        u32_of_parts((x >> 24u32) as u8, (x >> 16u32) as u8, (x >> 8u32) as u8, x as u8) == x,
{
    assert(u32_of_parts((x >> 24u32) as u8, (x >> 16u32) as u8, (x >> 8u32) as u8, x as u8) == x)
        by (bit_vector);
}

proof fn lemma_u64_parts(x: u64)
    ensures
        u64_of_parts(
            (x >> 56u64) as u8, (x >> 48u64) as u8, (x >> 40u64) as u8, (x >> 32u64) as u8,
            (x >> 24u64) as u8, (x >> 16u64) as u8, (x >> 8u64) as u8, x as u8,
        ) == x,
{
    assert(u64_of_parts(
        (x >> 56u64) as u8, (x >> 48u64) as u8, (x >> 40u64) as u8, (x >> 32u64) as u8,
        (x >> 24u64) as u8, (x >> 16u64) as u8, (x >> 8u64) as u8, x as u8,
    ) == x) by (bit_vector);
}

/// Reading back the four bytes of `x` gives `x`.
pub proof fn lemma_be32_roundtrip(x: u32, prefix: Seq<u8>, suffix: Seq<u8>)
    ensures
        from_be32(prefix + be32(x) + suffix, prefix.len() as int) == x,
{
    let s = prefix + be32(x) + suffix;
    let p = prefix.len() as int;
    assert(s[p] == be32(x)[0]);
    assert(s[p + 1] == be32(x)[1]);
    assert(s[p + 2] == be32(x)[2]);
    assert(s[p + 3] == be32(x)[3]);
    lemma_u32_parts(x);
}

/// Reading back the eight bytes of `x` gives `x`.
pub proof fn lemma_be64_roundtrip(x: u64, prefix: Seq<u8>, suffix: Seq<u8>)
    ensures
        from_be64(prefix + be64(x) + suffix, prefix.len() as int) == x,
{
    let s = prefix + be64(x) + suffix;
    let p = prefix.len() as int;
    assert(s[p] == be64(x)[0]);
    assert(s[p + 1] == be64(x)[1]);
    assert(s[p + 2] == be64(x)[2]);
    assert(s[p + 3] == be64(x)[3]);
    assert(s[p + 4] == be64(x)[4]);
    assert(s[p + 5] == be64(x)[5]);
    assert(s[p + 6] == be64(x)[6]);
    assert(s[p + 7] == be64(x)[7]);
    lemma_u64_parts(x);
}

/// The four bytes of `x` at `p` read back as `x`.
pub proof fn lemma_be32_at(s: Seq<u8>, p: int, x: u32)
    requires
        0 <= p,
        p + 4 <= s.len(),
        s.subrange(p, p + 4) == be32(x),
    ensures
        from_be32(s, p) == x,
{
    assert(s[p] == s.subrange(p, p + 4)[0]);
    assert(s[p + 1] == s.subrange(p, p + 4)[1]);
    assert(s[p + 2] == s.subrange(p, p + 4)[2]);
    assert(s[p + 3] == s.subrange(p, p + 4)[3]);
    lemma_u32_parts(x);
}

/// The eight bytes of `x` at `p` read back as `x`.
pub proof fn lemma_be64_at(s: Seq<u8>, p: int, x: u64)
    requires
        0 <= p,
        p + 8 <= s.len(),
        s.subrange(p, p + 8) == be64(x),
    ensures
        from_be64(s, p) == x,
{
    let t = s.subrange(p, p + 8);
    assert(s[p] == t[0]);
    assert(s[p + 1] == t[1]);
    assert(s[p + 2] == t[2]);
    assert(s[p + 3] == t[3]);
    assert(s[p + 4] == t[4]);
    assert(s[p + 5] == t[5]);
    assert(s[p + 6] == t[6]);
    assert(s[p + 7] == t[7]);
    lemma_u64_parts(x);
}

/// Appends the big-endian bytes of `x`.
pub fn push_be32(v: &mut Vec<u8>, x: u32)
    ensures
        final(v)@ == old(v)@ + be32(x),
{
    v.push((x >> 24u32) as u8);
    v.push((x >> 16u32) as u8);
    v.push((x >> 8u32) as u8);
    v.push(x as u8);
    assert(final(v)@ =~= old(v)@ + be32(x));
}

/// Appends the big-endian bytes of `x`.
pub fn push_be64(v: &mut Vec<u8>, x: u64)
    ensures
        final(v)@ == old(v)@ + be64(x),
{
    v.push((x >> 56u64) as u8);
    v.push((x >> 48u64) as u8);
    v.push((x >> 40u64) as u8);
    v.push((x >> 32u64) as u8);
    v.push((x >> 24u64) as u8);
    v.push((x >> 16u64) as u8);
    v.push((x >> 8u64) as u8);
    v.push(x as u8);
    assert(final(v)@ =~= old(v)@ + be64(x));
}

/// The `u32` stored big-endian at `pos`.
pub fn read_be32(b: &[u8], pos: usize) -> (r: u32)
    requires
        pos + 4 <= b@.len(),
    ensures
        r == from_be32(b@, pos as int),
{
    ((b[pos] as u32) << 24u32) | ((b[pos + 1] as u32) << 16u32) | ((b[pos + 2] as u32) << 8u32)
        | (b[pos + 3] as u32)
}

/// The `u64` stored big-endian at `pos`.
pub fn read_be64(b: &[u8], pos: usize) -> (r: u64)
    requires
        pos + 8 <= b@.len(),
    ensures
        r == from_be64(b@, pos as int),
{
    ((b[pos] as u64) << 56u64) | ((b[pos + 1] as u64) << 48u64) | ((b[pos + 2] as u64) << 40u64)
        | ((b[pos + 3] as u64) << 32u64) | ((b[pos + 4] as u64) << 24u64) | ((b[pos + 5] as u64)
        << 16u64) | ((b[pos + 6] as u64) << 8u64) | (b[pos + 7] as u64)
}

} // verus!
