//! Little-endian integer framing helpers shared by every wire format of the crate.

use vstd::prelude::*;

verus! {

/// The two little-endian bytes of a `u16`.
pub open spec fn u16_le(x: u16) -> Seq<u8> {
    seq![(x & 0xff) as u8, ((x >> 8) & 0xff) as u8]
}

/// The four little-endian bytes of a `u32`.
pub open spec fn u32_le(x: u32) -> Seq<u8> {
    seq![
        (x & 0xff) as u8,
        ((x >> 8) & 0xff) as u8,
        ((x >> 16) & 0xff) as u8,
        ((x >> 24) & 0xff) as u8,
    ]
}

/// The eight little-endian bytes of a `u64`.
pub open spec fn u64_le(x: u64) -> Seq<u8> {
    seq![
        (x & 0xff) as u8,
        ((x >> 8) & 0xff) as u8,
        ((x >> 16) & 0xff) as u8,
        ((x >> 24) & 0xff) as u8,
        ((x >> 32) & 0xff) as u8,
        ((x >> 40) & 0xff) as u8,
        ((x >> 48) & 0xff) as u8,
        ((x >> 56) & 0xff) as u8,
    ]
}

/// The `u16` whose little-endian bytes start at `pos` in `s`.
pub open spec fn u16_at(s: Seq<u8>, pos: int) -> u16 {
    (s[pos] as u16) | ((s[pos + 1] as u16) << 8)
}

/// The `u32` whose little-endian bytes start at `pos` in `s`.
pub open spec fn u32_at(s: Seq<u8>, pos: int) -> u32 {
    (s[pos] as u32) | ((s[pos + 1] as u32) << 8) | ((s[pos + 2] as u32) << 16) | ((s[pos
        + 3] as u32) << 24)
}

/// The `u64` whose little-endian bytes start at `pos` in `s`.
pub open spec fn u64_at(s: Seq<u8>, pos: int) -> u64 {
    (s[pos] as u64) | ((s[pos + 1] as u64) << 8) | ((s[pos + 2] as u64) << 16) | ((s[pos
        + 3] as u64) << 24) | ((s[pos + 4] as u64) << 32) | ((s[pos + 5] as u64) << 40) | ((s[pos
        + 6] as u64) << 48) | ((s[pos + 7] as u64) << 56)
}

/// Reading back the bytes of a written `u16` gives the value.
pub proof fn lemma_u16_le_roundtrip(x: u16, s: Seq<u8>, pos: int)
    requires
        0 <= pos,
        pos + 2 <= s.len(),
        s.subrange(pos, pos + 2) == u16_le(x),
    ensures
        u16_at(s, pos) == x,
{
    assert(s[pos] == u16_le(x)[0]);
    assert(s[pos + 1] == u16_le(x)[1]);
    let b0 = s[pos];
    let b1 = s[pos + 1];
    assert(b0 == (x & 0xff) as u8 && b1 == ((x >> 8) & 0xff) as u8 ==> ((b0 as u16) | ((b1 as u16)
        << 8)) == x) by (bit_vector);
}

/// Reading back the bytes of a written `u32` gives the value.
pub proof fn lemma_u32_le_roundtrip(x: u32, s: Seq<u8>, pos: int)
    requires
        0 <= pos,
        pos + 4 <= s.len(),
        s.subrange(pos, pos + 4) == u32_le(x),
    ensures
        u32_at(s, pos) == x,
{
    assert(s[pos] == u32_le(x)[0]);
    assert(s[pos + 1] == u32_le(x)[1]);
    assert(s[pos + 2] == u32_le(x)[2]);
    assert(s[pos + 3] == u32_le(x)[3]);
    let b0 = s[pos];
    let b1 = s[pos + 1];
    let b2 = s[pos + 2];
    let b3 = s[pos + 3];
    assert(b0 == (x & 0xff) as u8 && b1 == ((x >> 8) & 0xff) as u8 && b2 == ((x >> 16) & 0xff) as u8
        && b3 == ((x >> 24) & 0xff) as u8 ==> ((b0 as u32) | ((b1 as u32) << 8) | ((b2 as u32)
        << 16) | ((b3 as u32) << 24)) == x) by (bit_vector);
}

/// Reading back the bytes of a written `u64` gives the value.
pub proof fn lemma_u64_le_roundtrip(x: u64, s: Seq<u8>, pos: int)
    requires
        0 <= pos,
        pos + 8 <= s.len(),
        s.subrange(pos, pos + 8) == u64_le(x),
    ensures
        u64_at(s, pos) == x,
{
    assert(s[pos] == u64_le(x)[0]);
    assert(s[pos + 1] == u64_le(x)[1]);
    assert(s[pos + 2] == u64_le(x)[2]);
    assert(s[pos + 3] == u64_le(x)[3]);
    assert(s[pos + 4] == u64_le(x)[4]);
    assert(s[pos + 5] == u64_le(x)[5]);
    assert(s[pos + 6] == u64_le(x)[6]);
    assert(s[pos + 7] == u64_le(x)[7]);
    let b0 = s[pos];
    let b1 = s[pos + 1];
    let b2 = s[pos + 2];
    let b3 = s[pos + 3];
    let b4 = s[pos + 4];
    let b5 = s[pos + 5];
    let b6 = s[pos + 6];
    let b7 = s[pos + 7];
    assert(b0 == (x & 0xff) as u8 && b1 == ((x >> 8) & 0xff) as u8 && b2 == ((x >> 16) & 0xff) as u8
        && b3 == ((x >> 24) & 0xff) as u8 && b4 == ((x >> 32) & 0xff) as u8 && b5 == ((x >> 40)
        & 0xff) as u8 && b6 == ((x >> 48) & 0xff) as u8 && b7 == ((x >> 56) & 0xff) as u8 ==> ((
    b0 as u64) | ((b1 as u64) << 8) | ((b2 as u64) << 16) | ((b3 as u64) << 24) | ((b4 as u64)
        << 32) | ((b5 as u64) << 40) | ((b6 as u64) << 48) | ((b7 as u64) << 56)) == x)
        by (bit_vector);
}

/// Appends the little-endian bytes of `x`.
pub fn push_u16_le(out: &mut Vec<u8>, x: u16)
    ensures
        final(out)@ == old(out)@ + u16_le(x),
{
    out.push((x & 0xff) as u8);
    out.push(((x >> 8) & 0xff) as u8);
    assert(out@ =~= old(out)@ + u16_le(x));
}

/// Appends the little-endian bytes of `x`.
pub fn push_u32_le(out: &mut Vec<u8>, x: u32)
    ensures
        final(out)@ == old(out)@ + u32_le(x),
{
    out.push((x & 0xff) as u8);
    out.push(((x >> 8) & 0xff) as u8);
    out.push(((x >> 16) & 0xff) as u8);
    out.push(((x >> 24) & 0xff) as u8);
    assert(out@ =~= old(out)@ + u32_le(x));
}

/// Appends the little-endian bytes of `x`.
pub fn push_u64_le(out: &mut Vec<u8>, x: u64)
    ensures
        final(out)@ == old(out)@ + u64_le(x),
{
    out.push((x & 0xff) as u8);
    out.push(((x >> 8) & 0xff) as u8);
    out.push(((x >> 16) & 0xff) as u8);
    out.push(((x >> 24) & 0xff) as u8);
    out.push(((x >> 32) & 0xff) as u8);
    out.push(((x >> 40) & 0xff) as u8);
    out.push(((x >> 48) & 0xff) as u8);
    out.push(((x >> 56) & 0xff) as u8);
    assert(out@ =~= old(out)@ + u64_le(x));
}

/// Reads the little-endian `u16` at `pos`.
pub fn read_u16_le(s: &[u8], pos: usize) -> (x: u16)
    requires
        pos + 2 <= s@.len(),
    ensures
        x == u16_at(s@, pos as int),
{
    (s[pos] as u16) | ((s[pos + 1] as u16) << 8)
}

/// Reads the little-endian `u32` at `pos`.
pub fn read_u32_le(s: &[u8], pos: usize) -> (x: u32)
    requires
        pos + 4 <= s@.len(),
    ensures
        x == u32_at(s@, pos as int),
{
    (s[pos] as u32) | ((s[pos + 1] as u32) << 8) | ((s[pos + 2] as u32) << 16) | ((s[pos
        + 3] as u32) << 24)
}

/// Reads the little-endian `u64` at `pos`.
pub fn read_u64_le(s: &[u8], pos: usize) -> (x: u64)
    requires
        pos + 8 <= s@.len(),
    ensures
        x == u64_at(s@, pos as int),
{
    (s[pos] as u64) | ((s[pos + 1] as u64) << 8) | ((s[pos + 2] as u64) << 16) | ((s[pos
        + 3] as u64) << 24) | ((s[pos + 4] as u64) << 32) | ((s[pos + 5] as u64) << 40) | ((s[pos
        + 6] as u64) << 48) | ((s[pos + 7] as u64) << 56)
}

/// Appends every byte of `src` to `out`.
pub fn append_bytes(out: &mut Vec<u8>, src: &[u8])
    ensures
        final(out)@ == old(out)@ + src@,
{
    let mut i: usize = 0;
    while i < src.len()
        invariant
            i <= src@.len(),
            out@ == old(out)@ + src@.subrange(0, i as int),
        decreases src@.len() - i,
    {
        out.push(src[i]);
        i = i + 1;
        assert(out@ =~= old(out)@ + src@.subrange(0, i as int));
    }
    assert(src@.subrange(0, src@.len() as int) =~= src@);
}

/// A fresh vector holding `src[start..end]`.
pub fn copy_range(src: &[u8], start: usize, end: usize) -> (out: Vec<u8>)
    requires
        start <= end <= src@.len(),
    ensures
        out@ == src@.subrange(start as int, end as int),
{
    let mut out: Vec<u8> = Vec::new();
    let mut i: usize = start;
    while i < end
        invariant
            start <= i <= end <= src@.len(),
            out@ == src@.subrange(start as int, i as int),
        decreases end - i,
    {
        out.push(src[i]);
        i = i + 1;
        assert(out@ =~= src@.subrange(start as int, i as int));
    }
    out
}

/// The first `n` values of `s`, copied.
pub fn copy_prefix_u16(s: &[u16], n: usize) -> (v: Vec<u16>)
    requires
        n <= s@.len(),
    ensures
        v@ == s@.take(n as int),
{
    let mut v: Vec<u16> = Vec::new();
    let mut i: usize = 0;
    while i < n
        invariant
            n <= s@.len(),
            i <= n,
            v@ == s@.take(i as int),
        decreases n - i,
    {
        v.push(s[i]);
        i = i + 1;
        assert(v@ =~= s@.take(i as int));
    }
    v
}

} // verus!
