//! Little-endian integers in byte sequences, stated as arithmetic.

use vstd::prelude::*;

verus! {

/// The 16-bit number that two bytes at `at` spell, low byte first.
pub open spec fn u16_at(s: Seq<u8>, at: int) -> u16
    recommends
        0 <= at,
        at + 2 <= s.len(),
{
    (s[at] as int + 256 * (s[at + 1] as int)) as u16
}

/// The 32-bit number that four bytes at `at` spell, low byte first.
pub open spec fn u32_at(s: Seq<u8>, at: int) -> u32
    recommends
        0 <= at,
        at + 4 <= s.len(),
{
    (s[at] as int + 256 * (s[at + 1] as int) + 65536 * (s[at + 2] as int) + 16777216 * (s[at
        + 3] as int)) as u32
}

/// The two bytes of `x`, low byte first.
pub open spec fn u16_bytes(x: u16) -> Seq<u8> {
    seq![(x % 256) as u8, (x / 256) as u8]
}

/// The four bytes of `x`, low byte first.
pub open spec fn u32_bytes(x: u32) -> Seq<u8> {
    seq![
        (x % 256) as u8,
        ((x / 256) % 256) as u8,
        ((x / 65536) % 256) as u8,
        (x / 16777216) as u8,
    ]
}

/// Where the two bytes of `x` stand at `at`, `x` is read there.
pub proof fn lemma_u16_at_its_bytes(s: Seq<u8>, at: int, x: u16)
    requires
        0 <= at,
        at + 2 <= s.len(),
        s[at] == u16_bytes(x)[0],
        s[at + 1] == u16_bytes(x)[1],
    ensures
        u16_at(s, at) == x,
{
}

/// Where the four bytes of `x` stand at `at`, `x` is read there.
pub proof fn lemma_u32_at_its_bytes(s: Seq<u8>, at: int, x: u32)
    requires
        0 <= at,
        at + 4 <= s.len(),
        s[at] == u32_bytes(x)[0],
        s[at + 1] == u32_bytes(x)[1],
        s[at + 2] == u32_bytes(x)[2],
        s[at + 3] == u32_bytes(x)[3],
    ensures
        u32_at(s, at) == x,
{
}

/// A number is read from its own bytes: it is the same in every stretch of
/// the sequence that holds them.
pub proof fn lemma_u16_at_in_subrange(s: Seq<u8>, from: int, to: int, at: int)
    requires
        0 <= from <= to <= s.len(),
        0 <= at,
        from + at + 2 <= to,
    ensures
        u16_at(s.subrange(from, to), at) == u16_at(s, from + at),
{
    let t = s.subrange(from, to);
    assert(t[at] == s[from + at]);
    assert(t[at + 1] == s[from + at + 1]);
}

/// A number is read from its own bytes: it is the same in every stretch of
/// the sequence that holds them.
pub proof fn lemma_u32_at_in_subrange(s: Seq<u8>, from: int, to: int, at: int)
    requires
        0 <= from <= to <= s.len(),
        0 <= at,
        from + at + 4 <= to,
    ensures
        u32_at(s.subrange(from, to), at) == u32_at(s, from + at),
{
    let t = s.subrange(from, to);
    assert(t[at] == s[from + at]);
    assert(t[at + 1] == s[from + at + 1]);
    assert(t[at + 2] == s[from + at + 2]);
    assert(t[at + 3] == s[from + at + 3]);
}

/// Reads the 16-bit number at `at`.
pub(crate) fn read_u16(s: &[u8], at: usize) -> (x: u16)
    requires
        at + 2 <= s@.len(),
    ensures
        x == u16_at(s@, at as int),
{
    let b0: u16 = s[at] as u16;
    let b1: u16 = s[at + 1] as u16;
    b0 + 256 * b1
}

/// Reads the 32-bit number at `at`.
pub(crate) fn read_u32(s: &[u8], at: usize) -> (x: u32)
    requires
        at + 4 <= s@.len(),
    ensures
        x == u32_at(s@, at as int),
{
    let b0: u32 = s[at] as u32;
    let b1: u32 = s[at + 1] as u32;
    let b2: u32 = s[at + 2] as u32;
    let b3: u32 = s[at + 3] as u32;
    b0 + 256 * b1 + 65536 * b2 + 16777216 * b3
}

/// Appends the two bytes of `x`.
pub(crate) fn write_u16(out: &mut Vec<u8>, x: u16)
    ensures
        final(out)@ == old(out)@ + u16_bytes(x),
{
    out.push((x % 256) as u8);
    out.push((x / 256) as u8);
    assert(out@ =~= old(out)@ + u16_bytes(x));
}

/// Appends the four bytes of `x`.
pub(crate) fn write_u32(out: &mut Vec<u8>, x: u32)
    ensures
        final(out)@ == old(out)@ + u32_bytes(x),
{
    out.push((x % 256) as u8);
    out.push(((x / 256) % 256) as u8);
    out.push(((x / 65536) % 256) as u8);
    out.push((x / 16777216) as u8);
    assert(out@ =~= old(out)@ + u32_bytes(x));
}

/// Appends a copy of `src`.
pub(crate) fn write_all(out: &mut Vec<u8>, src: &[u8])
    ensures
        final(out)@ == old(out)@ + src@,
{
    let mut i: usize = 0;
    while i < src.len()
        invariant
            i <= src@.len(),
            out@ == old(out)@ + src@.subrange(0, i as int),
        decreases src@.len() - i,
    {
        out.push(src[i]);
        i = i + 1;
        assert(out@ =~= old(out)@ + src@.subrange(0, i as int));
    }
    assert(src@.subrange(0, i as int) =~= src@);
}

/// A copy of the bytes of `src` from `from` up to `to`.
pub(crate) fn copy_range(src: &[u8], from: usize, to: usize) -> (out: Vec<u8>)
    requires
        from <= to <= src@.len(),
    ensures
        out@ == src@.subrange(from as int, to as int),
{
    let mut out: Vec<u8> = Vec::new();
    let mut i: usize = from;
    while i < to
        invariant
            from <= i <= to,
            to <= src@.len(),
            out@ == src@.subrange(from as int, i as int),
        decreases to - i,
    {
        out.push(src[i]);
        i = i + 1;
        assert(out@ =~= src@.subrange(from as int, i as int));
    }
    out
}

} // verus!
