//! Big-endian fixed-width integers on the wire.

use vstd::prelude::*;

verus! {

/// The four bytes of `x`, most significant first.
pub open spec fn be32(x: u32) -> Seq<u8> {
    seq![(x >> 24u32) as u8, (x >> 16u32) as u8, (x >> 8u32) as u8, x as u8]
}

/// The eight bytes of `x`, most significant first.
pub open spec fn be64(x: u64) -> Seq<u8> {
    seq![
        (x >> 56u64) as u8,
        (x >> 48u64) as u8,
        (x >> 40u64) as u8,
        (x >> 32u64) as u8,
        (x >> 24u64) as u8,
        (x >> 16u64) as u8,
        (x >> 8u64) as u8,
        x as u8,
    ]
}

/// The big-endian value of the four bytes of `s` at `i`.
pub open spec fn be32_at(s: Seq<u8>, i: int) -> nat {
    (s[i] as nat) * 0x100_0000 + (s[i + 1] as nat) * 0x1_0000 + (s[i + 2] as nat) * 0x100 + (s[i
        + 3] as nat)
}

/// The big-endian value of the eight bytes of `s` at `i`.
pub open spec fn be64_at(s: Seq<u8>, i: int) -> nat {
    be32_at(s, i) * 0x1_0000_0000 + be32_at(s, i + 4)
}

/// Reading back the bytes of `be32(x)` gives `x`.
pub proof fn lemma_be32_roundtrip(x: u32, s: Seq<u8>, i: int)
    requires
        0 <= i,
        i + 4 <= s.len(),
        s.subrange(i, i + 4) == be32(x),
    ensures
        be32_at(s, i) == x,
{
    assert(s[i] == s.subrange(i, i + 4)[0]);
    assert(s[i + 1] == s.subrange(i, i + 4)[1]);
    assert(s[i + 2] == s.subrange(i, i + 4)[2]);
    assert(s[i + 3] == s.subrange(i, i + 4)[3]);
    let b0 = (x >> 24u32) as u8;
    let b1 = (x >> 16u32) as u8;
    let b2 = (x >> 8u32) as u8;
    let b3 = x as u8;
    assert((b0 as int) * 0x100_0000 + (b1 as int) * 0x1_0000 + (b2 as int) * 0x100 + (b3 as int)
        == x) by (bit_vector)
        requires
            b0 == (x >> 24u32) as u8,
            b1 == (x >> 16u32) as u8,
            b2 == (x >> 8u32) as u8,
            b3 == x as u8,
    ;
}

/// Reading back the bytes of `be64(x)` gives `x`.
pub proof fn lemma_be64_roundtrip(x: u64, s: Seq<u8>, i: int)
    requires
        0 <= i,
        i + 8 <= s.len(),
        s.subrange(i, i + 8) == be64(x),
    ensures
        be64_at(s, i) == x,
{
    let hi = (x >> 32u64) as u32;
    let lo = x as u32;
    assert(s.subrange(i, i + 4) =~= be32(hi)) by {
        assert((x >> 56u64) as u8 == (hi >> 24u32) as u8) by (bit_vector)
            requires
                hi == (x >> 32u64) as u32,
        ;
        assert((x >> 48u64) as u8 == (hi >> 16u32) as u8) by (bit_vector)
            requires
                hi == (x >> 32u64) as u32,
        ;
        assert((x >> 40u64) as u8 == (hi >> 8u32) as u8) by (bit_vector)
            requires
                hi == (x >> 32u64) as u32,
        ;
        assert((x >> 32u64) as u8 == hi as u8) by (bit_vector)
            requires
                hi == (x >> 32u64) as u32,
        ;
        assert(s.subrange(i, i + 8)[0] == s[i]);
        assert(s.subrange(i, i + 8)[1] == s[i + 1]);
        assert(s.subrange(i, i + 8)[2] == s[i + 2]);
        assert(s.subrange(i, i + 8)[3] == s[i + 3]);
    }
    assert(s.subrange(i + 4, i + 8) =~= be32(lo)) by {
        assert((x >> 24u64) as u8 == (lo >> 24u32) as u8) by (bit_vector)
            requires
                lo == x as u32,
        ;
        assert((x >> 16u64) as u8 == (lo >> 16u32) as u8) by (bit_vector)
            requires
                lo == x as u32,
        ;
        assert((x >> 8u64) as u8 == (lo >> 8u32) as u8) by (bit_vector)
            requires
                lo == x as u32,
        ;
        assert(x as u8 == lo as u8) by (bit_vector)
            requires
                lo == x as u32,
        ;
        assert(s.subrange(i, i + 8)[4] == s[i + 4]);
        assert(s.subrange(i, i + 8)[5] == s[i + 5]);
        assert(s.subrange(i, i + 8)[6] == s[i + 6]);
        assert(s.subrange(i, i + 8)[7] == s[i + 7]);
    }
    lemma_be32_roundtrip(hi, s, i);
    lemma_be32_roundtrip(lo, s, i + 4);
    assert((hi as int) * 0x1_0000_0000 + lo as int == x as int) by (bit_vector)
        requires
            hi == (x >> 32u64) as u32,
            lo == x as u32,
    ;
}

/// Append the four bytes of `x`, most significant first.
pub fn push_be32(buf: &mut Vec<u8>, x: u32)
    ensures
        final(buf)@ == old(buf)@ + be32(x),
{
    buf.push((x >> 24u32) as u8);
    buf.push((x >> 16u32) as u8);
    buf.push((x >> 8u32) as u8);
    buf.push(x as u8);
    assert(buf@ =~= old(buf)@ + be32(x));
}

/// Append the eight bytes of `x`, most significant first.
pub fn push_be64(buf: &mut Vec<u8>, x: u64)
    ensures
        final(buf)@ == old(buf)@ + be64(x),
{
    buf.push((x >> 56u64) as u8);
    buf.push((x >> 48u64) as u8);
    buf.push((x >> 40u64) as u8);
    buf.push((x >> 32u64) as u8);
    buf.push((x >> 24u64) as u8);
    buf.push((x >> 16u64) as u8);
    buf.push((x >> 8u64) as u8);
    buf.push(x as u8);
    assert(buf@ =~= old(buf)@ + be64(x));
}

/// The big-endian value of the four bytes of `data` at `pos`.
pub fn read_be32(data: &[u8], pos: usize) -> (x: u32)
    requires
        pos + 4 <= data@.len(),
    ensures
        x == be32_at(data@, pos as int),
{
    let b0 = data[pos] as u32;
    let b1 = data[pos + 1] as u32;
    let b2 = data[pos + 2] as u32;
    let b3 = data[pos + 3] as u32;
    assert(b0 * 0x100_0000 + b1 * 0x1_0000 + b2 * 0x100 + b3 <= 0xffff_ffff) by (nonlinear_arith)
        requires
            b0 < 256,
            b1 < 256,
            b2 < 256,
            b3 < 256,
    ;
    b0 * 0x100_0000 + b1 * 0x1_0000 + b2 * 0x100 + b3
}

/// The big-endian value of the eight bytes of `data` at `pos`.
pub fn read_be64(data: &[u8], pos: usize) -> (x: u64)
    requires
        pos + 8 <= data@.len(),
    ensures
        x == be64_at(data@, pos as int),
{
    let n = data.len();
    assert(pos + 4 < n);
    let hi = read_be32(data, pos) as u64;
    let lo = read_be32(data, pos + 4) as u64;
    assert(hi * 0x1_0000_0000 + lo <= 0xffff_ffff_ffff_ffff) by (nonlinear_arith)
        requires
            hi <= 0xffff_ffff,
            lo <= 0xffff_ffff,
    ;
    hi * 0x1_0000_0000 + lo
}

} // verus!
