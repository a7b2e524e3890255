//! QUIC variable-length integers (RFC 9000, section 16).

use vstd::prelude::*;
use crate::error::ParseError;

verus! {

/// The largest value that the encoding carries without loss (2^62 - 1).
pub const VARINT_MAX: u64 = 0x3fff_ffff_ffff_ffff;

/// Number of bytes of an encoding whose first byte is `b`: 1, 2, 4 or 8 by its two high bits.
pub open spec fn spec_varint_len(b: u8) -> nat {
    if b >> 6u8 == 0 {
        1
    } else if b >> 6u8 == 1 {
        2
    } else if b >> 6u8 == 2 {
        4
    } else {
        8
    }
}

/// Big-endian value of the bytes `s` appended to the high part `acc`.
pub open spec fn be_value(acc: int, s: Seq<u8>) -> int
    decreases s.len(),
{
    if s.len() == 0 {
        acc
    } else {
        be_value(acc, s.drop_last()) * 256 + s.last()
    }
}

/// The encoding that `write_varint` produces for `v`.
pub open spec fn spec_varint_encode(v: u64) -> Seq<u8> {
    if v < 64 {
        seq![v as u8]
    } else if v < 16384 {
        seq![0x40u8 | ((v >> 8u64) as u8), v as u8]
    } else if v < 1073741824 {
        seq![0x80u8 | ((v >> 24u64) as u8), (v >> 16u64) as u8, (v >> 8u64) as u8, v as u8]
    } else {
        seq![
            0xC0u8 | ((v >> 56u64) as u8),
            (v >> 48u64) as u8,
            (v >> 40u64) as u8,
            (v >> 32u64) as u8,
            (v >> 24u64) as u8,
            (v >> 16u64) as u8,
            (v >> 8u64) as u8,
            v as u8,
        ]
    }
}

/// The value and length of the varint at the start of `s`, or `None` when `s` holds only part of it.
pub open spec fn spec_varint_decode(s: Seq<u8>) -> Option<(u64, nat)> {
    if s.len() == 0 {
        None
    } else {
        let n = spec_varint_len(s[0]);
        if s.len() < n {
            None
        } else {
            Some((be_value((s[0] & 0x3fu8) as int, s.subrange(1, n as int)) as u64, n))
        }
    }
}

/// Size in bytes of the encoding of `v`.
pub open spec fn spec_varint_size(v: u64) -> nat {
    if v < 64 {
        1
    } else if v < 16384 {
        2
    } else if v < 1073741824 {
        4
    } else {
        8
    }
}

proof fn lemma_be_value_push(acc: int, s: Seq<u8>, b: u8)
    ensures
        be_value(acc, s.push(b)) == be_value(acc, s) * 256 + b,
{
    assert(s.push(b).drop_last() =~= s);
}

/// The size of an encoding is the length of the bytes it writes.
pub proof fn lemma_varint_size_matches(v: u64)
    ensures
        spec_varint_encode(v).len() == spec_varint_size(v),
{
}

/// Decoding the encoding of `v` (followed by anything) gives back `v` and the encoding's length,
/// for every `v` up to `VARINT_MAX`.
pub proof fn lemma_varint_roundtrip(v: u64, rest: Seq<u8>)
    requires
        v <= VARINT_MAX,
    ensures
        spec_varint_decode(spec_varint_encode(v) + rest) == Some((v, spec_varint_size(v))),
{
    let e = spec_varint_encode(v);
    let s = e + rest;
    reveal_with_fuel(be_value, 8);
    if v < 64 {
        let b0 = v as u8;
        assert(b0 >> 6u8 == 0 && (b0 & 0x3fu8) as u64 == v) by (bit_vector)
            requires b0 == v as u8, v < 64;
        assert(s.subrange(1, 1) =~= Seq::<u8>::empty());
    } else if v < 16384 {
        let b0 = 0x40u8 | ((v >> 8u64) as u8);
        let b1 = v as u8;
        assert(b0 >> 6u8 == 1 && ((b0 & 0x3fu8) as int) * 256 + (b1 as int) == v as int)
            by (bit_vector)
            requires b0 == 0x40u8 | ((v >> 8u64) as u8), b1 == v as u8, 64 <= v < 16384;
        assert(s.subrange(1, 2) =~= seq![b1]);
        assert(seq![b1].drop_last() =~= Seq::<u8>::empty());
    } else if v < 1073741824 {
        let b0 = 0x80u8 | ((v >> 24u64) as u8);
        let b1 = (v >> 16u64) as u8;
        let b2 = (v >> 8u64) as u8;
        let b3 = v as u8;
        assert(b0 >> 6u8 == 2 && (((((b0 & 0x3fu8) as int) * 256 + (b1 as int)) * 256 + (b2 as int))
            * 256 + (b3 as int)) == v as int) by (bit_vector)
            requires
                b0 == 0x80u8 | ((v >> 24u64) as u8),
                b1 == (v >> 16u64) as u8,
                b2 == (v >> 8u64) as u8,
                b3 == v as u8,
                16384 <= v < 1073741824,
        ;
        let t = s.subrange(1, 4);
        assert(t =~= seq![b1, b2, b3]);
        assert(t.drop_last() =~= seq![b1, b2]);
        assert(t.drop_last().drop_last() =~= seq![b1]);
        assert(t.drop_last().drop_last().drop_last() =~= Seq::<u8>::empty());
    } else {
        let b0 = 0xC0u8 | ((v >> 56u64) as u8);
        let b1 = (v >> 48u64) as u8;
        let b2 = (v >> 40u64) as u8;
        let b3 = (v >> 32u64) as u8;
        let b4 = (v >> 24u64) as u8;
        let b5 = (v >> 16u64) as u8;
        let b6 = (v >> 8u64) as u8;
        let b7 = v as u8;
        assert(b0 >> 6u8 == 3 && (((((((((b0 & 0x3fu8) as int) * 256 + (b1 as int)) * 256 + (
        b2 as int)) * 256 + (b3 as int)) * 256 + (b4 as int)) * 256 + (b5 as int)) * 256 + (
        b6 as int)) * 256 + (b7 as int)) == v as int) by (bit_vector)
            requires
                b0 == 0xC0u8 | ((v >> 56u64) as u8),
                b1 == (v >> 48u64) as u8,
                b2 == (v >> 40u64) as u8,
                b3 == (v >> 32u64) as u8,
                b4 == (v >> 24u64) as u8,
                b5 == (v >> 16u64) as u8,
                b6 == (v >> 8u64) as u8,
                b7 == v as u8,
                1073741824 <= v <= 0x3fff_ffff_ffff_ffffu64,
        ;
        let t = s.subrange(1, 8);
        assert(t =~= seq![b1, b2, b3, b4, b5, b6, b7]);
        assert(t.drop_last() =~= seq![b1, b2, b3, b4, b5, b6]);
        assert(t.drop_last().drop_last() =~= seq![b1, b2, b3, b4, b5]);
        assert(t.drop_last().drop_last().drop_last() =~= seq![b1, b2, b3, b4]);
        assert(t.drop_last().drop_last().drop_last().drop_last() =~= seq![b1, b2, b3]);
        assert(t.drop_last().drop_last().drop_last().drop_last().drop_last() =~= seq![b1, b2]);
        assert(t.drop_last().drop_last().drop_last().drop_last().drop_last().drop_last()
            =~= seq![b1]);
        assert(t.drop_last().drop_last().drop_last().drop_last().drop_last().drop_last().drop_last()
            =~= Seq::<u8>::empty());
    }
}

/// Decoding only depends on the bytes of the varint itself: appending bytes never changes a
/// completed decode.
pub proof fn lemma_varint_decode_prefix(s: Seq<u8>, rest: Seq<u8>)
    requires
        spec_varint_decode(s) is Some,
    ensures
        spec_varint_decode(s + rest) == spec_varint_decode(s),
{
    let n = spec_varint_len(s[0]);
    assert((s + rest)[0] == s[0]);
    assert((s + rest).subrange(1, n as int) =~= s.subrange(1, n as int));
}

/// 256 to the power `n`.
pub open spec fn pow256(n: nat) -> nat
    decreases n,
{
    if n == 0 {
        1
    } else {
        256 * pow256((n - 1) as nat)
    }
}

proof fn lemma_be_value_bound(acc: int, s: Seq<u8>)
    requires
        0 <= acc,
    ensures
        0 <= be_value(acc, s) < (acc + 1) * pow256(s.len()),
    decreases s.len(),
{
    if s.len() > 0 {
        lemma_be_value_bound(acc, s.drop_last());
        let x = be_value(acc, s.drop_last());
        let p = pow256(s.drop_last().len());
        let b = s.last() as int;
        assert(x * 256 + b < (acc + 1) * (256 * p)) by (nonlinear_arith)
            requires 0 <= x < (acc + 1) * p, 0 <= b < 256, 0 <= acc;
        assert(s.drop_last().len() + 1 == s.len());
        assert(pow256(s.len()) == 256 * p);
        assert(be_value(acc, s) == x * 256 + b);
        assert((acc + 1) * pow256(s.len()) == (acc + 1) * (256 * p));
        assert(0 <= x * 256 + b);
    } else {
        assert(pow256(s.len()) == 1);
        assert((acc + 1) * pow256(s.len()) == acc + 1) by (nonlinear_arith)
            requires pow256(s.len()) == 1;
    }
}

/// A decoded varint is at most `VARINT_MAX`, and its length is between 1 and the input length.
pub proof fn lemma_varint_decode_bound(s: Seq<u8>)
    requires
        spec_varint_decode(s) is Some,
    ensures
        spec_varint_decode(s).unwrap().0 <= VARINT_MAX,
        1 <= spec_varint_decode(s).unwrap().1 <= s.len(),
{
    let n = spec_varint_len(s[0]);
    let acc = (s[0] & 0x3fu8) as int;
    let b0 = s[0];
    assert(b0 & 0x3fu8 <= 63) by (bit_vector);
    let t = s.subrange(1, n as int);
    lemma_be_value_bound(acc, t);
    reveal_with_fuel(pow256, 8);
    assert((acc + 1) * pow256(t.len()) <= 64 * pow256(t.len())) by (nonlinear_arith)
        requires acc <= 63, pow256(t.len()) >= 0;
}

/// Calculate the size of a varint encoding.
pub fn varint_size(value: u64) -> (n: usize)
    ensures
        n == spec_varint_size(value),
{
    if value < 64 {
        1
    } else if value < 16384 {
        2
    } else if value < 1073741824 {
        4
    } else {
        8
    }
}

/// Write a variable-length integer according to RFC 9000.
pub fn write_varint(buf: &mut Vec<u8>, value: u64)
    ensures
        final(buf)@ == old(buf)@ + spec_varint_encode(value),
{
    let ghost start = buf@;
    if value < 64 {
        buf.push(value as u8);
    } else if value < 16384 {
        buf.push(0x40u8 | ((value >> 8u64) as u8));
        buf.push(value as u8);
    } else if value < 1073741824 {
        buf.push(0x80u8 | ((value >> 24u64) as u8));
        buf.push((value >> 16u64) as u8);
        buf.push((value >> 8u64) as u8);
        buf.push(value as u8);
    } else {
        buf.push(0xC0u8 | ((value >> 56u64) as u8));
        buf.push((value >> 48u64) as u8);
        buf.push((value >> 40u64) as u8);
        buf.push((value >> 32u64) as u8);
        buf.push((value >> 24u64) as u8);
        buf.push((value >> 16u64) as u8);
        buf.push((value >> 8u64) as u8);
        buf.push(value as u8);
    }
    assert(buf@ =~= start + spec_varint_encode(value));
}

fn varint_len(b: u8) -> (n: usize)
    ensures
        n == spec_varint_len(b),
{
    let tag = b >> 6u8;
    if tag == 0 {
        1
    } else if tag == 1 {
        2
    } else if tag == 2 {
        4
    } else {
        8
    }
}

/// Read a variable-length integer starting at `pos`; on success, returns the value and the
/// position just after it. `Incomplete` when the data ends inside the integer.
pub fn read_varint(data: &[u8], pos: usize) -> (res: Result<(u64, usize), ParseError>)
    requires
        pos <= data@.len(),
    ensures
        match spec_varint_decode(data@.subrange(pos as int, data@.len() as int)) {
            None => res matches Err(ParseError::Incomplete),
            Some((v, n)) => res matches Ok((value, next)) && value == v && next == pos + n,
        },
{
    let ghost s = data@.subrange(pos as int, data@.len() as int);
    if pos >= data.len() {
        return Err(ParseError::Incomplete);
    }
    let first = data[pos];
    let length = varint_len(first);
    if data.len() - pos < length {
        return Err(ParseError::Incomplete);
    }
    let mut value: u64 = (first & 0x3fu8) as u64;
    let mut i: usize = 1;
    assert(s.subrange(1, 1) =~= Seq::<u8>::empty());
    assert(value < (0x40u64 << 0u64)) by (bit_vector)
        requires value == (first & 0x3fu8) as u64;
    while i < length
        invariant
            1 <= i <= length,
            length == spec_varint_len(first),
            length <= 8,
            pos + length <= data.len(),
            s == data@.subrange(pos as int, data@.len() as int),
            first == s[0],
            value as int == be_value((first & 0x3fu8) as int, s.subrange(1, i as int)),
            value < (0x40u64 << (8 * (i - 1)) as u64),
        decreases length - i,
    {
        let b = data[pos + i];
        let k: u64 = (i - 1) as u64;
        assert(k <= 6);
        let old_value = value;
        assert((old_value << 8u64) | (b as u64) == old_value * 256 + (b as u64)
            && (old_value << 8u64) | (b as u64) < (0x40u64 << (8 * (k + 1)))) by (bit_vector)
            requires old_value < (0x40u64 << (8 * k)), k <= 6;
        value = (value << 8u64) | (b as u64);
        proof {
            assert(s.subrange(1, (i + 1) as int) =~= s.subrange(1, i as int).push(b));
            lemma_be_value_push((first & 0x3fu8) as int, s.subrange(1, i as int), b);
        }
        i = i + 1;
    }
    Ok((value, pos + length))
}

} // verus!
