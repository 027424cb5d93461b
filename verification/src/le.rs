//! Little-endian integers in byte sequences, with definitions that Verus can
//! evaluate on given bytes.

use vstd::prelude::*;

verus! {

/// The `u32` whose little-endian bytes are the first four of `b`.
#[verifier::opaque]
pub open spec fn le_u32(b: Seq<u8>) -> u32 {
    (b[0] + 0x100 * b[1] + 0x1_0000 * b[2] + 0x100_0000 * b[3]) as u32
}

/// The `u64` whose little-endian bytes are the first eight of `b`: the low
/// half from the first four, the high half from the next four.
#[verifier::opaque]
pub open spec fn le_u64(b: Seq<u8>) -> u64 {
    (le_u32(b) + 0x1_0000_0000 * le_u32(b.subrange(4, 8))) as u64
}

/// The little-endian bytes of `x`.
#[verifier::opaque]
pub open spec fn u32_le(x: u32) -> Seq<u8> {
    seq![
        (x % 0x100) as u8,
        (x / 0x100 % 0x100) as u8,
        (x / 0x1_0000 % 0x100) as u8,
        (x / 0x100_0000 % 0x100) as u8,
    ]
}

/// The little-endian bytes of `x`: those of its low half, then of its high
/// half.
#[verifier::opaque]
pub open spec fn u64_le(x: u64) -> Seq<u8> {
    u32_le((x % 0x1_0000_0000) as u32) + u32_le((x / 0x1_0000_0000) as u32)
}

/// Reading back the bytes of a `u32` gives it back.
pub proof fn lemma_u32_le_roundtrip(x: u32)
    ensures
        u32_le(x).len() == 4,
        le_u32(u32_le(x)) == x,
{
    reveal(le_u32);
    reveal(u32_le);
    let b = u32_le(x);
    assert(x % 0x100 + 0x100 * (x / 0x100 % 0x100) + 0x1_0000 * (x / 0x1_0000 % 0x100) + 0x100_0000
        * (x / 0x100_0000 % 0x100) == x) by (nonlinear_arith);
}

/// Reading back the bytes of a `u64` gives it back.
pub proof fn lemma_u64_le_roundtrip(x: u64)
    ensures
        u64_le(x).len() == 8,
        le_u64(u64_le(x)) == x,
{
    reveal(le_u64);
    reveal(u64_le);
    reveal(le_u32);
    let lo = (x % 0x1_0000_0000) as u32;
    let hi = (x / 0x1_0000_0000) as u32;
    lemma_u32_le_roundtrip(lo);
    lemma_u32_le_roundtrip(hi);
    let b = u64_le(x);
    assert(b.subrange(0, 4) =~= u32_le(lo));
    assert(b.subrange(4, 8) =~= u32_le(hi));
    assert(le_u32(b) == le_u32(b.subrange(0, 4)));
    assert(x == x % 0x1_0000_0000 + 0x1_0000_0000 * (x / 0x1_0000_0000)) by (nonlinear_arith);
}

/// Writing out a `u64` read from eight bytes gives those bytes back.
pub proof fn lemma_le_u64_roundtrip(b: Seq<u8>)
    requires
        b.len() == 8,
    ensures
        u64_le(le_u64(b)) == b,
{
    reveal(le_u64);
    reveal(u64_le);
    reveal(le_u32);
    let lo = le_u32(b.subrange(0, 4));
    let hi = le_u32(b.subrange(4, 8));
    assert(le_u32(b) == lo);
    lemma_le_u32_roundtrip(b.subrange(0, 4));
    lemma_le_u32_roundtrip(b.subrange(4, 8));
    let x = lo + 0x1_0000_0000 * hi;
    assert(x % 0x1_0000_0000 == lo && x / 0x1_0000_0000 == hi) by (nonlinear_arith)
        requires
            0 <= lo < 0x1_0000_0000,
            0 <= hi < 0x1_0000_0000,
            x == lo + 0x1_0000_0000 * hi,
    ;
    assert(u64_le(le_u64(b)) =~= b);
}

/// Writing out a `u32` read from four bytes gives those bytes back.
pub proof fn lemma_le_u32_roundtrip(b: Seq<u8>)
    requires
        b.len() == 4,
    ensures
        u32_le(le_u32(b)) == b,
{
    reveal(le_u32);
    reveal(u32_le);
    let (b0, b1, b2, b3) = (b[0] as int, b[1] as int, b[2] as int, b[3] as int);
    let x = b0 + 0x100 * b1 + 0x1_0000 * b2 + 0x100_0000 * b3;
    assert(x % 0x100 == b0 && x / 0x100 % 0x100 == b1 && x / 0x1_0000 % 0x100 == b2 && x
        / 0x100_0000 % 0x100 == b3) by (nonlinear_arith)
        requires
            0 <= b0 < 0x100,
            0 <= b1 < 0x100,
            0 <= b2 < 0x100,
            0 <= b3 < 0x100,
            x == b0 + 0x100 * b1 + 0x1_0000 * b2 + 0x100_0000 * b3,
    ;
    assert(u32_le(le_u32(b)) =~= b);
}

/// Reads the `u32` stored little-endian at offset `off` of `data`.
pub fn read_u32_le(data: &[u8], off: usize) -> (x: u32)
    requires
        off + 4 <= data@.len(),
    ensures
        x == le_u32(data@.subrange(off as int, off + 4)),
{
    reveal(le_u32);
    let ghost b = data@.subrange(off as int, off + 4);
    assert(b[0] == data@[off as int] && b[1] == data@[off + 1] && b[2] == data@[off + 2] && b[3]
        == data@[off + 3]);
    data[off] as u32 + 0x100 * (data[off + 1] as u32) + 0x1_0000 * (data[off + 2] as u32)
        + 0x100_0000 * (data[off + 3] as u32)
}

/// Reads the `u64` stored little-endian at offset `off` of `data`.
pub fn read_u64_le(data: &[u8], off: usize) -> (x: u64)
    requires
        off + 8 <= data@.len(),
    ensures
        x == le_u64(data@.subrange(off as int, off + 8)),
{
    reveal(le_u64);
    reveal(le_u32);
    let n = data.len();
    assert(off + 8 <= n);
    let lo = read_u32_le(data, off);
    let hi = read_u32_le(data, off + 4);
    let ghost b = data@.subrange(off as int, off + 8);
    assert(b.subrange(0, 4) =~= data@.subrange(off as int, off + 4));
    assert(b.subrange(4, 8) =~= data@.subrange(off + 4, off + 8));
    assert(le_u32(b) == le_u32(b.subrange(0, 4)));
    lo as u64 + 0x1_0000_0000 * (hi as u64)
}

/// Appends the little-endian bytes of `x` to `out`.
pub fn push_u32_le(out: &mut Vec<u8>, x: u32)
    ensures
        final(out)@ == old(out)@ + u32_le(x),
{
    reveal(u32_le);
    out.push((x % 0x100) as u8);
    out.push((x / 0x100 % 0x100) as u8);
    out.push((x / 0x1_0000 % 0x100) as u8);
    out.push((x / 0x100_0000 % 0x100) as u8);
    assert(out@ =~= old(out)@ + u32_le(x));
}

/// Appends the little-endian bytes of `x` to `out`.
pub fn push_u64_le(out: &mut Vec<u8>, x: u64)
    ensures
        final(out)@ == old(out)@ + u64_le(x),
{
    reveal(u64_le);
    push_u32_le(out, (x % 0x1_0000_0000) as u32);
    push_u32_le(out, (x / 0x1_0000_0000) as u32);
    assert(out@ =~= old(out)@ + u64_le(x));
}

} // verus!
