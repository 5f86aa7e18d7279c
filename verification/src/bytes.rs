//! Integers as sequences of bytes.

use vstd::prelude::*;

verus! {

/// The number whose eight bytes, lowest first, are those of `b`.
pub open spec fn le64(b: Seq<u8>) -> int {
    b[0] + b[1] * 0x100 + b[2] * 0x1_0000 + b[3] * 0x100_0000 + b[4] * 0x1_0000_0000 + b[5]
        * 0x100_0000_0000 + b[6] * 0x1_0000_0000_0000 + b[7] * 0x100_0000_0000_0000
}

/// Reads eight bytes, lowest first.
pub fn u64_from_le(b: &[u8]) -> (v: u64)
    requires
        b@.len() == 8,
    ensures
        v == le64(b@),
{
    b[0] as u64 + b[1] as u64 * 0x100 + b[2] as u64 * 0x1_0000 + b[3] as u64 * 0x100_0000 + b[4]
        as u64 * 0x1_0000_0000 + b[5] as u64 * 0x100_0000_0000 + b[6] as u64 * 0x1_0000_0000_0000
        + b[7] as u64 * 0x100_0000_0000_0000
}

/// The two bytes of `v`, highest first.
pub open spec fn be16(v: u16) -> Seq<u8> {
    seq![(v / 0x100) as u8, (v % 0x100) as u8]
}

/// The eight bytes of `v`, highest first.
pub open spec fn be64(v: u64) -> Seq<u8> {
    seq![
        (v / 0x100_0000_0000_0000) as u8,
        (v / 0x1_0000_0000_0000 % 0x100) as u8,
        (v / 0x100_0000_0000 % 0x100) as u8,
        (v / 0x1_0000_0000 % 0x100) as u8,
        (v / 0x100_0000 % 0x100) as u8,
        (v / 0x1_0000 % 0x100) as u8,
        (v / 0x100 % 0x100) as u8,
        (v % 0x100) as u8,
    ]
}

/// Splits `v` into its two bytes, highest first.
pub fn u16_to_be(v: u16) -> (b: [u8; 2])
    ensures
        b@ == be16(v),
{
    [(v / 0x100) as u8, (v % 0x100) as u8]
}

/// Splits `v` into its eight bytes, highest first.
pub fn u64_to_be(v: u64) -> (b: [u8; 8])
    ensures
        b@ == be64(v),
{
    [
        (v / 0x100_0000_0000_0000) as u8,
        (v / 0x1_0000_0000_0000 % 0x100) as u8,
        (v / 0x100_0000_0000 % 0x100) as u8,
        (v / 0x1_0000_0000 % 0x100) as u8,
        (v / 0x100_0000 % 0x100) as u8,
        (v / 0x1_0000 % 0x100) as u8,
        (v / 0x100 % 0x100) as u8,
        (v % 0x100) as u8,
    ]
}

/// Two numbers with the same two bytes are the same.
pub proof fn be16_injective(a: u16, b: u16)
    requires
        be16(a) == be16(b),
    ensures
        a == b,
{
    assert(be16(a)[0] == be16(b)[0]);
    assert(be16(a)[1] == be16(b)[1]);
}

/// One digit of `v` to the base 256, split off its quotient by `d`.
proof fn lemma_digit(v: int, d: int)
    requires
        0 <= v,
        0 < d,
    ensures
        v / d == v / (d * 0x100) * 0x100 + v / d % 0x100,
{
    vstd::arithmetic::div_mod::lemma_div_denominator(v, d, 0x100);
    vstd::arithmetic::div_mod::lemma_fundamental_div_mod(v / d, 0x100);
}

/// A number is the sum of its bytes, each times its weight.
pub proof fn lemma_be64_sum(v: u64)
    ensures
        ({
            let b = be64(v);
            v == b[0] * 0x100_0000_0000_0000 + b[1] * 0x1_0000_0000_0000 + b[2] * 0x100_0000_0000
                + b[3] * 0x1_0000_0000 + b[4] * 0x100_0000 + b[5] * 0x1_0000 + b[6] * 0x100 + b[7]
        }),
{
    lemma_digit(v as int, 1);
    lemma_digit(v as int, 0x100);
    lemma_digit(v as int, 0x1_0000);
    lemma_digit(v as int, 0x100_0000);
    lemma_digit(v as int, 0x1_0000_0000);
    lemma_digit(v as int, 0x100_0000_0000);
    lemma_digit(v as int, 0x1_0000_0000_0000);
}

/// Two numbers with the same eight bytes are the same.
pub proof fn be64_injective(a: u64, b: u64)
    requires
        be64(a) == be64(b),
    ensures
        a == b,
{
    lemma_be64_sum(a);
    lemma_be64_sum(b);
}

/// Copies `src` into `buf` at `offset`.
pub fn put_bytes(buf: &mut [u8], offset: usize, src: &[u8])
    requires
        offset + src@.len() <= old(buf)@.len(),
    ensures
        final(buf)@ == old(buf)@.take(offset as int) + src@ + old(buf)@.skip(offset + src@.len()),
{
    let len: usize = buf.len();
    let mut i: usize = 0;
    while i < src.len()
        invariant
            i <= src@.len(),
            offset + src@.len() <= len,
            buf@.len() == len,
            old(buf)@.len() == len,
            buf@ =~= old(buf)@.take(offset as int) + src@.take(i as int) + old(buf)@.skip(
                offset + i,
            ),
        decreases src@.len() - i,
    {
        buf[offset + i] = src[i];
        i = i + 1;
    }
}

} // verus!
