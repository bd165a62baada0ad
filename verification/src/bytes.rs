//! Big-endian and little-endian views of 16-bit and 32-bit fields.

use vstd::prelude::*;

verus! {

/// The 16-bit value whose big-endian bytes are `hi`, `lo`.
pub open spec fn be16(hi: u8, lo: u8) -> u16 {
    (hi as int * 256 + lo as int) as u16
}

pub open spec fn u16_hi(x: u16) -> u8 {
    (x as int / 256) as u8
}

pub open spec fn u16_lo(x: u16) -> u8 {
    (x as int % 256) as u8
}

pub proof fn lemma_be16_split(hi: u8, lo: u8)
    ensures
        u16_hi(be16(hi, lo)) == hi,
        u16_lo(be16(hi, lo)) == lo,
{
    vstd::arithmetic::div_mod::lemma_fundamental_div_mod_converse(
        hi as int * 256 + lo as int,
        256,
        hi as int,
        lo as int,
    );
}

pub proof fn lemma_be16_roundtrip(x: u16)
    ensures
        be16(u16_hi(x), u16_lo(x)) == x,
{
    vstd::arithmetic::div_mod::lemma_fundamental_div_mod(x as int, 256);
}

pub fn read_be16(hi: u8, lo: u8) -> (r: u16)
    ensures
        r == be16(hi, lo),
{
    (hi as u16) * 256 + (lo as u16)
}

pub fn split_be16(x: u16) -> (r: (u8, u8))
    ensures
        r.0 == u16_hi(x),
        r.1 == u16_lo(x),
{
    ((x / 256) as u8, (x % 256) as u8)
}

/// The 32-bit value whose big-endian bytes are `b0 b1 b2 b3`.
pub open spec fn be32(b0: u8, b1: u8, b2: u8, b3: u8) -> u32 {
    (b0 as int * 0x1000000 + b1 as int * 0x10000 + b2 as int * 0x100 + b3 as int) as u32
}

pub open spec fn u32_byte(x: u32, i: int) -> u8 {
    if i == 0 {
        (x as int / 0x1000000) as u8
    } else if i == 1 {
        (x as int / 0x10000 % 0x100) as u8
    } else if i == 2 {
        (x as int / 0x100 % 0x100) as u8
    } else {
        (x as int % 0x100) as u8
    }
}

pub proof fn lemma_be32_roundtrip(x: u32)
    ensures
        be32(u32_byte(x, 0), u32_byte(x, 1), u32_byte(x, 2), u32_byte(x, 3)) == x,
{
    let b0 = x as int / 0x1000000;
    let b1 = x as int / 0x10000 % 0x100;
    let b2 = x as int / 0x100 % 0x100;
    let b3 = x as int % 0x100;
    assert(b0 * 0x1000000 + b1 * 0x10000 + b2 * 0x100 + b3 == x) by (nonlinear_arith)
        requires
            b0 == x as int / 0x1000000 && b1 == x as int / 0x10000 % 0x100 && b2 == x as int
                / 0x100 % 0x100 && b3 == x as int % 0x100 && 0 <= (x as int) && (x as int) < 0x100000000;
}

pub proof fn lemma_be32_split(b0: u8, b1: u8, b2: u8, b3: u8)
    ensures
        u32_byte(be32(b0, b1, b2, b3), 0) == b0,
        u32_byte(be32(b0, b1, b2, b3), 1) == b1,
        u32_byte(be32(b0, b1, b2, b3), 2) == b2,
        u32_byte(be32(b0, b1, b2, b3), 3) == b3,
{
    let x = b0 as int * 0x1000000 + b1 as int * 0x10000 + b2 as int * 0x100 + b3 as int;
    assert(x / 0x1000000 == b0 as int && x / 0x10000 % 0x100 == b1 as int && x / 0x100 % 0x100
        == b2 as int && x % 0x100 == b3 as int) by (nonlinear_arith)
        requires
            x == b0 as int * 0x1000000 + b1 as int * 0x10000 + b2 as int * 0x100 + b3 as int
                && (b0 as int) < 0x100 && (b1 as int) < 0x100 && (b2 as int) < 0x100 && (
            b3 as int) < 0x100;
}

pub fn read_be32(b0: u8, b1: u8, b2: u8, b3: u8) -> (r: u32)
    ensures
        r == be32(b0, b1, b2, b3),
{
    (b0 as u32) * 0x1000000 + (b1 as u32) * 0x10000 + (b2 as u32) * 0x100 + (b3 as u32)
}

pub fn split_be32(x: u32) -> (r: (u8, u8, u8, u8))
    ensures
        r.0 == u32_byte(x, 0),
        r.1 == u32_byte(x, 1),
        r.2 == u32_byte(x, 2),
        r.3 == u32_byte(x, 3),
{
    ((x / 0x1000000) as u8, (x / 0x10000 % 0x100) as u8, (x / 0x100 % 0x100) as u8, (x
        % 0x100) as u8)
}

/// The little-endian byte `i` of a 32-bit value, as the sender utility's
/// frame check sequence is written to the wire.
pub open spec fn u32_le_byte(x: u32, i: int) -> u8 {
    u32_byte(x, 3 - i)
}

pub fn split_le32(x: u32) -> (r: (u8, u8, u8, u8))
    ensures
        r.0 == u32_le_byte(x, 0),
        r.1 == u32_le_byte(x, 1),
        r.2 == u32_le_byte(x, 2),
        r.3 == u32_le_byte(x, 3),
{
    ((x % 0x100) as u8, (x / 0x100 % 0x100) as u8, (x / 0x10000 % 0x100) as u8, (x
        / 0x1000000) as u8)
}

/// Appends every byte of `src` to `dst`.
pub fn push_bytes(dst: &mut Vec<u8>, src: &[u8])
    ensures
        final(dst)@ == old(dst)@ + src@,
{
    let ghost base = dst@;
    let mut i: usize = 0;
    while i < src.len()
        invariant
            i <= src@.len(),
            dst@ == base + src@.subrange(0, i as int),
        decreases src@.len() - i,
    {
        dst.push(src[i]);
        proof {
            assert(src@.subrange(0, i + 1 as int) =~= src@.subrange(0, i as int).push(
                src@[i as int],
            ));
        }
        i = i + 1;
    }
    proof {
        assert(src@.subrange(0, src@.len() as int) =~= src@);
    }
}

pub fn read_le32(b0: u8, b1: u8, b2: u8, b3: u8) -> (r: u32)
    ensures
        r == be32(b3, b2, b1, b0),
{
    (b3 as u32) * 0x1000000 + (b2 as u32) * 0x10000 + (b1 as u32) * 0x100 + (b0 as u32)
}

} // verus!
