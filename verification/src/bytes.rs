//! Big-endian byte packing for the multi-byte fields of the wire format.
//!
//! Card numbers travel as four bytes and payment amounts as eight; ingredient
//! amounts travel as the four big-endian bytes of their 32-bit encoding.  The
//! functions here relate those bytes to the integer they carry.

use vstd::assert_seqs_equal;
use vstd::prelude::*;

verus! {

/// The most significant byte of `x`.
pub open spec fn u32_b0(x: u32) -> u8 {
    ((x >> 24) & 0xff) as u8
}

/// The second byte of `x`.
pub open spec fn u32_b1(x: u32) -> u8 {
    ((x >> 16) & 0xff) as u8
}

/// The third byte of `x`.
pub open spec fn u32_b2(x: u32) -> u8 {
    ((x >> 8) & 0xff) as u8
}

/// The least significant byte of `x`.
pub open spec fn u32_b3(x: u32) -> u8 {
    (x & 0xff) as u8
}

/// The four big-endian bytes of `x`, most significant first.
pub open spec fn u32_be_bytes(x: u32) -> Seq<u8> {
    seq![u32_b0(x), u32_b1(x), u32_b2(x), u32_b3(x)]
}

/// The 32-bit value carried by four big-endian bytes.
pub open spec fn u32_of_be_bytes(b0: u8, b1: u8, b2: u8, b3: u8) -> u32 {
    (((b0 as u32) << 24) | ((b1 as u32) << 16) | ((b2 as u32) << 8) | (b3 as u32)) as u32
}

/// Splitting a 32-bit value into big-endian bytes and reassembling them
/// gives the value back.
pub proof fn lemma_u32_be_round_trip(x: u32)
    ensures
        u32_of_be_bytes(u32_b0(x), u32_b1(x), u32_b2(x), u32_b3(x)) == x,
{
    assert(((((((x >> 24) & 0xff) as u8) as u32) << 24) | (((((x >> 16) & 0xff) as u8) as u32)
        << 16) | (((((x >> 8) & 0xff) as u8) as u32) << 8) | (((x & 0xff) as u8) as u32)) as u32
        == x) by (bit_vector);
}

/// Appends the four big-endian bytes of `x` to `buf`.
pub fn push_u32_be(buf: &mut Vec<u8>, x: u32)
    ensures
        final(buf)@ == old(buf)@ + u32_be_bytes(x),
{
    proof {
        assert((x >> 24) & 0xff < 256 && (x >> 16) & 0xff < 256 && (x >> 8) & 0xff < 256 && x
            & 0xff < 256) by (bit_vector);
    }
    buf.push(((x >> 24) & 0xff) as u8);
    buf.push(((x >> 16) & 0xff) as u8);
    buf.push(((x >> 8) & 0xff) as u8);
    buf.push((x & 0xff) as u8);
    proof {
        assert_seqs_equal!(buf@ == old(buf)@ + u32_be_bytes(x));
    }
}

/// Reads the 32-bit big-endian value that starts at `offset`.
pub fn read_u32_be(buffer: &[u8], offset: usize) -> (x: u32)
    requires
        offset + 4 <= buffer@.len(),
    ensures
        x == u32_of_be_bytes(
            buffer@[offset as int],
            buffer@[offset + 1],
            buffer@[offset + 2],
            buffer@[offset + 3],
        ),
{
    let b0 = buffer[offset];
    let b1 = buffer[offset + 1];
    let b2 = buffer[offset + 2];
    let b3 = buffer[offset + 3];
    ((b0 as u32) << 24) | ((b1 as u32) << 16) | ((b2 as u32) << 8) | (b3 as u32)
}

/// The byte of `x` that is `i` places below the most significant one, for
/// the eight big-endian bytes of a 64-bit value.
pub open spec fn u64_byte(x: u64, i: int) -> u8 {
    ((x >> ((7 - i) * 8)) & 0xff) as u8
}

/// The eight big-endian bytes of `x`, most significant first.
pub open spec fn u64_be_bytes(x: u64) -> Seq<u8> {
    Seq::new(8, |i: int| u64_byte(x, i))
}

/// The 64-bit value carried by eight big-endian bytes.
pub open spec fn u64_of_be_bytes(b: Seq<u8>) -> u64
    recommends
        b.len() == 8,
{
    (((b[0] as u64) << 56) | ((b[1] as u64) << 48) | ((b[2] as u64) << 40) | ((b[3] as u64) << 32)
        | ((b[4] as u64) << 24) | ((b[5] as u64) << 16) | ((b[6] as u64) << 8) | (
    b[7] as u64)) as u64
}

/// Splitting a 64-bit value into big-endian bytes and reassembling them
/// gives the value back.
pub proof fn lemma_u64_be_round_trip(x: u64)
    ensures
        u64_of_be_bytes(u64_be_bytes(x)) == x,
{
    let b = u64_be_bytes(x);
    assert(b[0] == ((x >> 56) & 0xff) as u8);
    assert(b[1] == ((x >> 48) & 0xff) as u8);
    assert(b[2] == ((x >> 40) & 0xff) as u8);
    assert(b[3] == ((x >> 32) & 0xff) as u8);
    assert(b[4] == ((x >> 24) & 0xff) as u8);
    assert(b[5] == ((x >> 16) & 0xff) as u8);
    assert(b[6] == ((x >> 8) & 0xff) as u8);
    assert(b[7] == ((x >> 0) & 0xff) as u8);
    assert(((((((x >> 56) & 0xff) as u8) as u64) << 56) | (((((x >> 48) & 0xff) as u8) as u64)
        << 48) | (((((x >> 40) & 0xff) as u8) as u64) << 40) | (((((x >> 32) & 0xff) as u8) as u64)
        << 32) | (((((x >> 24) & 0xff) as u8) as u64) << 24) | (((((x >> 16) & 0xff) as u8) as u64)
        << 16) | (((((x >> 8) & 0xff) as u8) as u64) << 8) | ((((x >> 0) & 0xff) as u8)
        as u64)) as u64 == x) by (bit_vector);
}

/// Appends the eight big-endian bytes of `x` to `buf`.
pub fn push_u64_be(buf: &mut Vec<u8>, x: u64)
    ensures
        final(buf)@ == old(buf)@ + u64_be_bytes(x),
{
    proof {
        assert((x >> 56) & 0xff < 256 && (x >> 48) & 0xff < 256 && (x >> 40) & 0xff < 256 && (x
            >> 32) & 0xff < 256 && (x >> 24) & 0xff < 256 && (x >> 16) & 0xff < 256 && (x >> 8)
            & 0xff < 256 && x & 0xff < 256) by (bit_vector);
    }
    buf.push(((x >> 56) & 0xff) as u8);
    buf.push(((x >> 48) & 0xff) as u8);
    buf.push(((x >> 40) & 0xff) as u8);
    buf.push(((x >> 32) & 0xff) as u8);
    buf.push(((x >> 24) & 0xff) as u8);
    buf.push(((x >> 16) & 0xff) as u8);
    buf.push(((x >> 8) & 0xff) as u8);
    buf.push((x & 0xff) as u8);
    proof {
        assert(x & 0xff == (x >> 0) & 0xff) by (bit_vector);
        assert_seqs_equal!(buf@ == old(buf)@ + u64_be_bytes(x));
    }
}

/// Reads the 64-bit big-endian value that starts at `offset`.
pub fn read_u64_be(buffer: &[u8], offset: usize) -> (x: u64)
    requires
        offset + 8 <= buffer@.len(),
    ensures
        x == u64_of_be_bytes(buffer@.subrange(offset as int, offset + 8)),
{
    let b0 = buffer[offset];
    let b1 = buffer[offset + 1];
    let b2 = buffer[offset + 2];
    let b3 = buffer[offset + 3];
    let b4 = buffer[offset + 4];
    let b5 = buffer[offset + 5];
    let b6 = buffer[offset + 6];
    let b7 = buffer[offset + 7];
    ((b0 as u64) << 56) | ((b1 as u64) << 48) | ((b2 as u64) << 40) | ((b3 as u64) << 32) | ((
    b4 as u64) << 24) | ((b5 as u64) << 16) | ((b6 as u64) << 8) | (b7 as u64)
}

} // verus!
