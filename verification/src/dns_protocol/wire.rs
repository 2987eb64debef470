//! Big-endian integers as they stand on the wire, and the ways a decode can fail.

use vstd::prelude::*;

verus! {

/// Why a buffer could not be decoded.
#[derive(Debug, Clone, Copy, PartialEq, Eq, Structural)]
pub enum DecodeError {
    /// The buffer ends before the structure does.
    Truncated,
    /// A length byte whose top two bits are `01` or `10`.
    ReservedLength,
    /// A compression pointer that does not point strictly backward into the
    /// message body.
    InvalidPointer,
    /// A chain of compression pointers that never reaches a terminating zero.
    PointerLoop,
}

/// The two bytes of `x`, most significant first.
pub open spec fn be16(x: u16) -> Seq<u8> {
    seq![(x / 0x100) as u8, (x % 0x100) as u8]
}

/// The four bytes of `x`, most significant first.
pub open spec fn be32(x: u32) -> Seq<u8> {
    seq![
        (x / 0x100_0000) as u8,
        (x / 0x1_0000 % 0x100) as u8,
        (x / 0x100 % 0x100) as u8,
        (x % 0x100) as u8,
    ]
}

/// The 16-bit integer whose big-endian bytes are `hi`, `lo`.
pub open spec fn from_be16(hi: u8, lo: u8) -> u16 {
    (hi * 0x100 + lo) as u16
}

/// The 32-bit integer whose big-endian bytes are `b0` to `b3`.
pub open spec fn from_be32(b0: u8, b1: u8, b2: u8, b3: u8) -> u32 {
    (b0 * 0x100_0000 + b1 * 0x1_0000 + b2 * 0x100 + b3) as u32
}

/// The 16-bit big-endian integer at offset `at` of `buf`.
pub open spec fn be16_at(buf: Seq<u8>, at: int) -> u16 {
    from_be16(buf[at], buf[at + 1])
}

/// The 32-bit big-endian integer at offset `at` of `buf`.
pub open spec fn be32_at(buf: Seq<u8>, at: int) -> u32 {
    from_be32(buf[at], buf[at + 1], buf[at + 2], buf[at + 3])
}

/// Appends the big-endian bytes of `x` to `out`.
pub fn push_be16(out: &mut Vec<u8>, x: u16)
    ensures
        final(out)@ == old(out)@ + be16(x),
{
    let hi: u8 = (x >> 8) as u8;
    let lo: u8 = (x & 0xff) as u8;
    assert(x >> 8 == x / 0x100 && x & 0xff == x % 0x100) by (bit_vector);
    out.push(hi);
    out.push(lo);
}

/// Appends the big-endian bytes of `x` to `out`.
pub fn push_be32(out: &mut Vec<u8>, x: u32)
    ensures
        final(out)@ == old(out)@ + be32(x),
{
    let b0: u8 = (x >> 24) as u8;
    let b1: u8 = ((x >> 16) & 0xff) as u8;
    let b2: u8 = ((x >> 8) & 0xff) as u8;
    let b3: u8 = (x & 0xff) as u8;
    assert(x >> 24 == x / 0x100_0000 && (x >> 16) & 0xff == x / 0x1_0000 % 0x100 && (x >> 8) & 0xff
        == x / 0x100 % 0x100 && x & 0xff == x % 0x100) by (bit_vector);
    out.push(b0);
    out.push(b1);
    out.push(b2);
    out.push(b3);
}

/// Reads the 16-bit big-endian integer at offset `at` of `buf`.
pub fn read_be16(buf: &[u8], at: usize) -> (x: u16)
    requires
        at + 2 <= buf@.len(),
    ensures
        x == be16_at(buf@, at as int),
{
    let hi: u8 = buf[at];
    let lo: u8 = buf[at + 1];
    assert(((hi as u16) << 8 | (lo as u16)) == hi * 0x100 + lo) by (bit_vector);
    (hi as u16) << 8 | (lo as u16)
}

/// Reads the 32-bit big-endian integer at offset `at` of `buf`.
pub fn read_be32(buf: &[u8], at: usize) -> (x: u32)
    requires
        at + 4 <= buf@.len(),
    ensures
        x == be32_at(buf@, at as int),
{
    let b0: u8 = buf[at];
    let b1: u8 = buf[at + 1];
    let b2: u8 = buf[at + 2];
    let b3: u8 = buf[at + 3];
    assert(((b0 as u32) << 24 | (b1 as u32) << 16 | (b2 as u32) << 8 | (b3 as u32)) == b0
        * 0x100_0000 + b1 * 0x1_0000 + b2 * 0x100 + b3) by (bit_vector);
    (b0 as u32) << 24 | (b1 as u32) << 16 | (b2 as u32) << 8 | (b3 as u32)
}

/// Reading back what `be16` wrote gives the integer again.
pub proof fn lemma_be16_round_trip(x: u16)
    ensures
        be16(x).len() == 2,
        be16_at(be16(x), 0) == x,
{
}

/// Reading back what `be32` wrote gives the integer again.
pub proof fn lemma_be32_round_trip(x: u32)
    ensures
        be32(x).len() == 4,
        be32_at(be32(x), 0) == x,
{
}

} // verus!
