//! Integers in byte sequences.
use vstd::prelude::*;

verus! {

/// The 16-bit integer at a position, least significant byte first.
pub open spec fn le16(s: Seq<u8>, at: int) -> int {
    s[at] + 0x100 * s[at + 1]
}

/// The 32-bit integer at a position, least significant byte first.
pub open spec fn le32(s: Seq<u8>, at: int) -> int {
    s[at] + 0x100 * s[at + 1] + 0x1_0000 * s[at + 2] + 0x100_0000 * s[at + 3]
}

/// The 32-bit integer at a position, most significant byte first.
pub open spec fn be32(s: Seq<u8>, at: int) -> int {
    0x100_0000 * s[at] + 0x1_0000 * s[at + 1] + 0x100 * s[at + 2] + s[at + 3]
}

/// A 16-bit pattern as a two's complement integer.
pub open spec fn signed16(pattern: int) -> int {
    if pattern < 0x8000 {
        pattern
    } else {
        pattern - 0x1_0000
    }
}

/// Whether two sequences agree but for the `count` bytes at a position.
pub open spec fn same_but(a: Seq<u8>, b: Seq<u8>, at: int, count: int) -> bool {
    &&& a.len() == b.len()
    &&& forall|i: int| 0 <= i < a.len() && !(at <= i < at + count) ==> a[i] == b[i]
}

/// The signed 16-bit integer at a position, least significant byte first.
pub fn read_le_i16(bytes: &[u8], at: usize) -> (r: i16)
    requires
        at + 2 <= bytes@.len(),
    ensures
        r == signed16(le16(bytes@, at as int)),
{
    let pattern: i32 = bytes[at] as i32 + 0x100 * bytes[at + 1] as i32;
    if pattern < 0x8000 {
        pattern as i16
    } else {
        (pattern - 0x1_0000) as i16
    }
}

/// The 32-bit integer at a position, least significant byte first.
pub fn read_le32(bytes: &[u8], at: usize) -> (r: u32)
    requires
        at + 4 <= bytes@.len(),
    ensures
        r == le32(bytes@, at as int),
{
    bytes[at] as u32 + 0x100 * bytes[at + 1] as u32 + 0x1_0000 * bytes[at + 2] as u32 + 0x100_0000
        * bytes[at + 3] as u32
}

/// Writes a 32-bit integer at a position, least significant byte first.
pub fn put_le32<const N: usize>(buf: &mut [u8; N], at: usize, value: u32)
    requires
        at + 4 <= N,
    ensures
        le32(final(buf)@, at as int) == value,
        same_but(final(buf)@, old(buf)@, at as int, 4),
{
    buf[at] = (value % 0x100) as u8;
    buf[at + 1] = (value / 0x100 % 0x100) as u8;
    buf[at + 2] = (value / 0x1_0000 % 0x100) as u8;
    buf[at + 3] = (value / 0x100_0000) as u8;
}

/// Writes a 32-bit integer at a position, most significant byte first.
pub fn put_be32<const N: usize>(buf: &mut [u8; N], at: usize, value: u32)
    requires
        at + 4 <= N,
    ensures
        be32(final(buf)@, at as int) == value,
        same_but(final(buf)@, old(buf)@, at as int, 4),
{
    buf[at] = (value / 0x100_0000) as u8;
    buf[at + 1] = (value / 0x1_0000 % 0x100) as u8;
    buf[at + 2] = (value / 0x100 % 0x100) as u8;
    buf[at + 3] = (value % 0x100) as u8;
}

/// The digits of a number to the base 256.
proof fn lemma_base_256(d0: int, d1: int, d2: int, d3: int, value: int)
    requires
        0 <= d0 < 0x100,
        0 <= d1 < 0x100,
        0 <= d2 < 0x100,
        0 <= d3 < 0x100,
        0 <= value < 0x1_0000_0000,
    ensures
        d0 + 0x100 * d1 + 0x1_0000 * d2 + 0x100_0000 * d3 == value <==> {
            &&& d0 == value % 0x100
            &&& d1 == value / 0x100 % 0x100
            &&& d2 == value / 0x1_0000 % 0x100
            &&& d3 == value / 0x100_0000
        },
{
    let (v1, v2) = (value / 0x100, value / 0x1_0000);
    assert(v2 == v1 / 0x100 && value / 0x100_0000 == v2 / 0x100);
}

/// The bytes of a 32-bit integer are its bits, eight at a time, from the lowest on where
/// the least significant byte is first and from the highest on where it is last.
pub proof fn law_bytes_of_32(s: Seq<u8>, at: int, value: u32)
    ensures
        le32(s, at) == value <==> {
            &&& s[at] == value & 0xFF
            &&& s[at + 1] == (value >> 8) & 0xFF
            &&& s[at + 2] == (value >> 16) & 0xFF
            &&& s[at + 3] == value >> 24
        },
        be32(s, at) == value <==> {
            &&& s[at] == value >> 24
            &&& s[at + 1] == (value >> 16) & 0xFF
            &&& s[at + 2] == (value >> 8) & 0xFF
            &&& s[at + 3] == value & 0xFF
        },
{
    lemma_base_256(s[at] as int, s[at + 1] as int, s[at + 2] as int, s[at + 3] as int, value as int);
    lemma_base_256(s[at + 3] as int, s[at + 2] as int, s[at + 1] as int, s[at] as int, value as int);
    assert(value & 0xFF == value % 0x100) by (bit_vector);
    assert((value >> 8) & 0xFF == value / 0x100 % 0x100) by (bit_vector);
    assert((value >> 16) & 0xFF == value / 0x1_0000 % 0x100) by (bit_vector);
    assert(value >> 24 == value / 0x100_0000) by (bit_vector);
}

/// What is read at a position is the integer whose bytes stand there.
pub proof fn law_read_le32(bytes: &[u8], at: usize, r: u32)
    requires
        at + 4 <= bytes@.len(),
        call_ensures(read_le32, (bytes, at), r),
    ensures
        bytes@[at as int] == r & 0xFF,
        bytes@[at + 1] == (r >> 8) & 0xFF,
        bytes@[at + 2] == (r >> 16) & 0xFF,
        bytes@[at + 3] == r >> 24,
{
    law_bytes_of_32(bytes@, at as int, r);
}

/// A signed integer that is read leaves a multiple of 2^16 to the two bytes.
pub proof fn law_read_le_i16(bytes: &[u8], at: usize, r: i16)
    requires
        at + 2 <= bytes@.len(),
        call_ensures(read_le_i16, (bytes, at), r),
    ensures
        (bytes@[at as int] + 0x100 * bytes@[at + 1] - r) % 0x1_0000 == 0,
        r < 0 <==> bytes@[at + 1] >= 0x80,
{
}

} // verus!
