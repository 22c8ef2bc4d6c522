//! Byte helpers for the big-endian headers of the image dataset files.
use vstd::prelude::*;

verus! {

/// Byte `k` (0 is the least significant) of `v`.
pub open spec fn byte_of(v: u32, k: u32) -> u32 {
    (v >> (8 * k)) & 0xff
}

/// The value that four little-endian bytes stand for.
pub open spec fn le_value(b: Seq<u8>) -> int {
    b[0] as int + 256 * b[1] as int + 65536 * b[2] as int + 16777216 * b[3] as int
}

/// Reverses the order of the four bytes of `val`.
pub fn swap_endian(val: u32) -> (r: u32)
    ensures
        byte_of(r, 0) == byte_of(val, 3),
        byte_of(r, 1) == byte_of(val, 2),
        byte_of(r, 2) == byte_of(val, 1),
        byte_of(r, 3) == byte_of(val, 0),
{
    let result = ((val << 8u32) & 0xFF00FF00u32) | ((val >> 8u32) & 0xFF00FFu32);
    let r = (result << 16u32) | (result >> 16u32);
    assert(byte_of(r, 0) == byte_of(val, 3) && byte_of(r, 1) == byte_of(val, 2) && byte_of(r, 2)
        == byte_of(val, 1) && byte_of(r, 3) == byte_of(val, 0)) by (bit_vector)
        requires
            result == ((val << 8u32) & 0xFF00FF00u32) | ((val >> 8u32) & 0xFF00FFu32),
            r == (result << 16u32) | (result >> 16u32),
    ;
    r
}

/// Reads four bytes as a little-endian unsigned integer.
pub fn as_u32_le(array: &[u8; 4]) -> (r: u32)
    ensures
        r as int == le_value(array@),
{
    let b0 = array[0] as u32;
    let b1 = array[1] as u32;
    let b2 = array[2] as u32;
    let b3 = array[3] as u32;
    assert(b0 << 0u32 == b0) by (bit_vector);
    assert(b1 << 8u32 == b1 * 256) by (bit_vector)
        requires
            b1 < 256,
    ;
    assert(b2 << 16u32 == b2 * 65536) by (bit_vector)
        requires
            b2 < 256,
    ;
    assert(b3 << 24u32 == b3 * 16777216) by (bit_vector)
        requires
            b3 < 256,
    ;
    (b0 << 0u32) + (b1 << 8u32) + (b2 << 16u32) + (b3 << 24u32)
}

} // verus!
