//! Fixed-point numbers in 256ths.

use vstd::prelude::*;

verus! {

/// A number brought into the range of a byte.
pub open spec fn byte_clamped(value: int) -> u8 {
    if value < 0 {
        0
    } else if value > 255 {
        255
    } else {
        value as u8
    }
}

/// Brings a number into the range of a byte.
pub fn clamp_u8(value: i32) -> (byte: u8)
    ensures
        byte == byte_clamped(value as int),
{
    if value < 0 {
        0
    } else if value > 255 {
        255
    } else {
        value as u8
    }
}

/// The whole part of a number of 256ths, rounded down.
pub fn whole_part(value: i32) -> (whole: i32)
    ensures
        whole == value as int / 256,
{
    assert(value >> 8 == value / 256) by (bit_vector);
    value >> 8
}

} // verus!
