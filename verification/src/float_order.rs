//! The order of single-precision numbers, by bit pattern.

use vstd::prelude::*;

verus! {

/// The bit pattern of negative infinity.
pub const NEG_INFINITY: u32 = 0xff80_0000;

/// The bit pattern without the sign.
pub open spec fn magnitude(bits: u32) -> int {
    (bits % 0x8000_0000) as int
}

/// The sign bit is set.
pub open spec fn negative(bits: u32) -> bool {
    bits >= 0x8000_0000
}

/// Not a number.
pub open spec fn nan(bits: u32) -> bool {
    magnitude(bits) > 0x7f80_0000
}

/// Neither infinite nor not a number.
pub open spec fn finite(bits: u32) -> bool {
    magnitude(bits) < 0x7f80_0000
}

/// Numbers are ordered as their levels are; both zeros have level 0.
pub open spec fn level(bits: u32) -> int {
    if negative(bits) {
        -magnitude(bits)
    } else {
        magnitude(bits)
    }
}

/// `a > b`, which is false where either is not a number.
pub open spec fn greater(a: u32, b: u32) -> bool {
    !nan(a) && !nan(b) && level(a) > level(b)
}

/// The place of a number in the total order, in which negative numbers come before positive ones,
/// negative zero before zero, and what is not a number outside of the infinity of its sign.
pub open spec fn place(bits: u32) -> int {
    if negative(bits) {
        -1 - magnitude(bits)
    } else {
        magnitude(bits)
    }
}

/// Whether the bits are those of a number.
pub fn is_nan(bits: u32) -> (r: bool)
    ensures
        r == nan(bits),
{
    bits % 0x8000_0000 > 0x7f80_0000
}

/// Whether the number is finite.
pub fn is_finite(bits: u32) -> (r: bool)
    ensures
        r == finite(bits),
{
    bits % 0x8000_0000 < 0x7f80_0000
}

/// The level of a number.
fn level_of(bits: u32) -> (n: i64)
    ensures
        n == level(bits),
{
    if bits >= 0x8000_0000 {
        -((bits % 0x8000_0000) as i64)
    } else {
        (bits % 0x8000_0000) as i64
    }
}

/// Whether `a > b`.
pub fn is_greater(a: u32, b: u32) -> (r: bool)
    ensures
        r == greater(a, b),
{
    !is_nan(a) && !is_nan(b) && level_of(a) > level_of(b)
}

/// The place of a number in the total order.
pub fn place_of(bits: u32) -> (n: i64)
    ensures
        n == place(bits),
{
    if bits >= 0x8000_0000 {
        -1 - (bits % 0x8000_0000) as i64
    } else {
        (bits % 0x8000_0000) as i64
    }
}

} // verus!
