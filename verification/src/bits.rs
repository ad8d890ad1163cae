//! IEEE-754 binary32 values carried as their bit patterns: finiteness and
//! the `<=` order, decided on the bits.

use vstd::prelude::*;

verus! {

/// The biased exponent field of a binary32 bit pattern.
pub open spec fn exponent_field(b: u32) -> int {
    ((b / 0x80_0000) % 0x100) as int
}

/// The fraction field of a binary32 bit pattern.
pub open spec fn fraction_field(b: u32) -> int {
    (b % 0x80_0000) as int
}

/// The bits encode a finite number (not an infinity, not a NaN).
pub open spec fn bits_finite(b: u32) -> bool {
    exponent_field(b) != 0xFF
}

/// The bits encode a NaN.
pub open spec fn bits_nan(b: u32) -> bool {
    exponent_field(b) == 0xFF && fraction_field(b) != 0
}

/// The position of a non-NaN binary32 value on the number line: binary32
/// orders its non-NaN values by sign and then by the magnitude bits, and
/// both zeros get the same key.
pub open spec fn order_key(b: u32) -> int {
    if b >= 0x8000_0000 {
        -(b - 0x8000_0000)
    } else {
        b as int
    }
}

/// `a <= b` on the binary32 values the bits encode (false when either is NaN).
pub open spec fn bits_le(a: u32, b: u32) -> bool {
    !bits_nan(a) && !bits_nan(b) && order_key(a) <= order_key(b)
}

/// The bit pattern of `1.0`.
pub open spec fn one_bits() -> u32 {
    0x3F80_0000
}

/// Whether the bits encode a finite number.
pub fn is_finite_bits(b: u32) -> (r: bool)
    ensures
        r == bits_finite(b),
{
    (b / 0x80_0000) % 0x100 != 0xFF
}

fn is_nan_bits(b: u32) -> (r: bool)
    ensures
        r == bits_nan(b),
{
    (b / 0x80_0000) % 0x100 == 0xFF && b % 0x80_0000 != 0
}

/// `a <= b` on the binary32 values the bits encode.
pub fn le_bits(a: u32, b: u32) -> (r: bool)
    ensures
        r == bits_le(a, b),
{
    if is_nan_bits(a) || is_nan_bits(b) {
        return false;
    }
    let ka: i64 = if a >= 0x8000_0000 {
        -((a - 0x8000_0000) as i64)
    } else {
        a as i64
    };
    let kb: i64 = if b >= 0x8000_0000 {
        -((b - 0x8000_0000) as i64)
    } else {
        b as i64
    };
    ka <= kb
}

} // verus!
