//! Bit-pattern model of IEEE 754 binary64 values.
//!
//! Every coordinate, distance and novelty score in this crate is carried as
//! the `u64` bit pattern of a binary64 value. This module gives that
//! representation an order: `spec_le_bits` is a total order on bit patterns
//! that, on the patterns of non-NaN values, agrees with the numeric order of
//! the values themselves (the two zero patterns are identified). NaN
//! patterns, which have no numeric order, are recognised by `spec_nan_bits`
//! so that callers can reject them up front.

use vstd::prelude::*;

verus! {

/// Mask of the eleven exponent bits of a binary64 pattern.
pub const EXPONENT_MASK: u64 = 0x7FF0_0000_0000_0000;

/// Mask of the 52 mantissa bits of a binary64 pattern.
pub const MANTISSA_MASK: u64 = 0x000F_FFFF_FFFF_FFFF;

/// The sign bit of a binary64 pattern; on its own it is the pattern of
/// negative zero.
pub const SIGN_BIT: u64 = 0x8000_0000_0000_0000;

/// A binary64 pattern denotes NaN exactly when all exponent bits are set and
/// the mantissa is non-zero.
pub open spec fn spec_nan_bits(b: u64) -> bool {
    b & EXPONENT_MASK == EXPONENT_MASK && b & MANTISSA_MASK != 0
}

/// Whether the bit pattern denotes NaN.
pub fn nan_bits(b: u64) -> (r: bool)
    ensures
        r == spec_nan_bits(b),
{
    b & EXPONENT_MASK == EXPONENT_MASK && b & MANTISSA_MASK != 0
}

/// A key under which plain `u64` order agrees with the numeric order of the
/// denoted values for all non-NaN patterns: negative values (sign bit set)
/// are mapped, reversed, below all non-negative ones, and the pattern of
/// negative zero is first identified with that of positive zero.
pub open spec fn spec_order_key(b: u64) -> u64 {
    let c = if b == SIGN_BIT {
        0u64
    } else {
        b
    };
    if c >= SIGN_BIT {
        !c
    } else {
        (c + SIGN_BIT) as u64
    }
}

/// The order key, computed.
pub fn order_key(b: u64) -> (r: u64)
    ensures
        r == spec_order_key(b),
{
    let c: u64 = if b == SIGN_BIT {
        0u64
    } else {
        b
    };
    if c >= SIGN_BIT {
        !c
    } else {
        c + SIGN_BIT
    }
}

/// Total order on bit patterns; on non-NaN patterns it is the numeric order
/// of the denoted values, with the two zeros equal.
pub open spec fn spec_le_bits(a: u64, b: u64) -> bool {
    spec_order_key(a) <= spec_order_key(b)
}

/// Strict version of `spec_le_bits`.
pub open spec fn spec_lt_bits(a: u64, b: u64) -> bool {
    spec_order_key(a) < spec_order_key(b)
}

/// Whether `a` is at most `b` in the order of `spec_le_bits`.
pub fn le_bits(a: u64, b: u64) -> (r: bool)
    ensures
        r == spec_le_bits(a, b),
{
    order_key(a) <= order_key(b)
}

/// Whether `a` is strictly below `b` in the order of `spec_le_bits`.
pub fn lt_bits(a: u64, b: u64) -> (r: bool)
    ensures
        r == spec_lt_bits(a, b),
{
    order_key(a) < order_key(b)
}

} // verus!
