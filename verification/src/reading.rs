//! Sensor readings as IEEE 754 binary64 bit patterns, and their order.
//!
//! A reading travels through the library as the 64 bits of a double: one sign
//! bit, eleven exponent bits, fifty-two fraction bits. Only the order of two
//! readings is ever needed here, and that order can be read off the bits.

use vstd::prelude::*;

verus! {

/// The sign bit of a binary64 pattern.
pub const SIGN: u64 = 0x8000_0000_0000_0000;

/// The pattern of positive infinity: every exponent bit set, no fraction bit.
pub const INFINITY: u64 = 0x7ff0_0000_0000_0000;

/// Whether the sign bit is set.
pub open spec fn is_negative(bits: u64) -> bool {
    bits >= SIGN
}

/// The pattern with its sign bit cleared.
pub open spec fn magnitude(bits: u64) -> u64 {
    if bits >= SIGN {
        (bits - SIGN) as u64
    } else {
        bits
    }
}

/// Whether the pattern denotes no number: exponent all ones and a fraction
/// that is not zero.
pub open spec fn is_nan(bits: u64) -> bool {
    magnitude(bits) > INFINITY
}

/// The place of a pattern in the order of the numbers. Patterns of one sign
/// are ordered as their magnitudes, negative ones in reverse, and the two
/// zeros share the place 0.
pub open spec fn rank(bits: u64) -> int {
    if is_negative(bits) {
        -(magnitude(bits) as int)
    } else {
        magnitude(bits) as int
    }
}

/// Whether `value` is strictly greater than `threshold` as a number. A pattern
/// that is not a number is greater than nothing, and nothing is greater than
/// it.
pub open spec fn exceeds(value: u64, threshold: u64) -> bool {
    &&& !is_nan(value)
    &&& !is_nan(threshold)
    &&& rank(value) > rank(threshold)
}

/// Splits a pattern into its sign and its magnitude.
fn sign_and_magnitude(bits: u64) -> (parts: (bool, u64))
    ensures
        parts.0 == is_negative(bits),
        parts.1 == magnitude(bits),
{
    if bits >= SIGN {
        (true, bits - SIGN)
    } else {
        (false, bits)
    }
}

/// Decides whether `value` is strictly greater than `threshold`.
pub fn is_above(value: u64, threshold: u64) -> (above: bool)
    ensures
        above == exceeds(value, threshold),
{
    let (value_negative, v) = sign_and_magnitude(value);
    let (threshold_negative, t) = sign_and_magnitude(threshold);
    if v > INFINITY || t > INFINITY {
        false
    } else if value_negative {
        threshold_negative && v < t
    } else if threshold_negative {
        v > 0 || t > 0
    } else {
        v > t
    }
}

/// Two readings that denote the same number do not exceed one another: a
/// reading equal to the threshold stays below the strict filter. This covers
/// a pattern held against itself and the two zeros held against each other.
pub proof fn lemma_equal_reading_is_excluded(value: u64, threshold: u64)
    requires
        rank(value) == rank(threshold),
    ensures
        !exceeds(value, threshold),
        !exceeds(threshold, value),
{
}

} // verus!
