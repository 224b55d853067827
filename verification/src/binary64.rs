//! Order of IEEE 754 double-precision numbers, read from their bit patterns.
//!
//! A number is held as the 64 bits that `to_bits` gives for it: one sign bit,
//! eleven exponent bits, fifty-two fraction bits. Nothing here does
//! floating-point arithmetic; the functions only classify and compare.

use vstd::prelude::*;

verus! {

/// The sign bit alone: the pattern of negative zero.
pub const SIGN_BIT: u64 = 0x8000_0000_0000_0000;

/// The pattern of positive infinity: all exponent bits set, no fraction bit.
pub const POSITIVE_INFINITY: u64 = 0x7FF0_0000_0000_0000;

/// The pattern of negative infinity.
pub const NEGATIVE_INFINITY: u64 = 0xFFF0_0000_0000_0000;

/// The pattern without its sign bit.
pub open spec fn magnitude(bits: u64) -> int {
    if bits < SIGN_BIT {
        bits as int
    } else {
        bits - SIGN_BIT
    }
}

/// A pattern is a NaN when its exponent bits are all set and its fraction is
/// not zero, whatever its sign.
pub open spec fn spec_is_nan(bits: u64) -> bool {
    magnitude(bits) > POSITIVE_INFINITY
}

/// Place of a pattern in the total order of the standard.
///
/// Among patterns that are not NaN a smaller number has a smaller rank, and
/// negative zero stands directly below positive zero. Patterns with the sign
/// bit clear count upwards from zero, those with it set downwards from minus
/// one.
pub open spec fn spec_rank(bits: u64) -> int {
    if bits < SIGN_BIT {
        bits as int
    } else {
        -(bits - SIGN_BIT) - 1
    }
}

/// The smaller of two numbers, a NaN giving way to the other argument.
///
/// Of the two zeros the negative one is the smaller. If both are NaN the
/// result is `a`.
pub open spec fn lesser(a: u64, b: u64) -> u64 {
    if spec_is_nan(b) {
        a
    } else if spec_is_nan(a) {
        b
    } else if spec_rank(b) < spec_rank(a) {
        b
    } else {
        a
    }
}

/// The larger of two numbers, a NaN giving way to the other argument.
///
/// Of the two zeros the positive one is the larger. If both are NaN the
/// result is `a`.
pub open spec fn greater(a: u64, b: u64) -> u64 {
    if spec_is_nan(b) {
        a
    } else if spec_is_nan(a) {
        b
    } else if spec_rank(b) > spec_rank(a) {
        b
    } else {
        a
    }
}

/// Tells whether `bits` is the pattern of a NaN.
#[verifier::when_used_as_spec(spec_is_nan)]
pub fn is_nan(bits: u64) -> (r: bool)
    ensures
        r == spec_is_nan(bits),
{
    let m: u64 = if bits < SIGN_BIT {
        bits
    } else {
        bits - SIGN_BIT
    };
    m > POSITIVE_INFINITY
}

/// Computes the rank of `bits` in the total order.
pub fn rank(bits: u64) -> (r: i64)
    ensures
        r == spec_rank(bits),
{
    if bits < SIGN_BIT {
        bits as i64
    } else {
        let m: u64 = bits - SIGN_BIT;
        -(m as i64) - 1
    }
}

/// Returns the smaller of `a` and `b`, ignoring a NaN where the other is a number.
pub fn minimum(a: u64, b: u64) -> (r: u64)
    ensures
        r == lesser(a, b),
{
    if is_nan(b) {
        a
    } else if is_nan(a) {
        b
    } else if rank(b) < rank(a) {
        b
    } else {
        a
    }
}

/// Returns the larger of `a` and `b`, ignoring a NaN where the other is a number.
pub fn maximum(a: u64, b: u64) -> (r: u64)
    ensures
        r == greater(a, b),
{
    if is_nan(b) {
        a
    } else if is_nan(a) {
        b
    } else if rank(b) > rank(a) {
        b
    } else {
        a
    }
}

/// Two patterns of equal rank are the same pattern: the order is total.
pub proof fn lemma_rank_is_injective(a: u64, b: u64)
    requires
        spec_rank(a) == spec_rank(b),
    ensures
        a == b,
{
}

} // verus!
