//! Single-precision values as the 32 bits of their IEEE 754 encoding.
//!
//! The sign is the top bit and the rest, read as an integer, grows with the
//! absolute value. So to classify, order and clamp such values are questions
//! about integers, and they are answered here without any arithmetic on the
//! values themselves.

use vstd::prelude::*;

verus! {

/// The sign bit.
pub const SIGN: u32 = 0x8000_0000;

/// The pattern of positive infinity; the larger magnitudes are not numbers.
pub const INFINITY: u32 = 0x7f80_0000;

/// The pattern of 1.
pub const ONE: u32 = 0x3f80_0000;

/// The pattern of positive zero.
pub const ZERO: u32 = 0;

/// The pattern of 0.04045, the last encoded value of the linear segment of the
/// sRGB transfer curve.
pub const LINEAR_END: u32 = 0x3d25_aee6;

/// Whether the sign bit is set.
pub open spec fn negative(bits: u32) -> bool {
    bits >= SIGN
}

/// The pattern without its sign bit.
pub open spec fn magnitude(bits: u32) -> int {
    if negative(bits) {
        bits - SIGN
    } else {
        bits as int
    }
}

/// Whether the pattern is one of the NaNs.
pub open spec fn not_a_number(bits: u32) -> bool {
    magnitude(bits) > INFINITY
}

/// Whether the pattern is a number other than the two infinities.
pub open spec fn finite(bits: u32) -> bool {
    magnitude(bits) < INFINITY
}

/// The place of a number among all numbers: `rank` grows exactly as the value
/// does, and the two zeros share rank 0.
pub open spec fn rank(bits: u32) -> int {
    if negative(bits) {
        -magnitude(bits)
    } else {
        magnitude(bits)
    }
}

/// `a <= b` as IEEE 754 orders the two values: false as soon as one is a NaN.
pub open spec fn at_most(a: u32, b: u32) -> bool {
    !not_a_number(a) && !not_a_number(b) && rank(a) <= rank(b)
}

/// The value brought into the interval from 0 to 1: what lies below becomes
/// positive zero, what lies above becomes 1, and a NaN counts as zero.
pub open spec fn unit(bits: u32) -> u32 {
    if not_a_number(bits) || rank(bits) <= 0 {
        ZERO
    } else if rank(bits) >= ONE {
        ONE
    } else {
        bits
    }
}

/// Whether an encoded sRGB value lies on the linear segment of the transfer
/// curve, where the linear value is the encoded one divided by 12.92: it is at
/// most 0.04045. Above it, and for a NaN, the power segment applies.
pub open spec fn on_linear_segment(bits: u32) -> bool {
    at_most(bits, LINEAR_END)
}

/// Whether `bits` is a NaN.
pub fn is_nan(bits: u32) -> (r: bool)
    ensures
        r == not_a_number(bits),
{
    if bits >= SIGN {
        bits - SIGN > INFINITY
    } else {
        bits > INFINITY
    }
}

/// Whether `bits` is a finite number.
pub fn is_finite(bits: u32) -> (r: bool)
    ensures
        r == finite(bits),
{
    if bits >= SIGN {
        bits - SIGN < INFINITY
    } else {
        bits < INFINITY
    }
}

fn signed_rank(bits: u32) -> (r: i64)
    ensures
        r == rank(bits),
{
    if bits >= SIGN {
        -((bits - SIGN) as i64)
    } else {
        bits as i64
    }
}

/// Whether the value of `a` is at most that of `b`.
pub fn le(a: u32, b: u32) -> (r: bool)
    ensures
        r == at_most(a, b),
{
    if is_nan(a) || is_nan(b) {
        false
    } else {
        signed_rank(a) <= signed_rank(b)
    }
}

/// Whether an encoded sRGB value lies on the linear segment of the transfer
/// curve.
pub fn is_on_linear_segment(bits: u32) -> (r: bool)
    ensures
        r == on_linear_segment(bits),
{
    le(bits, LINEAR_END)
}

/// Clamps a value to the interval from 0 to 1.
pub fn clamp_unit(bits: u32) -> (r: u32)
    ensures
        r == unit(bits),
        r <= ONE,
{
    if is_nan(bits) || bits >= SIGN || bits == ZERO {
        ZERO
    } else if bits >= ONE {
        ONE
    } else {
        bits
    }
}

/// The order is transitive.
pub proof fn lemma_at_most_transitive(a: u32, b: u32, c: u32)
    requires
        at_most(a, b),
        at_most(b, c),
    ensures
        at_most(a, c),
{
}

/// Any two numbers are ordered one way or the other; a NaN is ordered with
/// nothing, not even with itself.
pub proof fn lemma_at_most_total(a: u32, b: u32)
    ensures
        (at_most(a, b) || at_most(b, a)) <==> (!not_a_number(a) && !not_a_number(b)),
{
}

/// A clamped value is a number between zero and one that clamping leaves as it
/// is, and among clamped values the order of the values is that of the patterns.
pub proof fn lemma_unit_range(bits: u32)
    ensures
        !not_a_number(unit(bits)),
        rank(unit(bits)) == unit(bits),
        ZERO <= unit(bits) <= ONE,
        unit(unit(bits)) == unit(bits),
{
}

/// Clamping keeps the order of numbers.
pub proof fn lemma_unit_monotone(a: u32, b: u32)
    requires
        at_most(a, b),
    ensures
        unit(a) <= unit(b),
{
}

} // verus!
