//! The mathematical model of IEEE 754 binary32 bit patterns.
//!
//! A finite pattern stands for an integer number of units, one unit being
//! 2^-149, the smallest positive binary32 value. Rounding is to nearest, ties
//! to the even significand.

use vstd::arithmetic::power2::pow2;
use vstd::prelude::*;

verus! {

/// The bit that holds the sign.
pub const SIGN_BIT: u32 = 0x8000_0000;

/// Positive infinity.
pub const INFINITY: u32 = 0x7f80_0000;

/// The one NaN that arithmetic produces.
pub const NAN: u32 = 0x7fc0_0000;

/// Positive zero.
pub const ZERO: u32 = 0;

/// Negative zero.
pub const NEG_ZERO: u32 = 0x8000_0000;

/// The value 1.0.
pub const ONE: u32 = 0x3f80_0000;

/// The pattern without its sign bit.
pub open spec fn magnitude_bits(x: u32) -> nat {
    (x % SIGN_BIT) as nat
}

/// Whether the sign bit is set.
pub open spec fn is_negative(x: u32) -> bool {
    x >= SIGN_BIT
}

/// Whether the pattern is one of the NaNs: beyond infinity in magnitude.
pub open spec fn is_nan(x: u32) -> bool {
    magnitude_bits(x) > INFINITY
}

/// Positive or negative infinity.
pub open spec fn is_infinite(x: u32) -> bool {
    magnitude_bits(x) == INFINITY
}

/// Positive or negative zero.
pub open spec fn is_zero(x: u32) -> bool {
    magnitude_bits(x) == 0
}

/// The significand of a magnitude pattern, with the implicit leading bit of
/// a normal value made explicit.
pub open spec fn significand(b: nat) -> nat {
    if b / 0x80_0000 == 0 {
        b % 0x80_0000
    } else {
        0x80_0000 + b % 0x80_0000
    }
}

/// The power of two by which the significand of a magnitude pattern is
/// scaled, counted from the subnormal range.
pub open spec fn step(b: nat) -> nat {
    if b / 0x80_0000 == 0 {
        0
    } else {
        (b / 0x80_0000 - 1) as nat
    }
}

/// What a finite magnitude pattern is worth, in units of 2^-149.
pub open spec fn magnitude(b: nat) -> nat {
    significand(b) * pow2(step(b))
}

/// What a finite pattern is worth, in units of 2^-149.
pub open spec fn value(x: u32) -> int {
    if is_negative(x) {
        -(magnitude(magnitude_bits(x)) as int)
    } else {
        magnitude(magnitude_bits(x)) as int
    }
}

/// The quotient `num / den` rounded to the nearest integer, a tie going to the
/// even neighbour.
pub open spec fn div_round_even(num: nat, den: nat) -> nat {
    let q = num / den;
    let r = num % den;
    if 2 * r < den {
        q
    } else if 2 * r > den {
        q + 1
    } else {
        q + q % 2
    }
}

/// The step of the binade that holds `q` units: the least `e` with
/// `q < 2^(24 + e)`.
pub open spec fn binade(q: nat) -> nat
    decreases q,
{
    if q < 0x100_0000 {
        0
    } else {
        1 + binade(q / 2)
    }
}

/// The magnitude pattern nearest to `num / den` units, as if the exponent
/// range had no upper end: a result of [`INFINITY`] or more means overflow.
pub open spec fn round_ratio(num: nat, den: nat) -> nat {
    let e = binade(num / den);
    e * 0x80_0000 + div_round_even(num, den * pow2(e))
}

/// The pattern with the given sign and rounded magnitude, overflow becoming
/// infinity.
pub open spec fn encode(negative: bool, rounded: nat) -> u32 {
    let b = if rounded >= INFINITY {
        INFINITY as nat
    } else {
        rounded
    };
    if negative {
        (SIGN_BIT + b) as u32
    } else {
        b as u32
    }
}

/// Where a pattern that is no NaN stands in the order of binary32 values:
/// its magnitude pattern, counted downwards for negative values. Both zeros
/// stand at 0.
pub open spec fn rank(x: u32) -> int {
    if is_negative(x) {
        -(magnitude_bits(x) as int)
    } else {
        magnitude_bits(x) as int
    }
}

/// Equality of binary32 values: a NaN equals nothing, the two zeros are
/// equal.
pub open spec fn equal(a: u32, b: u32) -> bool {
    !is_nan(a) && !is_nan(b) && rank(a) == rank(b)
}

/// The strict order of binary32 values: a NaN is below and above nothing.
pub open spec fn less(a: u32, b: u32) -> bool {
    !is_nan(a) && !is_nan(b) && rank(a) < rank(b)
}

/// The pattern with the opposite sign.
pub open spec fn negated(x: u32) -> u32 {
    if x >= SIGN_BIT {
        (x - SIGN_BIT) as u32
    } else {
        (x + SIGN_BIT) as u32
    }
}

/// The pattern of an exact sum of `s` units: zero is negative only when both
/// terms were, anything else is rounded to nearest.
pub open spec fn round_sum(s: int, both_negative: bool) -> u32 {
    if s == 0 {
        if both_negative {
            NEG_ZERO
        } else {
            ZERO
        }
    } else if s > 0 {
        encode(false, round_ratio(s as nat, 1))
    } else {
        encode(true, round_ratio((-s) as nat, 1))
    }
}

/// The binary32 sum of two patterns.
///
/// A NaN operand, or infinities of opposite sign, give NaN. An exact sum of
/// zero is negative only when both operands are.
pub open spec fn sum(a: u32, b: u32) -> u32 {
    if is_nan(a) || is_nan(b) {
        NAN
    } else if is_infinite(a) {
        if is_infinite(b) && is_negative(a) != is_negative(b) {
            NAN
        } else {
            a
        }
    } else if is_infinite(b) {
        b
    } else {
        round_sum(value(a) + value(b), is_negative(a) && is_negative(b))
    }
}

/// The binary32 difference of two patterns.
pub open spec fn difference(a: u32, b: u32) -> u32 {
    sum(a, negated(b))
}

/// The binary32 product of two patterns.
///
/// A NaN operand, or zero times infinity, gives NaN. The sign is the
/// exclusive or of the operands' signs.
pub open spec fn product(a: u32, b: u32) -> u32 {
    let negative = is_negative(a) != is_negative(b);
    if is_nan(a) || is_nan(b) {
        NAN
    } else if is_infinite(a) || is_infinite(b) {
        if is_zero(a) || is_zero(b) {
            NAN
        } else {
            encode(negative, INFINITY as nat)
        }
    } else {
        encode(
            negative,
            round_ratio(magnitude(magnitude_bits(a)) * magnitude(magnitude_bits(b)), pow2(149)),
        )
    }
}

/// Whether `r` is the integer part of the square root of `n`.
pub open spec fn encloses_root(n: nat, r: nat) -> bool {
    r * r <= n < (r + 1) * (r + 1)
}

/// The largest integer whose square does not exceed `n`.
pub open spec fn floor_sqrt(n: nat) -> nat {
    choose|r: nat| encloses_root(n, r)
}

/// The magnitude pattern nearest to the square root of a magnitude of `a`
/// units.
///
/// In units of 2^-149 the exact root is the square root of `a * 2^149`. On
/// the scale of its binade its integer part is `c`, and the root lies beyond
/// `c + 1/2` exactly when four times the radicand exceeds `(2c + 1)^2` on
/// that scale. The root of a binary32 value never lies on a midpoint, so no
/// rule for ties is needed.
pub open spec fn round_root(a: nat) -> nat {
    let n = a * pow2(149);
    let e = binade(floor_sqrt(n));
    let c = floor_sqrt(n / pow2(2 * e));
    if 4 * n > (2 * c + 1) * (2 * c + 1) * pow2(2 * e) {
        e * 0x80_0000 + c + 1
    } else {
        e * 0x80_0000 + c
    }
}

/// The binary32 square root of a pattern.
///
/// NaN and negative values other than zero give NaN; a zero keeps its sign.
pub open spec fn root(a: u32) -> u32 {
    if is_nan(a) {
        NAN
    } else if is_zero(a) {
        a
    } else if is_negative(a) {
        NAN
    } else if is_infinite(a) {
        a
    } else {
        round_root(magnitude(magnitude_bits(a))) as u32
    }
}

} // verus!
