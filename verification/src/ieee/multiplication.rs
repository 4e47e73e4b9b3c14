//! Multiplication.
use vstd::prelude::*;
use crate::ieee::{
    decode,
    exponent,
    Format,
    is_infinite,
    is_nan,
    is_negative,
    is_zero,
    magnitude_of,
    rounded,
    signed_infinity,
    signed_zero,
    significand,
};
use crate::ieee::rounding::round;

verus! {

/// The product of two numbers.
///
/// NaN if either is NaN or if one is infinite and the other zero. Else the
/// sign is negative exactly if the signs differ; infinity times anything
/// else is infinity; and two finite numbers give their exact product,
/// rounded.
pub open spec fn product(fmt: Format, a: u64, b: u64) -> nat {
    let negative = is_negative(fmt, a) != is_negative(fmt, b);
    if is_nan(fmt, a) || is_nan(fmt, b) {
        fmt.nan() as nat
    } else if is_infinite(fmt, a) || is_infinite(fmt, b) {
        if is_zero(fmt, a) || is_zero(fmt, b) {
            fmt.nan() as nat
        } else {
            signed_infinity(fmt, negative)
        }
    } else if is_zero(fmt, a) || is_zero(fmt, b) {
        signed_zero(fmt, negative)
    } else {
        rounded(
            fmt,
            negative,
            significand(fmt, a) * significand(fmt, b),
            exponent(fmt, a) + exponent(fmt, b),
        )
    }
}

/// The product of two numbers.
pub fn mul(fmt: Format, a: u64, b: u64) -> (r: u64)
    requires
        fmt.holds(a),
        fmt.holds(b),
    ensures
        r == product(fmt, a, b),
        fmt.holds(r),
{
    let mag_a: u64 = magnitude_of(fmt, a);
    let mag_b: u64 = magnitude_of(fmt, b);
    let inf: u64 = fmt.infinity();
    if mag_a > inf || mag_b > inf {
        return fmt.nan();
    }
    let negative: bool = (a >= fmt.sign()) != (b >= fmt.sign());
    let sign: u64 = if negative {
        fmt.sign()
    } else {
        0
    };
    if mag_a == inf || mag_b == inf {
        return if mag_a == 0 || mag_b == 0 {
            fmt.nan()
        } else {
            sign + inf
        };
    }
    if mag_a == 0 || mag_b == 0 {
        return sign;
    }
    let (sig_a, exp_a): (u64, i32) = decode(fmt, mag_a);
    let (sig_b, exp_b): (u64, i32) = decode(fmt, mag_b);
    proof {
        let limit = 2 * fmt.unit();
        assert(0 < sig_a * sig_b < limit * limit) by (nonlinear_arith)
            requires
                0 < sig_a < limit,
                0 < sig_b < limit,
        ;
        assert(limit * limit <= 0x400_0000_0000_0000_0000_0000_0000) by (nonlinear_arith)
            requires
                0 <= limit <= 0x20_0000_0000_0000,
        ;
        assert(significand(fmt, a) == sig_a && exponent(fmt, a) == exp_a);
        assert(significand(fmt, b) == sig_b && exponent(fmt, b) == exp_b);
    }
    round(fmt, negative, sig_a as u128 * sig_b as u128, exp_a + exp_b)
}

} // verus!
