//! Conversions.
use vstd::prelude::*;
use vstd::arithmetic::power2::{pow2, lemma_pow2_pos, lemma2_to64, lemma2_to64_rest};
use crate::ieee::{
    Format,
    decode,
    exponent,
    is_infinite,
    is_nan,
    is_negative,
    is_zero,
    magnitude_of,
    rounded,
    signed_infinity,
    signed_zero,
    significand,
};
use crate::ieee::rounding::round;
use crate::ieee::bits::{lemma_pow2_monotone, power_of_two};

verus! {

/// The double-precision number of the same value as a single-precision one.
/// Every single-precision number has one; a NaN gives the quiet NaN.
pub open spec fn widened(a: u64) -> nat {
    if is_nan(Format::Single, a) {
        Format::Double.nan() as nat
    } else if is_infinite(Format::Single, a) {
        signed_infinity(Format::Double, is_negative(Format::Single, a))
    } else if is_zero(Format::Single, a) {
        signed_zero(Format::Double, is_negative(Format::Single, a))
    } else {
        rounded(
            Format::Double,
            is_negative(Format::Single, a),
            significand(Format::Single, a),
            exponent(Format::Single, a),
        )
    }
}

/// The least integer that is not below `n * 2^e`.
pub open spec fn ceil_scaled(n: nat, e: int) -> nat {
    if e >= 0 {
        n * pow2(e as nat)
    } else {
        ((n + pow2((-e) as nat) - 1) / (pow2((-e) as nat) as int)) as nat
    }
}

/// A number rounded up to an integer and narrowed to a byte: 0 for NaN and
/// for everything below or at zero, 255 for everything above 255.
pub open spec fn ceiling_byte(fmt: Format, a: u64) -> u8 {
    if is_nan(fmt, a) || is_negative(fmt, a) {
        0u8
    } else if is_infinite(fmt, a) {
        255u8
    } else {
        let up = ceil_scaled(significand(fmt, a), exponent(fmt, a));
        if up > 255 {
            255u8
        } else {
            up as u8
        }
    }
}

/// The double-precision number of the same value as a single-precision one.
pub fn widen(a: u64) -> (r: u64)
    requires
        Format::Single.holds(a),
    ensures
        r == widened(a),
        Format::Double.holds(r),
{
    let mag: u64 = magnitude_of(Format::Single, a);
    let negative: bool = a >= Format::Single.sign();
    let sign: u64 = if negative {
        Format::Double.sign()
    } else {
        0
    };
    if mag > Format::Single.infinity() {
        Format::Double.nan()
    } else if mag == Format::Single.infinity() {
        sign + Format::Double.infinity()
    } else if mag == 0 {
        sign
    } else {
        let (sig, exp): (u64, i32) = decode(Format::Single, mag);
        assert(significand(Format::Single, a) == sig && exponent(Format::Single, a) == exp);
        round(Format::Double, negative, sig as u128, exp)
    }
}

/// A number rounded up to an integer and narrowed to a byte.
pub fn ceil_to_byte(fmt: Format, a: u64) -> (r: u8)
    requires
        fmt.holds(a),
    ensures
        r == ceiling_byte(fmt, a),
{
    let mag: u64 = magnitude_of(fmt, a);
    if mag > fmt.infinity() || a >= fmt.sign() {
        return 0;
    }
    if mag == fmt.infinity() {
        return 255;
    }
    let (sig, exp): (u64, i32) = decode(fmt, mag);
    proof {
        lemma2_to64();
        lemma2_to64_rest();
    }
    if exp >= 0 {
        proof {
            let scale = pow2(exp as nat);
            lemma_pow2_pos(exp as nat);
            assert(sig * scale >= sig) by (nonlinear_arith)
                requires
                    scale >= 1,
                    sig >= 0,
            ;
        }
        return 255;
    }
    if exp < -60 {
        proof {
            let d = pow2((-exp) as nat) as int;
            lemma_pow2_monotone(60, (-exp) as nat);
            if sig == 0 {
                assert((0 + d - 1) / d == 0) by (nonlinear_arith)
                    requires
                        d > 0,
                ;
            } else {
                let x = sig + d - 1;
                assert(x / d == 1) by (nonlinear_arith)
                    requires
                        d > 0,
                        d <= x < 2 * d,
                ;
            }
        }
        return if sig == 0 {
            0
        } else {
            1
        };
    }
    let d: u128 = power_of_two((-exp) as u32);
    proof {
        lemma_pow2_monotone((-exp) as nat, 60);
        lemma_pow2_pos((-exp) as nat);
    }
    let up: u128 = (sig as u128 + d - 1) / d;
    if up > 255 {
        255
    } else {
        up as u8
    }
}

} // verus!
