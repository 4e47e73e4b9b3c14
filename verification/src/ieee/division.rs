//! Division.
use vstd::prelude::*;
use vstd::arithmetic::power2::{
    pow2,
    lemma_pow2_pos,
    lemma_pow2_adds,
    lemma2_to64,
    lemma2_to64_rest,
};
use crate::ieee::{
    Format,
    bit_length,
    decode,
    exponent,
    is_infinite,
    is_nan,
    is_negative,
    is_zero,
    magnitude_of,
    pack,
    signed_infinity,
    signed_zero,
    significand,
};
use crate::ieee::bits::{count_bits, lemma_bit_length_bounds, lemma_pow2_monotone, power_of_two};

verus! {

/// By how many bits the significand of a finite number other than zero
/// falls short of the precision: zero unless the number is subnormal.
pub open spec fn normal_shift(fmt: Format, bits: u64) -> nat {
    (fmt.precision() - bit_length(significand(fmt, bits))) as nat
}

/// The significand of a finite number other than zero, scaled up to have
/// its leading bit at the unit.
pub open spec fn normal_significand(fmt: Format, bits: u64) -> nat {
    significand(fmt, bits) * pow2(normal_shift(fmt, bits))
}

/// The exponent that goes with `normal_significand`.
pub open spec fn normal_exponent(fmt: Format, bits: u64) -> int {
    exponent(fmt, bits) - normal_shift(fmt, bits)
}

/// `x / y` rounded to the nearest integer, a tie going to the even one.
pub open spec fn ratio_half_even(x: nat, y: nat) -> nat {
    let f = x / y;
    let r = x % y;
    if 2 * r > y || (2 * r == y && f % 2 == 1) {
        f + 1
    } else {
        f
    }
}

/// The bits of `(x / y) * 2^e` rounded to the format, negated if `negative`,
/// for `x` and `y` that have their leading bit at the unit. The ratio is
/// then between a half and two, which fixes the exponent at which it is
/// rounded.
pub open spec fn rounded_ratio(fmt: Format, negative: bool, x: nat, y: nat, e: int) -> nat {
    let len: int = if x >= y {
        1
    } else {
        0
    };
    let q: int = if e + len - fmt.precision() > fmt.min_exponent() {
        e + len - fmt.precision()
    } else {
        fmt.min_exponent() as int
    };
    let sig = if q <= e {
        ratio_half_even(x * pow2((e - q) as nat), y)
    } else {
        ratio_half_even(x, y * pow2((q - e) as nat))
    };
    let mag = pack(fmt, sig, q);
    if negative {
        (fmt.sign() + mag) as nat
    } else {
        mag
    }
}

/// The quotient of two numbers.
///
/// NaN if either is NaN, if both are infinite or if both are zero. Else the
/// sign is negative exactly if the signs differ; an infinity divided, or
/// anything divided by zero, is infinity; anything divided by an infinity,
/// or zero divided, is zero; and two finite numbers other than zero give
/// their exact quotient, rounded.
pub open spec fn quotient(fmt: Format, a: u64, b: u64) -> nat {
    let negative = is_negative(fmt, a) != is_negative(fmt, b);
    if is_nan(fmt, a) || is_nan(fmt, b) {
        fmt.nan() as nat
    } else if is_infinite(fmt, a) {
        if is_infinite(fmt, b) {
            fmt.nan() as nat
        } else {
            signed_infinity(fmt, negative)
        }
    } else if is_infinite(fmt, b) {
        signed_zero(fmt, negative)
    } else if is_zero(fmt, b) {
        if is_zero(fmt, a) {
            fmt.nan() as nat
        } else {
            signed_infinity(fmt, negative)
        }
    } else if is_zero(fmt, a) {
        signed_zero(fmt, negative)
    } else {
        rounded_ratio(
            fmt,
            negative,
            normal_significand(fmt, a),
            normal_significand(fmt, b),
            normal_exponent(fmt, a) - normal_exponent(fmt, b),
        )
    }
}

/// The significand of a finite number other than zero, given without its
/// sign, scaled up to have its leading bit at the unit, and the exponent
/// that goes with it.
pub(crate) fn normalize(fmt: Format, mag: u64) -> (parts: (u64, i32))
    requires
        0 < mag < fmt.infinity(),
    ensures
        parts.0 == normal_significand(fmt, mag),
        parts.1 == normal_exponent(fmt, mag),
        fmt.unit() <= parts.0 < 2 * fmt.unit(),
        fmt.min_exponent() - 52 <= parts.1 <= fmt.min_exponent() + 2046,
{
    let (sig, exp): (u64, i32) = decode(fmt, mag);
    let len: u32 = count_bits(sig as u128);
    proof {
        lemma2_to64();
        lemma2_to64_rest();
        lemma_bit_length_bounds(sig as nat);
        if len > fmt.precision() {
            lemma_pow2_monotone(fmt.precision() as nat, (len - 1) as nat);
        }
    }
    let shift: u32 = fmt.precision() - len;
    let scale: u128 = power_of_two(shift);
    proof {
        let low = pow2((len - 1) as nat);
        let high = pow2(len as nat);
        lemma_pow2_adds((len - 1) as nat, shift as nat);
        lemma_pow2_adds(len as nat, shift as nat);
        assert(pow2((fmt.precision() - 1) as nat) == fmt.unit());
        assert(pow2(fmt.precision() as nat) == 2 * fmt.unit());
        assert(low * scale <= sig * scale < high * scale) by (nonlinear_arith)
            requires
                low <= sig < high,
                scale > 0,
        ;
    }
    ((sig as u128 * scale) as u64, exp - shift as i32)
}

/// The quotient of two numbers.
pub fn div(fmt: Format, a: u64, b: u64) -> (r: u64)
    requires
        fmt.holds(a),
        fmt.holds(b),
    ensures
        r == quotient(fmt, a, b),
        fmt.holds(r),
{
    let mag_a: u64 = magnitude_of(fmt, a);
    let mag_b: u64 = magnitude_of(fmt, b);
    let inf: u64 = fmt.infinity();
    if mag_a > inf || mag_b > inf {
        return fmt.nan();
    }
    let negative: bool = (a >= fmt.sign()) != (b >= fmt.sign());
    let sign: u64 = if negative {
        fmt.sign()
    } else {
        0
    };
    if mag_a == inf {
        return if mag_b == inf {
            fmt.nan()
        } else {
            sign + inf
        };
    }
    if mag_b == inf {
        return sign;
    }
    if mag_b == 0 {
        return if mag_a == 0 {
            fmt.nan()
        } else {
            sign + inf
        };
    }
    if mag_a == 0 {
        return sign;
    }
    let (x, exp_a): (u64, i32) = normalize(fmt, mag_a);
    let (y, exp_b): (u64, i32) = normalize(fmt, mag_b);
    proof {
        assert(normal_significand(fmt, a) == x && normal_exponent(fmt, a) == exp_a);
        assert(normal_significand(fmt, b) == y && normal_exponent(fmt, b) == exp_b);
        lemma2_to64();
        lemma2_to64_rest();
    }
    let e: i32 = exp_a - exp_b;
    let len: i32 = if x >= y {
        1
    } else {
        0
    };
    let p: i32 = fmt.precision() as i32;
    let emin: i32 = fmt.min_exponent();
    let q: i32 = if e + len - p > emin {
        e + len - p
    } else {
        emin
    };
    let sig: u128 = if q <= e {
        let scale: u128 = power_of_two((e - q) as u32);
        proof {
            lemma_pow2_monotone((e - q) as nat, 53);
            assert(x * scale <= 0x20_0000_0000_0000 * 0x20_0000_0000_0000) by (nonlinear_arith)
                requires
                    x <= 0x20_0000_0000_0000,
                    0 <= scale <= 0x20_0000_0000_0000,
            ;
        }
        let num: u128 = x as u128 * scale;
        let f: u128 = num / (y as u128);
        let r: u128 = num % (y as u128);
        if 2 * r > y as u128 || (2 * r == y as u128 && f % 2 == 1) {
            f + 1
        } else {
            f
        }
    } else if q - e > 60 {
        proof {
            let k = (q - e) as nat;
            let den: nat = y as nat * pow2(k);
            lemma_pow2_monotone(2, k);
            assert(den >= 4 * y) by (nonlinear_arith)
                requires
                    den == y * pow2(k),
                    pow2(k) >= 4,
                    y >= 0,
            ;
            assert(x as nat / den == 0 && x as nat % den == x) by (nonlinear_arith)
                requires
                    0 <= x < den,
            ;
        }
        0
    } else {
        let scale: u128 = power_of_two((q - e) as u32);
        proof {
            lemma_pow2_monotone((q - e) as nat, 60);
            lemma_pow2_pos((q - e) as nat);
            assert(0 < y * scale <= 0x20_0000_0000_0000 * 0x1000_0000_0000_0000)
                by (nonlinear_arith)
                requires
                    0 < y <= 0x20_0000_0000_0000,
                    0 < scale <= 0x1000_0000_0000_0000,
            ;
        }
        let den: u128 = y as u128 * scale;
        let f: u128 = (x as u128) / den;
        let r: u128 = (x as u128) % den;
        if 2 * r > den || (2 * r == den && f % 2 == 1) {
            f + 1
        } else {
            f
        }
    };
    let steps: u128 = (q - emin) as u128;
    let unit: u128 = fmt.unit() as u128;
    proof {
        assert(steps * unit <= 16384 * unit) by (nonlinear_arith)
            requires
                steps <= 16384,
                unit >= 0,
        ;
    }
    let raw: u128 = steps * unit + sig;
    let mag: u64 = if raw >= inf as u128 {
        inf
    } else {
        raw as u64
    };
    sign + mag
}

} // verus!
