//! The square root.
use vstd::prelude::*;
use vstd::arithmetic::power2::{
    pow2,
    lemma_pow2_pos,
    lemma_pow2_unfold,
    lemma2_to64,
    lemma2_to64_rest,
};
use crate::ieee::{Format, is_infinite, is_nan, is_negative, is_zero, magnitude_of, pack};
use crate::ieee::bits::{lemma_pow2_monotone, power_of_two};
use crate::ieee::division::{normal_exponent, normal_significand, normalize};

verus! {

/// `r` is the integer square root of `n`: the greatest integer whose square
/// is not above `n`.
pub open spec fn is_integer_root(n: nat, r: nat) -> bool {
    r * r <= n < (r + 1) * (r + 1)
}

/// The integer square root of `n`.
pub open spec fn integer_root(n: nat) -> nat {
    choose|r: nat| is_integer_root(n, r)
}

/// The integer nearest to the square root of `n`. The square root is never
/// half-way between two integers.
pub open spec fn nearest_root(n: nat) -> nat {
    let f = integer_root(n);
    if n - f * f > f {
        f + 1
    } else {
        f
    }
}

/// How far the exponent of a number, whose significand has its leading bit
/// at the unit, lies above the least that there is. Its parity decides by
/// how much the significand is scaled before the root is taken.
pub open spec fn root_offset(fmt: Format, a: u64) -> int {
    normal_exponent(fmt, a) - (fmt.precision() - 1) - 2 * fmt.min_exponent()
}

/// The square root of a number.
///
/// NaN for NaN and for everything below zero; a zero, of either sign, and
/// positive infinity are their own roots. A positive finite number
/// `x * 2^e` is first written as `(x * 2^t) * 2^(2 * q)`, with `t` such that
/// the root of `x * 2^t` has as many bits as the format's precision; the
/// result is the integer nearest to that root, at exponent `q`.
pub open spec fn root(fmt: Format, a: u64) -> nat {
    if is_nan(fmt, a) {
        fmt.nan() as nat
    } else if is_zero(fmt, a) {
        a as nat
    } else if is_negative(fmt, a) {
        fmt.nan() as nat
    } else if is_infinite(fmt, a) {
        a as nat
    } else {
        let u = root_offset(fmt, a);
        let t = (fmt.precision() - 1 + u % 2) as nat;
        pack(
            fmt,
            nearest_root(normal_significand(fmt, a) * pow2(t)),
            fmt.min_exponent() + u / 2,
        )
    }
}

/// No two integers are the integer square root of one number.
pub proof fn lemma_integer_root_unique(n: nat, r: nat)
    requires
        is_integer_root(n, r),
    ensures
        integer_root(n) == r,
{
    let s = integer_root(n);
    assert(is_integer_root(n, s));
    if s < r {
        assert((s + 1) * (s + 1) <= r * r) by (nonlinear_arith)
            requires
                0 <= s + 1 <= r,
        ;
    } else if r < s {
        assert((r + 1) * (r + 1) <= s * s) by (nonlinear_arith)
            requires
                0 <= r + 1 <= s,
        ;
    }
}

/// The integer square root of a number below `2^106`.
fn integer_sqrt(n: u128) -> (r: u128)
    requires
        n < 0x400_0000_0000_0000_0000_0000_0000,
    ensures
        r == integer_root(n as nat),
        is_integer_root(n as nat, r as nat),
        r < 0x20_0000_0000_0000,
{
    let mut r: u128 = 0;
    let mut step: u128 = 0x20_0000_0000_0000;
    let mut i: u32 = 53;
    proof {
        lemma2_to64_rest();
    }
    while i > 0
        invariant
            i <= 53,
            step == pow2(i as nat),
            r * r <= n,
            n < (r + step) * (r + step),
            r + step <= 0x20_0000_0000_0000,
            n < 0x400_0000_0000_0000_0000_0000_0000,
        decreases i,
    {
        proof {
            lemma_pow2_unfold(i as nat);
            lemma_pow2_pos((i - 1) as nat);
        }
        i = i - 1;
        step = step / 2;
        let trial: u128 = r + step;
        proof {
            assert(trial * trial < 0x20_0000_0000_0000 * 0x20_0000_0000_0000) by (nonlinear_arith)
                requires
                    0 <= trial < 0x20_0000_0000_0000,
            ;
        }
        if trial * trial <= n {
            r = trial;
        }
    }
    proof {
        lemma2_to64();
        lemma_integer_root_unique(n as nat, r as nat);
    }
    r
}

/// The square root of a number.
pub fn sqrt(fmt: Format, a: u64) -> (r: u64)
    requires
        fmt.holds(a),
    ensures
        r == root(fmt, a),
        fmt.holds(r),
{
    let mag: u64 = magnitude_of(fmt, a);
    if mag > fmt.infinity() {
        return fmt.nan();
    }
    if mag == 0 {
        return a;
    }
    if a >= fmt.sign() {
        return fmt.nan();
    }
    if mag == fmt.infinity() {
        return a;
    }
    let (x, exp): (u64, i32) = normalize(fmt, mag);
    assert(normal_significand(fmt, a) == x && normal_exponent(fmt, a) == exp);
    let p: i32 = fmt.precision() as i32;
    let emin: i32 = fmt.min_exponent();
    let u: i32 = exp - (p - 1) - 2 * emin;
    let t: u32 = (p - 1 + u % 2) as u32;
    let scale: u128 = power_of_two(t);
    proof {
        lemma2_to64();
        lemma2_to64_rest();
        lemma_pow2_monotone(t as nat, 53);
        assert(x * scale < 0x20_0000_0000_0000 * 0x20_0000_0000_0000) by (nonlinear_arith)
            requires
                0 <= x < 0x20_0000_0000_0000,
                0 < scale <= 0x20_0000_0000_0000,
        ;
    }
    let n: u128 = x as u128 * scale;
    let f: u128 = integer_sqrt(n);
    proof {
        assert(f * f <= n);
    }
    let sig: u128 = if n - f * f > f {
        f + 1
    } else {
        f
    };
    let q: i32 = emin + u / 2;
    let steps: u128 = (q - emin) as u128;
    let unit: u128 = fmt.unit() as u128;
    proof {
        assert(steps * unit <= 16384 * unit) by (nonlinear_arith)
            requires
                steps <= 16384,
                unit >= 0,
        ;
    }
    let raw: u128 = steps * unit + sig;
    if raw >= fmt.infinity() as u128 {
        fmt.infinity()
    } else {
        raw as u64
    }
}

} // verus!
