//! Addition and subtraction.
use vstd::prelude::*;
use vstd::arithmetic::power2::{
    pow2,
    lemma_pow2_pos,
    lemma_pow2_unfold,
    lemma_pow2_adds,
    lemma2_to64,
    lemma2_to64_rest,
};
use vstd::arithmetic::div_mod::{
    lemma_fundamental_div_mod,
    lemma_fundamental_div_mod_converse,
    lemma_mod_pos_bound,
};
use crate::ieee::{
    decode,
    exponent,
    exponent_field,
    Format,
    is_infinite,
    is_nan,
    is_negative,
    magnitude,
    magnitude_of,
    neg,
    negated,
    pack,
    round_half_even,
    rounded,
    rounded_exponent,
    rounded_significand,
    signed_significand,
    signed_zero,
    significand,
};
use crate::ieee::bits::{lemma_bit_length_is, lemma_pow2_123, lemma_pow2_monotone, power_of_two};
use crate::ieee::rounding::round;
use crate::ieee::laws::lemma_sum_commutes;

verus! {

/// The sum of two numbers.
///
/// NaN if either is NaN or if they are infinities of opposite sign; an
/// infinity if one of them is one. Two finite numbers give their exact sum,
/// rounded; an exact sum of zero is positive zero, unless both numbers are
/// negative (then both are negative zero, and so is the sum).
pub open spec fn sum(fmt: Format, a: u64, b: u64) -> nat {
    if is_nan(fmt, a) || is_nan(fmt, b) {
        fmt.nan() as nat
    } else if is_infinite(fmt, a) {
        if is_infinite(fmt, b) && is_negative(fmt, a) != is_negative(fmt, b) {
            fmt.nan() as nat
        } else {
            a as nat
        }
    } else if is_infinite(fmt, b) {
        b as nat
    } else {
        let e = if exponent(fmt, a) <= exponent(fmt, b) {
            exponent(fmt, a)
        } else {
            exponent(fmt, b)
        };
        let x = signed_significand(fmt, a) * pow2((exponent(fmt, a) - e) as nat)
            + signed_significand(fmt, b) * pow2((exponent(fmt, b) - e) as nat);
        if x == 0 {
            signed_zero(fmt, is_negative(fmt, a) && is_negative(fmt, b))
        } else if x < 0 {
            rounded(fmt, true, (-x) as nat, e)
        } else {
            rounded(fmt, false, x as nat, e)
        }
    }
}

/// The difference of two numbers: the sum of the first and the negated second.
pub open spec fn difference(fmt: Format, a: u64, b: u64) -> nat {
    sum(fmt, a, negated(fmt, b) as u64)
}

/// Where one number lies far above the other, their sum or difference rounds
/// to the larger one: `big * 2^d` plus or minus `small`, at exponent `e`,
/// rounds to `big` at exponent `e + d`.
proof fn lemma_far_apart(fmt: Format, big: nat, small: nat, d: nat, e: int, minus: bool)
    requires
        fmt.unit() <= big < 2 * fmt.unit(),
        small < 2 * fmt.unit(),
        d >= 55,
        e >= fmt.min_exponent(),
        (e + d - fmt.min_exponent()) * fmt.unit() + big < fmt.infinity(),
    ensures
        ({
            let n: int = if minus {
                big * pow2(d) - small
            } else {
                (big * pow2(d) + small) as int
            };
            &&& n > 0
            &&& pack(
                fmt,
                rounded_significand(fmt, n as nat, e),
                rounded_exponent(fmt, n as nat, e),
            ) == (e + d - fmt.min_exponent()) * fmt.unit() + big
        }),
{
    lemma2_to64();
    lemma2_to64_rest();
    let unit = fmt.unit() as nat;
    let p = fmt.precision() as nat;
    let top = pow2(d);
    let half = pow2((d - 1) as nat);
    let quarter = pow2((d - 2) as nat);
    lemma_pow2_unfold(d);
    lemma_pow2_unfold((d - 1) as nat);
    lemma_pow2_monotone(53, (d - 2) as nat);
    lemma_pow2_pos((d - 2) as nat);
    assert(unit == pow2((p - 1) as nat));
    assert(2 * unit <= quarter);
    lemma_pow2_adds((p - 1) as nat, d);
    lemma_pow2_adds((p - 1) as nat, (d - 1) as nat);
    lemma_pow2_unfold(p + d);
    assert(pow2((p - 1 + d) as nat) == unit * top);
    assert(pow2((p - 1 + d - 1) as nat) == unit * half);
    assert(pow2(p + d) == 2 * (unit * top));
    assert(unit * top == 2 * (unit * half)) by (nonlinear_arith)
        requires
            top == 2 * half,
    ;
    assert(unit * top <= big * top < 2 * unit * top) by (nonlinear_arith)
        requires
            unit <= big < 2 * unit,
            top > 0,
    ;
    assert(2 * unit * top == 2 * (unit * top)) by (nonlinear_arith);
    assert(big * top + top <= 2 * (unit * top)) by (nonlinear_arith)
        requires
            big + 1 <= 2 * unit,
            top > 0,
    ;
    assert(pow2((p + d - 1) as nat) == unit * top);
    assert(small < quarter && top == 4 * quarter);
    if !minus || small == 0 {
        let n = (big * top + small) as nat;
        lemma_bit_length_is(n, p + d);
        lemma_fundamental_div_mod_converse(n as int, top as int, big as int, small as int);
        assert(rounded_exponent(fmt, n, e) == e + d);
        assert(round_half_even(n, d) == big);
    } else if big > unit {
        let n = (big * top - small) as nat;
        assert((big - 1) * top + top == big * top) by (nonlinear_arith);
        assert(unit * top <= (big - 1) * top) by (nonlinear_arith)
            requires
                unit <= big - 1,
                top > 0,
        ;
        lemma_bit_length_is(n, p + d);
        assert(n == top * (big - 1) + (top - small)) by (nonlinear_arith)
            requires
                n == big * top - small,
        ;
        lemma_fundamental_div_mod_converse(
            n as int,
            top as int,
            big - 1,
            top - small,
        );
        assert(rounded_exponent(fmt, n, e) == e + d);
        assert(round_half_even(n, d) == big);
    } else {
        let n = (big * top - small) as nat;
        assert(big * top == unit * top);
        assert((2 * unit - 1) * half + half == 2 * (unit * half)) by (nonlinear_arith);
        assert(unit * half <= (2 * unit - 1) * half) by (nonlinear_arith)
            requires
                unit >= 1,
                half > 0,
        ;
        lemma_bit_length_is(n, (p - 1 + d) as nat);
        assert(n == half * (2 * unit - 1) + (half - small)) by (nonlinear_arith)
            requires
                n == 2 * (unit * half) - small,
        ;
        lemma_fundamental_div_mod_converse(
            n as int,
            half as int,
            2 * unit - 1,
            half - small,
        );
        assert(rounded_exponent(fmt, n, e) == e + d - 1);
        assert((2 * unit - 1) % 2 == 1);
        assert(round_half_even(n, (d - 1) as nat) == 2 * unit);
        assert(rounded_significand(fmt, n, e) == 2 * unit);
        assert((e + d - 1 - fmt.min_exponent()) * unit + 2 * unit == (e + d
            - fmt.min_exponent()) * unit + unit) by (nonlinear_arith);
    }
}

/// The exact sum of two finite numbers of which the first has no smaller
/// exponent, as the magnitudes of the two add up or cancel.
spec fn aligned_sum(fmt: Format, a: u64, b: u64) -> nat {
    let shifted = significand(fmt, a) * pow2((exponent(fmt, a) - exponent(fmt, b)) as nat);
    let small = significand(fmt, b);
    let e = exponent(fmt, b);
    if is_negative(fmt, a) == is_negative(fmt, b) {
        if shifted + small == 0 {
            signed_zero(fmt, is_negative(fmt, a))
        } else {
            rounded(fmt, is_negative(fmt, a), shifted + small, e)
        }
    } else if shifted > small {
        rounded(fmt, is_negative(fmt, a), (shifted - small) as nat, e)
    } else if shifted < small {
        rounded(fmt, is_negative(fmt, b), (small - shifted) as nat, e)
    } else {
        0
    }
}

/// The sum of two finite numbers is their aligned sum.
proof fn lemma_sum_is_aligned(fmt: Format, a: u64, b: u64)
    requires
        magnitude(fmt, a) < fmt.infinity(),
        magnitude(fmt, b) < fmt.infinity(),
        exponent(fmt, a) >= exponent(fmt, b),
    ensures
        sum(fmt, a, b) == aligned_sum(fmt, a, b),
{
    lemma2_to64();
    let top = pow2((exponent(fmt, a) - exponent(fmt, b)) as nat) as int;
    let one = pow2(0) as int;
    let sa = significand(fmt, a) as int;
    let sb = significand(fmt, b) as int;
    assert((-sa) * top == -(sa * top)) by (nonlinear_arith);
    assert(sb * one == sb && (-sb) * one == -sb) by (nonlinear_arith)
        requires
            one == 1,
    ;
    assert(sa * top >= 0) by (nonlinear_arith)
        requires
            sa >= 0,
            top >= 0,
    ;
}

/// Where the exponents of two finite numbers differ by more than 70, the
/// sum is the number with the larger exponent.
proof fn lemma_far_sum(fmt: Format, a: u64, b: u64)
    requires
        fmt.holds(a),
        magnitude(fmt, a) < fmt.infinity(),
        magnitude(fmt, b) < fmt.infinity(),
        exponent(fmt, a) - exponent(fmt, b) > 70,
    ensures
        aligned_sum(fmt, a, b) == a,
{
    let d = (exponent(fmt, a) - exponent(fmt, b)) as nat;
    let unit = fmt.unit() as nat;
    let mag = magnitude(fmt, a);
    lemma_fundamental_div_mod(mag as int, unit as int);
    lemma_mod_pos_bound(mag as int, unit as int);
    lemma_fundamental_div_mod(magnitude(fmt, b) as int, unit as int);
    lemma_mod_pos_bound(magnitude(fmt, b) as int, unit as int);
    assert(exponent_field(fmt, a) > 0);
    assert(mag == unit * exponent_field(fmt, a) + mag % unit);
    assert(mag == (exponent(fmt, a) - fmt.min_exponent()) * unit + significand(fmt, a))
        by (nonlinear_arith)
        requires
            mag == unit * exponent_field(fmt, a) + mag % unit,
            significand(fmt, a) == unit + mag % unit,
            exponent(fmt, a) == fmt.min_exponent() + exponent_field(fmt, a) - 1,
    ;
    lemma_far_apart(
        fmt,
        significand(fmt, a),
        significand(fmt, b),
        d,
        exponent(fmt, b),
        is_negative(fmt, a) != is_negative(fmt, b),
    );
}

/// The sum of two finite numbers of which the first has no smaller exponent.
fn add_ordered(fmt: Format, a: u64, b: u64) -> (r: u64)
    requires
        fmt.holds(a),
        fmt.holds(b),
        magnitude(fmt, a) < fmt.infinity(),
        magnitude(fmt, b) < fmt.infinity(),
        exponent(fmt, a) >= exponent(fmt, b),
    ensures
        r == aligned_sum(fmt, a, b),
        fmt.holds(r),
{
    let negative_a: bool = a >= fmt.sign();
    let negative_b: bool = b >= fmt.sign();
    let (sig_a, exp_a): (u64, i32) = decode(fmt, magnitude_of(fmt, a));
    let (sig_b, exp_b): (u64, i32) = decode(fmt, magnitude_of(fmt, b));
    let d: i32 = exp_a - exp_b;
    assert(significand(fmt, a) == sig_a && exponent(fmt, a) == exp_a);
    assert(significand(fmt, b) == sig_b && exponent(fmt, b) == exp_b);
    if d > 70 {
        proof {
            lemma_far_sum(fmt, a, b);
        }
        return a;
    }
    let scale: u128 = power_of_two(d as u32);
    proof {
        lemma_pow2_monotone(d as nat, 70);
        lemma_pow2_adds(53, 70);
        lemma2_to64_rest();
        lemma_pow2_123();
        assert(sig_a * scale <= 0x20_0000_0000_0000 * pow2(70)) by (nonlinear_arith)
            requires
                sig_a <= 0x20_0000_0000_0000,
                scale <= pow2(70),
                scale >= 0,
        ;
    }
    let shifted: u128 = sig_a as u128 * scale;
    if negative_a == negative_b {
        let n: u128 = shifted + sig_b as u128;
        if n == 0 {
            if negative_a {
                fmt.sign()
            } else {
                0
            }
        } else {
            round(fmt, negative_a, n, exp_b)
        }
    } else if shifted > sig_b as u128 {
        round(fmt, negative_a, shifted - sig_b as u128, exp_b)
    } else if shifted < sig_b as u128 {
        round(fmt, negative_b, sig_b as u128 - shifted, exp_b)
    } else {
        0
    }
}

/// The sum of two numbers.
pub fn add(fmt: Format, a: u64, b: u64) -> (r: u64)
    requires
        fmt.holds(a),
        fmt.holds(b),
    ensures
        r == sum(fmt, a, b),
        fmt.holds(r),
{
    let mag_a: u64 = magnitude_of(fmt, a);
    let mag_b: u64 = magnitude_of(fmt, b);
    let inf: u64 = fmt.infinity();
    if mag_a > inf || mag_b > inf {
        return fmt.nan();
    }
    if mag_a == inf {
        return if mag_b == inf && (a >= fmt.sign()) != (b >= fmt.sign()) {
            fmt.nan()
        } else {
            a
        };
    }
    if mag_b == inf {
        return b;
    }
    let (_sig_a, exp_a): (u64, i32) = decode(fmt, mag_a);
    let (_sig_b, exp_b): (u64, i32) = decode(fmt, mag_b);
    if exp_a >= exp_b {
        proof {
            lemma_sum_is_aligned(fmt, a, b);
        }
        add_ordered(fmt, a, b)
    } else {
        proof {
            lemma_sum_commutes(fmt, a, b);
            lemma_sum_is_aligned(fmt, b, a);
        }
        add_ordered(fmt, b, a)
    }
}

/// The difference of two numbers.
pub fn sub(fmt: Format, a: u64, b: u64) -> (r: u64)
    requires
        fmt.holds(a),
        fmt.holds(b),
    ensures
        r == difference(fmt, a, b),
        fmt.holds(r),
{
    self::add(fmt, a, neg(fmt, b))
}

} // verus!
