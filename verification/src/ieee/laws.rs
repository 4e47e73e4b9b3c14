//! What holds of the numbers and their operations.
use vstd::prelude::*;
use vstd::arithmetic::power2::{
    pow2,
    lemma_pow2_pos,
    lemma_pow2_adds,
    lemma2_to64,
    lemma2_to64_rest,
};
use vstd::arithmetic::div_mod::{
    lemma_fundamental_div_mod,
    lemma_fundamental_div_mod_converse,
    lemma_mod_pos_bound,
};
use crate::ieee::division::ratio_half_even;
use crate::ieee::root::{integer_root, is_integer_root, nearest_root};
use crate::ieee::{
    Format,
    bit_length,
    exponent,
    exponent_field,
    is_nan,
    is_negative,
    is_zero,
    magnitude,
    negated,
    pack,
    round_half_even,
    rounded,
    rounded_exponent,
    rounded_significand,
    significand,
};
use crate::ieee::addition::{difference, sum};
use crate::ieee::multiplication::product;
use crate::ieee::bits::{lemma_bit_length_bounds, lemma_bit_length_is, lemma_pow2_monotone};

verus! {

/// Negating twice gives the number back.
pub proof fn lemma_negated_twice(fmt: Format, a: u64)
    requires
        fmt.holds(a),
    ensures
        negated(fmt, negated(fmt, a) as u64) == a,
{
}

/// The product does not depend on the order of the two numbers.
pub proof fn lemma_product_commutes(fmt: Format, a: u64, b: u64)
    ensures
        product(fmt, a, b) == product(fmt, b, a),
{
    assert(significand(fmt, a) * significand(fmt, b) == significand(fmt, b) * significand(fmt, a))
        by (nonlinear_arith);
}

/// The sum does not depend on the order of the two numbers.
pub proof fn lemma_sum_commutes(fmt: Format, a: u64, b: u64)
    ensures
        sum(fmt, a, b) == sum(fmt, b, a),
{
}

/// Scaling a number by a power of two adds the exponent of the power to its
/// number of bits.
pub proof fn lemma_bit_length_scaled(n: nat, k: nat)
    requires
        n > 0,
    ensures
        bit_length(n * pow2(k)) == bit_length(n) + k,
{
    let len = bit_length(n);
    lemma_bit_length_bounds(n);
    lemma_pow2_pos(k);
    lemma_pow2_adds((len - 1) as nat, k);
    lemma_pow2_adds(len, k);
    let low = pow2((len - 1) as nat);
    let high = pow2(len);
    let scale = pow2(k);
    assert(low * scale <= n * scale < high * scale) by (nonlinear_arith)
        requires
            low <= n < high,
            scale > 0,
    ;
    lemma_bit_length_is(n * scale, len + k);
}

/// Rounding depends on the value alone: `(n * 2^k) * 2^(e - k)` rounds as
/// `n * 2^e` does.
pub proof fn lemma_rounded_scaled(fmt: Format, negative: bool, n: nat, e: int, k: nat)
    requires
        n > 0,
    ensures
        rounded(fmt, negative, n * pow2(k), e - k) == rounded(fmt, negative, n, e),
{
    let scale = pow2(k);
    let big = n * scale;
    let q = rounded_exponent(fmt, n, e);
    lemma_bit_length_scaled(n, k);
    lemma_pow2_pos(k);
    assert(rounded_exponent(fmt, big, e - k) == q);
    if q <= e - k {
        let j = (e - k - q) as nat;
        lemma_pow2_adds(k, j);
        assert(big * pow2(j) == n * pow2(k + j)) by (nonlinear_arith)
            requires
                big == n * scale,
                pow2(k + j) == scale * pow2(j),
        ;
    } else if q <= e {
        let j = (q - (e - k)) as nat;
        let rest = (e - q) as nat;
        lemma_pow2_adds(rest, j);
        lemma_pow2_pos(j);
        let d = pow2(j);
        let f = n * pow2(rest);
        assert(big == d * f + 0) by (nonlinear_arith)
            requires
                big == n * scale,
                scale == pow2(rest) * d,
                f == n * pow2(rest),
        ;
        lemma_fundamental_div_mod_converse(big as int, d as int, f as int, 0);
        assert(round_half_even(big, j) == f);
    } else {
        let m = (q - e) as nat;
        let d = pow2(m);
        lemma_pow2_adds(k, m);
        lemma_pow2_pos(m);
        let wide = pow2(k + m);
        let f = n / d;
        let r = n % d;
        lemma_fundamental_div_mod(n as int, d as int);
        lemma_mod_pos_bound(n as int, d as int);
        assert(big == wide * f + r * scale && 0 <= r * scale < wide) by (nonlinear_arith)
            requires
                big == n * scale,
                wide == scale * d,
                n == d * f + r,
                0 <= r < d,
                scale > 0,
        ;
        lemma_fundamental_div_mod_converse(big as int, wide as int, f as int, (r * scale) as int);
        assert(2 * (r * scale) > wide <==> 2 * r > d) by (nonlinear_arith)
            requires
                wide == scale * d,
                scale > 0,
        ;
        assert(2 * (r * scale) == wide <==> 2 * r == d) by (nonlinear_arith)
            requires
                wide == scale * d,
                scale > 0,
        ;
        assert((q - (e - k)) as nat == k + m);
        assert(round_half_even(big, k + m) == round_half_even(n, m));
    }
}

/// A finite number is what its own significand and exponent round to.
pub proof fn lemma_rounded_own(fmt: Format, a: u64)
    requires
        fmt.holds(a),
        magnitude(fmt, a) < fmt.infinity(),
        !is_zero(fmt, a),
    ensures
        rounded(fmt, is_negative(fmt, a), significand(fmt, a), exponent(fmt, a)) == a,
{
    lemma2_to64();
    lemma2_to64_rest();
    let unit = fmt.unit() as nat;
    let p = fmt.precision() as nat;
    let mag = magnitude(fmt, a);
    let sig = significand(fmt, a);
    let e = exponent(fmt, a);
    lemma_fundamental_div_mod(mag as int, unit as int);
    lemma_mod_pos_bound(mag as int, unit as int);
    lemma_bit_length_bounds(sig);
    assert(pow2((p - 1) as nat) == unit && pow2(p) == 2 * unit);
    let one = pow2(0);
    assert(sig * one == sig) by (nonlinear_arith)
        requires
            one == 1,
    ;
    if exponent_field(fmt, a) == 0 {
        if bit_length(sig) > p - 1 {
            lemma_pow2_monotone((p - 1) as nat, (bit_length(sig) - 1) as nat);
        }
        assert(rounded_exponent(fmt, sig, e) == e);
    } else {
        lemma_bit_length_is(sig, p);
        assert(rounded_exponent(fmt, sig, e) == e);
        assert(mag == (e - fmt.min_exponent()) * unit + sig) by (nonlinear_arith)
            requires
                mag == unit * exponent_field(fmt, a) + mag % unit,
                sig == unit + mag % unit,
                e == fmt.min_exponent() + exponent_field(fmt, a) - 1,
        ;
    }
    assert(rounded_significand(fmt, sig, e) == sig);
}

/// The bits of one: the unit as significand, at the exponent that scales it
/// down to one.
pub open spec fn one(fmt: Format) -> u64 {
    match fmt {
        Format::Single => 0x3f80_0000,
        Format::Double => 0x3ff0_0000_0000_0000,
    }
}

/// A finite number times one is the number.
pub proof fn lemma_times_one(fmt: Format, a: u64)
    requires
        fmt.holds(a),
        magnitude(fmt, a) < fmt.infinity(),
    ensures
        product(fmt, a, one(fmt)) == a,
{
    lemma2_to64();
    lemma2_to64_rest();
    let p = fmt.precision() as nat;
    assert(magnitude(fmt, one(fmt)) == one(fmt));
    assert(exponent_field(fmt, one(fmt)) == fmt.infinity() / fmt.unit() / 2);
    assert(significand(fmt, one(fmt)) == fmt.unit());
    assert(exponent(fmt, one(fmt)) == -((p - 1) as int));
    if !is_zero(fmt, a) {
        lemma_rounded_scaled(
            fmt,
            is_negative(fmt, a),
            significand(fmt, a),
            exponent(fmt, a),
            (p - 1) as nat,
        );
        lemma_rounded_own(fmt, a);
    }
}

/// A finite number other than zero plus zero, of either sign, is the number.
pub proof fn lemma_plus_zero(fmt: Format, a: u64, zero: u64)
    requires
        fmt.holds(a),
        magnitude(fmt, a) < fmt.infinity(),
        !is_zero(fmt, a),
        is_zero(fmt, zero),
    ensures
        sum(fmt, a, zero) == a,
{
    lemma2_to64();
    let e = exponent(fmt, a);
    let low = fmt.min_exponent() as int;
    let k = (e - low) as nat;
    let sig = significand(fmt, a);
    let scale = pow2(k);
    let one = pow2(0);
    assert(significand(fmt, zero) == 0 && exponent(fmt, zero) == low);
    lemma_pow2_pos(k);
    assert(sig * scale > 0 && (-(sig as int)) * scale == -(sig * scale) && 0 * one == 0
        && (-0) * one == 0) by (nonlinear_arith)
        requires
            sig > 0,
            scale > 0,
    ;
    lemma_rounded_scaled(fmt, is_negative(fmt, a), sig, e, k);
    lemma_rounded_own(fmt, a);
}

/// Taking a difference the other way round negates it, except that a
/// difference of zero is a zero either way, of whatever sign.
pub proof fn lemma_difference_reversed(fmt: Format, a: u64, b: u64)
    requires
        fmt.holds(a),
        fmt.holds(b),
        !is_nan(fmt, difference(fmt, a, b) as u64),
    ensures
        difference(fmt, b, a) == negated(fmt, difference(fmt, a, b) as u64) || (is_zero(
            fmt,
            difference(fmt, a, b) as u64,
        ) && is_zero(fmt, difference(fmt, b, a) as u64)),
{
    lemma2_to64();
    let na = negated(fmt, a) as u64;
    let nb = negated(fmt, b) as u64;
    if magnitude(fmt, a) < fmt.infinity() && magnitude(fmt, b) < fmt.infinity() {
        let e = if exponent(fmt, a) <= exponent(fmt, b) {
            exponent(fmt, a)
        } else {
            exponent(fmt, b)
        };
        let sa = significand(fmt, a) as int;
        let sb = significand(fmt, b) as int;
        let ta = pow2((exponent(fmt, a) - e) as nat) as int;
        let tb = pow2((exponent(fmt, b) - e) as nat) as int;
        assert(significand(fmt, na) == sa && exponent(fmt, na) == exponent(fmt, a));
        assert(significand(fmt, nb) == sb && exponent(fmt, nb) == exponent(fmt, b));
        assert((-sa) * ta == -(sa * ta) && (-sb) * tb == -(sb * tb)) by (nonlinear_arith);
    }
}

/// `round_half_even(n, k)` is an integer nearest to `n / 2^k`: it is off by
/// half at most, and where it is off by exactly half, it is even.
pub proof fn lemma_round_half_even_nearest(n: nat, k: nat)
    ensures
        ({
            let off = round_half_even(n, k) * pow2(k) - n;
            &&& -pow2(k) <= 2 * off <= pow2(k)
            &&& (2 * off == pow2(k) || 2 * off == -pow2(k)) ==> round_half_even(n, k) % 2 == 0
        }),
{
    let d = pow2(k);
    lemma_pow2_pos(k);
    lemma_fundamental_div_mod(n as int, d as int);
    lemma_mod_pos_bound(n as int, d as int);
    let f = n / d;
    let r = n % d;
    assert((f + 1) * d - n == d - r && f * d - n == -r) by (nonlinear_arith)
        requires
            n == d * f + r,
    ;
}

/// `ratio_half_even(x, y)` is an integer nearest to `x / y`: it is off by
/// half at most, and where it is off by exactly half, it is even.
pub proof fn lemma_ratio_half_even_nearest(x: nat, y: nat)
    requires
        y > 0,
    ensures
        ({
            let off = ratio_half_even(x, y) * y - x;
            &&& -y <= 2 * off <= y
            &&& (2 * off == y || 2 * off == -y) ==> ratio_half_even(x, y) % 2 == 0
        }),
{
    lemma_fundamental_div_mod(x as int, y as int);
    lemma_mod_pos_bound(x as int, y as int);
    let f = x / y;
    let r = x % y;
    assert((f + 1) * y - x == y - r && f * y - x == -r) by (nonlinear_arith)
        requires
            x == y * f + r,
    ;
}

/// Every number has an integer square root.
pub proof fn lemma_integer_root_exists(n: nat)
    ensures
        is_integer_root(n, integer_root(n)),
    decreases n,
{
    if n == 0 {
        assert(is_integer_root(0, 0)) by (nonlinear_arith);
    } else {
        lemma_integer_root_exists((n - 1) as nat);
        let r = integer_root((n - 1) as nat);
        if n < (r + 1) * (r + 1) {
            assert(is_integer_root(n, r));
        } else {
            assert((r + 2) * (r + 2) > (r + 1) * (r + 1)) by (nonlinear_arith)
                requires
                    r >= 0,
            ;
            assert(is_integer_root(n, r + 1));
        }
    }
}

/// `nearest_root(n)` is the integer nearest to the square root of `n`: the
/// root lies less than a half away from it, on either side.
pub proof fn lemma_nearest_root_nearest(n: nat)
    requires
        n > 0,
    ensures
        ({
            let s = nearest_root(n);
            (2 * s - 1) * (2 * s - 1) < 4 * n < (2 * s + 1) * (2 * s + 1)
        }),
{
    lemma_integer_root_exists(n);
    let f = integer_root(n);
    let s = nearest_root(n);
    assert((2 * f + 1) * (2 * f + 1) == 4 * (f * f + f) + 1 && (2 * f - 1) * (2 * f - 1) == 4 * (f
        * f - f) + 1 && (2 * f + 3) * (2 * f + 3) == 4 * ((f + 1) * (f + 1) + f) + 5 && (f + 1) * (f
        + 1) == f * f + 2 * f + 1) by (nonlinear_arith);
    if f == 0 {
        assert(n < 1) by (nonlinear_arith)
            requires
                n < (f + 1) * (f + 1),
                f == 0,
        ;
    }
}

/// The rounded significand of a number other than zero has no more bits
/// than the format's precision, or is the next power of two; above the
/// least exponent it has all of them.
pub proof fn lemma_rounded_significand_range(fmt: Format, n: nat, e: int)
    requires
        n > 0,
    ensures
        rounded_significand(fmt, n, e) <= 2 * fmt.unit(),
        rounded_exponent(fmt, n, e) > fmt.min_exponent() ==> rounded_significand(fmt, n, e)
            >= fmt.unit(),
{
    lemma2_to64();
    lemma2_to64_rest();
    let p = fmt.precision() as nat;
    let unit = fmt.unit() as nat;
    let len = bit_length(n);
    let q = rounded_exponent(fmt, n, e);
    lemma_bit_length_bounds(n);
    assert(pow2((p - 1) as nat) == unit && pow2(p) == 2 * unit);
    let low = pow2((len - 1) as nat);
    let high = pow2(len);
    if q <= e {
        let k = (e - q) as nat;
        let scale = pow2(k);
        lemma_pow2_pos(k);
        lemma_pow2_adds(len, k);
        lemma_pow2_adds((len - 1) as nat, k);
        lemma_pow2_monotone(len + k, p);
        assert(low * scale <= n * scale < high * scale) by (nonlinear_arith)
            requires
                low <= n < high,
                scale > 0,
        ;
    } else {
        let k = (q - e) as nat;
        let d = pow2(k);
        lemma_pow2_pos(k);
        lemma_fundamental_div_mod(n as int, d as int);
        lemma_mod_pos_bound(n as int, d as int);
        let f = n / d;
        if len >= k {
            lemma_pow2_adds((len - k) as nat, k);
            lemma_pow2_monotone((len - k) as nat, p);
            let top = pow2((len - k) as nat);
            assert(f < top) by (nonlinear_arith)
                requires
                    n < top * d,
                    d > 0,
                    n == d * f + n % d,
                    n % d >= 0,
            ;
            if q > fmt.min_exponent() {
                assert(len - k == p);
                lemma_pow2_adds((p - 1) as nat, k);
                assert(f >= unit) by (nonlinear_arith)
                    requires
                        unit * d <= n,
                        d > 0,
                        n == d * f + n % d,
                        n % d < d,
                ;
            }
        } else {
            lemma_pow2_monotone(len, k);
            assert(f == 0) by (nonlinear_arith)
                requires
                    0 <= n < d,
                    n == d * f + n % d,
                    n % d >= 0,
                    f >= 0,
            ;
        }
    }
}

/// Packing is the reverse of taking bits apart: the bits of `sig * 2^q`,
/// where they are below infinity, have `sig` as their significand and `q`
/// as their exponent, for a `sig` with its leading bit at the unit, or a
/// smaller one at the least exponent.
pub proof fn lemma_pack_unpacks(fmt: Format, sig: nat, q: int)
    requires
        q >= fmt.min_exponent(),
        sig < 2 * fmt.unit(),
        sig >= fmt.unit() || q == fmt.min_exponent(),
        pack(fmt, sig, q) < fmt.infinity(),
    ensures
        significand(fmt, pack(fmt, sig, q) as u64) == sig,
        exponent(fmt, pack(fmt, sig, q) as u64) == q,
{
    let unit = fmt.unit() as int;
    let raw = (q - fmt.min_exponent()) * unit + sig;
    if sig >= unit {
        let field = q - fmt.min_exponent() + 1;
        assert(raw == unit * field + (sig - unit)) by (nonlinear_arith)
            requires
                raw == (q - fmt.min_exponent()) * unit + sig,
                field == q - fmt.min_exponent() + 1,
        ;
        lemma_fundamental_div_mod_converse(raw, unit, field, sig - unit);
    } else {
        assert(raw == unit * 0 + sig) by (nonlinear_arith)
            requires
                raw == (q - fmt.min_exponent()) * unit + sig,
                q == fmt.min_exponent(),
        ;
        lemma_fundamental_div_mod_converse(raw, unit, 0, sig as int);
    }
}

} // verus!
