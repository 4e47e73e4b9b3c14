//! Rounding an exact value to a format.
use vstd::prelude::*;
use vstd::arithmetic::power2::{
    pow2,
    lemma_pow2_pos,
    lemma_pow2_unfold,
    lemma_pow2_adds,
    lemma2_to64,
    lemma2_to64_rest,
};
use crate::ieee::{Format, rounded, rounded_significand};
use crate::ieee::bits::{
    count_bits,
    lemma_bit_length_bounds,
    lemma_pow2_126,
    lemma_pow2_monotone,
    power_of_two,
};

verus! {

/// The bits of `n * 2^e` rounded to the format, negated if `negative`.
pub(crate) fn round(fmt: Format, negative: bool, n: u128, e: i32) -> (bits: u64)
    requires
        0 < n < 0x4000_0000_0000_0000_0000_0000_0000_0000,
        -8192 <= e <= 8192,
    ensures
        bits == rounded(fmt, negative, n as nat, e as int),
        fmt.holds(bits),
{
    let len: i32 = count_bits(n) as i32;
    let p: i32 = fmt.precision() as i32;
    let emin: i32 = fmt.min_exponent();
    let q: i32 = if e + len - p > emin {
        e + len - p
    } else {
        emin
    };
    proof {
        lemma_bit_length_bounds(n as nat);
        lemma2_to64();
        lemma2_to64_rest();
        lemma_pow2_126();
    }
    let sig: u128 = if q <= e {
        let k: u32 = (e - q) as u32;
        let scale: u128 = power_of_two(k);
        proof {
            lemma_pow2_adds(len as nat, k as nat);
            lemma_pow2_monotone((len + k) as nat, 53);
            let bound = pow2(len as nat);
            assert(n * scale < bound * scale) by (nonlinear_arith)
                requires
                    n < bound,
                    scale > 0,
            ;
        }
        n * scale
    } else {
        let k: i32 = q - e;
        if k >= 127 {
            proof {
                let d = pow2(k as nat);
                lemma_pow2_monotone(127, k as nat);
                lemma_pow2_unfold(127);
                assert(n as nat / d == 0 && n as nat % d == n) by (nonlinear_arith)
                    requires
                        0 <= n < d,
                ;
            }
            0
        } else {
            let d: u128 = power_of_two(k as u32);
            proof {
                lemma_pow2_monotone(k as nat, 126);
                lemma_pow2_pos(k as nat);
            }
            let f: u128 = n / d;
            let r: u128 = n % d;
            if 2 * r > d || (2 * r == d && f % 2 == 1) {
                f + 1
            } else {
                f
            }
        }
    };
    assert(sig == rounded_significand(fmt, n as nat, e as int));
    let steps: u128 = (q - emin) as u128;
    let unit: u128 = fmt.unit() as u128;
    proof {
        assert(steps * unit <= 16384 * unit) by (nonlinear_arith)
            requires
                steps <= 16384,
                unit >= 0,
        ;
    }
    let raw: u128 = steps * unit + sig;
    let mag: u64 = if raw >= fmt.infinity() as u128 {
        fmt.infinity()
    } else {
        raw as u64
    };
    if negative {
        fmt.sign() + mag
    } else {
        mag
    }
}

} // verus!
