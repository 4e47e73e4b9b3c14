//! Powers of two and the number of bits of a number.
use vstd::prelude::*;
use vstd::arithmetic::power2::{
    pow2,
    lemma_pow2_pos,
    lemma_pow2_unfold,
    lemma_pow2_adds,
    lemma_pow2_strictly_increases,
    lemma2_to64,
    lemma2_to64_rest,
};
use crate::ieee::bit_length;

verus! {

/// A number is below `2^k` if and only if it has at most `k` bits.
pub proof fn lemma_bit_length_bounds(n: nat)
    ensures
        n < pow2(bit_length(n)),
        n > 0 ==> pow2((bit_length(n) - 1) as nat) <= n,
    decreases n,
{
    lemma2_to64();
    if n > 0 {
        lemma_bit_length_bounds(n / 2);
        let k = bit_length(n / 2);
        lemma_pow2_unfold(k + 1);
        if n / 2 > 0 {
            lemma_pow2_unfold(k);
        }
    }
}

/// Powers of two do not decrease with the exponent.
pub proof fn lemma_pow2_monotone(a: nat, b: nat)
    requires
        a <= b,
    ensures
        pow2(a) <= pow2(b),
{
    if a < b {
        lemma_pow2_strictly_increases(a, b);
    }
}

/// A number between `2^(k-1)` and `2^k` has `k` bits.
pub proof fn lemma_bit_length_is(n: nat, k: nat)
    requires
        k > 0,
        pow2((k - 1) as nat) <= n < pow2(k),
    ensures
        bit_length(n) == k,
{
    lemma_bit_length_bounds(n);
    lemma_pow2_pos((k - 1) as nat);
    let len = bit_length(n);
    if len < k {
        lemma_pow2_monotone(len, (k - 1) as nat);
    } else if len > k {
        lemma_pow2_monotone(k, (len - 1) as nat);
    }
}

/// One shifted left by `k` is two to the power of `k`.
pub(crate) proof fn lemma_shl_one(k: u128)
    requires
        k < 127,
    ensures
        (1u128 << k) == pow2(k as nat),
    decreases k,
{
    if k == 0 {
        assert(1u128 << 0u128 == 1u128) by (bit_vector);
        lemma2_to64();
    } else {
        let j: u128 = (k - 1) as u128;
        lemma_shl_one(j);
        assert((1u128 << k) == 2 * (1u128 << j)) by (bit_vector)
            requires
                0 < k < 127,
                j == k - 1,
        ;
        lemma_pow2_unfold(k as nat);
    }
}

/// Two to the power of `k`.
pub(crate) fn power_of_two(k: u32) -> (r: u128)
    requires
        k < 127,
    ensures
        r == pow2(k as nat),
{
    proof {
        lemma_shl_one(k as u128);
    }
    1u128 << (k as u128)
}

/// The number of bits of `n`.
pub(crate) fn count_bits(n: u128) -> (len: u32)
    ensures
        len == bit_length(n as nat),
        len <= 128,
{
    let mut len: u32 = 0;
    let mut rest: u128 = n;
    proof {
        lemma2_to64();
        let one = pow2(0);
        assert(n as nat * one == n) by (nonlinear_arith)
            requires
                one == 1,
        ;
    }
    while rest > 0
        invariant
            len + bit_length(rest as nat) == bit_length(n as nat),
            len <= 128,
            rest > 0 ==> len < 128,
            rest as nat * pow2(len as nat) <= n,
        decreases rest,
    {
        proof {
            lemma_pow2_unfold((len + 1) as nat);
            let half = (rest / 2) as nat;
            let scale = pow2(len as nat);
            assert(half * (2 * scale) <= rest * scale) by (nonlinear_arith)
                requires
                    2 * half <= rest,
                    scale >= 0,
            ;
            if half > 0 {
                // half * 2^(len + 1) <= n < 2^128 leaves room for one more bit
                lemma_pow2_pos((len + 1) as nat);
                if len + 1 >= 128 {
                    lemma_pow2_monotone(128, (len + 1) as nat);
                    lemma_pow2_128();
                    assert(half * pow2((len + 1) as nat) >= pow2((len + 1) as nat))
                        by (nonlinear_arith)
                        requires
                            half >= 1,
                            pow2((len + 1) as nat) >= 0,
                    ;
                }
            }
        }
        rest = rest / 2;
        len = len + 1;
    }
    len
}

/// The value of two to the power of 128, which no `u128` reaches.
pub(crate) proof fn lemma_pow2_128()
    ensures
        pow2(128) == 0x1_0000_0000_0000_0000_0000_0000_0000_0000,
{
    lemma2_to64();
    lemma_pow2_adds(64, 64);
}

/// The value of two to the power of 126.
pub(crate) proof fn lemma_pow2_126()
    ensures
        pow2(126) == 0x4000_0000_0000_0000_0000_0000_0000_0000,
{
    lemma2_to64();
    lemma2_to64_rest();
    lemma_pow2_adds(63, 63);
}

/// The value of two to the power of 123.
pub(crate) proof fn lemma_pow2_123()
    ensures
        pow2(123) == 0x800_0000_0000_0000_0000_0000_0000_0000,
{
    lemma2_to64();
    lemma2_to64_rest();
    lemma_pow2_adds(60, 63);
}

} // verus!
