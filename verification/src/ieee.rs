//! IEEE 754 binary floating point on bit patterns, in integer arithmetic.
//!
//! A number is held as its bits in a `u64`: the sign bit on top, below it
//! the exponent field, below that the fraction. A finite number is
//! `significand * 2^exponent` with an integer significand. The result of an
//! operation is the exact result rounded to the nearest number of the format,
//! a tie going to the one with an even significand; what is too large
//! becomes infinity. Every NaN result is the one quiet NaN of
//! [`Format::nan`].
pub mod addition;
pub mod bits;
pub mod convert;
pub mod division;
pub mod laws;
pub mod multiplication;
pub mod order;
pub mod root;
pub mod rounding;

use vstd::prelude::*;
use vstd::arithmetic::power2::pow2;

verus! {

/// A binary interchange format.
#[derive(Clone, Copy, Debug, PartialEq, Eq, Structural)]
pub enum Format {
    /// 32 bits: 8 exponent bits, 24 bits of precision.
    Single,
    /// 64 bits: 11 exponent bits, 53 bits of precision.
    Double,
}

impl Format {
    /// The number of significant bits, the implicit leading bit included.
    pub open spec fn spec_precision(self) -> u32 {
        match self {
            Format::Single => 24,
            Format::Double => 53,
        }
    }

    /// The weight of the implicit leading bit in a significand:
    /// two to the power of the precision less one.
    pub open spec fn spec_unit(self) -> u64 {
        match self {
            Format::Single => 0x80_0000,
            Format::Double => 0x10_0000_0000_0000,
        }
    }

    /// The sign bit.
    pub open spec fn spec_sign(self) -> u64 {
        match self {
            Format::Single => 0x8000_0000,
            Format::Double => 0x8000_0000_0000_0000,
        }
    }

    /// The bits of positive infinity: all exponent bits set, no fraction bit.
    pub open spec fn spec_infinity(self) -> u64 {
        match self {
            Format::Single => 0x7f80_0000,
            Format::Double => 0x7ff0_0000_0000_0000,
        }
    }

    /// The bits of the quiet NaN that operations return.
    pub open spec fn spec_nan(self) -> u64 {
        match self {
            Format::Single => 0x7fc0_0000,
            Format::Double => 0x7ff8_0000_0000_0000,
        }
    }

    /// The exponent of the subnormal numbers, the least there is.
    pub open spec fn spec_min_exponent(self) -> i32 {
        match self {
            Format::Single => -149i32,
            Format::Double => -1074i32,
        }
    }

    /// `bits` are bits of this format: nothing is set above the sign bit.
    pub open spec fn holds(self, bits: u64) -> bool {
        bits < 2 * self.spec_sign()
    }

    /// The number of significant bits.
    #[verifier::when_used_as_spec(spec_precision)]
    pub fn precision(self) -> (r: u32)
        ensures
            r == self.spec_precision(),
    {
        match self {
            Format::Single => 24,
            Format::Double => 53,
        }
    }

    /// The weight of the implicit leading bit.
    #[verifier::when_used_as_spec(spec_unit)]
    pub fn unit(self) -> (r: u64)
        ensures
            r == self.spec_unit(),
    {
        match self {
            Format::Single => 0x80_0000,
            Format::Double => 0x10_0000_0000_0000,
        }
    }

    /// The sign bit.
    #[verifier::when_used_as_spec(spec_sign)]
    pub fn sign(self) -> (r: u64)
        ensures
            r == self.spec_sign(),
    {
        match self {
            Format::Single => 0x8000_0000,
            Format::Double => 0x8000_0000_0000_0000,
        }
    }

    /// The bits of positive infinity.
    #[verifier::when_used_as_spec(spec_infinity)]
    pub fn infinity(self) -> (r: u64)
        ensures
            r == self.spec_infinity(),
    {
        match self {
            Format::Single => 0x7f80_0000,
            Format::Double => 0x7ff0_0000_0000_0000,
        }
    }

    /// The bits of the quiet NaN.
    #[verifier::when_used_as_spec(spec_nan)]
    pub fn nan(self) -> (r: u64)
        ensures
            r == self.spec_nan(),
    {
        match self {
            Format::Single => 0x7fc0_0000,
            Format::Double => 0x7ff8_0000_0000_0000,
        }
    }

    /// The least exponent.
    #[verifier::when_used_as_spec(spec_min_exponent)]
    pub fn min_exponent(self) -> (r: i32)
        ensures
            r == self.spec_min_exponent(),
    {
        match self {
            Format::Single => -149,
            Format::Double => -1074,
        }
    }
}

/// The bits without the sign bit.
pub open spec fn magnitude(fmt: Format, bits: u64) -> nat {
    if bits >= fmt.sign() {
        (bits - fmt.sign()) as nat
    } else {
        bits as nat
    }
}

/// The sign bit is set.
pub open spec fn is_negative(fmt: Format, bits: u64) -> bool {
    bits >= fmt.sign()
}

/// Not a number.
pub open spec fn is_nan(fmt: Format, bits: u64) -> bool {
    magnitude(fmt, bits) > fmt.infinity()
}

/// Positive or negative infinity.
pub open spec fn is_infinite(fmt: Format, bits: u64) -> bool {
    magnitude(fmt, bits) == fmt.infinity()
}

/// Positive or negative zero.
pub open spec fn is_zero(fmt: Format, bits: u64) -> bool {
    magnitude(fmt, bits) == 0
}

/// The exponent field of a finite number.
pub open spec fn exponent_field(fmt: Format, bits: u64) -> nat {
    magnitude(fmt, bits) / (fmt.unit() as nat)
}

/// The integer significand of a finite number. Subnormal numbers, whose
/// exponent field is zero, have no implicit leading bit.
pub open spec fn significand(fmt: Format, bits: u64) -> nat {
    if exponent_field(fmt, bits) == 0 {
        magnitude(fmt, bits) % (fmt.unit() as nat)
    } else {
        (fmt.unit() + magnitude(fmt, bits) % (fmt.unit() as nat)) as nat
    }
}

/// The power of two that scales the significand of a finite number.
pub open spec fn exponent(fmt: Format, bits: u64) -> int {
    if exponent_field(fmt, bits) == 0 {
        fmt.min_exponent() as int
    } else {
        fmt.min_exponent() + exponent_field(fmt, bits) - 1
    }
}

/// The significand of a finite number with its sign.
pub open spec fn signed_significand(fmt: Format, bits: u64) -> int {
    if is_negative(fmt, bits) {
        -(significand(fmt, bits) as int)
    } else {
        significand(fmt, bits) as int
    }
}

/// The number of bits of `n`: the least `k` with `n < 2^k`.
pub open spec fn bit_length(n: nat) -> nat
    decreases n,
{
    if n == 0 {
        0
    } else {
        1 + bit_length(n / 2)
    }
}

/// `n / 2^k` rounded to the nearest integer, a tie going to the even one.
pub open spec fn round_half_even(n: nat, k: nat) -> nat {
    let q = n / pow2(k);
    let r = n % pow2(k);
    if 2 * r > pow2(k) || (2 * r == pow2(k) && q % 2 == 1) {
        q + 1
    } else {
        q
    }
}

/// The exponent at which `n * 2^e` is rounded: the one that leaves as many
/// significant bits as the format has, but not below the least exponent.
pub open spec fn rounded_exponent(fmt: Format, n: nat, e: int) -> int {
    if e + bit_length(n) - fmt.precision() > fmt.min_exponent() {
        e + bit_length(n) - fmt.precision()
    } else {
        fmt.min_exponent() as int
    }
}

/// The significand of `n * 2^e` rounded at `rounded_exponent(fmt, n, e)`.
pub open spec fn rounded_significand(fmt: Format, n: nat, e: int) -> nat {
    let q = rounded_exponent(fmt, n, e);
    if q <= e {
        n * pow2((e - q) as nat)
    } else {
        round_half_even(n, (q - e) as nat)
    }
}

/// The bits, without sign, of `sig * 2^q`, where `q` is not below the least
/// exponent and `sig` is at most twice the unit. Counted up from the bits of
/// zero, one step of the significand is one step of the bits, and one step
/// of the exponent is a whole unit of them; a significand of twice the unit
/// so carries into the exponent field. What reaches the bits of infinity is
/// too large for the format, and is infinity.
pub open spec fn pack(fmt: Format, sig: nat, q: int) -> nat {
    let raw = (q - fmt.min_exponent()) * fmt.unit() + sig;
    if raw >= fmt.infinity() {
        fmt.infinity() as nat
    } else {
        raw as nat
    }
}

/// The bits of `n * 2^e` rounded to the format, negated if `negative`, for
/// an `n` other than zero.
pub open spec fn rounded(fmt: Format, negative: bool, n: nat, e: int) -> nat
    recommends
        n > 0,
{
    let mag = pack(fmt, rounded_significand(fmt, n, e), rounded_exponent(fmt, n, e));
    if negative {
        (fmt.sign() + mag) as nat
    } else {
        mag
    }
}

/// The bits of zero with the given sign.
pub open spec fn signed_zero(fmt: Format, negative: bool) -> nat {
    if negative {
        fmt.sign() as nat
    } else {
        0
    }
}

/// The bits of infinity with the given sign.
pub open spec fn signed_infinity(fmt: Format, negative: bool) -> nat {
    if negative {
        (fmt.sign() + fmt.infinity()) as nat
    } else {
        fmt.infinity() as nat
    }
}

/// The number with the opposite sign; of a NaN, the NaN with the other sign bit.
pub open spec fn negated(fmt: Format, a: u64) -> nat {
    if a >= fmt.sign() {
        (a - fmt.sign()) as nat
    } else {
        (a + fmt.sign()) as nat
    }
}

/// The bits without the sign bit.
pub(crate) fn magnitude_of(fmt: Format, bits: u64) -> (mag: u64)
    ensures
        mag == magnitude(fmt, bits),
{
    if bits >= fmt.sign() {
        bits - fmt.sign()
    } else {
        bits
    }
}

/// The significand and the exponent of a finite number, given without its sign.
pub(crate) fn decode(fmt: Format, mag: u64) -> (parts: (u64, i32))
    requires
        mag < fmt.infinity(),
    ensures
        parts.0 == significand(fmt, mag),
        parts.1 == exponent(fmt, mag),
        parts.0 < 2 * fmt.unit(),
        mag > 0 ==> parts.0 > 0,
        parts.0 < fmt.unit() ==> parts.1 == fmt.min_exponent(),
        fmt.min_exponent() <= parts.1 <= fmt.min_exponent() + 2046,
        mag == (parts.1 - fmt.min_exponent()) * fmt.unit() + parts.0,
{
    let unit: u64 = fmt.unit();
    let field: u64 = mag / unit;
    let fraction: u64 = mag % unit;
    assert(field <= 2046);
    if field == 0 {
        (fraction, fmt.min_exponent())
    } else {
        (unit + fraction, fmt.min_exponent() + (field as i32 - 1))
    }
}

/// The number with the opposite sign.
pub fn neg(fmt: Format, a: u64) -> (r: u64)
    requires
        fmt.holds(a),
    ensures
        r == negated(fmt, a),
        fmt.holds(r),
{
    if a >= fmt.sign() {
        a - fmt.sign()
    } else {
        a + fmt.sign()
    }
}

} // verus!
