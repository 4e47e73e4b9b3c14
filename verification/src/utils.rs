//! Equality within a tolerance.
use vstd::prelude::*;
use vstd::arithmetic::power2::{pow2, lemma2_to64};
use crate::ieee::{Format, exponent, is_zero, magnitude, significand};

verus! {

/// The tolerance, 0.00001, as the nearest double-precision number.
pub const EPSILON: u64 = 0x3ee4_f8b5_88e3_68f1;

/// Two double-precision numbers are equal within the tolerance: the
/// absolute value of their difference is less than [`EPSILON`]. That is
/// false where either number is NaN, and of two equal infinities.
pub open spec fn spec_fp_approx_eq(a: u64, b: u64) -> bool {
    crate::double::lt(crate::double::abs(crate::double::sub(a, b)), EPSILON)
}

/// Whether two double-precision numbers are equal within the tolerance.
#[verifier::when_used_as_spec(spec_fp_approx_eq)]
pub fn fp_approx_eq(a: u64, b: u64) -> (r: bool)
    ensures
        r == spec_fp_approx_eq(a, b),
        crate::double::is_nan(a) || crate::double::is_nan(b) ==> !r,
{
    crate::double::lt(crate::double::abs(crate::double::sub(a, b)), EPSILON)
}

/// A finite number is equal, within the tolerance, to itself; and any two
/// zeros are equal.
pub proof fn lemma_approx_same(a: u64, b: u64)
    requires
        magnitude(Format::Double, a) < Format::Double.infinity(),
        a == b || (is_zero(Format::Double, a) && is_zero(Format::Double, b)),
    ensures
        fp_approx_eq(a, b),
{
    lemma2_to64();
    let fmt = Format::Double;
    let nb = crate::double::neg(b);
    let one = pow2(0) as int;
    let sa = significand(fmt, a) as int;
    assert(significand(fmt, nb) == significand(fmt, b) && exponent(fmt, nb) == exponent(fmt, b));
    assert(sa * one == sa && (-sa) * one == -sa) by (nonlinear_arith)
        requires
            one == 1,
    ;
    assert(is_zero(fmt, crate::double::sub(a, b)));
}

} // verus!
