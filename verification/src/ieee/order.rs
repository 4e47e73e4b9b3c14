//! Order.
use vstd::prelude::*;
use crate::ieee::{Format, is_nan, is_negative, magnitude, magnitude_of};

verus! {

/// Where a number that is not NaN stands in the order of all numbers.
/// The numbers of a format are ordered as their bits without the sign are,
/// the negative ones in reverse; the two zeros stand at the same place.
pub open spec fn rank(fmt: Format, bits: u64) -> int {
    if is_negative(fmt, bits) {
        -(magnitude(fmt, bits) as int)
    } else {
        magnitude(fmt, bits) as int
    }
}

/// The first number is less than the second. Nothing is less than NaN, and
/// NaN is less than nothing.
pub open spec fn is_less(fmt: Format, a: u64, b: u64) -> bool {
    !is_nan(fmt, a) && !is_nan(fmt, b) && rank(fmt, a) < rank(fmt, b)
}

/// The absolute value: the same bits with the sign bit cleared.
pub fn abs(fmt: Format, a: u64) -> (r: u64)
    ensures
        r == magnitude(fmt, a),
{
    magnitude_of(fmt, a)
}

/// Whether the first number is less than the second.
pub fn lt(fmt: Format, a: u64, b: u64) -> (r: bool)
    requires
        fmt.holds(a),
        fmt.holds(b),
    ensures
        r == is_less(fmt, a, b),
{
    let mag_a: u64 = magnitude_of(fmt, a);
    let mag_b: u64 = magnitude_of(fmt, b);
    if mag_a > fmt.infinity() || mag_b > fmt.infinity() {
        return false;
    }
    let negative_a: bool = a >= fmt.sign();
    let negative_b: bool = b >= fmt.sign();
    if negative_a {
        if negative_b {
            mag_b < mag_a
        } else {
            mag_a > 0 || mag_b > 0
        }
    } else if negative_b {
        false
    } else {
        mag_a < mag_b
    }
}

} // verus!
