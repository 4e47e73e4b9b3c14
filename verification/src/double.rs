//! Double-precision numbers, held as their 64 bits.
//!
//! The operations are those of [`crate::ieee`] at the format
//! [`Format::Double`].
use vstd::prelude::*;
use crate::ieee::{Format, negated};
use crate::ieee::addition::{difference, sum};
use crate::ieee::multiplication::product;
use crate::ieee::division::quotient;
use crate::ieee::order::is_less;
use crate::ieee::root::root;

verus! {

/// The bits of one.
pub const ONE: u64 = 0x3ff0_0000_0000_0000;

/// The bits of positive zero.
pub const ZERO: u64 = 0;

/// Positive or negative zero.
pub open spec fn is_zero(a: u64) -> bool {
    crate::ieee::is_zero(Format::Double, a)
}

/// Not a number.
pub open spec fn is_nan(a: u64) -> bool {
    crate::ieee::is_nan(Format::Double, a)
}

/// The sum of two numbers.
pub open spec fn spec_add(a: u64, b: u64) -> u64 {
    sum(Format::Double, a, b) as u64
}

/// The difference of two numbers.
pub open spec fn spec_sub(a: u64, b: u64) -> u64 {
    difference(Format::Double, a, b) as u64
}

/// The product of two numbers.
pub open spec fn spec_mul(a: u64, b: u64) -> u64 {
    product(Format::Double, a, b) as u64
}

/// The quotient of two numbers.
pub open spec fn spec_div(a: u64, b: u64) -> u64 {
    quotient(Format::Double, a, b) as u64
}

/// The number with the opposite sign.
pub open spec fn spec_neg(a: u64) -> u64 {
    negated(Format::Double, a) as u64
}

/// The square root of a number.
pub open spec fn spec_sqrt(a: u64) -> u64 {
    root(Format::Double, a) as u64
}

/// The absolute value of a number.
pub open spec fn spec_abs(a: u64) -> u64 {
    crate::ieee::magnitude(Format::Double, a) as u64
}

/// The first number is less than the second.
pub open spec fn spec_lt(a: u64, b: u64) -> bool {
    is_less(Format::Double, a, b)
}

/// The sum of two numbers.
#[verifier::when_used_as_spec(spec_add)]
pub fn add(a: u64, b: u64) -> (r: u64)
    ensures
        r == spec_add(a, b),
{
    crate::ieee::addition::add(Format::Double, a, b)
}

/// The difference of two numbers.
#[verifier::when_used_as_spec(spec_sub)]
pub fn sub(a: u64, b: u64) -> (r: u64)
    ensures
        r == spec_sub(a, b),
{
    crate::ieee::addition::sub(Format::Double, a, b)
}

/// The product of two numbers.
#[verifier::when_used_as_spec(spec_mul)]
pub fn mul(a: u64, b: u64) -> (r: u64)
    ensures
        r == spec_mul(a, b),
{
    crate::ieee::multiplication::mul(Format::Double, a, b)
}

/// The quotient of two numbers.
#[verifier::when_used_as_spec(spec_div)]
pub fn div(a: u64, b: u64) -> (r: u64)
    ensures
        r == spec_div(a, b),
{
    crate::ieee::division::div(Format::Double, a, b)
}

/// The number with the opposite sign.
#[verifier::when_used_as_spec(spec_neg)]
pub fn neg(a: u64) -> (r: u64)
    ensures
        r == spec_neg(a),
{
    crate::ieee::neg(Format::Double, a)
}

/// The square root of a number.
#[verifier::when_used_as_spec(spec_sqrt)]
pub fn sqrt(a: u64) -> (r: u64)
    ensures
        r == spec_sqrt(a),
{
    crate::ieee::root::sqrt(Format::Double, a)
}

/// The absolute value of a number.
#[verifier::when_used_as_spec(spec_abs)]
pub fn abs(a: u64) -> (r: u64)
    ensures
        r == spec_abs(a),
{
    crate::ieee::order::abs(Format::Double, a)
}

/// Whether the first number is less than the second.
#[verifier::when_used_as_spec(spec_lt)]
pub fn lt(a: u64, b: u64) -> (r: bool)
    ensures
        r == spec_lt(a, b),
{
    crate::ieee::order::lt(Format::Double, a, b)
}

} // verus!
