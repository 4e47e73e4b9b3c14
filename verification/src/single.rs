//! Single-precision numbers, held as their 32 bits.
//!
//! The operations are those of [`crate::ieee`] at the format
//! [`Format::Single`].
use vstd::prelude::*;
use crate::ieee::{Format, negated};
use crate::ieee::addition::sum;
use crate::ieee::multiplication::product;
use crate::ieee::convert::{ceiling_byte, widen, widened};
use crate::ieee::division::quotient;

verus! {

/// The bits of one.
pub const ONE: u32 = 0x3f80_0000;

/// The sum of two numbers.
pub open spec fn spec_add(a: u32, b: u32) -> u32 {
    sum(Format::Single, a as u64, b as u64) as u32
}

/// The product of two numbers.
pub open spec fn spec_mul(a: u32, b: u32) -> u32 {
    product(Format::Single, a as u64, b as u64) as u32
}

/// The quotient of two numbers.
pub open spec fn spec_div(a: u32, b: u32) -> u32 {
    quotient(Format::Single, a as u64, b as u64) as u32
}

/// The number with the opposite sign.
pub open spec fn spec_neg(a: u32) -> u32 {
    negated(Format::Single, a as u64) as u32
}

/// A number rounded up to an integer and narrowed to a byte.
pub open spec fn spec_ceil_to_byte(a: u32) -> u8 {
    ceiling_byte(Format::Single, a as u64)
}

/// The sum of two numbers.
#[verifier::when_used_as_spec(spec_add)]
pub fn add(a: u32, b: u32) -> (r: u32)
    ensures
        r == spec_add(a, b),
{
    crate::ieee::addition::add(Format::Single, a as u64, b as u64) as u32
}

/// The product of two numbers.
#[verifier::when_used_as_spec(spec_mul)]
pub fn mul(a: u32, b: u32) -> (r: u32)
    ensures
        r == spec_mul(a, b),
{
    crate::ieee::multiplication::mul(Format::Single, a as u64, b as u64) as u32
}

/// The quotient of two numbers.
#[verifier::when_used_as_spec(spec_div)]
pub fn div(a: u32, b: u32) -> (r: u32)
    ensures
        r == spec_div(a, b),
{
    crate::ieee::division::div(Format::Single, a as u64, b as u64) as u32
}

/// The number with the opposite sign.
#[verifier::when_used_as_spec(spec_neg)]
pub fn neg(a: u32) -> (r: u32)
    ensures
        r == spec_neg(a),
{
    crate::ieee::neg(Format::Single, a as u64) as u32
}

/// A number rounded up to an integer and narrowed to a byte.
#[verifier::when_used_as_spec(spec_ceil_to_byte)]
pub fn ceil_to_byte(a: u32) -> (r: u8)
    ensures
        r == spec_ceil_to_byte(a),
{
    crate::ieee::convert::ceil_to_byte(Format::Single, a as u64)
}

/// The double-precision number of the same value.
pub open spec fn spec_to_double(a: u32) -> u64 {
    widened(a as u64) as u64
}

/// The double-precision number of the same value.
#[verifier::when_used_as_spec(spec_to_double)]
pub fn to_double(a: u32) -> (r: u64)
    ensures
        r == spec_to_double(a),
{
    widen(a as u64)
}

} // verus!
