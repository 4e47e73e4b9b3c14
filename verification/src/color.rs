//! Colours with a red, a green and a blue channel.
use vstd::prelude::*;
use vstd::std_specs::cmp::PartialEqSpecImpl;
use crate::single::ONE;
use crate::utils::fp_approx_eq;

verus! {

/// The bits of 255 in single precision.
pub const FULL_SCALE: u32 = 0x437f_0000;

/// The byte that the image writer prints for a channel: the channel times
/// 255, rounded up to an integer and narrowed to a byte. Channels at or
/// below zero, and NaN, give 0; channels above one give 255.
pub open spec fn quantized(channel: u32) -> u8 {
    crate::single::ceil_to_byte(crate::single::mul(channel, FULL_SCALE))
}

/// The byte that the image writer prints for a channel.
pub fn quantize(channel: u32) -> (byte: u8)
    ensures
        byte == quantized(channel),
{
    crate::single::ceil_to_byte(crate::single::mul(channel, FULL_SCALE))
}

/// A colour: three single-precision channels, held as their bits. Channels
/// are not limited to the range from zero to one; only the image writer
/// narrows them.
#[derive(Clone, Copy, Debug)]
pub struct Color {
    pub r: u32,
    pub g: u32,
    pub b: u32,
}

impl Color {
    /// Black: all three channels are positive zero.
    pub open spec fn spec_black() -> Color {
        Color { r: 0, g: 0, b: 0 }
    }

    /// The three bytes that the image writer prints for this colour.
    pub open spec fn spec_rgb8(self) -> (u8, u8, u8) {
        (quantized(self.r), quantized(self.g), quantized(self.b))
    }

    /// The sum, channel by channel.
    pub open spec fn spec_add(self, other: Color) -> Color {
        Color {
            r: crate::single::add(self.r, other.r),
            g: crate::single::add(self.g, other.g),
            b: crate::single::add(self.b, other.b),
        }
    }

    /// The colour with every channel negated.
    pub open spec fn spec_neg(self) -> Color {
        Color {
            r: crate::single::neg(self.r),
            g: crate::single::neg(self.g),
            b: crate::single::neg(self.b),
        }
    }

    /// The sum of this colour and the negated other.
    pub open spec fn spec_sub(self, other: Color) -> Color {
        self.spec_add(other.spec_neg())
    }

    /// The colour with every channel multiplied by `scalar`.
    pub open spec fn spec_mul(self, scalar: u32) -> Color {
        Color {
            r: crate::single::mul(self.r, scalar),
            g: crate::single::mul(self.g, scalar),
            b: crate::single::mul(self.b, scalar),
        }
    }

    /// The product of two colours, channel by channel.
    pub open spec fn spec_mul_color(self, other: Color) -> Color {
        Color {
            r: crate::single::mul(self.r, other.r),
            g: crate::single::mul(self.g, other.g),
            b: crate::single::mul(self.b, other.b),
        }
    }

    /// The colour multiplied by the reciprocal of `scalar`.
    pub open spec fn spec_div(self, scalar: u32) -> Color {
        self.spec_mul(crate::single::div(ONE, scalar))
    }

    /// The colour with the given channels.
    pub fn new(r: u32, g: u32, b: u32) -> (c: Color)
        ensures
            c == (Color { r, g, b }),
    {
        Color { r, g, b }
    }

    /// Black.
    #[verifier::when_used_as_spec(spec_black)]
    pub fn black() -> (c: Color)
        ensures
            c == Color::spec_black(),
    {
        Color { r: 0, g: 0, b: 0 }
    }

    /// The three bytes that the image writer prints for this colour.
    #[verifier::when_used_as_spec(spec_rgb8)]
    pub fn rgb8(self) -> (bytes: (u8, u8, u8))
        ensures
            bytes == self.spec_rgb8(),
    {
        (quantize(self.r), quantize(self.g), quantize(self.b))
    }

    /// The sum, channel by channel.
    #[verifier::when_used_as_spec(spec_add)]
    pub fn add(self, other: Color) -> (c: Color)
        ensures
            c == self.spec_add(other),
    {
        Color::new(
            crate::single::add(self.r, other.r),
            crate::single::add(self.g, other.g),
            crate::single::add(self.b, other.b),
        )
    }

    /// The colour with every channel negated.
    #[verifier::when_used_as_spec(spec_neg)]
    pub fn neg(self) -> (c: Color)
        ensures
            c == self.spec_neg(),
    {
        Color::new(
            crate::single::neg(self.r),
            crate::single::neg(self.g),
            crate::single::neg(self.b),
        )
    }

    /// The difference: the sum of this colour and the negated other.
    #[verifier::when_used_as_spec(spec_sub)]
    pub fn sub(self, other: Color) -> (c: Color)
        ensures
            c == self.spec_sub(other),
    {
        self.add(other.neg())
    }

    /// The colour with every channel multiplied by `scalar`.
    #[verifier::when_used_as_spec(spec_mul)]
    pub fn mul(self, scalar: u32) -> (c: Color)
        ensures
            c == self.spec_mul(scalar),
    {
        Color::new(
            crate::single::mul(self.r, scalar),
            crate::single::mul(self.g, scalar),
            crate::single::mul(self.b, scalar),
        )
    }

    /// The product of two colours, channel by channel.
    #[verifier::when_used_as_spec(spec_mul_color)]
    pub fn mul_color(self, other: Color) -> (c: Color)
        ensures
            c == self.spec_mul_color(other),
    {
        Color::new(
            crate::single::mul(self.r, other.r),
            crate::single::mul(self.g, other.g),
            crate::single::mul(self.b, other.b),
        )
    }

    /// The colour multiplied by the reciprocal of `scalar`. A `scalar` of
    /// zero is not refused: its reciprocal is infinite, and so are the
    /// products.
    #[verifier::when_used_as_spec(spec_div)]
    pub fn div(self, scalar: u32) -> (c: Color)
        ensures
            c == self.spec_div(scalar),
    {
        self.mul(crate::single::div(ONE, scalar))
    }

    /// Each of the three channels, taken to double precision, is equal
    /// within the tolerance to the same channel of the other colour. This
    /// is what `==` decides.
    pub open spec fn approx_eq(self, other: Color) -> bool {
        &&& fp_approx_eq(crate::single::to_double(self.r), crate::single::to_double(other.r))
        &&& fp_approx_eq(crate::single::to_double(self.g), crate::single::to_double(other.g))
        &&& fp_approx_eq(crate::single::to_double(self.b), crate::single::to_double(other.b))
    }

    /// Subtracting is adding the negated colour.
    pub proof fn lemma_sub_is_add_neg(a: Color, b: Color)
        ensures
            a.sub(b) == a.add(b.neg()),
    {
    }
}

/// Two colours are equal when each of their three channels, taken to double
/// precision, is equal within the tolerance.
impl PartialEq for Color {
    fn eq(&self, other: &Color) -> (r: bool) {
        fp_approx_eq(crate::single::to_double(self.r), crate::single::to_double(other.r))
            && fp_approx_eq(crate::single::to_double(self.g), crate::single::to_double(other.g))
            && fp_approx_eq(crate::single::to_double(self.b), crate::single::to_double(other.b))
    }
}

impl PartialEqSpecImpl for Color {
    open spec fn obeys_eq_spec() -> bool {
        true
    }

    open spec fn eq_spec(&self, other: &Color) -> bool {
        self.approx_eq(*other)
    }
}

} // verus!
