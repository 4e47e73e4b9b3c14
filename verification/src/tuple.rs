//! Points and vectors in space.
use vstd::prelude::*;
use vstd::std_specs::cmp::PartialEqSpecImpl;
use crate::double::{ONE, ZERO};
use crate::ieee::{Format, magnitude};
use crate::ieee::laws::{lemma_difference_reversed, lemma_product_commutes};
use crate::utils::{fp_approx_eq, lemma_approx_same};

verus! {

/// Four double-precision coordinates, held as their bits, and the length of
/// the four taken together, which is computed when the tuple is made.
///
/// A tuple whose `w` is one is a point, one whose `w` is zero is a vector.
/// Nothing enforces that `w` is either: the sum of two points has a `w` of
/// two.
#[derive(Clone, Copy, Debug)]
pub struct Tuple {
    pub x: u64,
    pub y: u64,
    pub z: u64,
    pub w: u64,
    pub magnitude: u64,
}

/// The square of a number.
pub open spec fn square(a: u64) -> u64 {
    crate::double::mul(a, a)
}

/// The length of four coordinates: the square root of the sum of their
/// squares, added up from the first to the last.
pub open spec fn length(x: u64, y: u64, z: u64, w: u64) -> u64 {
    crate::double::sqrt(
        crate::double::add(
            crate::double::add(crate::double::add(square(x), square(y)), square(z)),
            square(w),
        ),
    )
}

impl Tuple {
    /// The magnitude is the length of the coordinates.
    pub open spec fn wf(self) -> bool {
        self.magnitude == length(self.x, self.y, self.z, self.w)
    }

    /// The tuple is a point: its `w` is one.
    pub open spec fn is_point(self) -> bool {
        self.w == ONE
    }

    /// The tuple is a vector: its `w` is zero, of either sign.
    pub open spec fn is_vector(self) -> bool {
        crate::double::is_zero(self.w)
    }

    /// The tuple of the given coordinates, with its magnitude.
    pub open spec fn spec_new(x: u64, y: u64, z: u64, w: u64) -> Tuple {
        Tuple { x, y, z, w, magnitude: length(x, y, z, w) }
    }

    /// The point at the given coordinates.
    pub open spec fn spec_point(x: u64, y: u64, z: u64) -> Tuple {
        Tuple::spec_new(x, y, z, ONE)
    }

    /// The vector of the given coordinates.
    pub open spec fn spec_vector(x: u64, y: u64, z: u64) -> Tuple {
        Tuple::spec_new(x, y, z, ZERO)
    }

    /// The sum, coordinate by coordinate.
    pub open spec fn spec_add(self, other: Tuple) -> Tuple {
        Tuple::spec_new(
            crate::double::add(self.x, other.x),
            crate::double::add(self.y, other.y),
            crate::double::add(self.z, other.z),
            crate::double::add(self.w, other.w),
        )
    }

    /// The tuple with every coordinate negated.
    pub open spec fn spec_neg(self) -> Tuple {
        Tuple::spec_new(
            crate::double::neg(self.x),
            crate::double::neg(self.y),
            crate::double::neg(self.z),
            crate::double::neg(self.w),
        )
    }

    /// The sum of this tuple and the negated other.
    pub open spec fn spec_sub(self, other: Tuple) -> Tuple {
        self.spec_add(other.spec_neg())
    }

    /// The tuple with every coordinate multiplied by `scalar`.
    pub open spec fn spec_mul(self, scalar: u64) -> Tuple {
        Tuple::spec_new(
            crate::double::mul(self.x, scalar),
            crate::double::mul(self.y, scalar),
            crate::double::mul(self.z, scalar),
            crate::double::mul(self.w, scalar),
        )
    }

    /// The tuple multiplied by the reciprocal of `scalar`.
    pub open spec fn spec_div(self, scalar: u64) -> Tuple {
        self.spec_mul(crate::double::div(ONE, scalar))
    }

    /// The tuple with every coordinate divided by the magnitude.
    pub open spec fn spec_normalize(&self) -> Tuple {
        Tuple::spec_new(
            crate::double::div(self.x, self.magnitude),
            crate::double::div(self.y, self.magnitude),
            crate::double::div(self.z, self.magnitude),
            crate::double::div(self.w, self.magnitude),
        )
    }

    /// The sum of the products of the coordinates, added up from the
    /// first to the last.
    pub open spec fn spec_dot(&self, other: &Tuple) -> u64 {
        crate::double::add(
            crate::double::add(
                crate::double::add(
                    crate::double::mul(self.x, other.x),
                    crate::double::mul(self.y, other.y),
                ),
                crate::double::mul(self.z, other.z),
            ),
            crate::double::mul(self.w, other.w),
        )
    }

    /// The vector of the three differences of products that make up the
    /// cross product of the space coordinates.
    pub open spec fn spec_cross(&self, other: &Tuple) -> Tuple {
        Tuple::spec_vector(
            crate::double::sub(
                crate::double::mul(self.y, other.z),
                crate::double::mul(self.z, other.y),
            ),
            crate::double::sub(
                crate::double::mul(self.z, other.x),
                crate::double::mul(self.x, other.z),
            ),
            crate::double::sub(
                crate::double::mul(self.x, other.y),
                crate::double::mul(self.y, other.x),
            ),
        )
    }

    /// The tuple of the given coordinates, with its magnitude.
    #[verifier::when_used_as_spec(spec_new)]
    pub fn new(x: u64, y: u64, z: u64, w: u64) -> (t: Tuple)
        ensures
            t == Tuple::spec_new(x, y, z, w),
            t.wf(),
    {
        let xx: u64 = crate::double::mul(x, x);
        let yy: u64 = crate::double::mul(y, y);
        let zz: u64 = crate::double::mul(z, z);
        let ww: u64 = crate::double::mul(w, w);
        let squares: u64 = crate::double::add(
            crate::double::add(crate::double::add(xx, yy), zz),
            ww,
        );
        Tuple { x, y, z, w, magnitude: crate::double::sqrt(squares) }
    }

    /// The point at the given coordinates: a tuple whose `w` is one.
    #[verifier::when_used_as_spec(spec_point)]
    pub fn point(x: u64, y: u64, z: u64) -> (t: Tuple)
        ensures
            t == Tuple::spec_point(x, y, z),
            t.is_point(),
            t.wf(),
    {
        Tuple::new(x, y, z, ONE)
    }

    /// The vector of the given coordinates: a tuple whose `w` is zero.
    #[verifier::when_used_as_spec(spec_vector)]
    pub fn vector(x: u64, y: u64, z: u64) -> (t: Tuple)
        ensures
            t == Tuple::spec_vector(x, y, z),
            t.w == ZERO,
            t.is_vector(),
            t.wf(),
    {
        Tuple::new(x, y, z, ZERO)
    }

    /// The sum, coordinate by coordinate, `w` included.
    #[verifier::when_used_as_spec(spec_add)]
    pub fn add(self, other: Tuple) -> (t: Tuple)
        ensures
            t == self.spec_add(other),
            t.wf(),
    {
        Tuple::new(
            crate::double::add(self.x, other.x),
            crate::double::add(self.y, other.y),
            crate::double::add(self.z, other.z),
            crate::double::add(self.w, other.w),
        )
    }

    /// The tuple with every coordinate negated, `w` included.
    #[verifier::when_used_as_spec(spec_neg)]
    pub fn neg(self) -> (t: Tuple)
        ensures
            t == self.spec_neg(),
            t.wf(),
    {
        Tuple::new(
            crate::double::neg(self.x),
            crate::double::neg(self.y),
            crate::double::neg(self.z),
            crate::double::neg(self.w),
        )
    }

    /// The difference: the sum of this tuple and the negated other.
    #[verifier::when_used_as_spec(spec_sub)]
    pub fn sub(self, other: Tuple) -> (t: Tuple)
        ensures
            t == self.spec_sub(other),
            t.wf(),
    {
        self.add(other.neg())
    }

    /// The tuple with every coordinate multiplied by `scalar`, `w` included.
    #[verifier::when_used_as_spec(spec_mul)]
    pub fn mul(self, scalar: u64) -> (t: Tuple)
        ensures
            t == self.spec_mul(scalar),
            t.wf(),
    {
        Tuple::new(
            crate::double::mul(self.x, scalar),
            crate::double::mul(self.y, scalar),
            crate::double::mul(self.z, scalar),
            crate::double::mul(self.w, scalar),
        )
    }

    /// The tuple multiplied by the reciprocal of `scalar`. A `scalar` of zero
    /// is not refused: its reciprocal is infinite, and so are the products.
    #[verifier::when_used_as_spec(spec_div)]
    pub fn div(self, scalar: u64) -> (t: Tuple)
        ensures
            t == self.spec_div(scalar),
            t.wf(),
    {
        self.mul(crate::double::div(ONE, scalar))
    }

    /// The tuple with every coordinate divided by the magnitude. A magnitude
    /// of zero is not refused: the quotients are then NaN or infinite.
    #[verifier::when_used_as_spec(spec_normalize)]
    pub fn normalize(&self) -> (t: Tuple)
        ensures
            t == self.spec_normalize(),
            t.wf(),
    {
        Tuple::new(
            crate::double::div(self.x, self.magnitude),
            crate::double::div(self.y, self.magnitude),
            crate::double::div(self.z, self.magnitude),
            crate::double::div(self.w, self.magnitude),
        )
    }

    /// The dot product of two vectors: the sum of the products of their
    /// coordinates, added up from the first to the last.
    #[verifier::when_used_as_spec(spec_dot)]
    pub fn dot(&self, other: &Tuple) -> (r: u64)
        requires
            self.is_vector(),
            other.is_vector(),
        ensures
            r == self.spec_dot(other),
    {
        crate::double::add(
            crate::double::add(
                crate::double::add(
                    crate::double::mul(self.x, other.x),
                    crate::double::mul(self.y, other.y),
                ),
                crate::double::mul(self.z, other.z),
            ),
            crate::double::mul(self.w, other.w),
        )
    }

    /// The cross product of two vectors, which is a vector.
    #[verifier::when_used_as_spec(spec_cross)]
    pub fn cross(&self, other: &Tuple) -> (t: Tuple)
        requires
            self.is_vector(),
            other.is_vector(),
        ensures
            t == self.spec_cross(other),
            t.w == ZERO,
            t.wf(),
    {
        Tuple::vector(
            crate::double::sub(
                crate::double::mul(self.y, other.z),
                crate::double::mul(self.z, other.y),
            ),
            crate::double::sub(
                crate::double::mul(self.z, other.x),
                crate::double::mul(self.x, other.z),
            ),
            crate::double::sub(
                crate::double::mul(self.x, other.y),
                crate::double::mul(self.y, other.x),
            ),
        )
    }

    /// Subtracting is adding the negated tuple.
    pub proof fn lemma_sub_is_add_neg(a: Tuple, b: Tuple)
        ensures
            a.sub(b) == a.add(b.neg()),
    {
    }

    /// Each of the four coordinates is equal, within the tolerance, to the
    /// same coordinate of the other tuple. This is what `==` decides.
    pub open spec fn approx_eq(self, other: Tuple) -> bool {
        &&& fp_approx_eq(self.x, other.x)
        &&& fp_approx_eq(self.y, other.y)
        &&& fp_approx_eq(self.z, other.z)
        &&& fp_approx_eq(self.w, other.w)
    }

    /// The three space coordinates are finite: neither NaN nor infinite.
    pub open spec fn is_finite(self) -> bool {
        &&& magnitude(Format::Double, self.x) < Format::Double.infinity()
        &&& magnitude(Format::Double, self.y) < Format::Double.infinity()
        &&& magnitude(Format::Double, self.z) < Format::Double.infinity()
    }

    /// The cross product taken the other way round is the negated cross
    /// product, as far as tuples are told apart: where the cross product is
    /// finite, the two are equal.
    pub proof fn lemma_cross_reversed(a: Tuple, b: Tuple)
        requires
            a.cross(&b).is_finite(),
        ensures
            b.cross(&a).approx_eq(a.cross(&b).neg()),
    {
        let fmt = Format::Double;
        let c = a.cross(&b);
        let r = b.cross(&a);
        let n = c.neg();
        lemma_product_commutes(fmt, a.y, b.z);
        lemma_product_commutes(fmt, a.z, b.y);
        lemma_product_commutes(fmt, a.z, b.x);
        lemma_product_commutes(fmt, a.x, b.z);
        lemma_product_commutes(fmt, a.x, b.y);
        lemma_product_commutes(fmt, a.y, b.x);
        lemma_difference_reversed(
            fmt,
            crate::double::mul(a.y, b.z),
            crate::double::mul(a.z, b.y),
        );
        lemma_difference_reversed(
            fmt,
            crate::double::mul(a.z, b.x),
            crate::double::mul(a.x, b.z),
        );
        lemma_difference_reversed(
            fmt,
            crate::double::mul(a.x, b.y),
            crate::double::mul(a.y, b.x),
        );
        lemma_approx_same(r.x, n.x);
        lemma_approx_same(r.y, n.y);
        lemma_approx_same(r.z, n.z);
        lemma_approx_same(r.w, n.w);
    }
}

/// Two tuples are equal when each of their four coordinates is equal within
/// the tolerance. The magnitudes are not compared.
impl PartialEq for Tuple {
    fn eq(&self, other: &Tuple) -> (r: bool) {
        fp_approx_eq(self.x, other.x) && fp_approx_eq(self.y, other.y) && fp_approx_eq(
            self.z,
            other.z,
        ) && fp_approx_eq(self.w, other.w)
    }
}

impl PartialEqSpecImpl for Tuple {
    open spec fn obeys_eq_spec() -> bool {
        true
    }

    open spec fn eq_spec(&self, other: &Tuple) -> bool {
        self.approx_eq(*other)
    }
}

} // verus!
