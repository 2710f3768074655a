//! The affine map from pixel positions to world coordinates.

use vstd::prelude::*;
use crate::types::{Point, RealF64};
use crate::value::same_product;

verus! {

/// Six coefficients that take a pixel position `(col, row)` to the world
/// point `(a + col * b + row * c, d + col * e + row * f)`.
///
/// `(a, d)` is the world position of pixel `(0, 0)`; `b`, `c`, `e` and `f`
/// hold the pixel size and the rotation.
#[derive(Clone, Copy, Debug, PartialEq, Eq)]
pub struct AffineTransform {
    pub a: RealF64,
    pub b: RealF64,
    pub c: RealF64,
    pub d: RealF64,
    pub e: RealF64,
    pub f: RealF64,
}

impl AffineTransform {
    /// True if all six coefficients are finite numbers.
    pub open spec fn is_finite(self) -> bool {
        &&& self.a.is_finite()
        &&& self.b.is_finite()
        &&& self.c.is_finite()
        &&& self.d.is_finite()
        &&& self.e.is_finite()
        &&& self.f.is_finite()
    }

    /// True if every world point has exactly one pixel position: the
    /// coefficients are finite, and `b * f` differs from `c * e`, the two
    /// products taken exactly.
    pub open spec fn spec_is_invertible(&self) -> bool {
        self.is_finite() && self.b.scaled() * self.f.scaled() != self.c.scaled()
            * self.e.scaled()
    }

    /// The world position of pixel `(0, 0)`.
    pub open spec fn spec_origin(&self) -> Point {
        Point { x: self.a, y: self.d }
    }

    /// The same pixel size and rotation, anchored at another world point.
    pub open spec fn spec_with_origin(&self, origin: Point) -> AffineTransform {
        AffineTransform { a: origin.x, d: origin.y, ..*self }
    }

    /// True if pixel size and rotation are the same bit for bit.
    pub open spec fn spec_same_spacing(&self, other: &AffineTransform) -> bool {
        &&& self.b == other.b
        &&& self.c == other.c
        &&& self.e == other.e
        &&& self.f == other.f
    }

    /// The transform with the given coefficients.
    pub fn new(a: RealF64, b: RealF64, c: RealF64, d: RealF64, e: RealF64, f: RealF64) -> (r:
        AffineTransform)
        ensures
            r == (AffineTransform { a, b, c, d, e, f }),
    {
        AffineTransform { a, b, c, d, e, f }
    }

    /// True if all six coefficients are finite numbers.
    pub fn finite(&self) -> (r: bool)
        ensures
            r == self.is_finite(),
    {
        self.a.finite() && self.b.finite() && self.c.finite() && self.d.finite() && self.e.finite()
            && self.f.finite()
    }

    /// True if every world point has exactly one pixel position: the
    /// coefficients are finite, and `b * f` differs from `c * e`, the two
    /// products taken exactly.
    #[verifier::when_used_as_spec(spec_is_invertible)]
    pub fn is_invertible(&self) -> (r: bool)
        ensures
            r == self.spec_is_invertible(),
    {
        self.finite() && !same_product(self.b, self.f, self.c, self.e)
    }

    /// The world position of pixel `(0, 0)`.
    #[verifier::when_used_as_spec(spec_origin)]
    pub fn origin(&self) -> (r: Point)
        ensures
            r == self.spec_origin(),
    {
        Point { x: self.a, y: self.d }
    }

    /// The same pixel size and rotation, anchored at another world point.
    #[verifier::when_used_as_spec(spec_with_origin)]
    pub fn with_origin(&self, origin: Point) -> (r: AffineTransform)
        ensures
            r == self.spec_with_origin(origin),
    {
        AffineTransform {
            a: origin.x,
            b: self.b,
            c: self.c,
            d: origin.y,
            e: self.e,
            f: self.f,
        }
    }

    /// True if pixel size and rotation are the same bit for bit.
    #[verifier::when_used_as_spec(spec_same_spacing)]
    pub fn same_spacing(&self, other: &AffineTransform) -> (r: bool)
        ensures
            r == self.spec_same_spacing(other),
    {
        self.b.bits == other.b.bits && self.c.bits == other.c.bits && self.e.bits == other.e.bits
            && self.f.bits == other.f.bits
    }
}

/// What `pixel_extent` returns.
pub open spec fn pixel_extent_spec(position: Point) -> (isize, isize) {
    (position.x.round_away(), position.y.round_away())
}

/// The number of pixels, counted from the origin of a transform along each
/// axis, that it takes to cover a fractional pixel position: each coordinate
/// rounded to a whole number away from zero, whatever its sign.
pub fn pixel_extent(position: Point) -> (r: (isize, isize))
    ensures
        r == pixel_extent_spec(position),
{
    (position.x.round_away(), position.y.round_away())
}

} // verus!
