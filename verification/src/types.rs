//! World coordinates as binary64 bit patterns, and a total order over them.

use vstd::prelude::*;
use vstd::std_specs::cmp::{PartialEqSpecImpl, PartialOrdSpecImpl};
use core::cmp::Ordering;

verus! {

/// The bit that carries the sign of a number.
pub const SIGN_BIT: u64 = 0x8000_0000_0000_0000;

/// The magnitude bits of an infinity: every exponent bit set, no fraction bit.
pub const INFINITY_BITS: u64 = 0x7ff0_0000_0000_0000;

/// A binary64 number, held as its bit pattern, under a total order.
///
/// Among the numbers the order is the numeric order: of two numbers the
/// smaller comes first, and two numbers tie exactly if they are equal, as
/// the two zeros are. Every NaN comes after every number; the NaNs go by
/// their bit patterns among themselves, so a NaN ties only with itself.
/// `==`, `<` and the other operators go by this order.
#[derive(Clone, Copy, Debug, Eq)]
pub struct RealF64 {
    pub bits: u64,
}

/// A point in world space, or a fractional position in pixel space.
#[derive(Clone, Copy, Debug, PartialEq, Eq)]
pub struct Point {
    pub x: RealF64,
    pub y: RealF64,
}

impl Point {
    /// True if the two points tie in both coordinates.
    pub open spec fn ties(self, other: Point) -> bool {
        self.x.ties(other.x) && self.y.ties(other.y)
    }
}

impl RealF64 {
    /// True if the sign bit is set.
    pub open spec fn is_negative(self) -> bool {
        self.bits >= SIGN_BIT
    }

    /// The bit pattern without its sign bit.
    pub open spec fn magnitude(self) -> u64 {
        if self.bits >= SIGN_BIT {
            (self.bits - SIGN_BIT) as u64
        } else {
            self.bits
        }
    }

    /// True if the value is not a number.
    pub open spec fn is_nan(self) -> bool {
        self.magnitude() > INFINITY_BITS
    }

    /// True if the value is a number other than an infinity.
    pub open spec fn is_finite(self) -> bool {
        self.magnitude() < INFINITY_BITS
    }

    /// The position of the value in the total order: `a` comes before `b`
    /// exactly if `a.rank() < b.rank()`, and the two tie exactly if their
    /// ranks are the same.
    ///
    /// A number with the sign bit set ranks at its magnitude bits negated, so
    /// the two zeros share rank 0; everything else, the NaNs with a sign bit
    /// included, ranks by its bit pattern.
    pub open spec fn rank(self) -> int {
        if self.is_negative() && !self.is_nan() {
            -(self.magnitude() as int)
        } else {
            self.bits as int
        }
    }

    /// True if neither value comes before the other: they are equal numbers,
    /// or one and the same NaN.
    pub open spec fn ties(self, other: RealF64) -> bool {
        self.rank() == other.rank()
    }

    /// The later of two values in the total order; the second if they tie.
    pub open spec fn spec_max(self, other: RealF64) -> RealF64 {
        if self.rank() > other.rank() {
            self
        } else {
            other
        }
    }

    /// The earlier of two values in the total order; the first if they tie.
    pub open spec fn spec_min(self, other: RealF64) -> RealF64 {
        if self.rank() <= other.rank() {
            self
        } else {
            other
        }
    }

    /// The value with the given bit pattern.
    pub fn new(bits: u64) -> (r: RealF64)
        ensures
            r.bits == bits,
    {
        RealF64 { bits }
    }

    fn magnitude_bits(&self) -> (r: u64)
        ensures
            r == self.magnitude(),
    {
        if self.bits >= SIGN_BIT {
            self.bits - SIGN_BIT
        } else {
            self.bits
        }
    }

    /// True if the value is not a number.
    pub fn nan(&self) -> (r: bool)
        ensures
            r == self.is_nan(),
    {
        self.magnitude_bits() > INFINITY_BITS
    }

    /// True if the value is a number other than an infinity.
    pub fn finite(&self) -> (r: bool)
        ensures
            r == self.is_finite(),
    {
        self.magnitude_bits() < INFINITY_BITS
    }

    fn rank_value(&self) -> (r: i128)
        ensures
            r == self.rank(),
    {
        let magnitude: u64 = self.magnitude_bits();
        if self.bits >= SIGN_BIT && magnitude <= INFINITY_BITS {
            -(magnitude as i128)
        } else {
            self.bits as i128
        }
    }

    /// True if `self` comes strictly before `other`.
    pub fn lt(&self, other: &RealF64) -> (r: bool)
        ensures
            r == (self.rank() < other.rank()),
    {
        self.rank_value() < other.rank_value()
    }

    /// True if `self` comes before `other` or ties with it.
    pub fn le(&self, other: &RealF64) -> (r: bool)
        ensures
            r == (self.rank() <= other.rank()),
    {
        self.rank_value() <= other.rank_value()
    }

    /// True if `self` comes strictly after `other`.
    pub fn gt(&self, other: &RealF64) -> (r: bool)
        ensures
            r == (self.rank() > other.rank()),
    {
        self.rank_value() > other.rank_value()
    }

    /// The later of two values in the total order; the second if they tie.
    #[verifier::when_used_as_spec(spec_max)]
    pub fn max(self, other: RealF64) -> (r: RealF64)
        ensures
            r == self.spec_max(other),
    {
        if self.rank_value() > other.rank_value() {
            self
        } else {
            other
        }
    }

    /// The earlier of two values in the total order; the first if they tie.
    #[verifier::when_used_as_spec(spec_min)]
    pub fn min(self, other: RealF64) -> (r: RealF64)
        ensures
            r == self.spec_min(other),
    {
        if self.rank_value() <= other.rank_value() {
            self
        } else {
            other
        }
    }
}

/// Two values tie only if they have the same bits or are the two zeros.
pub proof fn ties_are_same_bits_or_zeros(a: RealF64, b: RealF64)
    requires
        a.ties(b),
    ensures
        a == b || (a.magnitude() == 0 && b.magnitude() == 0),
{
}

/// The two zeros tie, and every value ties with itself.
pub proof fn zeros_tie(a: RealF64, b: RealF64)
    requires
        a.magnitude() == 0,
        b.magnitude() == 0,
    ensures
        a.ties(b),
        a.ties(a),
{
}

impl PartialEqSpecImpl for RealF64 {
    open spec fn obeys_eq_spec() -> bool {
        true
    }

    /// `==` holds of two values that tie.
    open spec fn eq_spec(&self, other: &RealF64) -> bool {
        self.rank() == other.rank()
    }
}

impl PartialEq for RealF64 {
    fn eq(&self, other: &RealF64) -> (r: bool) {
        self.rank_value() == other.rank_value()
    }
}

impl PartialOrdSpecImpl for RealF64 {
    open spec fn obeys_partial_cmp_spec() -> bool {
        true
    }

    /// `<`, `<=`, `>` and `>=` go by `rank`, so any two values compare.
    open spec fn partial_cmp_spec(&self, other: &RealF64) -> Option<Ordering> {
        if self.rank() < other.rank() {
            Some(Ordering::Less)
        } else if self.rank() > other.rank() {
            Some(Ordering::Greater)
        } else {
            Some(Ordering::Equal)
        }
    }
}

impl PartialOrd for RealF64 {
    fn partial_cmp(&self, other: &RealF64) -> (r: Option<Ordering>) {
        if self.lt(other) {
            Some(Ordering::Less)
        } else if self.gt(other) {
            Some(Ordering::Greater)
        } else {
            Some(Ordering::Equal)
        }
    }
}

/// On two numbers, comparison is the comparison of the numbers: less,
/// greater or equal exactly as they are, and `==` exactly if they are equal.
pub proof fn comparison_is_numeric(a: RealF64, b: RealF64)
    requires
        !a.is_nan(),
        !b.is_nan(),
    ensures
        vstd::std_specs::cmp::PartialOrdSpec::partial_cmp_spec(&a, &b) == Some(Ordering::Less) <==> a.scaled() < b.scaled(),
        vstd::std_specs::cmp::PartialOrdSpec::partial_cmp_spec(&a, &b) == Some(
            Ordering::Greater,
        ) <==> a.scaled() > b.scaled(),
        vstd::std_specs::cmp::PartialOrdSpec::partial_cmp_spec(&a, &b) == Some(Ordering::Equal) <==> a.scaled() == b.scaled(),
        vstd::std_specs::cmp::PartialEqSpec::eq_spec(&a, &b) <==> a.scaled() == b.scaled(),
{
    crate::value::order_follows_value(a, b);
    crate::value::order_follows_value(b, a);
}

} // verus!
