//! The number behind a bit pattern, and its conversion to whole pixels.
//!
//! Every binary64 number is a whole multiple of 2^-1074. The model used
//! here is that multiple, a mathematical integer: it makes "is a whole
//! number", "rounded away from zero" and "cut towards zero" plain statements
//! about division by 2^1074.

use vstd::prelude::*;
use vstd::arithmetic::power2::{
    lemma2_to64, lemma2_to64_rest, lemma_pow2_adds, lemma_pow2_pos, lemma_pow2_strictly_increases,
    lemma_pow2_unfold, pow2,
};
use vstd::arithmetic::div_mod::{
    lemma_basic_div, lemma_div_multiples_vanish_quotient, lemma_fundamental_div_mod,
    lemma_fundamental_div_mod_converse, lemma_small_mod, lemma_truncate_middle,
};
use vstd::arithmetic::mul::{
    lemma_mul_inequality, lemma_mul_is_associative, lemma_mul_is_commutative,
    lemma_mul_strict_inequality, lemma_mul_strictly_positive,
};
use vstd::bits::lemma_u64_shl_is_mul;
use crate::types::{RealF64, INFINITY_BITS, SIGN_BIT};

verus! {

/// The lowest bit of the exponent field; as a number, 2^52.
pub const HIDDEN_BIT: u64 = 0x0010_0000_0000_0000;

/// How many units of 2^-1074 make one.
pub open spec fn unit() -> nat {
    pow2(1074)
}

/// `v`, or the nearest bound of `isize` if `v` lies outside it.
pub open spec fn clamped(v: int) -> int {
    if v < isize::MIN {
        isize::MIN as int
    } else if v > isize::MAX {
        isize::MAX as int
    } else {
        v
    }
}

impl RealF64 {
    /// The eleven exponent bits, as a number.
    pub open spec fn exponent_field(self) -> nat {
        (self.magnitude() / HIDDEN_BIT) as nat
    }

    /// The fifty-two fraction bits, as a number.
    pub open spec fn fraction_field(self) -> nat {
        (self.magnitude() % HIDDEN_BIT) as nat
    }

    /// The digits of the number: the fraction bits, with the hidden leading
    /// bit unless the number is zero or subnormal.
    pub open spec fn significand(self) -> nat {
        if self.exponent_field() == 0 {
            self.fraction_field()
        } else {
            self.fraction_field() + HIDDEN_BIT as nat
        }
    }

    /// The power of two by which the significand counts units of 2^-1074.
    pub open spec fn scale(self) -> nat {
        if self.exponent_field() == 0 {
            0
        } else {
            (self.exponent_field() - 1) as nat
        }
    }

    /// The magnitude of the number in units of 2^-1074. An infinity stands
    /// as 2^1024, beyond every finite number. Meaningless for a NaN.
    pub open spec fn abs_scaled(self) -> nat {
        self.significand() * pow2(self.scale())
    }

    /// The number in units of 2^-1074, with its sign.
    pub open spec fn scaled(self) -> int {
        if self.is_negative() {
            -(self.abs_scaled() as int)
        } else {
            self.abs_scaled() as int
        }
    }

    /// The magnitude of the number with everything after the point dropped.
    pub open spec fn whole_part(self) -> nat {
        self.abs_scaled() / unit()
    }

    /// True if something stands after the point.
    pub open spec fn has_fraction(self) -> bool {
        self.abs_scaled() % unit() != 0
    }

    /// True if the number is finite and has nothing after the point.
    pub open spec fn spec_is_whole(&self) -> bool {
        self.is_finite() && !self.has_fraction()
    }

    /// The whole number of least magnitude that is not nearer to zero than
    /// the number itself, held to the range of `isize`; 0 for a NaN.
    pub open spec fn spec_round_away(&self) -> isize {
        if self.is_nan() {
            0
        } else {
            let reach = self.whole_part() + if self.has_fraction() {
                1nat
            } else {
                0nat
            };
            clamped(
                if self.is_negative() {
                    -(reach as int)
                } else {
                    reach as int
                },
            ) as isize
        }
    }

    /// The number without what stands after the point, held to the range of
    /// `isize`; 0 for a NaN.
    pub open spec fn spec_truncate(&self) -> isize {
        if self.is_nan() {
            0
        } else {
            clamped(
                if self.is_negative() {
                    -(self.whole_part() as int)
                } else {
                    self.whole_part() as int
                },
            ) as isize
        }
    }

    /// True if both values are numbers and are the same number. The two zeros
    /// are the same number; a NaN is the same as nothing.
    pub open spec fn spec_same_number(&self, other: &RealF64) -> bool {
        !self.is_nan() && !other.is_nan() && self.scaled() == other.scaled()
    }

    /// True if both values are numbers and are the same number. The two zeros
    /// are the same number; a NaN is the same as nothing.
    #[verifier::when_used_as_spec(spec_same_number)]
    pub fn same_number(&self, other: &RealF64) -> (r: bool)
        ensures
            r == self.spec_same_number(other),
    {
        if self.nan() || other.nan() {
            return false;
        }
        proof {
            lemma_zero_alone_is_nothing(*self);
            lemma_zero_alone_is_nothing(*other);
            if self.magnitude() < other.magnitude() {
                lemma_magnitude_grows(*self, *other);
            } else if other.magnitude() < self.magnitude() {
                lemma_magnitude_grows(*other, *self);
            }
        }
        let zero: u64 = 0;
        self.bits == other.bits || (self.bits == SIGN_BIT || self.bits == zero) && (other.bits
            == SIGN_BIT || other.bits == zero)
    }

    /// The whole part of the magnitude, held at `WHOLE_LIMIT`, and whether
    /// anything stands after the point.
    fn whole_and_rest(&self) -> (r: (u64, bool))
        requires
            !self.is_nan(),
        ensures
            r.0 == if self.whole_part() >= WHOLE_LIMIT {
                WHOLE_LIMIT as nat
            } else {
                self.whole_part()
            },
            r.1 == self.has_fraction(),
    {
        let magnitude: u64 = if self.bits >= SIGN_BIT {
            self.bits - SIGN_BIT
        } else {
            self.bits
        };
        let exponent: u64 = magnitude / HIDDEN_BIT;
        let fraction: u64 = magnitude % HIDDEN_BIT;
        proof {
            lemma2_to64();
            lemma2_to64_rest();
        }
        if exponent == 0 {
            proof {
                lemma_pow2_strictly_increases(52, 1074);
                assert(self.abs_scaled() == fraction) by (nonlinear_arith)
                    requires
                        self.abs_scaled() == fraction * pow2(0),
                        pow2(0) == 1,
                ;
                lemma_basic_div(fraction as int, unit() as int);
                lemma_small_mod(fraction as nat, unit());
            }
            (0, fraction != 0)
        } else {
            let digits: u64 = fraction + HIDDEN_BIT;
            if exponent >= 1075 {
                let up: u64 = exponent - 1075;
                proof {
                    lemma_above_unit(digits as nat, up as nat);
                }
                if up >= 11 {
                    proof {
                        if up > 11 {
                            lemma_pow2_strictly_increases(11, up as nat);
                        }
                        lemma_mul_inequality(
                            HIDDEN_BIT as int,
                            digits as int,
                            pow2(up as nat) as int,
                        );
                        lemma_mul_inequality(
                            pow2(11) as int,
                            pow2(up as nat) as int,
                            HIDDEN_BIT as int,
                        );
                        lemma_mul_is_commutative(HIDDEN_BIT as int, pow2(up as nat) as int);
                    }
                    (WHOLE_LIMIT, false)
                } else {
                    proof {
                        if up < 10 {
                            lemma_pow2_strictly_increases(up as nat, 10);
                        }
                        lemma_mul_inequality(pow2(up as nat) as int, pow2(10) as int, digits as int);
                        lemma_mul_is_commutative(digits as int, pow2(up as nat) as int);
                        assert(digits * pow2(up as nat) <= digits * 1024);
                        lemma_u64_shl_is_mul(digits, up);
                    }
                    (digits << up, false)
                }
            } else {
                let down: u64 = 1075 - exponent;
                proof {
                    lemma_below_unit(digits as nat, down as nat);
                }
                if down >= 53 {
                    proof {
                        if down > 53 {
                            lemma_pow2_strictly_increases(53, down as nat);
                        }
                        lemma_basic_div(digits as int, pow2(down as nat) as int);
                        lemma_small_mod(digits as nat, pow2(down as nat));
                    }
                    (0, true)
                } else {
                    proof {
                        lemma_pow2_strictly_increases(down as nat, 63);
                        lemma_u64_shl_is_mul(1, down);
                    }
                    let step: u64 = 1u64 << down;
                    (digits / step, digits % step != 0)
                }
            }
        }
    }

    /// True if the number is finite and has nothing after the point.
    #[verifier::when_used_as_spec(spec_is_whole)]
    pub fn is_whole(&self) -> (r: bool)
        ensures
            r == self.spec_is_whole(),
    {
        if !self.finite() {
            return false;
        }
        let (_, rest) = self.whole_and_rest();
        !rest
    }

    /// Rounds to a whole number away from zero: up for a positive number,
    /// down for a negative one. What lies outside `isize` becomes its nearest
    /// bound, and a NaN becomes 0.
    #[verifier::when_used_as_spec(spec_round_away)]
    pub fn round_away(&self) -> (r: isize)
        ensures
            r == self.spec_round_away(),
    {
        if self.nan() {
            return 0;
        }
        let (whole, rest) = self.whole_and_rest();
        let reach: u128 = if rest {
            whole as u128 + 1
        } else {
            whole as u128
        };
        signed_and_held(reach, self.bits >= SIGN_BIT)
    }

    /// Drops what stands after the point. What lies outside `isize` becomes
    /// its nearest bound, and a NaN becomes 0.
    #[verifier::when_used_as_spec(spec_truncate)]
    pub fn truncate(&self) -> (r: isize)
        ensures
            r == self.spec_truncate(),
    {
        if self.nan() {
            return 0;
        }
        let (whole, _) = self.whole_and_rest();
        signed_and_held(whole as u128, self.bits >= SIGN_BIT)
    }
}

/// Dividing `m * 2^(1074 - down)` by 2^1074 is dividing `m` by `2^down`.
proof fn lemma_below_unit(m: nat, down: nat)
    requires
        1 <= down <= 1074,
    ensures
        (m * pow2((1074 - down) as nat)) / unit() == m / pow2(down),
        ((m * pow2((1074 - down) as nat)) % unit() == 0) == (m % pow2(down) == 0),
{
    let k = pow2((1074 - down) as nat) as int;
    let p = pow2(down) as int;
    lemma_pow2_pos((1074 - down) as nat);
    lemma_pow2_pos(down);
    lemma_pow2_adds((1074 - down) as nat, down);
    assert(unit() == k * p);
    lemma_div_multiples_vanish_quotient(k, m as int, p);
    lemma_truncate_middle(m as int, k, p);
    lemma_mul_is_commutative(m as int, k);
    assert((m * k) % (k * p) == k * ((m as int) % p));
    if (m as int) % p == 0 {
        assert(k * ((m as int) % p) == 0);
    } else {
        lemma_mul_strictly_positive(k, (m as int) % p);
    }
}

/// Dividing `m * 2^(1074 + up)` by 2^1074 leaves `m * 2^up` and no rest.
proof fn lemma_above_unit(m: nat, up: nat)
    ensures
        (m * pow2(1074 + up)) / unit() == m * pow2(up),
        (m * pow2(1074 + up)) % unit() == 0,
{
    let u = unit() as int;
    let q = (m * pow2(up)) as int;
    lemma_pow2_pos(1074);
    lemma_pow2_adds(up, 1074);
    assert(pow2(1074 + up) == pow2(up) * pow2(1074));
    lemma_mul_is_associative(m as int, pow2(up) as int, u);
    assert(m * pow2(1074 + up) == q * u + 0);
    lemma_fundamental_div_mod_converse((m * pow2(1074 + up)) as int, u, q, 0);
}

/// The whole part from which on a magnitude lies outside `isize` whatever
/// its sign; as a number, 2^63.
pub const WHOLE_LIMIT: u64 = 0x8000_0000_0000_0000;

/// `reach` with the sign given, held to the range of `isize`.
fn signed_and_held(reach: u128, negative: bool) -> (r: isize)
    requires
        reach <= WHOLE_LIMIT + 1,
    ensures
        r == clamped(
            if negative {
                -(reach as int)
            } else {
                reach as int
            },
        ),
{
    let value: i128 = if negative {
        -(reach as i128)
    } else {
        reach as i128
    };
    if value < isize::MIN as i128 {
        isize::MIN
    } else if value > isize::MAX as i128 {
        isize::MAX
    } else {
        value as isize
    }
}

/// Among the numbers, a larger pattern of magnitude bits is a larger
/// magnitude.
proof fn lemma_magnitude_grows(a: RealF64, b: RealF64)
    requires
        a.magnitude() < b.magnitude() <= INFINITY_BITS,
    ensures
        a.abs_scaled() < b.abs_scaled(),
{
    lemma2_to64();
    lemma2_to64_rest();
    let ea = a.exponent_field();
    let eb = b.exponent_field();
    lemma_pow2_pos(a.scale());
    lemma_pow2_pos(b.scale());
    if ea == eb {
        lemma_mul_strict_inequality(
            a.significand() as int,
            b.significand() as int,
            pow2(a.scale()) as int,
        );
    } else {
        let high = pow2(b.scale()) as int;
        lemma_mul_inequality(HIDDEN_BIT as int, b.significand() as int, high);
        assert(HIDDEN_BIT * high <= b.abs_scaled());
        if ea == 0 {
            assert(a.abs_scaled() == a.fraction_field()) by (nonlinear_arith)
                requires
                    a.abs_scaled() == a.fraction_field() * pow2(0),
                    pow2(0) == 1,
            ;
            assert(HIDDEN_BIT * 1 <= HIDDEN_BIT * high) by (nonlinear_arith)
                requires
                    1 <= high,
            ;
        } else {
            let low = pow2(a.scale()) as int;
            lemma_mul_strict_inequality(a.significand() as int, 2 * HIDDEN_BIT, low);
            lemma_pow2_unfold(ea);
            assert(pow2(ea) == 2 * low);
            if ea < b.scale() {
                lemma_pow2_strictly_increases(ea, b.scale());
            }
            assert(2 * low <= high);
            assert((2 * HIDDEN_BIT) * low <= HIDDEN_BIT * high) by (nonlinear_arith)
                requires
                    2 * low <= high,
            ;
        }
    }
}

/// Only the zeros have no magnitude.
proof fn lemma_zero_alone_is_nothing(a: RealF64)
    requires
        !a.is_nan(),
    ensures
        a.abs_scaled() == 0 <==> a.magnitude() == 0,
{
    let zero = RealF64 { bits: 0 };
    assert(zero.abs_scaled() == 0) by (nonlinear_arith)
        requires
            zero.abs_scaled() == zero.significand() * pow2(zero.scale()),
            zero.significand() == 0,
    ;
    if a.magnitude() > 0 {
        lemma_magnitude_grows(zero, a);
    } else {
        assert(a.abs_scaled() == zero.abs_scaled());
    }
}

/// Among the numbers the total order is the numeric order: one number comes
/// before another exactly if it is smaller, and two numbers tie exactly if
/// they are equal, as the two zeros are.
pub proof fn order_follows_value(a: RealF64, b: RealF64)
    requires
        !a.is_nan(),
        !b.is_nan(),
    ensures
        a.rank() < b.rank() <==> a.scaled() < b.scaled(),
        a.ties(b) <==> a.scaled() == b.scaled(),
        a.ties(b) <==> a.same_number(&b),
{
    lemma_zero_alone_is_nothing(a);
    lemma_zero_alone_is_nothing(b);
    if a.magnitude() < b.magnitude() {
        lemma_magnitude_grows(a, b);
    } else if b.magnitude() < a.magnitude() {
        lemma_magnitude_grows(b, a);
    }
}

/// Every NaN comes after every number, the infinities included, and ties
/// with no number.
pub proof fn nan_ranks_last(a: RealF64, b: RealF64)
    requires
        a.is_nan(),
        !b.is_nan(),
    ensures
        a.rank() > b.rank(),
{
}

impl RealF64 {
    /// True if the number is exactly the whole number `n`.
    pub open spec fn represents(self, n: int) -> bool {
        self.is_finite() && self.scaled() == n * unit()
    }
}

/// A number that is exactly a whole number counts as whole, and rounding and
/// cutting leave it as it is where it lies within `isize`.
pub proof fn whole_numbers_stay(x: RealF64, n: int)
    requires
        x.represents(n),
    ensures
        x.is_whole(),
        isize::MIN <= n <= isize::MAX ==> x.round_away() == n && x.truncate() == n,
{
    let u = unit() as int;
    lemma_pow2_pos(1074);
    let size: int = if n >= 0 {
        n
    } else {
        -n
    };
    assert(x.abs_scaled() == size * u) by (nonlinear_arith)
        requires
            x.scaled() == n * u,
            x.scaled() == x.abs_scaled() || x.scaled() == -(x.abs_scaled() as int),
            size == n || size == -n,
            size >= 0,
            u > 0,
    ;
    lemma_fundamental_div_mod_converse(x.abs_scaled() as int, u, size, 0);
    if n > 0 {
        assert(x.scaled() > 0) by (nonlinear_arith)
            requires
                x.scaled() == n * u,
                n > 0,
                u > 0,
        ;
    } else if n < 0 {
        assert(x.scaled() < 0) by (nonlinear_arith)
            requires
                x.scaled() == n * u,
                n < 0,
                u > 0,
        ;
    }
}

/// Rounding away from zero gives the count of least magnitude that covers
/// the number, on the side of its sign: the count reaches the number, and
/// one pixel fewer falls short of it.
pub proof fn round_away_covers(x: RealF64)
    requires
        !x.is_nan(),
        x.whole_part() < isize::MAX,
    ensures
        x.is_negative() ==> x.round_away() <= 0,
        !x.is_negative() ==> x.round_away() >= 0,
        x.is_negative() ==> x.round_away() * unit() <= x.scaled() < (x.round_away() + 1) * unit(),
        !x.is_negative() ==> (x.round_away() - 1) * unit() < x.scaled() <= x.round_away()
            * unit(),
{
    let u = unit() as int;
    let n = x.abs_scaled() as int;
    lemma_pow2_pos(1074);
    lemma_fundamental_div_mod(n, u);
    let q = n / u;
    let r = n % u;
    assert(0 <= r < u);
    let reach: int = if r != 0 {
        q + 1
    } else {
        q
    };
    assert((reach - 1) * u < n <= reach * u) by (nonlinear_arith)
        requires
            n == u * q + r,
            0 <= r < u,
            reach == if r != 0 {
                q + 1
            } else {
                q
            },
    ;
    if x.is_negative() {
        assert((-reach) * u == -(reach * u)) by (nonlinear_arith);
        assert((-reach + 1) * u == -((reach - 1) * u)) by (nonlinear_arith);
    }
}

/// Rounding an exact quotient away from zero gives the count of least
/// magnitude whose steps reach the dividend: if `q` is exactly `span / step`,
/// for a span that is not negative and a step of either sign, then
/// `q.round_away()` steps cover the span, and one step fewer does not. The
/// count has the sign of the step.
pub proof fn round_away_covers_span(q: RealF64, span: int, step: int)
    requires
        !q.is_nan(),
        q.whole_part() < isize::MAX,
        0 <= span,
        step != 0,
        q.scaled() * step == span * unit(),
    ensures
        step > 0 ==> (q.round_away() - 1) * step < span <= q.round_away() * step,
        step < 0 ==> (q.round_away() + 1) * step < span <= q.round_away() * step,
{
    let u = unit() as int;
    let n = q.round_away() as int;
    let v = q.scaled();
    lemma_pow2_pos(1074);
    round_away_covers(q);
    if step > 0 {
        assert(v >= 0) by (nonlinear_arith)
            requires
                v * step == span * u,
                0 <= span,
                0 < step,
                0 < u,
        ;
        if q.is_negative() {
            assert(v == 0);
            assert(n == 0) by (nonlinear_arith)
                requires
                    n <= 0,
                    n * u <= 0 < (n + 1) * u,
                    0 < u,
            ;
            assert(span == 0) by (nonlinear_arith)
                requires
                    0 * step == span * u,
                    0 < u,
            ;
        } else {
            assert((n - 1) * step < span <= n * step) by (nonlinear_arith)
                requires
                    (n - 1) * u < v <= n * u,
                    v * step == span * u,
                    0 < step,
                    0 < u,
            ;
        }
    } else {
        assert(v <= 0) by (nonlinear_arith)
            requires
                v * step == span * u,
                0 <= span,
                step < 0,
                0 < u,
        ;
        if q.is_negative() {
            assert((n + 1) * step < span <= n * step) by (nonlinear_arith)
                requires
                    n * u <= v < (n + 1) * u,
                    v * step == span * u,
                    step < 0,
                    0 < u,
            ;
        } else {
            assert(v == 0);
            assert(n == 0) by (nonlinear_arith)
                requires
                    n >= 0,
                    (n - 1) * u < 0 <= n * u,
                    0 < u,
            ;
            assert(span == 0) by (nonlinear_arith)
                requires
                    0 * step == span * u,
                    0 < u,
            ;
        }
    }
}

/// Rounding treats both signs alike: two numbers of the same magnitude and
/// opposite sign round to counts of the same magnitude and opposite sign.
pub proof fn round_away_mirrors(x: RealF64, y: RealF64)
    requires
        !x.is_nan(),
        x.magnitude() == y.magnitude(),
        x.is_negative() != y.is_negative(),
        x.whole_part() < isize::MAX,
    ensures
        y.round_away() == -x.round_away(),
{
}

impl RealF64 {
    /// The significand and the scale of a number.
    fn parts(&self) -> (r: (u64, u64))
        ensures
            r.0 == self.significand(),
            r.1 == self.scale(),
            r.0 < 2 * HIDDEN_BIT,
            r.1 <= 2046,
    {
        let magnitude: u64 = if self.bits >= SIGN_BIT {
            self.bits - SIGN_BIT
        } else {
            self.bits
        };
        let exponent: u64 = magnitude / HIDDEN_BIT;
        let fraction: u64 = magnitude % HIDDEN_BIT;
        if exponent == 0 {
            (fraction, 0)
        } else {
            (fraction + HIDDEN_BIT, exponent - 1)
        }
    }
}

/// True if `m1 * 2^k1` is `m2 * 2^k2`.
fn same_scaled(m1: u128, k1: u64, m2: u128, k2: u64) -> (r: bool)
    requires
        m1 > 0,
        m2 > 0,
    ensures
        r == (m1 * pow2(k1 as nat) == m2 * pow2(k2 as nat)),
{
    let (high, low, mut gap) = if k1 >= k2 {
        (m1, m2, k1 - k2)
    } else {
        (m2, m1, k2 - k1)
    };
    let mut rest: u128 = low;
    proof {
        let top = if k1 >= k2 {
            k1
        } else {
            k2
        };
        let base = if k1 >= k2 {
            k2
        } else {
            k1
        };
        lemma_pow2_adds(gap as nat, base as nat);
        lemma_pow2_pos(base as nat);
        let g = pow2(gap as nat) as int;
        let b = pow2(base as nat) as int;
        assert((high * (g * b) == low * b) == (high * g == low)) by (nonlinear_arith)
            requires
                b > 0,
        ;
    }
    while gap > 0
        invariant
            high > 0,
            rest > 0,
            (m1 * pow2(k1 as nat) == m2 * pow2(k2 as nat)) == (high * pow2(gap as nat) == rest),
        decreases gap,
    {
        proof {
            lemma_pow2_unfold(gap as nat);
            let g = pow2((gap - 1) as nat) as int;
            assert(high * (2 * g) == 2 * (high * g)) by (nonlinear_arith);
        }
        if rest % 2 == 1 {
            return false;
        }
        rest = rest / 2;
        gap = gap - 1;
    }
    proof {
        lemma2_to64();
        assert(high * pow2(0) == high) by (nonlinear_arith)
            requires
                pow2(0) == 1,
        ;
    }
    high == rest
}

/// True if the product of the first two numbers is the product of the last
/// two, taken exactly: nothing is rounded.
pub(crate) fn same_product(a: RealF64, b: RealF64, c: RealF64, d: RealF64) -> (r: bool)
    ensures
        r == (a.scaled() * b.scaled() == c.scaled() * d.scaled()),
{
    let (sa, ka) = a.parts();
    let (sb, kb) = b.parts();
    let (sc, kc) = c.parts();
    let (sd, kd) = d.parts();
    proof {
        lemma2_to64();
        lemma2_to64_rest();
        assert(sa * sb < 0x1_0000_0000_0000_0000_0000_0000_0000) by (nonlinear_arith)
            requires
                sa < 0x20_0000_0000_0000,
                sb < 0x20_0000_0000_0000,
        ;
        assert(sc * sd < 0x1_0000_0000_0000_0000_0000_0000_0000) by (nonlinear_arith)
            requires
                sc < 0x20_0000_0000_0000,
                sd < 0x20_0000_0000_0000,
        ;
    }
    let first: u128 = sa as u128 * sb as u128;
    let second: u128 = sc as u128 * sd as u128;
    let first_negative = (a.bits >= SIGN_BIT) != (b.bits >= SIGN_BIT);
    let second_negative = (c.bits >= SIGN_BIT) != (d.bits >= SIGN_BIT);
    proof {
        lemma_product_of_parts(a, b);
        lemma_product_of_parts(c, d);
        lemma_pow2_pos((ka + kb) as nat);
        lemma_pow2_pos((kc + kd) as nat);
        let p = pow2((ka + kb) as nat) as int;
        let q = pow2((kc + kd) as nat) as int;
        assert((first * p == 0) == (first == 0)) by (nonlinear_arith)
            requires
                p > 0,
                first >= 0,
        ;
        assert((second * q == 0) == (second == 0)) by (nonlinear_arith)
            requires
                q > 0,
                second >= 0,
        ;
        assert(first * p >= 0 && second * q >= 0) by (nonlinear_arith)
            requires
                p > 0,
                q > 0,
                first >= 0,
                second >= 0,
        ;
    }
    if first == 0 || second == 0 {
        first == 0 && second == 0
    } else {
        first_negative == second_negative && same_scaled(first, ka + kb, second, kc + kd)
    }
}

/// The product of two numbers is the product of their significands, scaled
/// by the sum of their scales, negative if just one of the two is.
proof fn lemma_product_of_parts(a: RealF64, b: RealF64)
    ensures
        a.is_negative() != b.is_negative() ==> a.scaled() * b.scaled() == -((a.significand()
            * b.significand()) * pow2(a.scale() + b.scale())),
        a.is_negative() == b.is_negative() ==> a.scaled() * b.scaled() == (a.significand()
            * b.significand()) * pow2(a.scale() + b.scale()),
{
    lemma_pow2_adds(a.scale(), b.scale());
    let sa = a.significand() as int;
    let sb = b.significand() as int;
    let pa = pow2(a.scale()) as int;
    let pb = pow2(b.scale()) as int;
    assert((sa * pa) * (sb * pb) == (sa * sb) * (pa * pb)) by (nonlinear_arith);
    assert((-(sa * pa)) * (sb * pb) == -((sa * sb) * (pa * pb))) by (nonlinear_arith);
    assert((sa * pa) * (-(sb * pb)) == -((sa * sb) * (pa * pb))) by (nonlinear_arith);
    assert((-(sa * pa)) * (-(sb * pb)) == (sa * sb) * (pa * pb)) by (nonlinear_arith);
}

} // verus!
