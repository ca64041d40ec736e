//! Measured quantities, set-points and weights as binary64 numbers.
//!
//! A [`Scalar`] carries the IEEE 754 bit pattern of a binary64 number. The
//! control decisions of this library compare, clamp and negate such numbers;
//! they never round. Each of these operations is defined here through
//! [`Scalar::units`], the exact value of the number as an integer multiple of
//! 2^-1074, the smallest positive binary64 number.

use vstd::prelude::*;
use vstd::arithmetic::power2::{
    lemma_pow2_pos, lemma_pow2_strictly_increases, lemma_pow2_unfold, pow2,
};

verus! {

/// The weight of the sign bit.
pub const SIGN_BIT: u64 = 0x8000_0000_0000_0000;

/// The magnitude bits of an infinity. Smaller magnitudes are finite, larger
/// ones are NaN.
pub const INFINITY_BITS: u64 = 0x7FF0_0000_0000_0000;

/// Number of distinct fractions, and the weight of the implicit leading bit.
pub const FRACTION_RANGE: u64 = 0x0010_0000_0000_0000;

/// A binary64 number, as its bit pattern. `==` compares bit patterns: it tells
/// the two zeros apart and finds a NaN equal to itself.
#[derive(Debug, Clone, Copy, PartialEq, Eq, Structural)]
pub struct Scalar {
    pub bits: u64,
}

/// The absolute value that the 63 low bits `magnitude` stand for, in units of
/// 2^-1074. The value of an infinity is 2^2098 units, above every finite one.
pub open spec fn magnitude_units(magnitude: u64) -> int {
    let exponent = magnitude as int / FRACTION_RANGE as int;
    let fraction = magnitude as int % FRACTION_RANGE as int;
    if exponent == 0 {
        fraction
    } else {
        (FRACTION_RANGE as int + fraction) * pow2((exponent - 1) as nat) as int
    }
}

impl Scalar {
    /// The 63 bits below the sign.
    pub open spec fn magnitude(self) -> u64 {
        self.bits % SIGN_BIT
    }

    /// Whether the sign bit is set.
    pub open spec fn is_negative(self) -> bool {
        self.bits >= SIGN_BIT
    }

    /// Whether this is not a number.
    pub open spec fn nan(self) -> bool {
        self.magnitude() > INFINITY_BITS
    }

    /// Whether this is neither infinite nor NaN.
    pub open spec fn finite(self) -> bool {
        self.magnitude() < INFINITY_BITS
    }

    /// The exact value in units of 2^-1074; meaningful unless [`Scalar::nan`].
    pub open spec fn units(self) -> int {
        if self.is_negative() {
            -magnitude_units(self.magnitude())
        } else {
            magnitude_units(self.magnitude())
        }
    }

    /// `self < other`, false when either is NaN.
    pub open spec fn lt(self, other: Scalar) -> bool {
        !self.nan() && !other.nan() && self.units() < other.units()
    }

    /// `self <= other`, false when either is NaN.
    pub open spec fn le(self, other: Scalar) -> bool {
        !self.nan() && !other.nan() && self.units() <= other.units()
    }

    /// The number with the opposite sign bit.
    pub open spec fn negated(self) -> Scalar {
        Scalar { bits: if self.is_negative() { (self.bits - SIGN_BIT) as u64 } else { (self.bits + SIGN_BIT) as u64 } }
    }

    /// The number with the sign bit cleared.
    pub open spec fn absolute(self) -> Scalar {
        Scalar { bits: self.magnitude() }
    }

    /// The number moved to the nearer bound when it lies outside `low..=high`.
    /// NaN is left as it is.
    pub open spec fn clamped(self, low: Scalar, high: Scalar) -> Scalar {
        if self.lt(low) {
            low
        } else if high.lt(self) {
            high
        } else {
            self
        }
    }

    /// Whether this is neither infinite nor NaN.
    pub fn is_finite(self) -> (res: bool)
        ensures
            res == self.finite(),
    {
        self.bits % SIGN_BIT < INFINITY_BITS
    }

    /// Whether this is not a number.
    pub fn is_nan(self) -> (res: bool)
        ensures
            res == self.nan(),
    {
        self.bits % SIGN_BIT > INFINITY_BITS
    }

    /// `self < other`, false when either is NaN.
    pub fn less(self, other: Scalar) -> (res: bool)
        ensures
            res == self.lt(other),
    {
        if self.is_nan() || other.is_nan() {
            return false;
        }
        let a: u64 = self.bits % SIGN_BIT;
        let b: u64 = other.bits % SIGN_BIT;
        proof {
            lemma_magnitude_order(a, b);
            lemma_magnitude_order(b, a);
            lemma_magnitude_order(0, a);
            lemma_magnitude_order(0, b);
            assert(magnitude_units(0) == 0);
        }
        if self.bits >= SIGN_BIT {
            if other.bits >= SIGN_BIT {
                b < a
            } else {
                a > 0 || b > 0
            }
        } else {
            if other.bits >= SIGN_BIT {
                false
            } else {
                a < b
            }
        }
    }

    /// `self <= other`, false when either is NaN.
    pub fn less_or_equal(self, other: Scalar) -> (res: bool)
        ensures
            res == self.le(other),
    {
        !self.is_nan() && !other.is_nan() && !other.less(self)
    }

    /// The number with the opposite sign bit.
    pub fn neg(self) -> (res: Scalar)
        ensures
            res == self.negated(),
    {
        if self.bits >= SIGN_BIT {
            Scalar { bits: self.bits - SIGN_BIT }
        } else {
            Scalar { bits: self.bits + SIGN_BIT }
        }
    }

    /// The number with the sign bit cleared.
    pub fn abs(self) -> (res: Scalar)
        ensures
            res == self.absolute(),
    {
        Scalar { bits: self.bits % SIGN_BIT }
    }

    /// The number moved to the nearer bound when it lies outside `low..=high`.
    /// NaN is left as it is.
    pub fn clamp(self, low: Scalar, high: Scalar) -> (res: Scalar)
        requires
            low.le(high),
        ensures
            res == self.clamped(low, high),
    {
        if self.less(low) {
            low
        } else if high.less(self) {
            high
        } else {
            self
        }
    }
}

/// Every number of `v` is finite.
pub open spec fn all_finite(v: Seq<Scalar>) -> bool {
    forall|i: int| 0 <= i < v.len() ==> (#[trigger] v[i]).finite()
}

/// Whether every number of `v` is finite.
pub fn is_all_finite(v: &[Scalar]) -> (res: bool)
    ensures
        res == all_finite(v@),
{
    let mut i: usize = 0;
    while i < v.len()
        invariant
            i <= v@.len(),
            forall|j: int| 0 <= j < i ==> (#[trigger] v@[j]).finite(),
        decreases v@.len() - i,
    {
        if !v[i].is_finite() {
            return false;
        }
        i = i + 1;
    }
    true
}

/// Magnitudes stand for values in the order of their bit patterns.
pub proof fn lemma_magnitude_order(a: u64, b: u64)
    ensures
        a < b <==> magnitude_units(a) < magnitude_units(b),
{
    if a < b {
        lemma_magnitude_increases(a, b);
    } else if b < a {
        lemma_magnitude_increases(b, a);
    }
}

proof fn lemma_magnitude_increases(a: u64, b: u64)
    requires
        a < b,
    ensures
        magnitude_units(a) < magnitude_units(b),
{
    let range = FRACTION_RANGE as int;
    let ea = a as int / range;
    let fa = a as int % range;
    let eb = b as int / range;
    let fb = b as int % range;
    assert(ea <= eb);
    if ea == eb {
        assert(fa < fb);
        if ea > 0 {
            let scale = pow2((ea - 1) as nat) as int;
            lemma_pow2_pos((ea - 1) as nat);
            assert((range + fa) * scale < (range + fb) * scale) by (nonlinear_arith)
                requires
                    fa < fb,
                    scale > 0,
            ;
        }
    } else {
        let high = pow2((eb - 1) as nat) as int;
        lemma_pow2_pos((eb - 1) as nat);
        assert(range * high <= (range + fb) * high) by (nonlinear_arith)
            requires
                fb >= 0,
                high > 0,
        ;
        if ea == 0 {
            assert(range <= range * high) by (nonlinear_arith)
                requires
                    range > 0,
                    high >= 1,
            ;
        } else {
            let scale = pow2((ea - 1) as nat) as int;
            lemma_pow2_pos((ea - 1) as nat);
            lemma_pow2_unfold(ea as nat);
            assert(pow2(ea as nat) == 2 * scale);
            if ea < eb - 1 {
                lemma_pow2_strictly_increases(ea as nat, (eb - 1) as nat);
            }
            assert((range + fa) * scale < range * high) by (nonlinear_arith)
                requires
                    0 <= fa < range,
                    scale > 0,
                    2 * scale <= high,
            ;
        }
    }
}

/// Two numbers that are not NaN compare in exactly one of three ways: one is
/// less than the other, the reverse, or they have the same value.
pub proof fn law_scalar_order_is_total(a: Scalar, b: Scalar)
    requires
        !a.nan(),
        !b.nan(),
    ensures
        a.lt(b) || b.lt(a) || a.units() == b.units(),
        !(a.lt(b) && b.lt(a)),
{
}

/// Clamping a number that is not NaN lands between the bounds, and clamping
/// again changes nothing.
pub proof fn law_clamp_lands_between_bounds(x: Scalar, low: Scalar, high: Scalar)
    requires
        low.le(high),
    ensures
        !x.nan() ==> low.le(x.clamped(low, high)) && x.clamped(low, high).le(high),
        x.clamped(low, high).clamped(low, high) == x.clamped(low, high),
{
}

/// Negation reverses the value and is its own inverse.
pub proof fn law_negation_reverses_value(x: Scalar)
    ensures
        x.negated().units() == -x.units(),
        x.negated().negated() == x,
        x.negated().nan() == x.nan(),
        x.negated().absolute() == x.absolute(),
{
}

/// The absolute value is the value without its sign.
pub proof fn law_absolute_drops_sign(x: Scalar)
    ensures
        x.absolute().units() == if x.units() < 0 {
            -x.units()
        } else {
            x.units()
        },
        x.absolute().nan() == x.nan(),
{
    lemma_magnitude_order(0, x.magnitude());
    assert(magnitude_units(0) == 0);
}

/// Comparing goes by the exact values, and what is not a number is neither below nor
/// above anything.
pub proof fn law_comparison_goes_by_value(a: Scalar, b: Scalar)
    ensures
        a.nan() || b.nan() ==> !a.lt(b) && !a.le(b),
        !a.nan() && !b.nan() ==> (a.lt(b) <==> a.units() < b.units()),
        !a.nan() && !b.nan() ==> (a.le(b) <==> a.units() <= b.units()),
        a.bits % SIGN_BIT > INFINITY_BITS ==> a.nan(),
        a.bits % SIGN_BIT <= INFINITY_BITS ==> !a.nan(),
        a.bits % SIGN_BIT < INFINITY_BITS ==> a.finite(),
        a.bits % SIGN_BIT >= INFINITY_BITS ==> !a.finite(),
{
}

/// Clamping leaves a number alone that lies between the bounds, and moves any other
/// number to the bound on its side. What is not a number stays.
pub proof fn law_clamp_goes_to_nearer_bound(x: Scalar, low: Scalar, high: Scalar)
    requires
        low.le(high),
    ensures
        x.nan() ==> x.clamped(low, high) == x,
        !x.nan() && x.units() < low.units() ==> x.clamped(low, high) == low,
        !x.nan() && x.units() > high.units() ==> x.clamped(low, high) == high,
        low.units() <= x.units() <= high.units() ==> x.clamped(low, high) == x,
{
}

/// A sequence is finite exactly if none of its numbers is infinite or not a number.
pub proof fn law_finite_means_every_one(v: Seq<Scalar>)
    ensures
        all_finite(v) ==> forall|i: int|
            0 <= i < v.len() ==> (#[trigger] v[i]).bits % SIGN_BIT < INFINITY_BITS,
        !all_finite(v) ==> exists|i: int|
            0 <= i < v.len() && (#[trigger] v[i]).bits % SIGN_BIT >= INFINITY_BITS,
{
    if all_finite(v) {
        assert forall|i: int| 0 <= i < v.len() implies (#[trigger] v[i]).bits % SIGN_BIT
            < INFINITY_BITS by {
            assert(v[i].finite());
        }
    } else {
        let i = choose|i: int| 0 <= i < v.len() && !(#[trigger] v[i]).finite();
        assert(v[i].bits % SIGN_BIT >= INFINITY_BITS);
    }
}

} // verus!
