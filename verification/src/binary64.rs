//! Addition, subtraction and multiplication of binary64 numbers, rounded to the
//! nearest number with ties to even. For division see [`crate::division`].
//!
//! A finite number is a significand below 2^53 times a power of two; see
//! [`Scalar::units`] for the unit. The results are worked out exactly on the
//! significands and then rounded once.

use crate::scalar::{
    law_negation_reverses_value, lemma_magnitude_order, magnitude_units, Scalar, FRACTION_RANGE,
    INFINITY_BITS, SIGN_BIT,
};
use vstd::arithmetic::power2::{
    lemma_pow2, lemma_pow2_adds, lemma_pow2_pos, lemma_pow2_strictly_increases, lemma_pow2_unfold,
    pow2,
};
use vstd::prelude::*;

verus! {

/// The bit pattern of the NaN that arithmetic gives.
pub const NAN_BITS: u64 = 0x7FF8_0000_0000_0000;

/// Degrees in a radian, as bits.
pub const DEG_PER_RAD: u64 = 0x404C_A5DC_1A63_C1F8;

/// Radians in a degree, as bits.
pub const RAD_PER_DEG: u64 = 0x3F91_DF46_A252_9D39;

/// The significand of the magnitude `m`, an integer below 2^53.
pub open spec fn significand_of(m: u64) -> u64 {
    if m < FRACTION_RANGE {
        m
    } else {
        (m % FRACTION_RANGE + FRACTION_RANGE) as u64
    }
}

/// The power of two, in units, that the significand of `m` counts.
pub open spec fn places_of(m: u64) -> u64 {
    if m < FRACTION_RANGE {
        0
    } else {
        (m / FRACTION_RANGE - 1) as u64
    }
}

/// The value of a magnitude, taken apart.
pub proof fn lemma_parts(m: u64)
    ensures
        magnitude_units(m) == significand_of(m) * pow2(places_of(m) as nat),
        significand_of(m) < 2 * FRACTION_RANGE,
        places_of(m) > 0 ==> significand_of(m) >= FRACTION_RANGE,
        m < INFINITY_BITS ==> places_of(m) <= 2045,
        m == places_of(m) * FRACTION_RANGE + significand_of(m),
{
    lemma_pow2(0);
    reveal(vstd::arithmetic::power::pow);
    assert(pow2(0) == 1);
    if m >= FRACTION_RANGE {
        assert(m / FRACTION_RANGE >= 1);
        assert(m as int == FRACTION_RANGE as int * (m as int / FRACTION_RANGE as int) + m as int
            % FRACTION_RANGE as int);
    } else {
        let one = pow2(0) as int;
        assert(m * one == m) by (nonlinear_arith)
            requires
                one == 1,
        ;
    }
}

/// The value of a magnitude, put together.
pub proof fn lemma_composed(places: int, q: int)
    requires
        0 <= places <= 2045,
        0 <= q <= 2 * FRACTION_RANGE,
        places == 0 || q >= FRACTION_RANGE,
    ensures
        places * FRACTION_RANGE + q <= INFINITY_BITS,
        magnitude_units((places * FRACTION_RANGE + q) as u64) == q * pow2(places as nat),
{
    let range = FRACTION_RANGE as int;
    let m = places * range + q;
    assert(m <= INFINITY_BITS);
    lemma_pow2(0);
    reveal(vstd::arithmetic::power::pow);
    assert(pow2(0) == 1);
    if q < range {
        assert(m / range == 0 && m % range == q);
        let one = pow2(0) as int;
        assert(q * one == q) by (nonlinear_arith)
            requires
                one == 1,
        ;
    } else if q < 2 * range {
        assert(m / range == places + 1 && m % range == q - range);
    } else {
        assert(m / range == places + 2 && m % range == 0);
        lemma_pow2_unfold((places + 1) as nat);
        assert(range * (2 * pow2(places as nat)) == (2 * range) * pow2(places as nat))
            by (nonlinear_arith);
    }
}

/// `m` is the largest magnitude whose value is at most `num / scale` units.
pub open spec fn is_floor(num: int, scale: int, m: u64) -> bool {
    &&& m < INFINITY_BITS
    &&& magnitude_units(m) * scale <= num
    &&& num < magnitude_units((m + 1) as u64) * scale
}

/// The magnitude nearest to `num / scale` units, the even one of two that are
/// equally near. What is too large for a finite number is infinite.
pub open spec fn rounded_magnitude(num: int, scale: int) -> u64 {
    if num >= magnitude_units(INFINITY_BITS) * scale {
        INFINITY_BITS
    } else {
        let m = choose|m: u64| is_floor(num, scale, m);
        let middle = (magnitude_units(m) + magnitude_units((m + 1) as u64)) * scale;
        if 2 * num < middle || 2 * num == middle && m % 2 == 0 {
            m
        } else {
            (m + 1) as u64
        }
    }
}

/// The number nearest to `num / scale` units, with the sign given.
pub open spec fn rounded(num: int, scale: int, negative: bool) -> Scalar {
    let m = rounded_magnitude(
        if num < 0 {
            -num
        } else {
            num
        },
        scale,
    );
    Scalar {
        bits: if negative {
            (m + SIGN_BIT) as u64
        } else {
            m
        },
    }
}

/// There is at most one largest magnitude.
pub proof fn lemma_floor_is_unique(num: int, scale: int, m: u64)
    requires
        scale > 0,
        is_floor(num, scale, m),
    ensures
        (choose|m: u64| is_floor(num, scale, m)) == m,
        num < magnitude_units(INFINITY_BITS) * scale,
{
    let other = choose|m: u64| is_floor(num, scale, m);
    if other < m {
        lemma_order_scaled((other + 1) as u64, m, scale);
    } else if m < other {
        lemma_order_scaled((m + 1) as u64, other, scale);
    }
    lemma_order_scaled((m + 1) as u64, INFINITY_BITS, scale);
}

proof fn lemma_order_scaled(a: u64, b: u64, scale: int)
    requires
        a <= b,
        scale > 0,
    ensures
        magnitude_units(a) * scale <= magnitude_units(b) * scale,
{
    lemma_magnitude_order(a, b);
    lemma_magnitude_order(b, a);
    let (x, y) = (magnitude_units(a), magnitude_units(b));
    assert(x * scale <= y * scale) by (nonlinear_arith)
        requires
            x <= y,
            scale > 0,
    ;
}

/// 2^`n`.
pub fn power_of_two(n: u64) -> (p: u128)
    requires
        n <= 120,
    ensures
        p == pow2(n as nat),
        0 < p <= 0x100_0000_0000_0000_0000_0000_0000_0000,
{
    let mut p: u128 = 1;
    let mut i: u64 = 0;
    proof {
        lemma_powers();
    }
    while i < n
        invariant
            i <= n <= 120,
            p == pow2(i as nat),
            pow2(120) == 0x100_0000_0000_0000_0000_0000_0000_0000int,
        decreases n - i,
    {
        proof {
            lemma_pow2_strictly_increases(i as nat, 120);
            lemma_pow2_unfold((i + 1) as nat);
        }
        p = p * 2;
        i = i + 1;
    }
    proof {
        lemma_pow2_pos(n as nat);
        if n < 120 {
            lemma_pow2_strictly_increases(n as nat, 120);
        }
    }
    p
}

/// Some powers of two.
pub proof fn lemma_powers()
    ensures
        pow2(0) == 1,
        pow2(1) == 2,
        pow2(5) == 32,
        pow2(52) == FRACTION_RANGE,
        pow2(53) == 2 * FRACTION_RANGE,
        pow2(60) == 0x1000_0000_0000_0000,
        pow2(120) == 0x100_0000_0000_0000_0000_0000_0000_0000int,
{
    vstd::arithmetic::power2::lemma2_to64();
    vstd::arithmetic::power2::lemma2_to64_rest();
    lemma_pow2_adds(60, 60);
    assert(0x1000_0000_0000_0000int * 0x1000_0000_0000_0000int
        == 0x100_0000_0000_0000_0000_0000_0000_0000int) by (nonlinear_arith);
}

/// A number that lies `r` beyond a magnitude with the significand `q`, of which
/// the next one is `gap` away, rounds to one of the two.
proof fn lemma_rounding(num: int, q: int, r: int, places: int, gap: int)
    requires
        0 <= places <= 2045,
        0 <= q < 2 * FRACTION_RANGE,
        places == 0 || q >= FRACTION_RANGE,
        gap == pow2((places + 1074) as nat),
        num == q * gap + r,
        0 <= r < gap,
    ensures
        ({
            let m = (places * FRACTION_RANGE + q) as u64;
            &&& is_floor(num, pow2(1074) as int, m)
            &&& rounded_magnitude(num, pow2(1074) as int) == if 2 * r < gap || 2 * r == gap && q
                % 2 == 0 {
                m
            } else {
                (m + 1) as u64
            }
        }),
{
    let m = (places * FRACTION_RANGE + q) as u64;
    let unit = pow2(1074) as int;
    let step = pow2(places as nat) as int;
    lemma_pow2_adds(places as nat, 1074);
    assert(gap == step * unit);
    lemma_composed(places, q);
    lemma_composed(places, q + 1);
    assert((m + 1) as u64 == (places * FRACTION_RANGE + (q + 1)) as u64);
    assert((q * step) * unit == q * gap && ((q + 1) * step) * unit == q * gap + gap && (q * step
        + (q + 1) * step) * unit == 2 * (q * gap) + gap) by (nonlinear_arith)
        requires
            gap == step * unit,
    ;
    assert(is_floor(num, pow2(1074) as int, m));
    lemma_floor_is_unique(num, pow2(1074) as int, m);
    assert(m % 2 == q % 2) by {
        assert((places * FRACTION_RANGE + q) % 2 == q % 2) by (nonlinear_arith)
            requires
                FRACTION_RANGE == 0x10_0000_0000_0000u64,
        ;
    }
}

/// A number with a significand of 53 bits at a place beyond the last one is
/// infinite.
proof fn lemma_overflow(num: int, q: int, places: int)
    requires
        places > 2045,
        q >= FRACTION_RANGE,
        num >= q * pow2((places + 1074) as nat),
    ensures
        rounded_magnitude(num, pow2(1074) as int) == INFINITY_BITS,
{
    let range = FRACTION_RANGE as int;
    lemma_composed(2045, 2 * range);
    assert(2045 * range + 2 * range == INFINITY_BITS);
    let last = pow2(2045) as int;
    let unit = pow2(1074) as int;
    lemma_pow2_unfold(2046);
    lemma_pow2_adds(2046, 1074);
    if places > 2046 {
        lemma_pow2_strictly_increases(3120, (places + 1074) as nat);
    }
    let there = pow2((places + 1074) as nat) as int;
    lemma_pow2_pos(2045);
    lemma_pow2_pos(1074);
    assert((2 * range * last) * unit <= q * there) by (nonlinear_arith)
        requires
            2 * last * unit <= there,
            range <= q,
            range > 0,
            last > 0,
            unit > 0,
    {
        assert((2 * range * last) * unit == range * (2 * last * unit));
    }
}

/// Rounds `s` times 2^`e` units.
pub fn round_magnitude(s: u128, e: i64) -> (m: u64)
    requires
        s < 0x40_0000_0000_0000_0000_0000_0000_0000,
        -1074 <= e <= 4000,
    ensures
        m == rounded_magnitude(s * pow2((e + 1074) as nat), pow2(1074) as int),
{
    let ghost scale = pow2((e + 1074) as nat) as int;
    let ghost num = s * scale;
    let ghost unit = pow2(1074) as int;
    proof {
        lemma_pow2_pos((e + 1074) as nat);
        lemma_pow2_pos(1074);
        lemma_powers();
    }
    if e < -120 {
        proof {
            lemma_pow2_adds((e + 1074) as nat, 120);
            if e + 1074 + 120 < 1074 {
                lemma_pow2_strictly_increases((e + 1074 + 120) as nat, 1074);
            }
            assert(0 <= num && 2 * num < unit) by (nonlinear_arith)
                requires
                    num == s * scale,
                    0 <= s < 0x40_0000_0000_0000_0000_0000_0000_0000,
                    scale > 0,
                    scale * 0x100_0000_0000_0000_0000_0000_0000_0000int <= unit,
            ;
            assert(0 * unit == 0) by (nonlinear_arith);
            lemma_rounding(num, 0, num, 0, unit);
        }
        return 0;
    }
    let t0: u64 = if e < 0 {
        (-e) as u64
    } else {
        0
    };
    let mut t: u64 = t0;
    let mut p: u128 = power_of_two(t0);
    let mut q: u128 = s / p;
    while q >= 0x20_0000_0000_0000
        invariant
            s < 0x40_0000_0000_0000_0000_0000_0000_0000,
            t0 <= t <= 120,
            p == pow2(t as nat),
            p > 0,
            q == s / p,
            t > t0 ==> s >= FRACTION_RANGE * p,
        decreases 200 - t,
    {
        proof {
            assert(s >= 0x20_0000_0000_0000 * p) by (nonlinear_arith)
                requires
                    q == s / p,
                    q >= 0x20_0000_0000_0000,
                    p > 0,
            ;
            assert(p < 0x2_0000_0000_0000_0000) by (nonlinear_arith)
                requires
                    s >= 0x20_0000_0000_0000 * p,
                    s < 0x40_0000_0000_0000_0000_0000_0000_0000,
            ;
            lemma_powers();
            lemma_pow2_unfold((t + 1) as nat);
            if t >= 120 {
                if t > 120 {
                    lemma_pow2_strictly_increases(120, t as nat);
                }
            }
        }
        t = t + 1;
        p = p * 2;
        q = s / p;
    }
    let places: i64 = e + t as i64;
    if t0 == 0 && q < 0x10_0000_0000_0000 {
        proof {
            if t > 0 {
                assert(q >= FRACTION_RANGE) by (nonlinear_arith)
                    requires
                        q == s / p,
                        s >= FRACTION_RANGE * p,
                        p > 0,
                ;
            }
            assert(t == 0);
            assert(q == s) by (nonlinear_arith)
                requires
                    q == s / p,
                    p == 1,
            ;
        }
        return shift_up(q as u64, places as u64);
    }
    let rem: u128 = s % p;
    proof {
        let gap = pow2((places + 1074) as nat) as int;
        lemma_pow2_adds(t as nat, (e + 1074) as nat);
        assert(gap == p * scale);
        assert(s == q * p + rem && 0 <= rem < p) by (nonlinear_arith)
            requires
                q == s / p,
                rem == s % p,
                p > 0,
        ;
        let r = rem * scale;
        assert(num == q * gap + r && 0 <= r < gap && (2 * rem < p <==> 2 * r < gap) && (2 * rem
            == p <==> 2 * r == gap)) by (nonlinear_arith)
            requires
                num == s * scale,
                s == q * p + rem,
                0 <= rem < p,
                gap == p * scale,
                r == rem * scale,
                scale > 0,
        ;
        if t > t0 {
            assert(q >= FRACTION_RANGE) by (nonlinear_arith)
                requires
                    q == s / p,
                    s >= FRACTION_RANGE * p,
                    p > 0,
            ;
        }
        if places > 2045 {
            lemma_overflow(num, q as int, places as int);
        } else {
            lemma_rounding(num, q as int, r, places as int, gap);
        }
    }
    if places > 2045 {
        return INFINITY_BITS;
    }
    let m: u64 = places as u64 * FRACTION_RANGE + q as u64;
    if 2 * rem < p || 2 * rem == p && q % 2 == 0 {
        m
    } else {
        m + 1
    }
}

/// Brings `q` times 2^`places` units, with a `q` below 2^52, into the form of a
/// magnitude.
fn shift_up(q: u64, places: u64) -> (m: u64)
    requires
        q < FRACTION_RANGE,
        places <= 4000,
    ensures
        m == rounded_magnitude(q * pow2((places + 1074) as nat), pow2(1074) as int),
{
    let mut x: u64 = q;
    let mut left: u64 = places;
    while x < FRACTION_RANGE && left > 0
        invariant
            x < 2 * FRACTION_RANGE,
            left <= places <= 4000,
            x * pow2((left + 1074) as nat) == q * pow2((places + 1074) as nat),
        decreases left,
    {
        proof {
            lemma_pow2_unfold((left + 1074) as nat);
            let half = pow2((left + 1073) as nat) as int;
            assert((2 * x) * half == x * (2 * half)) by (nonlinear_arith);
        }
        x = x * 2;
        left = left - 1;
    }
    proof {
        let gap = pow2((left + 1074) as nat) as int;
        let num = q * pow2((places + 1074) as nat);
        lemma_pow2_pos((left + 1074) as nat);
        if left > 2045 {
            lemma_overflow(num, x as int, left as int);
        } else {
            lemma_rounding(num, x as int, 0, left as int, gap);
        }
    }
    if left > 2045 {
        return INFINITY_BITS;
    }
    left * FRACTION_RANGE + x
}

/// Every number below infinity lies between two magnitudes.
pub proof fn lemma_floor_exists(num: int, scale: int, m: u64)
    requires
        m < INFINITY_BITS,
        magnitude_units(m) * scale <= num < magnitude_units(INFINITY_BITS) * scale,
    ensures
        exists|m: u64| is_floor(num, scale, m),
    decreases INFINITY_BITS - m,
{
    if num < magnitude_units((m + 1) as u64) * scale {
        assert(is_floor(num, scale, m));
    } else {
        assert(m + 1 != INFINITY_BITS);
        lemma_floor_exists(num, scale, (m + 1) as u64);
    }
}

/// The scale of a number does not matter to its rounding.
pub proof fn lemma_rounding_scales(num: int, scale: int, c: int)
    requires
        num >= 0,
        scale > 0,
        c > 0,
    ensures
        rounded_magnitude(num, scale) == rounded_magnitude(num * c, scale * c),
{
    let limit = magnitude_units(INFINITY_BITS);
    let wide = scale * c;
    assert(num >= limit * scale <==> num * c >= limit * wide) by (nonlinear_arith)
        requires
            wide == scale * c,
            c > 0,
    ;
    assert(wide > 0) by (nonlinear_arith)
        requires
            wide == scale * c,
            scale > 0,
            c > 0,
    ;
    if num < limit * scale {
        assert(magnitude_units(0) == 0);
        assert(0 * scale == 0) by (nonlinear_arith);
        lemma_floor_exists(num, scale, 0);
        let m = choose|m: u64| is_floor(num, scale, m);
        let (low, high) = (magnitude_units(m), magnitude_units((m + 1) as u64));
        assert(low * wide <= num * c && num * c < high * wide && (2 * num < (low + high) * scale
            <==> 2 * (num * c) < (low + high) * wide) && (2 * num == (low + high) * scale <==> 2 * (
        num * c) == (low + high) * wide)) by (nonlinear_arith)
            requires
                low * scale <= num < high * scale,
                wide == scale * c,
                c > 0,
        ;
        assert(is_floor(num * c, wide, m));
        lemma_floor_is_unique(num * c, wide, m);
    }
}

impl Scalar {
    /// Whether this is one of the two infinities.
    pub open spec fn infinite(self) -> bool {
        self.magnitude() == INFINITY_BITS
    }

    /// The sum. A sum of zero is positive, unless both numbers are negative.
    #[verifier::opaque]
    pub open spec fn plus(self, other: Scalar) -> Scalar {
        let exact = self.units() + other.units();
        if self.nan() || other.nan() || self.infinite() && other.infinite() && self != other {
            Scalar { bits: NAN_BITS }
        } else if self.infinite() {
            self
        } else if other.infinite() {
            other
        } else {
            rounded(exact, 1, exact < 0 || exact == 0 && self.is_negative() && other.is_negative())
        }
    }

    /// The difference.
    pub open spec fn minus(self, other: Scalar) -> Scalar {
        self.plus(other.negated())
    }

    /// The product.
    #[verifier::opaque]
    pub open spec fn times(self, other: Scalar) -> Scalar {
        let negative = self.is_negative() != other.is_negative();
        if self.nan() || other.nan() || self.infinite() && other.magnitude() == 0
            || other.infinite() && self.magnitude() == 0 {
            Scalar { bits: NAN_BITS }
        } else if self.infinite() || other.infinite() {
            Scalar {
                bits: if negative {
                    (INFINITY_BITS + SIGN_BIT) as u64
                } else {
                    INFINITY_BITS
                },
            }
        } else {
            rounded(self.units() * other.units(), pow2(1074) as int, negative)
        }
    }
}

impl Scalar {
    /// An angle in radians, in degrees.
    pub open spec fn in_degrees(self) -> Scalar {
        self.times(Scalar { bits: DEG_PER_RAD })
    }

    /// An angle in degrees, in radians.
    pub open spec fn in_radians(self) -> Scalar {
        self.times(Scalar { bits: RAD_PER_DEG })
    }

    /// An angle in radians, in degrees.
    pub fn to_degrees(self) -> (res: Scalar)
        ensures
            res == self.in_degrees(),
    {
        self.mul(Scalar { bits: DEG_PER_RAD })
    }

    /// An angle in degrees, in radians.
    pub fn to_radians(self) -> (res: Scalar)
        ensures
            res == self.in_radians(),
    {
        self.mul(Scalar { bits: RAD_PER_DEG })
    }
}

/// A rounded magnitude is at most infinite.
pub proof fn lemma_rounded_is_number(num: int, scale: int)
    requires
        scale > 0,
        num >= 0,
    ensures
        rounded_magnitude(num, scale) <= INFINITY_BITS,
{
    if num < magnitude_units(INFINITY_BITS) * scale {
        assert(magnitude_units(0) == 0);
        lemma_floor_exists(num, scale, 0);
    }
}

/// The significand of the magnitude `m`.
pub fn significand(m: u64) -> (sig: u64)
    ensures
        sig == significand_of(m),
{
    if m < FRACTION_RANGE {
        m
    } else {
        m % FRACTION_RANGE + FRACTION_RANGE
    }
}

/// The power of two that the significand of `m` counts.
pub fn places(m: u64) -> (res: u64)
    ensures
        res == places_of(m),
{
    if m < FRACTION_RANGE {
        0
    } else {
        m / FRACTION_RANGE - 1
    }
}

/// The number with this magnitude and sign.
pub fn signed(m: u64, negative: bool) -> (x: Scalar)
    requires
        m <= INFINITY_BITS,
    ensures
        x.bits == if negative {
            (m + SIGN_BIT) as u64
        } else {
            m
        },
{
    if negative {
        Scalar { bits: m + SIGN_BIT }
    } else {
        Scalar { bits: m }
    }
}

/// Something far smaller does not change a magnitude by being added to it or
/// taken from it.
proof fn lemma_small_part_is_lost(m: u64, small: int, num: int)
    requires
        m < INFINITY_BITS,
        places_of(m) > 0,
        0 <= small,
        256 * small < pow2(places_of(m) as nat),
        num == magnitude_units(m) + small || num == magnitude_units(m) - small,
    ensures
        num > 0,
        rounded_magnitude(num, 1) == m,
{
    let places = places_of(m) as int;
    let sig = significand_of(m) as int;
    let range = FRACTION_RANGE as int;
    let step = pow2(places as nat) as int;
    let unit = pow2(1074) as int;
    let gap = pow2((places + 1074) as nat) as int;
    lemma_parts(m);
    lemma_pow2_pos(1074);
    lemma_pow2_pos(places as nat);
    lemma_pow2_adds(places as nat, 1074);
    assert(gap == step * unit);
    let part = small * unit;
    assert(0 <= part && 256 * part < gap && (small == 0 ==> part == 0) && (small > 0 ==> part > 0))
        by (nonlinear_arith)
        requires
            part == small * unit,
            unit > 0,
            0 <= small,
            256 * small < step,
            gap == step * unit,
    ;
    assert(sig * step >= step) by (nonlinear_arith)
        requires
            sig >= 1,
            step > 0,
    ;
    lemma_rounding_scales(num, 1, pow2(1074) as int);
    if num == magnitude_units(m) + small {
        assert(num * unit == sig * gap + part) by (nonlinear_arith)
            requires
                num == sig * step + small,
                gap == step * unit,
                part == small * unit,
        ;
        lemma_rounding(num * unit, sig, part, places, gap);
    } else if small == 0 {
        assert(num * unit == sig * gap) by (nonlinear_arith)
            requires
                num == sig * step,
                gap == step * unit,
        ;
        lemma_rounding(num * unit, sig, 0, places, gap);
    } else if sig > range {
        assert(num * unit == (sig - 1) * gap + (gap - part)) by (nonlinear_arith)
            requires
                num == sig * step - small,
                gap == step * unit,
                part == small * unit,
        ;
        lemma_rounding(num * unit, sig - 1, gap - part, places, gap);
    } else {
        let half = pow2((places + 1073) as nat) as int;
        lemma_pow2_unfold((places + 1074) as nat);
        assert(gap == 2 * half);
        assert(num * unit == (2 * range - 1) * half + (half - part)) by (nonlinear_arith)
            requires
                num == range * step - small,
                gap == step * unit,
                gap == 2 * half,
                part == small * unit,
        ;
        lemma_rounding(num * unit, 2 * range - 1, half - part, places - 1, half);
    }
}

/// The magnitude of the sum of two finite numbers, the first of them not the
/// smaller one, whose signs are the same or not.
fn add_magnitudes(a: u64, b: u64, same: bool) -> (m: u64)
    requires
        b <= a < INFINITY_BITS,
    ensures
        m == rounded_magnitude(
            if same {
                magnitude_units(a) + magnitude_units(b)
            } else {
                magnitude_units(a) - magnitude_units(b)
            },
            1,
        ),
{
    let (sig_a, sig_b) = (significand(a), significand(b));
    let (places_a, places_b) = (places(a), places(b));
    let ghost step_b = pow2(places_b as nat) as int;
    proof {
        lemma_parts(a);
        lemma_parts(b);
        assert(places_b <= places_a);
        lemma_powers();
        lemma_pow2_pos(places_b as nat);
    }
    let apart: u64 = places_a - places_b;
    if apart > 60 {
        proof {
            let small = magnitude_units(b);
            let step_a = pow2(places_a as nat) as int;
            lemma_pow2_adds(places_b as nat, 61);
            lemma_pow2_unfold(61);
            if places_b + 61 < places_a {
                lemma_pow2_strictly_increases((places_b + 61) as nat, places_a as nat);
            }
            assert(0 <= small && 256 * small < step_a) by (nonlinear_arith)
                requires
                    small == sig_b * step_b,
                    0 <= sig_b < 2 * 0x10_0000_0000_0000,
                    step_b > 0,
                    step_b * 0x2000_0000_0000_0000 <= step_a,
            ;
            lemma_small_part_is_lost(a, small, magnitude_units(a) + small);
            lemma_small_part_is_lost(a, small, magnitude_units(a) - small);
        }
        return a;
    }
    let p: u128 = power_of_two(apart);
    proof {
        if apart < 60 {
            lemma_pow2_strictly_increases(apart as nat, 60);
        }
        assert(sig_a * p < 0x20_0000_0000_0000 * 0x1000_0000_0000_0001) by (nonlinear_arith)
            requires
                0 <= sig_a < 0x20_0000_0000_0000,
                0 < p <= 0x1000_0000_0000_0000,
        ;
        lemma_pow2_adds(apart as nat, places_b as nat);
        assert((sig_a * p) * step_b == magnitude_units(a)) by (nonlinear_arith)
            requires
                magnitude_units(a) == sig_a * (p * step_b),
        ;
    }
    let lifted: u128 = sig_a as u128 * p;
    proof {
        lemma_magnitude_order(a, b);
        assert(lifted >= sig_b) by (nonlinear_arith)
            requires
                lifted * step_b >= sig_b * step_b,
                step_b > 0,
        ;
    }
    let total: u128 = if same {
        lifted + sig_b as u128
    } else {
        lifted - sig_b as u128
    };
    proof {
        let num = total * step_b;
        assert(num == if same {
            magnitude_units(a) + magnitude_units(b)
        } else {
            magnitude_units(a) - magnitude_units(b)
        }) by {
            assert((lifted + sig_b) * step_b == lifted * step_b + sig_b * step_b && (lifted
                - sig_b) * step_b == lifted * step_b - sig_b * step_b) by (nonlinear_arith);
        }
        assert(num >= 0) by (nonlinear_arith)
            requires
                num == total * step_b,
                total >= 0,
                step_b > 0,
        ;
        lemma_pow2_pos(1074);
        lemma_rounding_scales(num, 1, pow2(1074) as int);
        lemma_pow2_adds(places_b as nat, 1074);
        assert(num * pow2(1074) == total * (step_b * pow2(1074))) by (nonlinear_arith)
            requires
                num == total * step_b,
        ;
    }
    round_magnitude(total, places_b as i64)
}

impl Scalar {
    /// The sum.
    pub fn add(self, other: Scalar) -> (res: Scalar)
        ensures
            res == self.plus(other),
    {
        proof {
            reveal(Scalar::plus);
        }
        if self.is_nan() || other.is_nan() {
            return Scalar { bits: NAN_BITS };
        }
        let (a, b): (u64, u64) = (self.bits % SIGN_BIT, other.bits % SIGN_BIT);
        let (neg_a, neg_b): (bool, bool) = (self.bits >= SIGN_BIT, other.bits >= SIGN_BIT);
        if a == INFINITY_BITS {
            return if b == INFINITY_BITS && neg_a != neg_b {
                Scalar { bits: NAN_BITS }
            } else {
                self
            };
        }
        if b == INFINITY_BITS {
            return other;
        }
        let same: bool = neg_a == neg_b;
        let m: u64 = if a >= b {
            add_magnitudes(a, b, same)
        } else {
            add_magnitudes(b, a, same)
        };
        proof {
            lemma_magnitude_order(a, b);
            lemma_magnitude_order(b, a);
            lemma_magnitude_order(0, a);
            lemma_magnitude_order(0, b);
            assert(magnitude_units(0) == 0);
            let (x, y) = (magnitude_units(a), magnitude_units(b));
            lemma_rounded_is_number(x + y, 1);
            lemma_rounded_is_number(
                if x >= y {
                    x - y
                } else {
                    y - x
                },
                1,
            );
        }
        let negative: bool = if same {
            neg_a
        } else if a == b {
            false
        } else if a > b {
            neg_a
        } else {
            neg_b
        };
        signed(m, negative)
    }

    /// The difference.
    pub fn sub(self, other: Scalar) -> (res: Scalar)
        ensures
            res == self.minus(other),
    {
        self.add(other.neg())
    }

    /// The product.
    pub fn mul(self, other: Scalar) -> (res: Scalar)
        ensures
            res == self.times(other),
    {
        proof {
            reveal(Scalar::times);
        }
        let (a, b): (u64, u64) = (self.bits % SIGN_BIT, other.bits % SIGN_BIT);
        let negative: bool = (self.bits >= SIGN_BIT) != (other.bits >= SIGN_BIT);
        if self.is_nan() || other.is_nan() || a == INFINITY_BITS && b == 0 || b == INFINITY_BITS
            && a == 0 {
            return Scalar { bits: NAN_BITS };
        }
        if a == INFINITY_BITS || b == INFINITY_BITS {
            return signed(INFINITY_BITS, negative);
        }
        let (sig_a, sig_b) = (significand(a), significand(b));
        let (places_a, places_b) = (places(a), places(b));
        proof {
            lemma_parts(a);
            lemma_parts(b);
            assert(0 <= sig_a * sig_b < 0x20_0000_0000_0000 * 0x20_0000_0000_0000)
                by (nonlinear_arith)
                requires
                    0 <= sig_a < 0x20_0000_0000_0000,
                    0 <= sig_b < 0x20_0000_0000_0000,
            ;
        }
        let digits: u128 = sig_a as u128 * sig_b as u128;
        let e: i64 = places_a as i64 + places_b as i64 - 1074;
        proof {
            let (x, y) = (magnitude_units(a), magnitude_units(b));
            let (sa, sb) = (pow2(places_a as nat) as int, pow2(places_b as nat) as int);
            lemma_pow2_adds(places_a as nat, places_b as nat);
            lemma_pow2_pos(places_a as nat);
            lemma_pow2_pos(places_b as nat);
            assert(x * y == digits * (sa * sb) && x * y >= 0) by (nonlinear_arith)
                requires
                    x == sig_a * sa,
                    y == sig_b * sb,
                    digits == sig_a * sig_b,
                    sa > 0,
                    sb > 0,
                    sig_a >= 0,
                    sig_b >= 0,
            ;
            lemma_pow2_pos(1074);
            lemma_rounded_is_number(x * y, pow2(1074) as int);
            let exact = self.units() * other.units();
            assert(x * y == if exact < 0 {
                -exact
            } else {
                exact
            }) by (nonlinear_arith)
                requires
                    exact == self.units() * other.units(),
                    self.units() == x || self.units() == -x,
                    other.units() == y || other.units() == -y,
                    x * y >= 0,
            ;
        }
        signed(round_magnitude(digits, e), negative)
    }
}

/// Rounding does not pass by a number.
pub proof fn lemma_rounding_respects(num: int, scale: int, m: u64)
    requires
        scale > 0,
        num >= 0,
        m <= INFINITY_BITS,
    ensures
        magnitude_units(m) * scale <= num ==> m <= rounded_magnitude(num, scale),
        num <= magnitude_units(m) * scale ==> rounded_magnitude(num, scale) <= m,
{
    assert(magnitude_units(0) == 0);
    if num < magnitude_units(INFINITY_BITS) * scale {
        lemma_floor_exists(num, scale, 0);
        let f = choose|f: u64| is_floor(num, scale, f);
        lemma_floor_is_unique(num, scale, f);
        if m <= f {
            lemma_order_scaled(m, f, scale);
            if m < f {
                lemma_magnitude_order(m, f);
                let (x, y) = (magnitude_units(m), magnitude_units(f));
                assert(x * scale < y * scale) by (nonlinear_arith)
                    requires
                        x < y,
                        scale > 0,
                ;
            } else if num == magnitude_units(m) * scale {
                lemma_magnitude_order(f, (f + 1) as u64);
                let (x, y) = (magnitude_units(f), magnitude_units((f + 1) as u64));
                assert(2 * (x * scale) < (x + y) * scale) by (nonlinear_arith)
                    requires
                        x < y,
                        scale > 0,
                ;
            }
        } else {
            lemma_order_scaled((f + 1) as u64, m, scale);
        }
    } else {
        if m < INFINITY_BITS {
            lemma_magnitude_order(m, INFINITY_BITS);
            let (x, y) = (magnitude_units(m), magnitude_units(INFINITY_BITS));
            assert(x * scale < y * scale) by (nonlinear_arith)
                requires
                    x < y,
                    scale > 0,
            ;
        }
    }
}

/// A number below 2^(53 + places) units is rounded by at most half of
/// 2^places units.
pub proof fn lemma_rounding_error(num: int, scale: int, places: nat)
    requires
        scale > 0,
        0 <= num < pow2(53 + places) * scale,
        places <= 2045,
    ensures
        ({
                    let r = magnitude_units(rounded_magnitude(num, scale)) * scale;
            &&& rounded_magnitude(num, scale) <= INFINITY_BITS
            &&& places < 2045 ==> rounded_magnitude(num, scale) < INFINITY_BITS
            &&& -(pow2(places) * scale) <= 2 * (r - num) <= pow2(places) * scale
        }),
{
    let range = FRACTION_RANGE as int;
    let step = pow2(places) as int;
    lemma_pow2_pos(places);
    lemma_powers();
    lemma_pow2_adds(53, places);
    lemma_composed(places as int, 2 * range);
    let top = (places * range + 2 * range) as u64;
    assert(magnitude_units(top) == pow2(53 + places));
    lemma_order_scaled(top, INFINITY_BITS, scale);
    assert(magnitude_units(0) == 0);
    lemma_floor_exists(num, scale, 0);
    let f = choose|f: u64| is_floor(num, scale, f);
    lemma_floor_is_unique(num, scale, f);
    let next = (f + 1) as u64;
    if f >= top {
        lemma_order_scaled(top, f, scale);
    }
    lemma_parts(f);
    let (sig, at) = (significand_of(f) as int, places_of(f) as int);
    assert(at <= places) by {
        if at > places {
            assert(f >= at * range + range) by {
                assert(sig >= range);
            }
            assert(at * range >= (places + 1) * range) by (nonlinear_arith)
                requires
                    at >= places + 1,
                    range > 0,
            ;
        }
    }
    lemma_composed(at, sig + 1);
    let gap = pow2(at as nat) as int;
    if at < places {
        lemma_pow2_strictly_increases(at as nat, places);
    }
    assert(next as int == at * range + (sig + 1));
    let low = magnitude_units(f);
    let high = magnitude_units(next);
    assert(high == low + gap) by (nonlinear_arith)
        requires
            low == sig * gap,
            high == (sig + 1) * gap,
    ;
    assert((low + high) * scale == low * scale + high * scale && high * scale - low * scale <= step
        * scale) by (nonlinear_arith)
        requires
            high == low + gap,
            gap <= step,
            scale > 0,
    ;
    if places < 2045 {
        assert(top < INFINITY_BITS) by (nonlinear_arith)
            requires
                top == places * range + 2 * range,
                places <= 2044,
                range == 0x10_0000_0000_0000,
                INFINITY_BITS == 0x7FF0_0000_0000_0000u64,
        ;
    }
}

/// A number taken with its sign is rounded as its magnitude is.
pub proof fn lemma_rounded_value(num: int, scale: int, negative: bool)
    requires
        scale > 0,
        num < 0 ==> negative,
        num > 0 ==> !negative,
    ensures
        ({
            let x = rounded(num, scale, negative);
            &&& !x.nan()
            &&& num >= 0 ==> x.magnitude() == rounded_magnitude(num, scale)
            &&& num < 0 ==> x.magnitude() == rounded_magnitude(-num, scale)
            &&& num > 0 ==> x.units() == magnitude_units(rounded_magnitude(num, scale))
            &&& num < 0 ==> x.units() == -magnitude_units(rounded_magnitude(-num, scale))
            &&& num == 0 ==> x.units() == 0
        }),
{
    lemma_rounded_is_number(
        if num < 0 {
            -num
        } else {
            num
        },
        scale,
    );
    if num == 0 {
        assert(magnitude_units(0) == 0);
        assert(0 * scale == 0) by (nonlinear_arith);
        lemma_rounding_respects(0, scale, 0);
    }
}

/// How rounding treats `num / scale` units, whatever the sign: it is off by at most
/// half of 2^`places` units below 2^(53 + places) units.
proof fn lemma_signed_error(num: int, scale: int, negative: bool, places: nat)
    requires
        scale > 0,
        num < 0 ==> negative,
        num > 0 ==> !negative,
        -(pow2(53 + places) * scale) < num < pow2(53 + places) * scale,
        places < 2045,
    ensures
        ({
            let x = rounded(num, scale, negative);
            &&& x.finite()
            &&& -(pow2(places) * scale) <= 2 * (x.units() * scale - num) <= pow2(places)
                * scale
        }),
{
    lemma_rounded_value(num, scale, negative);
    let x = rounded(num, scale, negative);
    lemma_pow2_pos(places);
    assert(pow2(places) * scale > 0) by (nonlinear_arith)
        requires
            pow2(places) > 0,
            scale > 0,
    ;
    assert(0 * scale == 0) by (nonlinear_arith);
    if num >= 0 {
        lemma_rounding_error(num, scale, places);
    } else {
        lemma_rounding_error(-num, scale, places);
        let r = magnitude_units(rounded_magnitude(-num, scale));
        assert((-r) * scale == -(r * scale)) by (nonlinear_arith);
    }
}

/// Rounding does not pass by a number, whatever the signs.
pub proof fn lemma_signed_respects(num: int, scale: int, negative: bool, y: Scalar)
    requires
        scale > 0,
        num < 0 ==> negative,
        num > 0 ==> !negative,
        !y.nan(),
    ensures
        y.units() * scale <= num ==> y.units() <= rounded(num, scale, negative).units(),
        num <= y.units() * scale ==> rounded(num, scale, negative).units() <= y.units(),
{
    lemma_rounded_value(num, scale, negative);
    let x = rounded(num, scale, negative);
    let size = if num < 0 {
        -num
    } else {
        num
    };
    let (mx, my) = (x.magnitude(), y.magnitude());
    lemma_rounding_respects(size, scale, my);
    lemma_magnitude_order(mx, my);
    lemma_magnitude_order(my, mx);
    lemma_magnitude_order(0, mx);
    lemma_magnitude_order(0, my);
    assert(magnitude_units(0) == 0);
    let v = magnitude_units(my);
    assert((-v) * scale == -(v * scale) && (v > 0 ==> v * scale > 0) && (v == 0 ==> v * scale == 0))
        by (nonlinear_arith)
        requires
            scale > 0,
    ;
}

/// A sum below 2^(53 + places) units is off by at most half of 2^`places` units.
pub proof fn law_sum_is_nearly_exact(a: Scalar, b: Scalar, places: nat)
    requires
        a.finite(),
        b.finite(),
        -pow2(53 + places) < a.units() + b.units() < pow2(53 + places),
        places < 2045,
    ensures
        a.plus(b).finite(),
        -pow2(places) <= 2 * (a.plus(b).units() - (a.units() + b.units())) <= pow2(places),
{
    reveal(Scalar::plus);
    lemma_powers();
    let exact = a.units() + b.units();
    assert(pow2(53 + places) * 1 == pow2(53 + places) && pow2(places) * 1 == pow2(places));
    lemma_signed_error(
        exact,
        1,
        exact < 0 || exact == 0 && a.is_negative() && b.is_negative(),
        places,
    );
    assert(a.plus(b).units() * 1 == a.plus(b).units());
}

/// A sum does not pass by a number: if the exact sum is on one side of it, so is
/// the rounded one.
pub proof fn law_sum_respects_order(a: Scalar, b: Scalar, y: Scalar)
    requires
        a.finite(),
        b.finite(),
        !y.nan(),
    ensures
        !a.plus(b).nan(),
        y.units() <= a.units() + b.units() ==> y.units() <= a.plus(b).units(),
        a.units() + b.units() <= y.units() ==> a.plus(b).units() <= y.units(),
{
    reveal(Scalar::plus);
    lemma_powers();
    let exact = a.units() + b.units();
    let negative = exact < 0 || exact == 0 && a.is_negative() && b.is_negative();
    lemma_rounded_value(exact, 1, negative);
    lemma_signed_respects(exact, 1, negative, y);
    assert(y.units() * 1 == y.units());
}

/// A sum stays finite when what is added is below 2^2000 units, far from the
/// largest number.
pub proof fn law_sum_stays_finite(a: Scalar, b: Scalar)
    requires
        a.finite(),
        b.finite(),
        -pow2(2000) < b.units() < pow2(2000),
    ensures
        a.plus(b).finite(),
{
    reveal(Scalar::plus);
    let exact = a.units() + b.units();
    let negative = exact < 0 || exact == 0 && a.is_negative() && b.is_negative();
    lemma_rounded_value(exact, 1, negative);
    let size = if exact < 0 {
        -exact
    } else {
        exact
    };
    let most: u64 = 0x7FEF_FFFF_FFFF_FFFF;
    let range = FRACTION_RANGE as int;
    let last = pow2(2045) as int;
    lemma_composed(2045, 2 * range - 1);
    lemma_composed(2045, 2 * range - 2);
    assert(2045 * range + (2 * range - 1) == most);
    lemma_powers();
    lemma_pow2_adds(45, 2000);
    vstd::arithmetic::power2::lemma2_to64_rest();
    lemma_pow2_pos(2000);
    let top = magnitude_units(most);
    assert(top == magnitude_units((most - 1) as u64) + last) by (nonlinear_arith)
        requires
            top == (2 * range - 1) * last,
            magnitude_units((most - 1) as u64) == (2 * range - 2) * last,
    ;
    assert(top * 1 == top);
    lemma_rounding_respects(size, 1, most);
    if size > top {
        let m = a.magnitude();
        assert(magnitude_units(0) == 0);
        lemma_magnitude_order(0, m);
        if m < most {
            lemma_magnitude_order((most - 1) as u64, m);
        }
        lemma_magnitude_order(most, m);
        assert(m == most);
        lemma_parts(most);
        assert(places_of(most) == 2045);
        lemma_small_part_is_lost(most, size - top, size);
    }
}

/// The sign of a sum is that of the exact sum; in particular it is zero exactly if
/// the exact sum is.
pub proof fn law_sum_has_exact_sign(a: Scalar, b: Scalar)
    requires
        a.finite(),
        b.finite(),
    ensures
        a.plus(b).units() > 0 <==> a.units() + b.units() > 0,
        a.plus(b).units() == 0 <==> a.units() + b.units() == 0,
        a.plus(b).units() < 0 <==> a.units() + b.units() < 0,
{
    let least = Scalar { bits: 1 };
    let most = Scalar { bits: 0x8000_0000_0000_0001 };
    let zero = Scalar { bits: 0 };
    assert(least.magnitude() == 1 && most.magnitude() == 1);
    assert(magnitude_units(1) == 1 && magnitude_units(0) == 0);
    assert(least.units() == 1 && most.units() == -1 && zero.units() == 0);
    law_sum_respects_order(a, b, least);
    law_sum_respects_order(a, b, most);
    law_sum_respects_order(a, b, zero);
}

/// The sign of a difference tells which number is larger, and the difference is
/// zero exactly if the numbers have the same value.
pub proof fn law_difference_tells_order(a: Scalar, b: Scalar)
    requires
        a.finite(),
        b.finite(),
    ensures
        a.minus(b).units() > 0 <==> a.units() > b.units(),
        a.minus(b).units() == 0 <==> a.units() == b.units(),
        a.minus(b).units() < 0 <==> a.units() < b.units(),
{
    law_negation_reverses_value(b);
    law_sum_has_exact_sign(a, b.negated());
}

/// A difference below 2^(53 + places) units is off by at most half of 2^`places`
/// units.
pub proof fn law_difference_is_nearly_exact(a: Scalar, b: Scalar, places: nat)
    requires
        a.finite(),
        b.finite(),
        -pow2(53 + places) < a.units() - b.units() < pow2(53 + places),
        places < 2045,
    ensures
        a.minus(b).finite(),
        -pow2(places) <= 2 * (a.minus(b).units() - (a.units() - b.units())) <= pow2(places),
{
    law_negation_reverses_value(b);
    law_sum_is_nearly_exact(a, b.negated(), places);
}

/// Adding zero keeps the value.
pub proof fn law_adding_zero_keeps_value(a: Scalar, b: Scalar)
    requires
        a.finite(),
        b.finite(),
        b.units() == 0,
    ensures
        a.plus(b).units() == a.units(),
{
    law_sum_respects_order(a, b, a);
}

/// The order of two summands does not matter.
pub proof fn law_sum_commutes(a: Scalar, b: Scalar)
    ensures
        a.plus(b) == b.plus(a),
{
    reveal(Scalar::plus);
}

/// An infinity stays what it is when a finite number is added to it.
pub proof fn law_sum_with_infinity(a: Scalar, b: Scalar)
    requires
        a.infinite(),
        b.finite(),
    ensures
        a.plus(b) == a,
        b.plus(a) == a,
{
    reveal(Scalar::plus);
}

/// A product below 2^(53 + places) units is off by at most half of 2^`places`
/// units. Both sides are multiplied by one, in units.
pub proof fn law_product_is_nearly_exact(a: Scalar, b: Scalar, places: nat)
    requires
        a.finite(),
        b.finite(),
        -(pow2(53 + places) * pow2(1074)) < a.units() * b.units() < pow2(53 + places) * pow2(1074),
        places < 2045,
    ensures
        a.times(b).finite(),
        -(pow2(places) * pow2(1074)) <= 2 * (a.times(b).units() * pow2(1074) - a.units()
            * b.units()) <= pow2(places) * pow2(1074),
{
    reveal(Scalar::times);
    lemma_pow2_pos(1074);
    lemma_sign_of_product(a, b);
    lemma_signed_error(
        a.units() * b.units(),
        pow2(1074) as int,
        a.is_negative() != b.is_negative(),
        places,
    );
}

/// A product does not pass by a number: if the exact product is on one side of
/// it, so is the rounded one.
pub proof fn law_product_respects_order(a: Scalar, b: Scalar, y: Scalar)
    requires
        a.finite(),
        b.finite(),
        !y.nan(),
    ensures
        !a.times(b).nan(),
        y.units() * pow2(1074) <= a.units() * b.units() ==> y.units() <= a.times(b).units(),
        a.units() * b.units() <= y.units() * pow2(1074) ==> a.times(b).units() <= y.units(),
{
    reveal(Scalar::times);
    lemma_pow2_pos(1074);
    lemma_sign_of_product(a, b);
    let negative = a.is_negative() != b.is_negative();
    lemma_rounded_value(a.units() * b.units(), pow2(1074) as int, negative);
    lemma_signed_respects(a.units() * b.units(), pow2(1074) as int, negative, y);
}

proof fn lemma_sign_of_product(a: Scalar, b: Scalar)
    requires
        a.finite(),
        b.finite(),
    ensures
        a.units() * b.units() < 0 ==> a.is_negative() != b.is_negative(),
        a.units() * b.units() > 0 ==> a.is_negative() == b.is_negative(),
{
    lemma_magnitude_order(0, a.magnitude());
    lemma_magnitude_order(0, b.magnitude());
    assert(magnitude_units(0) == 0);
    let (x, y) = (a.units(), b.units());
    if a.is_negative() == b.is_negative() {
        assert(x * y >= 0) by (nonlinear_arith)
            requires
                x >= 0 && y >= 0 || x <= 0 && y <= 0,
        ;
    } else {
        assert(x * y <= 0) by (nonlinear_arith)
            requires
                x >= 0 && y <= 0 || x <= 0 && y >= 0,
        ;
    }
}

/// Every number of at most 53 binary digits is the value of a magnitude.
pub proof fn lemma_short_is_representable(q: int, places: int)
    requires
        0 <= q < 2 * FRACTION_RANGE,
        0 <= places <= 2045,
    ensures
        exists|m: u64| m < INFINITY_BITS && #[trigger] magnitude_units(m) == q * pow2(places as nat),
    decreases places,
{
    let range = FRACTION_RANGE as int;
    if q >= range || places == 0 {
        lemma_composed(places, q);
        let m = (places * range + q) as u64;
        assert(m < INFINITY_BITS) by (nonlinear_arith)
            requires
                m == places * range + q,
                places <= 2045,
                q < 2 * range,
                range == 0x10_0000_0000_0000,
                INFINITY_BITS == 0x7FF0_0000_0000_0000u64,
        ;
        assert(magnitude_units(m) == q * pow2(places as nat));
    } else {
        lemma_pow2_unfold(places as nat);
        let half = pow2((places - 1) as nat) as int;
        assert((2 * q) * half == q * (2 * half)) by (nonlinear_arith);
        lemma_short_is_representable(2 * q, places - 1);
    }
}

/// A finite number with the value `q` times 2^`places` units.
pub proof fn lemma_number_of(q: int, places: int) -> (y: Scalar)
    requires
        -2 * FRACTION_RANGE < q < 2 * FRACTION_RANGE,
        0 <= places <= 2045,
    ensures
        y.finite(),
        y.units() == q * pow2(places as nat),
{
    let size = if q < 0 {
        -q
    } else {
        q
    };
    lemma_short_is_representable(size, places);
    let m = choose|m: u64|
        m < INFINITY_BITS && #[trigger] magnitude_units(m) == size * pow2(places as nat);
    let p = pow2(places as nat) as int;
    assert((-size) * p == -(size * p)) by (nonlinear_arith);
    if q < 0 {
        Scalar { bits: (m + SIGN_BIT) as u64 }
    } else {
        Scalar { bits: m }
    }
}

/// A sum that is a number is not rounded.
pub proof fn law_exact_sum(a: Scalar, b: Scalar, y: Scalar)
    requires
        a.finite(),
        b.finite(),
        !y.nan(),
        y.units() == a.units() + b.units(),
    ensures
        a.plus(b).units() == y.units(),
{
    law_sum_respects_order(a, b, y);
}

/// A product that is a number is not rounded.
pub proof fn law_exact_product(a: Scalar, b: Scalar, y: Scalar)
    requires
        a.finite(),
        b.finite(),
        !y.nan(),
        y.units() * pow2(1074) == a.units() * b.units(),
    ensures
        a.times(b).units() == y.units(),
        !a.times(b).nan(),
{
    law_product_respects_order(a, b, y);
}

/// How far `a` is from `b`.
pub open spec fn apart(a: int, b: int) -> int {
    if a < b {
        b - a
    } else {
        a - b
    }
}

/// No magnitude is nearer than the rounded one, and one that is equally near leaves the
/// choice to the even one.
pub proof fn lemma_rounding_is_nearest(num: int, scale: int, m: u64)
    requires
        scale > 0,
        num >= 0,
        m <= INFINITY_BITS,
    ensures
        ({
            let r = rounded_magnitude(num, scale);
            let (here, there) = (
                apart(magnitude_units(r) * scale, num),
                apart(magnitude_units(m) * scale, num),
            );
            &&& here <= there
            &&& here == there && m != r ==> r % 2 == 0
        }),
{
    assert(magnitude_units(0) == 0);
    lemma_rounding_respects(num, scale, m);
    let r = rounded_magnitude(num, scale);
    lemma_rounded_is_number(num, scale);
    if num < magnitude_units(INFINITY_BITS) * scale {
        lemma_floor_exists(num, scale, 0);
        let f = choose|f: u64| is_floor(num, scale, f);
        let next = (f + 1) as u64;
        let (low, high) = (magnitude_units(f), magnitude_units(next));
        assert((low + high) * scale == low * scale + high * scale) by (nonlinear_arith);
        if m < f {
            lemma_strictly_scaled(m, f, scale);
        } else if m > next {
            lemma_strictly_scaled(next, m, scale);
        }
    } else if m < INFINITY_BITS {
        lemma_strictly_scaled(m, INFINITY_BITS, scale);
    }
}

proof fn lemma_strictly_scaled(a: u64, b: u64, scale: int)
    requires
        a < b <= INFINITY_BITS,
        scale > 0,
    ensures
        magnitude_units(a) * scale < magnitude_units(b) * scale,
{
    lemma_magnitude_order(a, b);
    let (x, y) = (magnitude_units(a), magnitude_units(b));
    assert(x * scale < y * scale) by (nonlinear_arith)
        requires
            x < y,
            scale > 0,
    ;
}

/// No number is nearer than the rounded one, whatever the signs.
pub proof fn lemma_signed_is_nearest(num: int, scale: int, negative: bool, y: Scalar)
    requires
        scale > 0,
        num < 0 ==> negative,
        num > 0 ==> !negative,
        !y.nan(),
    ensures
        ({
            let x = rounded(num, scale, negative);
            let (here, there) = (apart(x.units() * scale, num), apart(y.units() * scale, num));
            &&& here <= there
            &&& here == there && x.units() != y.units() ==> x.bits % 2 == 0
        }),
{
    lemma_rounded_value(num, scale, negative);
    let x = rounded(num, scale, negative);
    let size = if num < 0 {
        -num
    } else {
        num
    };
    assert(magnitude_units(0) == 0);
    let (mx, my) = (x.magnitude(), y.magnitude());
    lemma_rounding_is_nearest(size, scale, my);
    lemma_rounding_is_nearest(size, scale, 0);
    lemma_magnitude_order(0, mx);
    lemma_magnitude_order(0, my);
    let (u, v) = (magnitude_units(mx), magnitude_units(my));
    assert((-v) * scale == -(v * scale) && (-u) * scale == -(u * scale) && 0 * scale == 0 && (v > 0
        ==> v * scale > 0)) by (nonlinear_arith)
        requires
            scale > 0,
    ;
    assert(x.bits % 2 == mx % 2);
}

/// A sum is the number nearest to the exact sum: no other is nearer, and where another is
/// equally near, the last binary digit of the sum is zero.
pub proof fn law_sum_is_nearest(a: Scalar, b: Scalar, y: Scalar)
    requires
        a.finite(),
        b.finite(),
        !y.nan(),
    ensures
        ({
            let exact = a.units() + b.units();
            let (here, there) = (apart(a.plus(b).units(), exact), apart(y.units(), exact));
            &&& here <= there
            &&& here == there && a.plus(b).units() != y.units() ==> a.plus(b).bits % 2 == 0
        }),
{
    reveal(Scalar::plus);
    let exact = a.units() + b.units();
    let negative = exact < 0 || exact == 0 && a.is_negative() && b.is_negative();
    lemma_signed_is_nearest(exact, 1, negative, y);
    assert(y.units() * 1 == y.units() && a.plus(b).units() * 1 == a.plus(b).units());
}

/// A product is the number nearest to the exact product: no other is nearer, and where
/// another is equally near, the last binary digit of the product is zero.
pub proof fn law_product_is_nearest(a: Scalar, b: Scalar, y: Scalar)
    requires
        a.finite(),
        b.finite(),
        !y.nan(),
    ensures
        ({
            let exact = a.units() * b.units();
            let one = pow2(1074) as int;
            let (here, there) = (
                apart(a.times(b).units() * one, exact),
                apart(y.units() * one, exact),
            );
            &&& here <= there
            &&& here == there && a.times(b).units() != y.units() ==> a.times(b).bits % 2 == 0
        }),
{
    reveal(Scalar::times);
    lemma_pow2_pos(1074);
    lemma_sign_of_product(a, b);
    let negative = a.is_negative() != b.is_negative();
    lemma_signed_is_nearest(a.units() * b.units(), pow2(1074) as int, negative, y);
}

/// What is no finite number in a sum or a product, and the sign of zeros: what is not a
/// number stays so; infinities of both signs cancel; an infinity takes no zero factor;
/// any other infinity stays; signs multiply; a sum of zero is negative only of two
/// negative zeros.
pub proof fn law_special_sums_and_products(a: Scalar, b: Scalar)
    ensures
        a.nan() || b.nan() ==> a.plus(b).nan() && a.times(b).nan(),
        a.infinite() && b.infinite() ==> (a.plus(b).nan() <==> a.bits != b.bits),
        a.infinite() && b.finite() ==> a.plus(b) == a && b.plus(a) == a,
        a.infinite() && b.units() == 0 ==> a.times(b).nan() && b.times(a).nan(),
        a.infinite() && !b.nan() && b.units() != 0 ==> a.times(b).infinite() && b.times(a).infinite(),
        !a.times(b).nan() ==> (a.times(b).is_negative() <==> a.is_negative() != b.is_negative()),
        a.finite() && b.finite() && a.units() + b.units() == 0 ==> a.plus(b).units() == 0 && (a.plus(
            b,
        ).is_negative() <==> a.is_negative() && b.is_negative()),
{
    reveal(Scalar::plus);
    reveal(Scalar::times);
    assert(magnitude_units(0) == 0);
    lemma_magnitude_order(0, a.magnitude());
    lemma_magnitude_order(0, b.magnitude());
    lemma_powers();
    lemma_pow2_pos(1074);
    if a.finite() && b.finite() {
        lemma_sign_of_product(a, b);
        let negative = a.is_negative() != b.is_negative();
        lemma_rounded_value(a.units() * b.units(), pow2(1074) as int, negative);
        let exact = a.units() + b.units();
        lemma_rounded_value(
            exact,
            1,
            exact < 0 || exact == 0 && a.is_negative() && b.is_negative(),
        );
    }
}

} // verus!
