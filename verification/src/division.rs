//! Division of binary64 numbers, rounded to the nearest number with ties to even,
//! and conversions between them and integers.

use crate::binary64::{
    apart, is_floor, lemma_composed, lemma_floor_exists, lemma_floor_is_unique, lemma_number_of,
    lemma_parts, lemma_powers, lemma_rounded_is_number, lemma_rounded_value, lemma_rounding_error,
    lemma_rounding_is_nearest, lemma_rounding_respects, lemma_rounding_scales,
    lemma_signed_respects, places, places_of, power_of_two, round_magnitude, rounded,
    rounded_magnitude, signed, significand, significand_of, NAN_BITS,
};
use crate::scalar::{
    lemma_magnitude_order, magnitude_units, Scalar, FRACTION_RANGE, INFINITY_BITS, SIGN_BIT,
};
use vstd::arithmetic::power2::{
    lemma_pow2_adds, lemma_pow2_pos, lemma_pow2_strictly_increases, lemma_pow2_unfold, pow2,
};
use vstd::prelude::*;

verus! {

/// 2^31, as bits.
pub const TWO_TO_31: u64 = 0x41E0_0000_0000_0000;

/// The number with the given magnitude and sign.
pub open spec fn with_magnitude(m: u64, negative: bool) -> Scalar {
    Scalar {
        bits: if negative {
            (m + SIGN_BIT) as u64
        } else {
            m
        },
    }
}

/// The number nearest to the integer `n`.
pub open spec fn whole(n: int) -> Scalar {
    rounded(n * pow2(1074), 1, n < 0)
}

impl Scalar {
    /// The quotient. A number over zero is infinite.
    #[verifier::opaque]
    pub open spec fn over(self, other: Scalar) -> Scalar {
        let negative = self.is_negative() != other.is_negative();
        let (a, b) = (self.magnitude(), other.magnitude());
        if self.nan() || other.nan() || self.infinite() && other.infinite() || a == 0 && b == 0 {
            Scalar { bits: NAN_BITS }
        } else if self.infinite() || b == 0 {
            with_magnitude(INFINITY_BITS, negative)
        } else if other.infinite() {
            with_magnitude(0, negative)
        } else {
            rounded(magnitude_units(a) * pow2(1074), magnitude_units(b), negative)
        }
    }

    /// The nearest integer, the one further from zero of two that are equally near.
    pub open spec fn nearest_integer(self) -> int {
        let one = pow2(1074) as int;
        if self.units() >= 0 {
            (2 * self.units() + one) / (2 * one)
        } else {
            -((one - 2 * self.units()) / (2 * one))
        }
    }
}

/// `n` in the range of 32 bits.
pub open spec fn limited_to_i32(n: int) -> int {
    if n < i32::MIN {
        i32::MIN as int
    } else if n > i32::MAX {
        i32::MAX as int
    } else {
        n
    }
}

/// A boundary that is an even multiple of `t` lies on the same side of
/// `num / scale` as of `digits * t / unit`.
proof fn lemma_same_side(
    num: int,
    scale: int,
    digits: int,
    t: int,
    unit: int,
    boundary: int,
    count: int,
)
    requires
        scale > 0,
        t > 0,
        unit > 0,
        boundary * unit == 2 * t * count,
        digits % 2 == 0 ==> num * unit == digits * (t * scale),
        digits % 2 != 0 ==> (digits - 1) * (t * scale) < num * unit < (digits + 1) * (t * scale),
    ensures
        boundary * scale <= num <==> boundary * unit <= digits * t,
        boundary * scale == num <==> boundary * unit == digits * t,
{
    let area = t * scale;
    let there = boundary * scale;
    assert(area > 0) by (nonlinear_arith)
        requires
            area == t * scale,
            t > 0,
            scale > 0,
    ;
    assert(there * unit == (2 * count) * area) by (nonlinear_arith)
        requires
            there == boundary * scale,
            boundary * unit == 2 * t * count,
            area == t * scale,
    ;
    assert((there <= num <==> there * unit <= num * unit) && (there == num <==> there * unit == num
        * unit)) by (nonlinear_arith)
        requires
            unit > 0,
    ;
    assert((2 * t * count <= digits * t <==> 2 * count <= digits) && (2 * t * count == digits * t
        <==> 2 * count == digits)) by (nonlinear_arith)
        requires
            t > 0,
    ;
    let c = 2 * count;
    if digits % 2 == 0 {
        assert((c * area <= digits * area <==> c <= digits) && (c * area == digits * area <==> c
            == digits)) by (nonlinear_arith)
            requires
                area > 0,
        ;
    } else {
        assert((c <= digits - 1 ==> c * area <= (digits - 1) * area) && (c >= digits + 1 ==> c
            * area >= (digits + 1) * area)) by (nonlinear_arith)
            requires
                area > 0,
        ;
        assert(c != digits);
    }
}

/// A number that is known to 58 binary digits, and of which is known whether
/// something follows them, rounds as those digits do; an odd last digit stands for
/// what follows.
proof fn lemma_digits_suffice(num: int, scale: int, digits: int, e: int)
    requires
        scale > 0,
        num >= 0,
        digits >= 0x400_0000_0000_0000,
        -1000 <= e <= 4000,
        ({
            let area = pow2((e + 1074) as nat) * scale;
            let fine = num * pow2(1074);
            &&& digits % 2 == 0 ==> fine == digits * area
            &&& digits % 2 != 0 ==> (digits - 1) * area < fine < (digits + 1) * area
        }),
    ensures
        rounded_magnitude(num, scale) == rounded_magnitude(
            digits * pow2((e + 1074) as nat),
            pow2(1074) as int,
        ),
{
    let t = pow2((e + 1074) as nat) as int;
    let unit = pow2(1074) as int;
    let range = FRACTION_RANGE as int;
    let top = magnitude_units(INFINITY_BITS);
    lemma_pow2_pos((e + 1074) as nat);
    lemma_pow2_pos(1074);
    lemma_powers();
    vstd::arithmetic::power2::lemma2_to64_rest();
    assert(digits * t >= 0) by (nonlinear_arith)
        requires
            digits >= 0,
            t > 0,
    ;
    lemma_composed(2045, 2 * range);
    assert(2045 * range + 2 * range == INFINITY_BITS);
    lemma_pow2_adds(53, 2045);
    assert(top == pow2(2098));
    if digits * t >= top * unit {
        if e <= 2096 {
            lemma_pow2_adds(2098, 1074);
            lemma_pow2_unfold((e + 1075) as nat);
            lemma_pow2_adds((2097 - e) as nat, (e + 1075) as nat);
            assert(top * unit == 2 * t * pow2((2097 - e) as nat)) by (nonlinear_arith)
                requires
                    top * unit == pow2((2097 - e) as nat) * (2 * t),
            ;
            lemma_same_side(num, scale, digits, t, unit, top, pow2((2097 - e) as nat) as int);
        } else {
            lemma_pow2_adds(57, (e + 1074) as nat);
            lemma_pow2_adds(2098, 1074);
            if 57 + e + 1074 > 3172 {
                lemma_pow2_strictly_increases(3172, (57 + e + 1074) as nat);
            }
            let area = t * scale;
            let edge = top * scale;
            assert(area > 0 && (digits - 1) * area <= digits * area) by (nonlinear_arith)
                requires
                    area == t * scale,
                    t > 0,
                    scale > 0,
            ;
            assert(edge <= num) by (nonlinear_arith)
                requires
                    (digits - 1) * area <= num * unit,
                    digits - 1 >= 0x200_0000_0000_0000,
                    0x200_0000_0000_0000 * t >= top * unit,
                    area == t * scale,
                    edge == top * scale,
                    unit > 0,
                    scale > 0,
                    t > 0,
            {
                assert((digits - 1) * area >= 0x200_0000_0000_0000 * area);
                assert(0x200_0000_0000_0000 * area == (0x200_0000_0000_0000 * t) * scale);
                assert((0x200_0000_0000_0000 * t) * scale >= (top * unit) * scale);
                assert((top * unit) * scale == edge * unit);
            }
        }
    } else {
        assert(magnitude_units(0) == 0);
        assert(0 * unit == 0) by (nonlinear_arith);
        let coarse = digits * t;
        lemma_floor_exists(coarse, unit, 0);
        let m = choose|m: u64| is_floor(coarse, unit, m);
        lemma_floor_is_unique(coarse, unit, m);
        lemma_parts(m);
        let (sig, at) = (significand_of(m) as int, places_of(m) as int);
        let step = pow2(at as nat) as int;
        lemma_composed(at, sig + 1);
        assert((m + 1) as u64 == (at * FRACTION_RANGE + (sig + 1)) as u64);
        let (low, high) = (magnitude_units(m), magnitude_units((m + 1) as u64));
        lemma_pow2_adds(at as nat, 1074);
        let gap = pow2((at + 1074) as nat) as int;
        assert(low * unit == sig * gap && high * unit == (sig + 1) * gap && (low + high) * unit == (2
            * sig + 1) * gap) by (nonlinear_arith)
            requires
                low == sig * step,
                high == (sig + 1) * step,
                gap == step * unit,
        ;
        // The next magnitude is above 58 digits, so its last place is far above theirs.
        assert(at >= e + 2) by {
            if at < e + 2 {
                lemma_pow2_pos((at + 1074) as nat);
                lemma_pow2_adds(1, (at + 1074) as nat);
                if at + 1075 < e + 1076 {
                    lemma_pow2_strictly_increases((at + 1075) as nat, (e + 1076) as nat);
                }
                lemma_pow2_unfold((e + 1076) as nat);
                lemma_pow2_unfold((e + 1075) as nat);
                assert((sig + 1) * gap <= 2 * range * (2 * t)) by (nonlinear_arith)
                    requires
                        sig + 1 <= 2 * range,
                        2 * gap <= 4 * t,
                        gap > 0,
                        sig >= 0,
                ;
                assert(digits * t >= 0x400_0000_0000_0000 * t) by (nonlinear_arith)
                    requires
                        digits >= 0x400_0000_0000_0000,
                        t > 0,
                ;
            }
        }
        lemma_pow2_unfold((e + 1076) as nat);
        lemma_pow2_unfold((e + 1075) as nat);
        let fold = pow2((at - e - 2) as nat) as int;
        lemma_pow2_adds((at - e - 2) as nat, (e + 1076) as nat);
        assert(gap == fold * (4 * t));
        assert(low * unit == 2 * t * (2 * sig * fold) && high * unit == 2 * t * (2 * (sig + 1)
            * fold) && (low + high) * unit == 2 * (2 * t) * ((2 * sig + 1) * fold))
            by (nonlinear_arith)
            requires
                low * unit == sig * gap,
                high * unit == (sig + 1) * gap,
                (low + high) * unit == (2 * sig + 1) * gap,
                gap == fold * (4 * t),
        ;
        lemma_same_side(num, scale, digits, t, unit, low, 2 * sig * fold);
        lemma_same_side(num, scale, digits, t, unit, high, 2 * (sig + 1) * fold);
        let area = t * scale;
        let wide = (2 * t) * scale;
        assert((2 * num) * unit == 2 * (num * unit) && digits * wide == 2 * (digits * area) && (digits
            - 1) * wide == 2 * ((digits - 1) * area) && (digits + 1) * wide == 2 * ((digits + 1)
            * area)) by (nonlinear_arith)
            requires
                area == t * scale,
                wide == (2 * t) * scale,
        ;
        lemma_same_side(
            2 * num,
            scale,
            digits,
            2 * t,
            unit,
            low + high,
            (2 * sig + 1) * fold,
        );
        assert(digits * (2 * t) == 2 * (digits * t)) by (nonlinear_arith);
        assert(is_floor(num, scale, m));
        lemma_floor_is_unique(num, scale, m);
    }
}

/// The magnitude of the quotient of two finite numbers.
fn divide_magnitudes(a: u64, b: u64) -> (m: u64)
    requires
        a < INFINITY_BITS,
        0 < b < INFINITY_BITS,
    ensures
        m == rounded_magnitude(magnitude_units(a) * pow2(1074), magnitude_units(b)),
{
    let ghost num = magnitude_units(a) * pow2(1074);
    let ghost scale = magnitude_units(b);
    let ghost one = pow2(1074) as int;
    proof {
        assert(magnitude_units(0) == 0);
        lemma_magnitude_order(0, b);
        lemma_magnitude_order(0, a);
        lemma_pow2_pos(1074);
        lemma_powers();
        lemma_parts(a);
        lemma_parts(b);
    }
    if a == 0 {
        proof {
            assert(0 * one == 0 && 0 * scale == 0) by (nonlinear_arith);
            lemma_rounding_respects(num, scale, 0);
        }
        return 0;
    }
    let (sig_a, sig_b) = (significand(a), significand(b));
    let (places_a, places_b) = (places(a), places(b));
    let ghost step_a = pow2(places_a as nat) as int;
    let ghost step_b = pow2(places_b as nat) as int;
    proof {
        lemma_pow2_pos(places_a as nat);
        lemma_pow2_pos(places_b as nat);
        assert(sig_a > 0 && sig_b > 0) by {
            if sig_a == 0 {
                assert(0 * step_a == 0) by (nonlinear_arith);
            }
            if sig_b == 0 {
                assert(0 * step_b == 0) by (nonlinear_arith);
            }
        }
    }
    let mut x: u64 = sig_a;
    let mut lift: u64 = 0;
    proof {
        assert(sig_a * 1 == sig_a);
    }
    while x < 0x10_0000_0000_0000
        invariant
            0 < sig_a,
            sig_a < 0x20_0000_0000_0000,
            0 < x < 0x20_0000_0000_0000,
            lift <= 52,
            x == sig_a * pow2(lift as nat),
            pow2(52) == 0x10_0000_0000_0000,
        decreases 0x20_0000_0000_0000 - x,
    {
        proof {
            if lift == 52 {
                assert(sig_a * pow2(52) >= pow2(52)) by (nonlinear_arith)
                    requires
                        sig_a >= 1,
                        pow2(52) > 0,
                ;
            }
            lemma_pow2_unfold((lift + 1) as nat);
            let p = pow2(lift as nat) as int;
            assert(sig_a * (2 * p) == 2 * (sig_a * p)) by (nonlinear_arith);
        }
        x = x * 2;
        lift = lift + 1;
    }
    let e: i64 = places_a as i64 + 1013 - lift as i64 - places_b as i64;
    if e < -1000 {
        proof {
            let far = (places_a + 1128) as nat;
            lemma_pow2_adds(places_a as nat, 1074);
            lemma_pow2_adds((places_a + 1074) as nat, 54);
            lemma_pow2_unfold(54);
            if far < places_b {
                lemma_pow2_strictly_increases(far, places_b as nat);
            }
            let wide = step_a * one;
            lemma_pow2_pos((places_a + 1074) as nat);
            assert(num == sig_a * wide) by (nonlinear_arith)
                requires
                    num == (sig_a * step_a) * one,
                    wide == step_a * one,
            ;
            assert(2 * num < scale && num >= 0) by (nonlinear_arith)
                requires
                    num == sig_a * wide,
                    scale == sig_b * step_b,
                    wide * (4 * 0x10_0000_0000_0000) <= step_b,
                    0 < sig_a < 2 * 0x10_0000_0000_0000,
                    sig_b >= 1,
                    wide > 0,
                    step_b > 0,
            {
                assert(sig_b * step_b >= step_b);
                assert(2 * (sig_a * wide) < 4 * 0x10_0000_0000_0000 * wide);
            }
            assert(magnitude_units(1) == 1);
            assert(0 * scale == 0 && 1 * scale == scale) by (nonlinear_arith);
            assert(is_floor(num, scale, 0));
            lemma_floor_is_unique(num, scale, 0);
        }
        return 0;
    }
    let up: u128 = x as u128 * 0x1000_0000_0000_0000;
    let q: u128 = up / sig_b as u128;
    let rem: u128 = up % sig_b as u128;
    proof {
        assert(up == q * sig_b + rem && 0 <= rem < sig_b) by (nonlinear_arith)
            requires
                q == up / sig_b as u128,
                rem == up % sig_b as u128,
                sig_b > 0,
        ;
        assert(0x200_0000_0000_0000 <= q <= up) by (nonlinear_arith)
            requires
                up == q * sig_b + rem,
                0 <= rem < sig_b,
                0 < sig_b < 0x20_0000_0000_0000,
                up >= 0x10_0000_0000_0000 * 0x1000_0000_0000_0000,
        ;
    }
    let digits: u128 = if rem == 0 {
        2 * q
    } else {
        2 * q + 1
    };
    proof {
        let t = pow2((e + 1074) as nat) as int;
        let area = t * scale;
        let k = t * step_b;
        lemma_pow2_adds((e + 1074) as nat, places_b as nat);
        lemma_pow2_pos((e + 1074 + places_b) as nat);
        // Both sides of the division, as multiples of one power of two.
        lemma_pow2_adds(lift as nat, 61);
        lemma_pow2_unfold(61);
        lemma_pow2_adds((lift + 61) as nat, (e + 1074 + places_b) as nat);
        lemma_pow2_adds(places_a as nat, 1074);
        lemma_pow2_adds((places_a + 1074) as nat, 1074);
        let lifted = pow2(lift as nat) as int;
        assert(num * one == sig_a * ((step_a * one) * one)) by (nonlinear_arith)
            requires
                num == (sig_a * step_a) * one,
        ;
        assert((step_a * one) * one == (lifted * 0x2000_0000_0000_0000) * k);
        assert(num * one == 2 * up * k) by (nonlinear_arith)
            requires
                num * one == sig_a * ((lifted * 0x2000_0000_0000_0000) * k),
                up == (sig_a * lifted) * 0x1000_0000_0000_0000,
        ;
        assert(area == sig_b * k) by (nonlinear_arith)
            requires
                area == t * scale,
                scale == sig_b * step_b,
                k == t * step_b,
        ;
        assert(rem == 0 ==> num * one == (2 * q) * area) by (nonlinear_arith)
            requires
                num * one == 2 * up * k,
                area == sig_b * k,
                up == q * sig_b + rem,
        ;
        assert(rem > 0 ==> (2 * q) * area < num * one < (2 * q + 2) * area) by (nonlinear_arith)
            requires
                num * one == 2 * up * k,
                area == sig_b * k,
                up == q * sig_b + rem,
                0 <= rem < sig_b,
                k > 0,
        ;
        assert(num >= 0) by (nonlinear_arith)
            requires
                num == magnitude_units(a) * one,
                magnitude_units(a) >= 0,
                one > 0,
        ;
        lemma_digits_suffice(num, scale, digits as int, e as int);
    }
    round_magnitude(digits, e)
}

impl Scalar {
    /// The quotient.
    pub fn div(self, other: Scalar) -> (res: Scalar)
        ensures
            res == self.over(other),
    {
        proof {
            reveal(Scalar::over);
        }
        let (a, b): (u64, u64) = (self.bits % SIGN_BIT, other.bits % SIGN_BIT);
        let negative: bool = (self.bits >= SIGN_BIT) != (other.bits >= SIGN_BIT);
        if self.is_nan() || other.is_nan() || a == INFINITY_BITS && b == INFINITY_BITS || a == 0
            && b == 0 {
            return Scalar { bits: NAN_BITS };
        }
        if a == INFINITY_BITS || b == 0 {
            return signed(INFINITY_BITS, negative);
        }
        if b == INFINITY_BITS {
            return signed(0, negative);
        }
        proof {
            let num = magnitude_units(a) * pow2(1074);
            assert(magnitude_units(0) == 0);
            lemma_magnitude_order(0, b);
            lemma_magnitude_order(0, a);
            lemma_pow2_pos(1074);
            assert(num >= 0) by (nonlinear_arith)
                requires
                    num == magnitude_units(a) * pow2(1074),
                    magnitude_units(a) >= 0,
                    pow2(1074) > 0,
            ;
            lemma_rounded_is_number(num, magnitude_units(b));
        }
        signed(divide_magnitudes(a, b), negative)
    }

    /// The number nearest to the natural number `n`.
    pub fn from_natural(n: u64) -> (res: Scalar)
        ensures
            res == whole(n as int),
            res.bits <= INFINITY_BITS,
    {
        proof {
            let one = pow2(1074) as int;
            let num = n * one;
            lemma_pow2_pos(1074);
            lemma_pow2_adds(1074, 1074);
            assert(num >= 0) by (nonlinear_arith)
                requires
                    num == n * one,
                    n >= 0,
                    one > 0,
            ;
            lemma_rounding_scales(num, 1, one);
            lemma_rounded_is_number(num, 1);
            assert(num * one == n * (one * one)) by (nonlinear_arith)
                requires
                    num == n * one,
            ;
        }
        signed(round_magnitude(n as u128, 1074), false)
    }

    /// The number nearest to the integer `n`.
    pub fn from_integer(n: i64) -> (res: Scalar)
        ensures
            res == whole(n as int),
    {
        if n >= 0 {
            return Scalar::from_natural(n as u64);
        }
        let size: u64 = (-(n as i128)) as u64;
        let x = Scalar::from_natural(size);
        proof {
            let one = pow2(1074) as int;
            lemma_pow2_pos(1074);
            assert(n * one == -(size * one) && n * one < 0) by (nonlinear_arith)
                requires
                    size == -n,
                    n < 0,
                    one > 0,
            ;
        }
        signed(x.bits, true)
    }

    /// The nearest integer in the range of 32 bits; zero for what is not a number.
    pub fn to_nearest_i32(self) -> (res: i32)
        ensures
            res == if self.nan() {
                0
            } else {
                limited_to_i32(self.nearest_integer())
            },
    {
        if self.is_nan() {
            return 0;
        }
        let m: u64 = self.bits % SIGN_BIT;
        let n: i64 = nearest_to_magnitude(m);
        proof {
            lemma_magnitude_order(0, m);
            assert(magnitude_units(0) == 0);
            lemma_pow2_pos(1074);
            let one = pow2(1074) as int;
            if self.units() == 0 {
                assert((2 * 0 + one) / (2 * one) == 0) by (nonlinear_arith)
                    requires
                        one > 0,
                ;
            }
        }
        if self.bits >= SIGN_BIT {
            if n > 0x8000_0000 {
                i32::MIN
            } else {
                (-n) as i32
            }
        } else if n > 0x7FFF_FFFF {
            i32::MAX
        } else {
            n as i32
        }
    }
}

/// A common factor does not matter to a quotient.
pub proof fn lemma_common_factor(a: int, b: int, f: int)
    requires
        a >= 0,
        b > 0,
        f > 0,
    ensures
        (a * f) / (b * f) == a / b,
{
    vstd::arithmetic::div_mod::lemma_div_multiples_vanish_quotient(f, a, b);
    assert(a * f == f * a && b * f == f * b) by (nonlinear_arith);
}

/// 2^31 in units.
proof fn lemma_two_to_31()
    ensures
        magnitude_units(TWO_TO_31) == 0x8000_0000 * pow2(1074),
{
    lemma_powers();
    vstd::arithmetic::power2::lemma2_to64();
    let range = FRACTION_RANGE as int;
    lemma_composed(1053, range);
    lemma_pow2_adds(52, 1053);
    lemma_pow2_adds(31, 1074);
    assert(1053 * range + range == TWO_TO_31);
}

/// The integer nearest to a magnitude, 2^31 + 1 for whatever is above 2^31.
fn nearest_to_magnitude(m: u64) -> (n: i64)
    requires
        m <= INFINITY_BITS,
    ensures
        ({
            let one = pow2(1074) as int;
            let exact = (2 * magnitude_units(m) + one) / (2 * one);
            &&& exact >= 0
            &&& exact <= 0x8000_0000 ==> n == exact
            &&& exact > 0x8000_0000 ==> n == 0x8000_0001
        }),
{
    let ghost one = pow2(1074) as int;
    let ghost scaled = 2 * magnitude_units(m) + one;
    proof {
        lemma_pow2_pos(1074);
        lemma_two_to_31();
        lemma_magnitude_order(0, m);
        assert(magnitude_units(0) == 0);
        assert(scaled / (2 * one) >= 0) by (nonlinear_arith)
            requires
                scaled >= 0,
                one > 0,
        ;
    }
    if m >= TWO_TO_31 {
        return nearest_above(m);
    }
    let sig: u64 = significand(m);
    let at: u64 = places(m);
    proof {
        lemma_parts(m);
        lemma_powers();
        assert(at <= 1052);
    }
    let down: u64 = 1073 - at;
    let ghost step = pow2(at as nat) as int;
    if down > 60 {
        proof {
            lemma_pow2_pos(at as nat);
            lemma_pow2_adds(at as nat, 55);
            vstd::arithmetic::power2::lemma2_to64_rest();
            if at + 55 < 1074 {
                lemma_pow2_strictly_increases((at + 55) as nat, 1074);
            }
            assert(scaled / (2 * one) == 0) by (nonlinear_arith)
                requires
                    scaled == 2 * (sig * step) + one,
                    0 <= sig < 2 * 0x10_0000_0000_0000,
                    step > 0,
                    step * (8 * 0x10_0000_0000_0000) <= one,
            ;
        }
        return 0;
    }
    // The number is `sig` times 2^-(down + 1).
    let half: u128 = power_of_two(down);
    let n: u128 = (sig as u128 + half) / (2 * half);
    proof {
        lemma_pow2_pos(at as nat);
        lemma_pow2_adds(down as nat, (at + 1) as nat);
        lemma_pow2_adds(at as nat, 1);
        let f = 2 * step;
        assert(one == half * f);
        assert(scaled == (sig + half) * f && 2 * one == (2 * half) * f) by (nonlinear_arith)
            requires
                scaled == 2 * (sig * step) + one,
                one == half * f,
                f == 2 * step,
        ;
        lemma_common_factor((sig + half) as int, 2 * half as int, f);
        lemma_magnitude_order(m, TWO_TO_31);
        assert(sig * f == 2 * (sig * step)) by (nonlinear_arith)
            requires
                f == 2 * step,
        ;
        assert(n <= 0x8000_0000) by (nonlinear_arith)
            requires
                n == (sig + half) / (2 * half),
                sig * f < 0x1_0000_0000 * (half * f),
                f > 0,
                half > 0,
        {
            assert(sig < 0x1_0000_0000 * half);
        }
    }
    n as i64
}

/// [`nearest_to_magnitude`] from 2^31 on.
fn nearest_above(m: u64) -> (n: i64)
    requires
        TWO_TO_31 <= m <= INFINITY_BITS,
    ensures
        ({
            let one = pow2(1074) as int;
            let exact = (2 * magnitude_units(m) + one) / (2 * one);
            &&& exact <= 0x8000_0000 ==> n == exact
            &&& exact > 0x8000_0000 ==> n == 0x8000_0001
        }),
{
    // One half more than 2^31.
    let edge: u64 = 0x41E0_0000_0010_0000;
    proof {
        let one = pow2(1074) as int;
        lemma_pow2_pos(1074);
        lemma_powers();
        lemma_two_to_31();
        let range = FRACTION_RANGE as int;
        lemma_composed(1053, range + 0x10_0000);
        assert(1053 * range + (range + 0x10_0000) == edge);
        vstd::arithmetic::power2::lemma2_to64();
        lemma_pow2_adds(20, 1053);
        lemma_pow2_adds(52, 1053);
        lemma_pow2_adds(31, 1074);
        lemma_pow2_unfold(1074);
        let p = pow2(1053) as int;
        assert((range + 0x10_0000) * p == range * p + 0x10_0000 * p) by (nonlinear_arith);
        assert(2 * magnitude_units(edge) == 0x1_0000_0001 * one);
        lemma_magnitude_order(m, edge);
        lemma_magnitude_order(edge, m);
        lemma_magnitude_order(m, TWO_TO_31);
        let scaled = 2 * magnitude_units(m) + one;
        if m < edge {
            assert(scaled / (2 * one) == 0x8000_0000) by (nonlinear_arith)
                requires
                    0x1_0000_0001 * one <= scaled < 0x1_0000_0002 * one,
                    one > 0,
            ;
        } else {
            assert(scaled / (2 * one) >= 0x8000_0001) by (nonlinear_arith)
                requires
                    scaled >= 0x1_0000_0002 * one,
                    one > 0,
            ;
        }
    }
    if m < edge {
        0x8000_0000
    } else {
        0x8000_0001
    }
}

/// A quotient below 2^(53 + places) units is off by at most half of 2^`places`
/// units. Both sides are multiplied by the divisor.
pub proof fn law_quotient_is_nearly_exact(a: Scalar, b: Scalar, places: nat)
    requires
        a.finite(),
        b.finite(),
        b.units() != 0,
        places < 2045,
        ({
            let num = a.absolute().units() * pow2(1074);
            num < pow2(53 + places) * b.absolute().units()
        }),
    ensures
        ({
            let off = a.over(b).units() * b.units() - a.units() * pow2(1074);
            let most = pow2(places) * b.absolute().units();
            &&& a.over(b).finite()
            &&& -most <= 2 * off <= most
        }),
{
    reveal(Scalar::over);
    let one = pow2(1074) as int;
    let (x, y) = (magnitude_units(a.magnitude()), magnitude_units(b.magnitude()));
    assert(magnitude_units(0) == 0);
    lemma_magnitude_order(0, a.magnitude());
    lemma_magnitude_order(0, b.magnitude());
    lemma_pow2_pos(1074);
    assert(x * one >= 0) by (nonlinear_arith)
        requires
            x >= 0,
            one > 0,
    ;
    lemma_rounding_error(x * one, y, places);
    let m = rounded_magnitude(x * one, y);
    let r = magnitude_units(m);
    let res = a.over(b);
    assert(res.magnitude() == m);
    assert((-r) * y == -(r * y) && r * (-y) == -(r * y) && (-r) * (-y) == r * y && (-x) * one == -(x
        * one)) by (nonlinear_arith);
}

/// The nearest integer is at most one half away.
pub proof fn law_nearest_integer_is_near(x: Scalar)
    ensures
        -pow2(1074) <= 2 * (x.nearest_integer() * pow2(1074) - x.units()) <= pow2(1074),
{
    let one = pow2(1074) as int;
    lemma_pow2_pos(1074);
    let u = if x.units() >= 0 {
        x.units()
    } else {
        -x.units()
    };
    let n = (2 * u + one) / (2 * one);
    assert(-one <= 2 * (n * one - u) <= one) by (nonlinear_arith)
        requires
            n == (2 * u + one) / (2 * one),
            one > 0,
    ;
    assert((-n) * one == -(n * one)) by (nonlinear_arith);
}

/// The number of an integer of at most 53 binary digits is exact.
pub proof fn law_whole_is_exact(n: int)
    requires
        -2 * FRACTION_RANGE < n < 2 * FRACTION_RANGE,
    ensures
        whole(n).finite(),
        whole(n).units() == n * pow2(1074),
{
    let y = lemma_number_of(n, 1074);
    let num = n * pow2(1074);
    lemma_pow2_pos(1074);
    assert((n < 0 ==> num < 0) && (n > 0 ==> num > 0) && (n == 0 ==> num == 0)) by (nonlinear_arith)
        requires
            num == n * pow2(1074),
            pow2(1074) > 0,
    ;
    lemma_rounded_value(num, 1, n < 0);
    lemma_signed_respects(num, 1, n < 0, y);
    assert(y.units() * 1 == y.units());
    let x = whole(n);
    lemma_magnitude_order(x.magnitude(), y.magnitude());
    lemma_magnitude_order(y.magnitude(), x.magnitude());
    lemma_magnitude_order(0, x.magnitude());
    lemma_magnitude_order(0, y.magnitude());
    assert(magnitude_units(0) == 0);
}

/// A quotient that is a number is not rounded.
pub proof fn law_exact_quotient(a: Scalar, b: Scalar, y: Scalar)
    requires
        a.finite(),
        b.finite(),
        b.units() > 0,
        y.finite(),
        y.units() * b.units() == a.units() * pow2(1074),
    ensures
        a.over(b).finite(),
        a.over(b).units() == y.units(),
{
    reveal(Scalar::over);
    let one = pow2(1074) as int;
    lemma_pow2_pos(1074);
    assert(magnitude_units(0) == 0);
    let (ma, mb, my) = (a.magnitude(), b.magnitude(), y.magnitude());
    let (x, d, v) = (magnitude_units(ma), magnitude_units(mb), magnitude_units(my));
    lemma_magnitude_order(0, ma);
    lemma_magnitude_order(0, mb);
    lemma_magnitude_order(0, my);
    let (au, bu, yu) = (a.units(), b.units(), y.units());
    assert(v * d == x * one && (au > 0 ==> yu > 0) && (au < 0 ==> yu < 0) && (au == 0 ==> yu == 0))
        by (nonlinear_arith)
        requires
            yu * bu == au * one,
            au == x || au == -x,
            yu == v || yu == -v,
            bu == d,
            x >= 0,
            v >= 0,
            d > 0,
            one > 0,
    ;
    assert(x * one >= 0) by (nonlinear_arith)
        requires
            x >= 0,
            one > 0,
    ;
    lemma_rounding_respects(x * one, d, my);
    assert(rounded_magnitude(x * one, d) == my);
}

/// A quotient is the number nearest to the exact quotient: no other is nearer, and where
/// another is equally near, the last binary digit of the quotient is zero. Both sides are
/// multiplied by the divisor.
pub proof fn law_quotient_is_nearest(a: Scalar, b: Scalar, y: Scalar)
    requires
        a.finite(),
        b.finite(),
        b.units() != 0,
        !y.nan(),
    ensures
        ({
            let exact = a.units() * pow2(1074);
            let (here, there) = (
                apart(a.over(b).units() * b.units(), exact),
                apart(y.units() * b.units(), exact),
            );
            &&& here <= there
            &&& here == there && a.over(b).units() != y.units() ==> a.over(b).bits % 2 == 0
        }),
{
    reveal(Scalar::over);
    let one = pow2(1074) as int;
    lemma_pow2_pos(1074);
    assert(magnitude_units(0) == 0);
    let (ma, mb, my) = (a.magnitude(), b.magnitude(), y.magnitude());
    let (x, d, v) = (magnitude_units(ma), magnitude_units(mb), magnitude_units(my));
    lemma_magnitude_order(0, ma);
    lemma_magnitude_order(0, mb);
    lemma_magnitude_order(0, my);
    assert(x * one >= 0) by (nonlinear_arith)
        requires
            x >= 0,
            one > 0,
    ;
    lemma_rounding_is_nearest(x * one, d, my);
    lemma_rounding_is_nearest(x * one, d, 0);
    lemma_rounded_is_number(x * one, d);
    let m = rounded_magnitude(x * one, d);
    let r = magnitude_units(m);
    lemma_magnitude_order(0, m);
    let res = a.over(b);
    assert(res.magnitude() == m);
    assert(res.bits % 2 == m % 2);
    assert((-r) * d == -(r * d) && r * (-d) == -(r * d) && (-r) * (-d) == r * d && (-x) * one == -(x
        * one) && (-v) * d == -(v * d) && v * (-d) == -(v * d) && (-v) * (-d) == v * d && 0 * d
        == 0 && (v > 0 ==> v * d > 0)) by (nonlinear_arith)
        requires
            d > 0,
    ;
}

/// What is no finite number in a quotient: what is not a number stays so; neither two
/// zeros nor two infinities have a quotient; an infinity over a number is infinite, and so
/// is a number over zero; a number over an infinity is zero; signs multiply.
pub proof fn law_special_quotients(a: Scalar, b: Scalar)
    ensures
        a.nan() || b.nan() ==> a.over(b).nan(),
        a.infinite() && b.infinite() ==> a.over(b).nan(),
        a.units() == 0 && b.units() == 0 ==> a.over(b).nan(),
        a.infinite() && b.finite() ==> a.over(b).infinite(),
        a.finite() && a.units() != 0 && b.units() == 0 ==> a.over(b).infinite(),
        a.finite() && b.infinite() ==> a.over(b).units() == 0,
        !a.over(b).nan() ==> (a.over(b).is_negative() <==> a.is_negative() != b.is_negative()),
{
    reveal(Scalar::over);
    assert(magnitude_units(0) == 0);
    lemma_magnitude_order(0, a.magnitude());
    lemma_magnitude_order(0, b.magnitude());
    lemma_pow2_pos(1074);
    if a.finite() && b.finite() && b.magnitude() != 0 {
        let (x, d, one) = (
            magnitude_units(a.magnitude()),
            magnitude_units(b.magnitude()),
            pow2(1074) as int,
        );
        assert(x * one >= 0) by (nonlinear_arith)
            requires
                x >= 0,
                one > 0,
        ;
        lemma_rounded_is_number(x * one, d);
    }
}

/// Of two integers that are equally near, the nearest one is the one further from zero.
pub proof fn law_halves_go_away_from_zero(x: Scalar)
    ensures
        2 * (x.nearest_integer() * pow2(1074) - x.units()) == pow2(1074) ==> x.units() > 0,
        2 * (x.nearest_integer() * pow2(1074) - x.units()) == -pow2(1074) ==> x.units() < 0,
{
    let one = pow2(1074) as int;
    lemma_pow2_pos(1074);
    let u = if x.units() >= 0 {
        x.units()
    } else {
        -x.units()
    };
    let n = (2 * u + one) / (2 * one);
    assert(2 * (n * one - u) > -one) by (nonlinear_arith)
        requires
            n == (2 * u + one) / (2 * one),
            one > 0,
    ;
    assert((-n) * one == -(n * one)) by (nonlinear_arith);
    if u == 0 {
        vstd::arithmetic::div_mod::lemma_basic_div(one, 2 * one);
        assert(n * one == 0) by (nonlinear_arith)
            requires
                n == 0,
        ;
    }
}

} // verus!
