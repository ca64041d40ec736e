//! The guard of the Kalman filter: when an updated estimate is thrown away.
//!
//! An estimate starts with roll and pitch, in radians.

use crate::binary64::{
    law_product_is_nearly_exact, law_product_respects_order, law_sum_is_nearly_exact,
    law_sum_respects_order, lemma_composed, lemma_parts, lemma_powers, places_of, significand_of,
    DEG_PER_RAD,
};
use crate::scalar::{
    all_finite, is_all_finite, law_absolute_drops_sign, law_negation_reverses_value,
    lemma_magnitude_order, magnitude_units, Scalar, FRACTION_RANGE, SIGN_BIT,
};
use vstd::arithmetic::power2::{lemma_pow2_adds, lemma_pow2_pos, lemma_pow2_unfold, pow2};
use vstd::prelude::*;

verus! {

/// The largest roll or pitch of a plausible estimate, 50 degrees, as bits.
pub const MAX_ANGLE_DEG: u64 = 0x4049_0000_0000_0000;

/// The largest change of roll or pitch between estimates, 20 degrees, as bits.
pub const MAX_JUMP_DEG: u64 = 0x4034_0000_0000_0000;

/// One of the two angles is larger than `limit` in absolute value.
pub open spec fn exceeds(angles: [Scalar; 2], limit: Scalar) -> bool {
    limit.lt(angles[0].absolute()) || limit.lt(angles[1].absolute())
}

/// Roll and pitch of the estimate `x`, in degrees.
pub open spec fn tilt_of(x: Seq<Scalar>) -> [Scalar; 2] {
    [x[0].in_degrees(), x[1].in_degrees()]
}

/// The change of roll and pitch from the estimate `before` to `x`, in degrees.
pub open spec fn jump_of(before: Seq<Scalar>, x: Seq<Scalar>) -> [Scalar; 2] {
    [x[0].minus(before[0]).in_degrees(), x[1].minus(before[1]).in_degrees()]
}

/// The estimate `x` is plausible by itself: its numbers are finite, and roll and
/// pitch are not too large.
pub open spec fn plausible(x: Seq<Scalar>) -> bool {
    all_finite(x) && !exceeds(tilt_of(x), Scalar { bits: MAX_ANGLE_DEG })
}

/// The estimate `x` is not plausible: a number is not finite, roll or pitch is
/// too large, or, when there is an estimate before it, roll or pitch jumped.
pub open spec fn diverged(x: Seq<Scalar>, before: Option<Seq<Scalar>>) -> bool {
    ||| !plausible(x)
    ||| before is Some && exceeds(jump_of(before->0, x), Scalar { bits: MAX_JUMP_DEG })
}

fn is_exceeded(angles: [Scalar; 2], limit: Scalar) -> (res: bool)
    ensures
        res == exceeds(angles, limit),
{
    limit.less(angles[0].abs()) || limit.less(angles[1].abs())
}

/// Roll and pitch of the estimate `x`, in degrees.
pub fn tilt(x: &[Scalar]) -> (res: [Scalar; 2])
    requires
        x@.len() >= 2,
    ensures
        res == tilt_of(x@),
{
    [x[0].to_degrees(), x[1].to_degrees()]
}

/// Whether the estimate `x_kf` is not plausible: see [`diverged`].
pub fn is_diverged(x_kf: &[Scalar], x_prev: Option<&[Scalar]>) -> (res: bool)
    requires
        x_kf@.len() >= 2,
        x_prev matches Some(prev) ==> prev@.len() >= 2,
    ensures
        res == diverged(
            x_kf@,
            match x_prev {
                Some(prev) => Some(prev@),
                None => None,
            },
        ),
{
    if !is_all_finite(x_kf) || is_exceeded(tilt(x_kf), Scalar { bits: MAX_ANGLE_DEG }) {
        return true;
    }
    match x_prev {
        Some(prev) => is_exceeded(
            [x_kf[0].sub(prev[0]).to_degrees(), x_kf[1].sub(prev[1]).to_degrees()],
            Scalar { bits: MAX_JUMP_DEG },
        ),
        None => false,
    }
}

/// The angles `after` are at most 20 degrees, and 2^-40 degrees for rounding, from
/// `before`.
pub open spec fn close_to(before: [Scalar; 2], after: [Scalar; 2]) -> bool {
    let most = (Scalar { bits: MAX_JUMP_DEG }).units() + pow2(1034);
    forall|i: int|
        0 <= i < 2 ==> -most <= (#[trigger] after[i]).units() - before[i].units() <= most
}

/// Plausible angles are numbers between -50 and 50 degrees.
pub proof fn law_plausible_angles_are_small(x: Seq<Scalar>, i: int)
    requires
        x.len() >= 2,
        plausible(x),
        0 <= i < 2,
    ensures
        tilt_of(x)[i].finite(),
        -(Scalar { bits: MAX_ANGLE_DEG }).units() <= tilt_of(x)[i].units(),
        tilt_of(x)[i].units() <= (Scalar { bits: MAX_ANGLE_DEG }).units(),
{
    let t = tilt_of(x)[i];
    assert(x[i].finite());
    assert((Scalar { bits: DEG_PER_RAD }).finite());
    law_product_respects_order(x[i], Scalar { bits: DEG_PER_RAD }, Scalar { bits: 0 });
    law_absolute_drops_sign(t);
    lemma_magnitude_order(MAX_ANGLE_DEG, t.magnitude());
}

/// Angles are close to themselves.
pub proof fn lemma_same_angles_are_close(tilt_deg: [Scalar; 2])
    ensures
        close_to(tilt_deg, tilt_deg),
{
    lemma_pow2_pos(1034);
    lemma_magnitude_order(0, MAX_JUMP_DEG);
    assert(magnitude_units(0) == 0);
}

/// A level platform is a plausible estimate.
pub proof fn lemma_level_is_plausible(x: Seq<Scalar>)
    requires
        x.len() >= 2,
        forall|i: int| 0 <= i < x.len() ==> (#[trigger] x[i]).bits == 0,
    ensures
        plausible(x),
{
    let zero = Scalar { bits: 0 };
    assert(x[0] == zero && x[1] == zero);
    assert(magnitude_units(0) == 0);
    law_product_respects_order(zero, Scalar { bits: DEG_PER_RAD }, zero);
    assert(0 * (Scalar { bits: DEG_PER_RAD }).units() == 0 && 0 * pow2(1074) == 0)
        by (nonlinear_arith);
    law_absolute_drops_sign(zero.in_degrees());
    lemma_magnitude_order(0, MAX_ANGLE_DEG);
}

/// The values of some numbers.
proof fn lemma_values()
    ensures
        (Scalar { bits: 0x4050_0000_0000_0000 }).units() == pow2(1080),
        (Scalar { bits: 0x4040_0000_0000_0000 }).units() == pow2(1079),
        2 * (Scalar { bits: MAX_JUMP_DEG }).units() == 5 * pow2(1077),
        pow2(1079) <= (Scalar { bits: DEG_PER_RAD }).units() < pow2(1080),
        pow2(1080) == 64 * pow2(1074),
        pow2(1079) == 32 * pow2(1074),
        pow2(1077) == 8 * pow2(1074),
        pow2(1076) == 4 * pow2(1074),
        pow2(1027) == 32 * pow2(1022),
        pow2(1026) == 16 * pow2(1022),
        pow2(1023) == 2 * pow2(1022),
        pow2(1034) == 4096 * pow2(1022),
{
    lemma_powers();
    let range = FRACTION_RANGE as int;
    lemma_composed(1028, range);
    lemma_composed(1027, range);
    lemma_composed(1026, range + range / 4);
    lemma_pow2_adds(52, 1028);
    lemma_pow2_adds(52, 1027);
    lemma_pow2_adds(52, 1026);
    lemma_pow2_adds(52, 1025);
    lemma_pow2_adds(50, 1026);
    vstd::arithmetic::power2::lemma2_to64_rest();
    lemma_pow2_adds(1, 1076);
    assert(range + range / 4 == 5 * pow2(50));
    assert((5 * pow2(50)) * pow2(1026) == 5 * (pow2(50) * pow2(1026))) by (nonlinear_arith);
    assert((Scalar { bits: 0x4050_0000_0000_0000 }).magnitude() == 1028 * range + range);
    assert((Scalar { bits: 0x4040_0000_0000_0000 }).magnitude() == 1027 * range + range);
    assert((Scalar { bits: MAX_JUMP_DEG }).magnitude() == 1026 * range + (range + range / 4));
    lemma_magnitude_order(DEG_PER_RAD, 0x4050_0000_0000_0000);
    lemma_magnitude_order(DEG_PER_RAD, 0x4040_0000_0000_0000);
    lemma_pow2_unfold(1080);
    lemma_pow2_unfold(1079);
    lemma_pow2_unfold(1078);
    lemma_pow2_unfold(1077);
    lemma_pow2_unfold(1076);
    lemma_pow2_unfold(1075);
    vstd::arithmetic::power2::lemma2_to64();
    lemma_pow2_adds(5, 1022);
    lemma_pow2_adds(4, 1022);
    lemma_pow2_adds(1, 1022);
    lemma_pow2_adds(12, 1022);
}

/// The change of an angle that is judged, and the change of the angle that is
/// shown, differ by roundings only.
proof fn lemma_change_of_angle(x1: Scalar, x2: Scalar)
    requires
        x1.finite(),
        x2.finite(),
        !(Scalar { bits: MAX_ANGLE_DEG }).lt(x1.in_degrees().absolute()),
        !(Scalar { bits: MAX_ANGLE_DEG }).lt(x2.in_degrees().absolute()),
        !(Scalar { bits: MAX_JUMP_DEG }).lt(x2.minus(x1).in_degrees().absolute()),
    ensures
        ({
            let most = (Scalar { bits: MAX_JUMP_DEG }).units() + pow2(1034);
            -most <= x2.in_degrees().units() - x1.in_degrees().units() <= most
        }),
{
    let c = Scalar { bits: DEG_PER_RAD };
    let one = pow2(1074) as int;
    let tiny = pow2(1022) as int;
    let cu = c.units();
    lemma_values();
    lemma_powers();
    lemma_pow2_pos(1074);
    lemma_pow2_pos(1022);
    assert(c.finite());
    lemma_degrees_are_nearly_exact(x1);
    lemma_degrees_are_nearly_exact(x2);
    let (u1, u2) = (x1.units(), x2.units());
    // The difference.
    crate::scalar::law_negation_reverses_value(x1);
    let back = x1.negated();
    assert(back.finite());
    let d = x2.minus(x1);
    law_sum_is_nearly_exact(x2, back, 1023);
    let du = d.units();
    assert(-tiny <= du - (u2 - u1) <= tiny);
    // The change that is judged.
    let j = d.in_degrees();
    let limit = Scalar { bits: 0x4040_0000_0000_0000 };
    lemma_small_product(d, limit, MAX_JUMP_DEG);
    lemma_pow2_adds(53, 1026);
    law_product_is_nearly_exact(d, c, 1026);
    law_absolute_drops_sign(j);
    let ju = j.units();
    let jump = (Scalar { bits: MAX_JUMP_DEG }).units();
    assert(-jump <= ju <= jump);
    // The changes that are shown.
    let (t1, t2) = (x1.in_degrees().units(), x2.in_degrees().units());
    let dc = du * cu;
    let diff = (u2 - u1) * cu;
    assert(diff == u2 * cu - u1 * cu) by (nonlinear_arith)
        requires
            diff == (u2 - u1) * cu,
    ;
    assert(-(64 * one * tiny) <= dc - diff <= 64 * one * tiny) by (nonlinear_arith)
        requires
            dc == du * cu,
            diff == (u2 - u1) * cu,
            -tiny <= du - (u2 - u1) <= tiny,
            0 <= cu <= 64 * one,
            tiny > 0,
    ;
    let a = pow2(1027) * one;
    let b = pow2(1026) * one;
    assert(a == 32 * (tiny * one) && b == 16 * (tiny * one)) by (nonlinear_arith)
        requires
            a == (32 * tiny) * one,
            b == (16 * tiny) * one,
    ;
    assert(64 * one * tiny == 64 * (tiny * one)) by (nonlinear_arith);
    assert(-jump * one <= ju * one <= jump * one) by (nonlinear_arith)
        requires
            -jump <= ju <= jump,
            one > 0,
    ;
    assert((t2 - t1) * one == t2 * one - t1 * one) by (nonlinear_arith);
    let most = jump + 4096 * tiny;
    assert(jump * one + 4096 * (tiny * one) == most * one) by (nonlinear_arith)
        requires
            most == jump + 4096 * tiny,
    ;
    assert(-jump * one - 4096 * (tiny * one) == -most * one) by (nonlinear_arith)
        requires
            most == jump + 4096 * tiny,
    ;
    assert(tiny * one > 0) by (nonlinear_arith)
        requires
            tiny > 0,
            one > 0,
    ;
    assert(-most * one <= (t2 - t1) * one <= most * one);
    assert(-most <= t2 - t1 <= most) by (nonlinear_arith)
        requires
            -most * one <= (t2 - t1) * one <= most * one,
            one > 0,
    ;
}

/// What is at most `bound` degrees, and so below the larger `limit`, is below
/// `limit` before rounding too.
proof fn lemma_small_product(x: Scalar, limit: Scalar, bound: u64)
    requires
        x.finite(),
        bound < limit.bits,
        limit.bits < crate::scalar::INFINITY_BITS,
        !(Scalar { bits: bound }).lt(x.in_degrees().absolute()),
    ensures
        -(limit.units() * pow2(1074)) < x.units() * (Scalar { bits: DEG_PER_RAD }).units(),
        x.units() * (Scalar { bits: DEG_PER_RAD }).units() < limit.units() * pow2(1074),
{
    let c = Scalar { bits: DEG_PER_RAD };
    let t = x.in_degrees();
    assert(c.finite());
    crate::scalar::law_negation_reverses_value(limit);
    law_absolute_drops_sign(t);
    lemma_magnitude_order(bound, limit.bits);
    law_product_respects_order(x, c, limit);
    law_product_respects_order(x, c, limit.negated());
    assert((-limit.units()) * pow2(1074) == -(limit.units() * pow2(1074))) by (nonlinear_arith);
}

/// A plausible angle in degrees is nearly exact, and small in radians.
proof fn lemma_degrees_are_nearly_exact(x: Scalar)
    requires
        x.finite(),
        !(Scalar { bits: MAX_ANGLE_DEG }).lt(x.in_degrees().absolute()),
    ensures
        ({
            let exact = x.units() * (Scalar { bits: DEG_PER_RAD }).units();
            &&& -(pow2(1027) * pow2(1074)) <= 2 * (x.in_degrees().units() * pow2(1074) - exact)
                <= pow2(1027) * pow2(1074)
            &&& -2 * pow2(1074) < x.units() < 2 * pow2(1074)
        }),
{
    let c = Scalar { bits: DEG_PER_RAD };
    let limit = Scalar { bits: 0x4050_0000_0000_0000 };
    lemma_values();
    lemma_pow2_pos(1074);
    lemma_small_product(x, limit, MAX_ANGLE_DEG);
    assert(c.finite());
    law_product_is_nearly_exact(x, c, 1027);
    let one = pow2(1074) as int;
    let (u, cu) = (x.units(), c.units());
    assert(-2 * one < u < 2 * one) by (nonlinear_arith)
        requires
            -((64 * one) * one) < u * cu < (64 * one) * one,
            cu >= 32 * one,
            one > 0,
    ;
}

/// An estimate that passes the guard shows angles close to those before it.
pub proof fn law_accepted_estimate_is_close(before: Seq<Scalar>, x: Seq<Scalar>)
    requires
        before.len() >= 2,
        x.len() >= 2,
        plausible(before),
        !diverged(x, Some(before)),
    ensures
        close_to(tilt_of(before), tilt_of(x)),
{
    assert(before[0].finite() && before[1].finite() && x[0].finite() && x[1].finite());
    lemma_change_of_angle(before[0], x[0]);
    lemma_change_of_angle(before[1], x[1]);
}

/// The largest roll or pitch that is 50 degrees at most, in radians, as bits.
pub const CALM_ANGLE_RAD: u64 = 0x3FEB_ECDE_5DA1_15A8;

/// The largest change of roll or pitch that is 20 degrees at most, in radians, as bits.
pub const CALM_JUMP_RAD: u64 = 0x3FD6_5718_4AE7_4487;

/// What these two limits are worth in degrees.
proof fn lemma_calm_limits()
    ensures
        ({
            let one = pow2(1074) as int;
            let c = (Scalar { bits: DEG_PER_RAD }).units();
            let (a, j) = (Scalar { bits: CALM_ANGLE_RAD }, Scalar { bits: CALM_JUMP_RAD });
            &&& one > 0
            &&& c > 0
            &&& a.finite() && j.finite()
            &&& 0 < j.units() < a.units()
            &&& a.units() * c <= (Scalar { bits: MAX_ANGLE_DEG }).units() * one
            &&& j.units() * c <= (Scalar { bits: MAX_JUMP_DEG }).units() * one
        }),
{
    lemma_powers();
    vstd::arithmetic::power2::lemma2_to64();
    vstd::arithmetic::power2::lemma2_to64_rest();
    lemma_parts(CALM_ANGLE_RAD);
    lemma_parts(CALM_JUMP_RAD);
    lemma_parts(DEG_PER_RAD);
    lemma_parts(MAX_ANGLE_DEG);
    lemma_parts(MAX_JUMP_DEG);
    assert(magnitude_units(0) == 0);
    lemma_magnitude_order(0, CALM_JUMP_RAD);
    lemma_magnitude_order(CALM_JUMP_RAD, CALM_ANGLE_RAD);
    lemma_magnitude_order(0, DEG_PER_RAD);
    lemma_pow2_pos(1074);
    let one = pow2(1074) as int;
    let c = (Scalar { bits: DEG_PER_RAD }).units();
    let (pa, pj, pc) = (pow2(1021) as int, pow2(1020) as int, pow2(1027) as int);
    lemma_pow2_pos(1020);
    lemma_pow2_pos(1021);
    lemma_pow2_pos(1027);
    lemma_pow2_adds(47, 1027);
    lemma_pow2_adds(53, 1021);
    lemma_pow2_adds(54, 1020);
    lemma_pow2_unfold(54);
    let (sa, sj, sc) = (
        significand_of(CALM_ANGLE_RAD) as int,
        significand_of(CALM_JUMP_RAD) as int,
        significand_of(DEG_PER_RAD) as int,
    );
    assert(places_of(CALM_ANGLE_RAD) == 1021 && places_of(CALM_JUMP_RAD) == 1020 && places_of(
        DEG_PER_RAD,
    ) == 1027);
    assert(sa == 0x1B_ECDE_5DA1_15A8 && sj == 0x16_5718_4AE7_4487 && sc == 0x1C_A5DC_1A63_C1F8);
    // 50 and 20, in units.
    let (limit_a, limit_j) = (
        (Scalar { bits: MAX_ANGLE_DEG }).units(),
        (Scalar { bits: MAX_JUMP_DEG }).units(),
    );
    assert(significand_of(MAX_ANGLE_DEG) == 50 * 0x8000_0000_0000u64 && places_of(MAX_ANGLE_DEG)
        == 1027);
    assert(significand_of(MAX_JUMP_DEG) == 20 * 0x1_0000_0000_0000u64 && places_of(MAX_JUMP_DEG)
        == 1026);
    lemma_pow2_adds(48, 1026);
    let p26 = pow2(1026) as int;
    assert((50 * 0x8000_0000_0000int) * pc == 50 * (0x8000_0000_0000int * pc)) by (nonlinear_arith);
    assert((20 * 0x1_0000_0000_0000int) * p26 == 20 * (0x1_0000_0000_0000int * p26))
        by (nonlinear_arith);
    assert(limit_a == 50 * one && limit_j == 20 * one);
    assert(sa * sc <= 50 * (0x20_0000_0000_0000int * 0x8000_0000_0000int)) by (nonlinear_arith)
        requires
            sa == 0x1B_ECDE_5DA1_15A8,
            sc == 0x1C_A5DC_1A63_C1F8,
    ;
    assert(sj * sc <= 20 * (0x40_0000_0000_0000int * 0x8000_0000_0000int)) by (nonlinear_arith)
        requires
            sj == 0x16_5718_4AE7_4487,
            sc == 0x1C_A5DC_1A63_C1F8,
    ;
    assert((sa * pa) * (sc * pc) <= (50 * one) * one) by (nonlinear_arith)
        requires
            sa * sc <= 50 * (0x20_0000_0000_0000int * 0x8000_0000_0000int),
            one == 0x20_0000_0000_0000int * pa,
            one == 0x8000_0000_0000int * pc,
            pa > 0,
            pc > 0,
    {
        assert((sa * pa) * (sc * pc) == (sa * sc) * (pa * pc));
        assert((50 * one) * one == (50 * (0x20_0000_0000_0000int * 0x8000_0000_0000int)) * (pa
            * pc));
        assert(pa * pc > 0);
    }
    assert((sj * pj) * (sc * pc) <= (20 * one) * one) by (nonlinear_arith)
        requires
            sj * sc <= 20 * (0x40_0000_0000_0000int * 0x8000_0000_0000int),
            one == 0x40_0000_0000_0000int * pj,
            one == 0x8000_0000_0000int * pc,
            pj > 0,
            pc > 0,
    {
        assert((sj * pj) * (sc * pc) == (sj * sc) * (pj * pc));
        assert((20 * one) * one == (20 * (0x40_0000_0000_0000int * 0x8000_0000_0000int)) * (pj
            * pc));
        assert(pj * pc > 0);
    }
}

/// What is within `limit` radians either way is within `deg` degrees either way.
proof fn lemma_within(x: Scalar, limit: Scalar, deg: u64)
    requires
        x.finite(),
        limit.finite(),
        deg < crate::scalar::INFINITY_BITS,
        -limit.units() <= x.units() <= limit.units(),
        limit.units() * (Scalar { bits: DEG_PER_RAD }).units() <= (Scalar { bits: deg }).units()
            * pow2(1074),
    ensures
        !(Scalar { bits: deg }).lt(x.in_degrees().absolute()),
{
    let c = Scalar { bits: DEG_PER_RAD };
    let y = Scalar { bits: deg };
    lemma_calm_limits();
    assert(c.finite());
    law_negation_reverses_value(y);
    let (u, l, cu, yu, one) = (x.units(), limit.units(), c.units(), y.units(), pow2(1074) as int);
    assert(u * cu <= yu * one && (-yu) * one <= u * cu) by (nonlinear_arith)
        requires
            -l <= u <= l,
            l * cu <= yu * one,
            cu > 0,
    ;
    law_product_respects_order(x, c, y);
    law_product_respects_order(x, c, y.negated());
    law_absolute_drops_sign(x.in_degrees());
}

/// An estimate is not thrown away without a reason: with finite numbers, roll and
/// pitch of at most 50 degrees each, and changes of at most 20 degrees each since the
/// estimate before, if there is one.
pub proof fn law_calm_estimate_is_accepted(x: Seq<Scalar>, before: Option<Seq<Scalar>>)
    requires
        x.len() >= 2,
        forall|i: int|
            0 <= i < x.len() ==> (#[trigger] x[i]).bits % SIGN_BIT < crate::scalar::INFINITY_BITS,
        ({
            let most = (Scalar { bits: CALM_ANGLE_RAD }).units();
            -most <= x[0].units() <= most && -most <= x[1].units() <= most
        }),
        before matches Some(b) ==> {
            let most = (Scalar { bits: CALM_JUMP_RAD }).units();
            &&& b.len() >= 2
            &&& b[0].finite() && b[1].finite()
            &&& -most <= x[0].units() - b[0].units() <= most
            &&& -most <= x[1].units() - b[1].units() <= most
        },
    ensures
        !diverged(x, before),
{
    lemma_calm_limits();
    let (a, j) = (Scalar { bits: CALM_ANGLE_RAD }, Scalar { bits: CALM_JUMP_RAD });
    assert(x[0].finite() && x[1].finite());
    assert(all_finite(x));
    lemma_within(x[0], a, MAX_ANGLE_DEG);
    lemma_within(x[1], a, MAX_ANGLE_DEG);
    if let Some(b) = before {
        law_negation_reverses_value(j);
        lemma_change_within(x[0], b[0], j);
        lemma_change_within(x[1], b[1], j);
        lemma_within(x[0].minus(b[0]), j, MAX_JUMP_DEG);
        lemma_within(x[1].minus(b[1]), j, MAX_JUMP_DEG);
    }
}

proof fn lemma_change_within(x: Scalar, b: Scalar, limit: Scalar)
    requires
        x.finite(),
        b.finite(),
        limit.finite(),
        -limit.units() <= x.units() - b.units() <= limit.units(),
    ensures
        x.minus(b).finite(),
        -limit.units() <= x.minus(b).units() <= limit.units(),
{
    law_negation_reverses_value(b);
    law_negation_reverses_value(limit);
    law_sum_respects_order(x, b.negated(), limit);
    law_sum_respects_order(x, b.negated(), limit.negated());
    let d = x.minus(b);
    assert(magnitude_units(0) == 0);
    lemma_magnitude_order(0, limit.magnitude());
    lemma_magnitude_order(0, d.magnitude());
    lemma_magnitude_order(limit.magnitude(), d.magnitude());
}

/// An estimate that is taken over has finite numbers, and roll and pitch of at most 50
/// degrees each, within 2^-47 degrees: degrees are radians times 180 / pi.
pub proof fn law_accepted_angles_are_small(
    x: Seq<Scalar>,
    before: Option<Seq<Scalar>>,
    i: int,
)
    requires
        x.len() >= 2,
        0 <= i < 2,
        !diverged(x, before),
    ensures
        forall|k: int| 0 <= k < x.len() ==> (#[trigger] x[k]).bits % SIGN_BIT
            < crate::scalar::INFINITY_BITS,
        ({
            let exact = x[i].units() * (Scalar { bits: DEG_PER_RAD }).units();
            let most = ((Scalar { bits: MAX_ANGLE_DEG }).units() + pow2(1027)) * pow2(1074);
            -most <= exact <= most
        }),
{
    assert forall|k: int| 0 <= k < x.len() implies (#[trigger] x[k]).bits % SIGN_BIT
        < crate::scalar::INFINITY_BITS by {
        assert(x[k].finite());
    }
    assert(x[i].finite());
    lemma_degrees_are_nearly_exact(x[i]);
    let t = x[i].in_degrees();
    law_product_respects_order(x[i], Scalar { bits: DEG_PER_RAD }, Scalar { bits: 0 });
    law_absolute_drops_sign(t);
    let exact = x[i].units() * (Scalar { bits: DEG_PER_RAD }).units();
    let (tu, m, w, one) = (
        t.units(),
        (Scalar { bits: MAX_ANGLE_DEG }).units(),
        pow2(1027) as int,
        pow2(1074) as int,
    );
    lemma_pow2_pos(1074);
    lemma_pow2_pos(1027);
    assert(-((m + w) * one) <= exact <= (m + w) * one) by (nonlinear_arith)
        requires
            -(w * one) <= 2 * (tu * one - exact) <= w * one,
            -m <= tu <= m,
            w > 0,
            one > 0,
    ;
}

/// An estimate that is taken over after another one has changed roll and pitch by at
/// most 20 degrees each, within 2^-45 degrees.
pub proof fn law_accepted_change_is_small(x: Seq<Scalar>, before: Seq<Scalar>, i: int)
    requires
        x.len() >= 2,
        before.len() >= 2,
        0 <= i < 2,
        before[i].finite(),
        -2 * pow2(1074) < before[i].units() < 2 * pow2(1074),
        !diverged(x, Some(before)),
    ensures
        ({
            let exact = (x[i].units() - before[i].units()) * (Scalar {
                bits: DEG_PER_RAD,
            }).units();
            let most = ((Scalar { bits: MAX_JUMP_DEG }).units() + pow2(1029)) * pow2(1074);
            -most <= exact <= most
        }),
{
    let c = Scalar { bits: DEG_PER_RAD };
    let one = pow2(1074) as int;
    let tiny = pow2(1022) as int;
    let cu = c.units();
    lemma_values();
    lemma_powers();
    lemma_pow2_pos(1074);
    lemma_pow2_pos(1022);
    assert(c.finite() && x[i].finite());
    lemma_degrees_are_nearly_exact(x[i]);
    let (u1, u2) = (before[i].units(), x[i].units());
    law_negation_reverses_value(before[i]);
    let back = before[i].negated();
    assert(back.finite());
    let d = x[i].minus(before[i]);
    law_sum_is_nearly_exact(x[i], back, 1023);
    let du = d.units();
    let j = d.in_degrees();
    let limit = Scalar { bits: 0x4040_0000_0000_0000 };
    lemma_small_product(d, limit, MAX_JUMP_DEG);
    law_product_is_nearly_exact(d, c, 1026);
    law_absolute_drops_sign(j);
    law_product_respects_order(d, c, Scalar { bits: 0 });
    let ju = j.units();
    let jump = (Scalar { bits: MAX_JUMP_DEG }).units();
    let w = pow2(1026) as int;
    let z = pow2(1029) as int;
    lemma_pow2_adds(3, 1026);
    vstd::arithmetic::power2::lemma2_to64();
    let exact = (u2 - u1) * cu;
    assert(-((jump + z) * one) <= exact <= (jump + z) * one) by (nonlinear_arith)
        requires
            exact == (u2 - u1) * cu,
            -(w * one) <= 2 * (ju * one - du * cu) <= w * one,
            -jump <= ju <= jump,
            -tiny <= du - (u2 - u1) <= tiny,
            0 <= cu <= 64 * one,
            w == 16 * tiny,
            z == 8 * w,
            tiny > 0,
            one > 0,
    {
        let off = du - (u2 - u1);
        assert(exact == du * cu - off * cu);
        assert(-(64 * one * tiny) <= off * cu <= 64 * one * tiny);
    }
}

} // verus!
