//! What both control loops compute from their estimate and from the positions of
//! the masses.

use crate::binary64::{
    law_difference_is_nearly_exact, law_difference_tells_order, law_product_is_nearly_exact,
    law_product_respects_order, law_sum_is_nearly_exact, law_sum_respects_order, lemma_composed,
    lemma_powers, DEG_PER_RAD, RAD_PER_DEG,
};
use crate::rail::{gate_held, PerAxis, D_MAX, D_MIN, ZERO};
use crate::scalar::{
    all_finite, law_absolute_drops_sign, law_negation_reverses_value, lemma_magnitude_order,
    magnitude_units, Scalar, FRACTION_RANGE,
};
use vstd::arithmetic::power2::{lemma_pow2_adds, lemma_pow2_pos, lemma_pow2_unfold, pow2};
use vstd::prelude::*;

verus! {

/// A quarter, as bits.
pub const QUARTER: u64 = 0x3FD0_0000_0000_0000;

/// Roll and pitch of the estimate `x` minus the angles to track, in radians.
pub open spec fn error_of(x: Seq<Scalar>, setpoint_deg: [Scalar; 2]) -> [Scalar; 2] {
    [x[0].minus(setpoint_deg[0].in_radians()), x[1].minus(setpoint_deg[1].in_radians())]
}

/// The integrated error after `e` has been there for `plant_t` seconds.
pub open spec fn integrated(e_int: [Scalar; 2], e: [Scalar; 2], plant_t: Scalar) -> [Scalar; 2] {
    [e_int[0].plus(plant_t.times(e[0])), e_int[1].plus(plant_t.times(e[1]))]
}

/// Two angles in degrees.
pub open spec fn pair_in_degrees(e: [Scalar; 2]) -> [Scalar; 2] {
    [e[0].in_degrees(), e[1].in_degrees()]
}

/// Two angles in radians.
pub open spec fn pair_in_radians(e: [Scalar; 2]) -> [Scalar; 2] {
    [e[0].in_radians(), e[1].in_radians()]
}

/// The three rates of a state, in degrees.
pub open spec fn rates_in_degrees(x: [Scalar; 5]) -> [Scalar; 3] {
    [x[2].in_degrees(), x[3].in_degrees(), x[4].in_degrees()]
}

/// How far each of the positions `a` is from `b`.
pub open spec fn distances(a: PerAxis, b: PerAxis) -> PerAxis {
    [a[0].minus(b[0]), a[1].minus(b[1]), a[2].minus(b[2]), a[3].minus(b[3])]
}

/// The positions `a`, each moved by `b`.
pub open spec fn moved(a: PerAxis, b: PerAxis) -> PerAxis {
    [a[0].plus(b[0]), a[1].plus(b[1]), a[2].plus(b[2]), a[3].plus(b[3])]
}

/// What the motors are asked for: axis 2 moves by its distance from where it was
/// measured, the others move to the position that is commanded.
pub open spec fn motor_targets(d_cmd: PerAxis, d_meas: PerAxis) -> PerAxis {
    [d_cmd[0], d_cmd[1].minus(d_meas[1]), d_cmd[2], d_cmd[3]]
}

/// The mean of four positions.
pub open spec fn mean_of(d: PerAxis) -> Scalar {
    (Scalar { bits: ZERO }).plus(d[0]).plus(d[1]).plus(d[2]).plus(d[3]).times(
        Scalar { bits: QUARTER },
    )
}

/// How far the masses may go from the mean of where they are, to either end of
/// the rails.
pub open spec fn room_of(d_meas: PerAxis) -> (Scalar, Scalar) {
    let mean = mean_of(d_meas);
    ((Scalar { bits: D_MIN }).minus(mean), (Scalar { bits: D_MAX }).minus(mean))
}

/// Roll and pitch of the estimate minus the angles to track: see [`error_of`].
pub fn tracking_error(x: &[Scalar], setpoint_deg: [Scalar; 2]) -> (e: [Scalar; 2])
    requires
        x@.len() >= 2,
    ensures
        e == error_of(x@, setpoint_deg),
{
    [x[0].sub(setpoint_deg[0].to_radians()), x[1].sub(setpoint_deg[1].to_radians())]
}

/// The integrated error after one cycle more: see [`integrated`].
pub fn integrate(e_int: [Scalar; 2], e: [Scalar; 2], plant_t: Scalar) -> (res: [Scalar; 2])
    ensures
        res == integrated(e_int, e, plant_t),
{
    [e_int[0].add(plant_t.mul(e[0])), e_int[1].add(plant_t.mul(e[1]))]
}

/// Two angles in degrees.
pub fn pair_to_degrees(e: [Scalar; 2]) -> (res: [Scalar; 2])
    ensures
        res == pair_in_degrees(e),
{
    [e[0].to_degrees(), e[1].to_degrees()]
}

/// Two angles in radians.
pub fn pair_to_radians(e: [Scalar; 2]) -> (res: [Scalar; 2])
    ensures
        res == pair_in_radians(e),
{
    [e[0].to_radians(), e[1].to_radians()]
}

/// The three rates of a state, in degrees.
pub fn rates_to_degrees(x: [Scalar; 5]) -> (res: [Scalar; 3])
    ensures
        res == rates_in_degrees(x),
{
    [x[2].to_degrees(), x[3].to_degrees(), x[4].to_degrees()]
}

/// How far each of the positions `a` is from `b`.
pub fn measure_distances(a: PerAxis, b: PerAxis) -> (res: PerAxis)
    ensures
        res == distances(a, b),
{
    [a[0].sub(b[0]), a[1].sub(b[1]), a[2].sub(b[2]), a[3].sub(b[3])]
}

/// The positions `a`, each moved by `b`.
pub fn move_each(a: PerAxis, b: PerAxis) -> (res: PerAxis)
    ensures
        res == moved(a, b),
{
    [a[0].add(b[0]), a[1].add(b[1]), a[2].add(b[2]), a[3].add(b[3])]
}

/// What the motors are asked for: see [`motor_targets`].
pub fn aim_motors(d_cmd: PerAxis, d_meas: PerAxis) -> (res: PerAxis)
    ensures
        res == motor_targets(d_cmd, d_meas),
{
    [d_cmd[0], d_cmd[1].sub(d_meas[1]), d_cmd[2], d_cmd[3]]
}

/// How far the masses may go: see [`room_of`].
pub fn measure_room(d_meas: PerAxis) -> (res: (Scalar, Scalar))
    ensures
        res == room_of(d_meas),
{
    let zero = Scalar { bits: ZERO };
    let sum = zero.add(d_meas[0]).add(d_meas[1]).add(d_meas[2]).add(d_meas[3]);
    let mean = sum.mul(Scalar { bits: QUARTER });
    ((Scalar { bits: D_MIN }).sub(mean), (Scalar { bits: D_MAX }).sub(mean))
}

/// One mass: how its distance is judged before and after rounding.
proof fn lemma_distance_is_judged(at: Scalar, from: Scalar, tolerance: Scalar)
    requires
        at.finite(),
        from.finite(),
        !tolerance.nan(),
        tolerance.units() >= 0,
    ensures
        ({
            let exact = at.units() - from.units();
            let beyond = tolerance.lt(at.minus(from).absolute());
            &&& beyond ==> exact > tolerance.units() || exact < -tolerance.units()
            &&& !beyond && -pow2(1077) < exact < pow2(1077) ==> {
                let most = tolerance.units() + pow2(1023);
                -most <= exact <= most
            }
        }),
{
    let back = from.negated();
    law_negation_reverses_value(from);
    law_negation_reverses_value(tolerance);
    law_absolute_drops_sign(at.minus(from));
    law_sum_respects_order(at, back, tolerance);
    law_sum_respects_order(at, back, tolerance.negated());
    let exact = at.units() - from.units();
    if -pow2(1077) < exact < pow2(1077) {
        law_sum_is_nearly_exact(at, back, 1024);
        lemma_pow2_unfold(1024);
    }
}

/// The tracking gate goes by the distance between the measured and the commanded
/// positions: it holds the command only if a mass is further from its command
/// than the tolerance. It lets none pass that is further by more than 2^-51 m,
/// which is for rounding, among distances below 8 m.
pub proof fn law_gate_goes_by_distance(d_meas: PerAxis, d_cmd: PerAxis, tolerance: Scalar)
    requires
        all_finite(d_meas@),
        all_finite(d_cmd@),
        !tolerance.nan(),
        tolerance.units() >= 0,
    ensures
        gate_held(distances(d_meas, d_cmd), tolerance) ==> exists|i: int|
            0 <= i < 4 && {
                let exact = (#[trigger] d_meas[i]).units() - d_cmd[i].units();
                exact > tolerance.units() || exact < -tolerance.units()
            },
        !gate_held(distances(d_meas, d_cmd), tolerance) ==> forall|i: int|
            0 <= i < 4 ==> {
                let exact = (#[trigger] d_meas[i]).units() - d_cmd[i].units();
                let most = tolerance.units() + pow2(1023);
                -pow2(1077) < exact < pow2(1077) ==> -most <= exact <= most
            },
{
    let gap = distances(d_meas, d_cmd);
    assert(magnitude_units(0) == 0);
    assert forall|i: int| 0 <= i < 4 implies ({
        let exact = (#[trigger] d_meas[i]).units() - d_cmd[i].units();
        let beyond = tolerance.lt(gap[i].absolute());
        &&& beyond ==> exact > tolerance.units() || exact < -tolerance.units()
        &&& !beyond && -pow2(1077) < exact < pow2(1077) ==> {
            let most = tolerance.units() + pow2(1023);
            -most <= exact <= most
        }
    }) by {
        assert(d_meas@[i].finite() && d_cmd@[i].finite());
        lemma_distance_is_judged(d_meas[i], d_cmd[i], tolerance);
    }
    if gate_held(gap, tolerance) {
        let i = choose|i: int| 0 <= i < 4 && tolerance.lt((#[trigger] gap[i]).absolute());
        assert(0 <= i < 4 && tolerance.lt(gap[i].absolute()));
        assert(d_meas[i] == d_meas[i]);
    } else {
        assert forall|i: int| 0 <= i < 4 implies ({
            let exact = (#[trigger] d_meas[i]).units() - d_cmd[i].units();
            let most = tolerance.units() + pow2(1023);
            -pow2(1077) < exact < pow2(1077) ==> -most <= exact <= most
        }) by {
            assert(!tolerance.lt(gap[i].absolute()));
        }
    }
}

/// Powers of two and factors that the laws below go by.
pub proof fn lemma_scales()
    ensures
        ({
            let one = pow2(1074) as int;
            &&& one > 0
            &&& pow2(1077) == 8 * one
            &&& pow2(1079) == 32 * one
            &&& pow2(1082) == 256 * one
            &&& pow2(1083) == 512 * one
            &&& pow2(1084) == 1024 * one
            &&& pow2(1090) == 65536 * one
            &&& pow2(1095) == 2097152 * one
            &&& pow2(1025) == 2 * pow2(1024)
            &&& pow2(1026) == 4 * pow2(1024)
            &&& pow2(1029) == 32 * pow2(1024)
            &&& pow2(1037) == 8192 * pow2(1024)
            &&& pow2(1042) == 262144 * pow2(1024)
            &&& pow2(1024) == 2 * pow2(1023)
            &&& pow2(1024) > 0
            &&& 0 < (Scalar { bits: RAD_PER_DEG }).units()
            &&& 32 * (Scalar { bits: RAD_PER_DEG }).units() < one
            &&& 32 * one < (Scalar { bits: DEG_PER_RAD }).units() < 64 * one
        }),
{
    lemma_powers();
    vstd::arithmetic::power2::lemma2_to64();
    let range = FRACTION_RANGE as int;
    lemma_pow2_pos(1074);
    lemma_pow2_pos(1024);
    lemma_pow2_adds(3, 1074);
    lemma_pow2_adds(5, 1074);
    lemma_pow2_adds(8, 1074);
    lemma_pow2_adds(9, 1074);
    lemma_pow2_adds(10, 1074);
    lemma_pow2_adds(16, 1074);
    lemma_pow2_adds(21, 1074);
    lemma_pow2_adds(1, 1024);
    lemma_pow2_adds(2, 1024);
    lemma_pow2_adds(5, 1024);
    lemma_pow2_adds(13, 1024);
    lemma_pow2_adds(18, 1024);
    lemma_pow2_unfold(1024);
    // 1/32, 32 and 64.
    lemma_composed(1017, range);
    lemma_composed(1027, range);
    lemma_composed(1028, range);
    assert((1017 * range + range) as u64 == 0x3FA0_0000_0000_0000);
    assert((1027 * range + range) as u64 == 0x4040_0000_0000_0000);
    assert((1028 * range + range) as u64 == 0x4050_0000_0000_0000);
    lemma_pow2_adds(52, 1017);
    lemma_pow2_adds(5, 1069);
    lemma_pow2_adds(52, 1027);
    lemma_pow2_adds(52, 1028);
    lemma_pow2_adds(6, 1074);
    lemma_magnitude_order(0, RAD_PER_DEG);
    assert(magnitude_units(0) == 0);
    lemma_magnitude_order(RAD_PER_DEG, 0x3FA0_0000_0000_0000);
    lemma_magnitude_order(0x4040_0000_0000_0000, DEG_PER_RAD);
    lemma_magnitude_order(DEG_PER_RAD, 0x4050_0000_0000_0000);
}

/// An angle of at most 1024 degrees in radians: it is off by at most half of 2^-48
/// units of one.
proof fn lemma_radians_are_near(s: Scalar)
    requires
        s.finite(),
        -pow2(1084) <= s.units() <= pow2(1084),
    ensures
        ({
            let off = s.in_radians().units() * pow2(1074) - s.units() * (Scalar {
                bits: RAD_PER_DEG,
            }).units();
            let most = pow2(1026) * pow2(1074);
            &&& s.in_radians().finite()
            &&& -most <= 2 * off <= most
            &&& -pow2(1079) <= s.in_radians().units() <= pow2(1079)
        }),
{
    lemma_scales();
    let c = Scalar { bits: RAD_PER_DEG };
    let one = pow2(1074) as int;
    let (u, cu) = (s.units(), c.units());
    assert(c.finite());
    assert(-((32 * one) * one) < u * cu < (32 * one) * one) by (nonlinear_arith)
        requires
            -(1024 * one) <= u <= 1024 * one,
            0 < cu,
            32 * cu < one,
            one > 0,
    ;
    law_product_is_nearly_exact(s, c, 1026);
    let limit = Scalar { bits: 0x4040_0000_0000_0000 };
    let range = FRACTION_RANGE as int;
    lemma_powers();
    lemma_composed(1027, range);
    lemma_pow2_adds(52, 1027);
    assert((1027 * range + range) as u64 == 0x4040_0000_0000_0000);
    assert(limit.units() == 32 * one);
    law_negation_reverses_value(limit);
    law_product_respects_order(s, c, limit);
    law_product_respects_order(s, c, limit.negated());
    assert((-(32 * one)) * one == -((32 * one) * one)) by (nonlinear_arith);
}

/// Each tracking error is the angle of the estimate minus the angle to track: it has
/// the sign of that difference, and is zero exactly if the estimate is at the angle
/// to track, in radians.
pub proof fn law_error_is_estimate_minus_setpoint(
    x: Seq<Scalar>,
    setpoint_deg: [Scalar; 2],
    i: int,
)
    requires
        0 <= i < 2,
        x.len() >= 2,
        x[i].finite(),
        setpoint_deg[i].in_radians().finite(),
    ensures
        ({
            let e = error_of(x, setpoint_deg)[i].units();
            let target = setpoint_deg[i].in_radians().units();
            &&& e == 0 <==> x[i].units() == target
            &&& e > 0 <==> x[i].units() > target
            &&& e < 0 <==> x[i].units() < target
        }),
{
    law_difference_tells_order(x[i], setpoint_deg[i].in_radians());
}

/// Each tracking error, in radians, is the angle of the estimate minus pi / 180 times
/// the angle to track, within 2^-47: for angles of at most 8 radians and 1024 degrees.
pub proof fn law_error_is_near(x: Seq<Scalar>, setpoint_deg: [Scalar; 2], i: int)
    requires
        0 <= i < 2,
        x.len() >= 2,
        x[i].finite(),
        setpoint_deg[i].finite(),
        -pow2(1077) <= x[i].units() <= pow2(1077),
        -pow2(1084) <= setpoint_deg[i].units() <= pow2(1084),
    ensures
        ({
            let e = error_of(x, setpoint_deg)[i];
            let off = (e.units() - x[i].units()) * pow2(1074) + setpoint_deg[i].units() * (Scalar {
                bits: RAD_PER_DEG,
            }).units();
            let most = pow2(1027) * pow2(1074);
            &&& e.finite()
            &&& -most <= off <= most
        }),
{
    lemma_scales();
    let s = setpoint_deg[i];
    let r = s.in_radians();
    lemma_radians_are_near(s);
    lemma_pow2_adds(1, 1079);
    lemma_powers();
    law_difference_is_nearly_exact(x[i], r, 1027);
    let one = pow2(1074) as int;
    let e = x[i].minus(r);
    let (eu, xu, ru) = (e.units(), x[i].units(), r.units());
    let a = pow2(1026) as int;
    let b = pow2(1027) as int;
    lemma_pow2_unfold(1027);
    let exact = s.units() * (Scalar { bits: RAD_PER_DEG }).units();
    assert(-(b * one) <= (eu - xu) * one + exact <= b * one) by (nonlinear_arith)
        requires
            -b <= 2 * (eu - (xu - ru)) <= b,
            -(a * one) <= 2 * (ru * one - exact) <= a * one,
            b == 2 * a,
            a >= 0,
            one > 0,
    ;
}

/// An integrated error grows where the error is positive, falls where it is
/// negative, and stays where it is zero, each axis by its own error.
pub proof fn law_integral_follows_error(
    e_int: [Scalar; 2],
    e: [Scalar; 2],
    plant_t: Scalar,
    i: int,
)
    requires
        0 <= i < 2,
        e_int[i].finite(),
        e[i].finite(),
        plant_t.finite(),
        plant_t.units() > 0,
        plant_t.times(e[i]).finite(),
    ensures
        ({
            let after = integrated(e_int, e, plant_t)[i].units();
            &&& e[i].units() == 0 ==> after == e_int[i].units()
            &&& e[i].units() >= 0 ==> after >= e_int[i].units()
            &&& e[i].units() <= 0 ==> after <= e_int[i].units()
        }),
{
    let zero = Scalar { bits: 0 };
    assert(magnitude_units(0) == 0);
    assert(0 * pow2(1074) == 0) by (nonlinear_arith);
    let (t, u) = (plant_t.units(), e[i].units());
    assert((u >= 0 ==> t * u >= 0) && (u <= 0 ==> t * u <= 0)) by (nonlinear_arith)
        requires
            t > 0,
    ;
    law_product_respects_order(plant_t, e[i], zero);
    law_sum_respects_order(e_int[i], plant_t.times(e[i]), e_int[i]);
}

/// An integrated error grows by the error times the time, within 2^-32: for errors of
/// at most 8 radians, times of at most 32 seconds and integrals below 2^20.
pub proof fn law_integral_is_near(
    e_int: [Scalar; 2],
    e: [Scalar; 2],
    plant_t: Scalar,
    i: int,
)
    requires
        0 <= i < 2,
        e_int[i].finite(),
        e[i].finite(),
        plant_t.finite(),
        -pow2(1077) <= e[i].units() <= pow2(1077),
        0 <= plant_t.units() <= pow2(1079),
        -1048576 * pow2(1074) <= e_int[i].units() <= 1048576 * pow2(1074),
    ensures
        ({
            let after = integrated(e_int, e, plant_t)[i];
            let off = (after.units() - e_int[i].units()) * pow2(1074) - plant_t.units()
                * e[i].units();
            let most = pow2(1042) * pow2(1074);
            &&& after.finite()
            &&& -most <= off <= most
        }),
{
    lemma_scales();
    let one = pow2(1074) as int;
    let (t, u) = (plant_t.units(), e[i].units());
    lemma_powers();
    assert(-((512 * one) * one) < t * u < (512 * one) * one) by (nonlinear_arith)
        requires
            0 <= t <= 32 * one,
            -(8 * one) <= u <= 8 * one,
            one > 0,
    ;
    lemma_pow2_adds(1, 1029);
    lemma_pow2_adds(12, 1030);
    lemma_pow2_adds(44, 1030);
    vstd::arithmetic::power2::lemma2_to64();
    vstd::arithmetic::power2::lemma2_to64_rest();
    law_product_is_nearly_exact(plant_t, e[i], 1030);
    let p = plant_t.times(e[i]);
    let (pu, s, w) = (p.units(), pow2(1030) as int, pow2(1042) as int);
    assert(-(1000000 * one) <= pu <= 1000000 * one) by (nonlinear_arith)
        requires
            -(s * one) <= 2 * (pu * one - t * u) <= s * one,
            -((512 * one) * one) < t * u < (512 * one) * one,
            0 <= s <= one,
            one > 0,
    ;
    law_sum_is_nearly_exact(e_int[i], p, 1042);
    let (au, bu) = (integrated(e_int, e, plant_t)[i].units(), e_int[i].units());
    assert(-(w * one) <= (au - bu) * one - t * u <= w * one) by (nonlinear_arith)
        requires
            -w <= 2 * (au - (bu + pu)) <= w,
            -(s * one) <= 2 * (pu * one - t * u) <= s * one,
            s <= w,
            s >= 0,
            one > 0,
    ;
}

/// What is shown in degrees, or taken in radians, belongs to the same axis as the
/// angle that it comes from, and has its sign. The rates of a state are its last
/// three numbers, in their order.
pub proof fn law_conversions_keep_axes(e: [Scalar; 2], x: [Scalar; 5], i: int, k: int)
    requires
        0 <= i < 2,
        0 <= k < 3,
        e[i].finite(),
        x[2 + k].finite(),
    ensures
        pair_in_degrees(e)[i] == e[i].times(Scalar { bits: DEG_PER_RAD }),
        pair_in_radians(e)[i] == e[i].times(Scalar { bits: RAD_PER_DEG }),
        rates_in_degrees(x)[k] == x[2 + k].times(Scalar { bits: DEG_PER_RAD }),
        e[i].units() >= 0 ==> pair_in_degrees(e)[i].units() >= 0 && pair_in_radians(e)[i].units()
            >= 0,
        e[i].units() <= 0 ==> pair_in_degrees(e)[i].units() <= 0 && pair_in_radians(e)[i].units()
            <= 0,
        x[2 + k].units() >= 0 ==> rates_in_degrees(x)[k].units() >= 0,
        x[2 + k].units() <= 0 ==> rates_in_degrees(x)[k].units() <= 0,
{
    lemma_scales();
    lemma_factor_keeps_sign(e[i], DEG_PER_RAD);
    lemma_factor_keeps_sign(e[i], RAD_PER_DEG);
    lemma_factor_keeps_sign(x[2 + k], DEG_PER_RAD);
}

proof fn lemma_factor_keeps_sign(x: Scalar, factor: u64)
    requires
        x.finite(),
        (Scalar { bits: factor }).finite(),
        (Scalar { bits: factor }).units() > 0,
    ensures
        x.units() >= 0 ==> x.times(Scalar { bits: factor }).units() >= 0,
        x.units() <= 0 ==> x.times(Scalar { bits: factor }).units() <= 0,
{
    let c = Scalar { bits: factor };
    let zero = Scalar { bits: 0 };
    assert(magnitude_units(0) == 0);
    assert(0 * pow2(1074) == 0) by (nonlinear_arith);
    let (u, cu) = (x.units(), c.units());
    assert((u >= 0 ==> u * cu >= 0) && (u <= 0 ==> u * cu <= 0)) by (nonlinear_arith)
        requires
            cu > 0,
    ;
    law_product_respects_order(x, c, zero);
}

/// Each distance is that of the same axis: positive exactly if the first position is
/// the larger one, zero exactly if both are the same, and exact within 2^-51 m below
/// 8 m.
pub proof fn law_distances_are_per_axis(a: PerAxis, b: PerAxis, i: int)
    requires
        0 <= i < 4,
        a[i].finite(),
        b[i].finite(),
    ensures
        ({
            let d = distances(a, b)[i].units();
            let exact = a[i].units() - b[i].units();
            &&& d > 0 <==> exact > 0
            &&& d == 0 <==> exact == 0
            &&& d < 0 <==> exact < 0
            &&& -pow2(1077) < exact < pow2(1077) ==> -pow2(1023) <= d - exact <= pow2(1023)
        }),
{
    law_difference_tells_order(a[i], b[i]);
    lemma_scales();
    let exact = a[i].units() - b[i].units();
    if -pow2(1077) < exact < pow2(1077) {
        law_difference_is_nearly_exact(a[i], b[i], 1024);
    }
}

/// Each position moves by the step of the same axis: forward, backward or not at all
/// as the step says, and exactly within 2^-51 m below 8 m.
pub proof fn law_moves_are_per_axis(a: PerAxis, b: PerAxis, i: int)
    requires
        0 <= i < 4,
        a[i].finite(),
        b[i].finite(),
    ensures
        ({
            let d = moved(a, b)[i].units();
            let exact = a[i].units() + b[i].units();
            &&& b[i].units() >= 0 ==> d >= a[i].units()
            &&& b[i].units() <= 0 ==> d <= a[i].units()
            &&& -pow2(1077) < exact < pow2(1077) ==> -pow2(1023) <= d - exact <= pow2(1023)
        }),
{
    law_sum_respects_order(a[i], b[i], a[i]);
    lemma_scales();
    let exact = a[i].units() + b[i].units();
    if -pow2(1077) < exact < pow2(1077) {
        law_sum_is_nearly_exact(a[i], b[i], 1024);
    }
}

/// Every motor but the second is sent to the commanded position of its own axis. The
/// second is moved by what is missing from its measured to its commanded position.
pub proof fn law_motors_aim_at_their_commands(d_cmd: PerAxis, d_meas: PerAxis)
    ensures
        motor_targets(d_cmd, d_meas)[0] == d_cmd[0],
        motor_targets(d_cmd, d_meas)[2] == d_cmd[2],
        motor_targets(d_cmd, d_meas)[3] == d_cmd[3],
        d_cmd[1].finite() && d_meas[1].finite() ==> {
            let by = motor_targets(d_cmd, d_meas)[1].units();
            let exact = d_cmd[1].units() - d_meas[1].units();
            &&& by > 0 <==> exact > 0
            &&& by == 0 <==> exact == 0
            &&& -pow2(1077) < exact < pow2(1077) ==> -pow2(1023) <= by - exact <= pow2(1023)
        },
{
    if d_cmd[1].finite() && d_meas[1].finite() {
        law_distances_are_per_axis(d_cmd, d_meas, 1);
    }
}

/// One summand more, of at most 1 m, onto a sum of at most 4 m.
proof fn lemma_next_summand(a: Scalar, d: Scalar)
    requires
        a.finite(),
        d.finite(),
        -4 * pow2(1074) <= a.units() <= 4 * pow2(1074),
        -pow2(1074) <= d.units() <= pow2(1074),
    ensures
        a.plus(d).finite(),
        -pow2(1023) <= a.plus(d).units() - (a.units() + d.units()) <= pow2(1023),
{
    lemma_scales();
    law_sum_is_nearly_exact(a, d, 1024);
}

/// Four positions of at most 1 m each, and their mean.
proof fn lemma_mean_is_near(d: PerAxis)
    requires
        d[0].finite() && d[1].finite() && d[2].finite() && d[3].finite(),
        -pow2(1074) <= d[0].units() <= pow2(1074),
        -pow2(1074) <= d[1].units() <= pow2(1074),
        -pow2(1074) <= d[2].units() <= pow2(1074),
        -pow2(1074) <= d[3].units() <= pow2(1074),
    ensures
        ({
            let sum = d[0].units() + d[1].units() + d[2].units() + d[3].units();
            &&& mean_of(d).finite()
            &&& -pow2(1027) <= 4 * mean_of(d).units() - sum <= pow2(1027)
        }),
{
    lemma_scales();
    let one = pow2(1074) as int;
    let tiny = pow2(1023) as int;
    lemma_pow2_adds(51, 1023);
    lemma_pow2_adds(4, 1023);
    vstd::arithmetic::power2::lemma2_to64();
    vstd::arithmetic::power2::lemma2_to64_rest();
    let zero = Scalar { bits: ZERO };
    assert(magnitude_units(0) == 0);
    let sum = d[0].units() + d[1].units() + d[2].units() + d[3].units();
    let s = zero.plus(d[0]).plus(d[1]).plus(d[2]).plus(d[3]);
    assert(s.finite() && -4 * tiny <= s.units() - sum <= 4 * tiny) by {
        lemma_next_summand(zero, d[0]);
        let a = zero.plus(d[0]);
        lemma_next_summand(a, d[1]);
        let b = a.plus(d[1]);
        lemma_next_summand(b, d[2]);
        let c = b.plus(d[2]);
        lemma_next_summand(c, d[3]);
    }
    let quarter = Scalar { bits: QUARTER };
    lemma_quarter();
    let (su, qu) = (s.units(), quarter.units());
    assert(-((8 * one) * one) < su * qu < (8 * one) * one) by (nonlinear_arith)
        requires
            -(5 * one) <= su <= 5 * one,
            4 * qu == one,
            one > 0,
    ;
    law_product_is_nearly_exact(s, quarter, 1024);
    let mean = s.times(quarter);
    let (mu, w) = (mean.units(), pow2(1024) as int);
    assert(-(4 * w) <= 2 * (4 * mu - su) <= 4 * w) by (nonlinear_arith)
        requires
            -(w * one) <= 2 * (mu * one - su * qu) <= w * one,
            4 * qu == one,
            one > 0,
    ;
}

proof fn lemma_quarter()
    ensures
        4 * (Scalar { bits: QUARTER }).units() == pow2(1074),
        (Scalar { bits: QUARTER }).finite(),
{
    lemma_powers();
    let range = FRACTION_RANGE as int;
    lemma_composed(1020, range);
    lemma_pow2_adds(52, 1020);
    lemma_pow2_adds(2, 1072);
    vstd::arithmetic::power2::lemma2_to64();
    assert((1020 * range + range) as u64 == QUARTER);
}

/// The ends of the rails lie between 0 and 1 m.
proof fn lemma_ends()
    ensures
        (Scalar { bits: D_MIN }).finite() && (Scalar { bits: D_MAX }).finite(),
        0 <= (Scalar { bits: D_MIN }).units() <= pow2(1074),
        0 <= (Scalar { bits: D_MAX }).units() <= pow2(1074),
{
    lemma_powers();
    let range = FRACTION_RANGE as int;
    lemma_composed(1022, range);
    lemma_pow2_adds(52, 1022);
    assert((1022 * range + range) as u64 == 0x3FF0_0000_0000_0000);
    assert(magnitude_units(0) == 0);
    lemma_magnitude_order(0, D_MIN);
    lemma_magnitude_order(0, D_MAX);
    lemma_magnitude_order(D_MIN, 0x3FF0_0000_0000_0000);
    lemma_magnitude_order(D_MAX, 0x3FF0_0000_0000_0000);
}

/// The room from a mean to an end.
proof fn lemma_room(end: Scalar, mean: Scalar, sum: int)
    requires
        end.finite() && mean.finite(),
        0 <= end.units() <= pow2(1074),
        -4 * pow2(1074) <= sum <= 4 * pow2(1074),
        -pow2(1027) <= 4 * mean.units() - sum <= pow2(1027),
    ensures
        -pow2(1028) <= 4 * end.minus(mean).units() + sum - 4 * end.units() <= pow2(1028),
{
    lemma_scales();
    lemma_pow2_adds(3, 1024);
    lemma_pow2_adds(4, 1024);
    lemma_pow2_adds(47, 1027);
    vstd::arithmetic::power2::lemma2_to64();
    vstd::arithmetic::power2::lemma2_to64_rest();
    law_difference_is_nearly_exact(end, mean, 1024);
}

/// The room of the masses: from the mean of where they are, within rounding, it
/// reaches down to the lower and up to the upper end of the rails. For positions
/// between -1 m and 1 m, four times the room plus their sum is four times the end,
/// within 2^-46 m.
pub proof fn law_room_reaches_the_ends(d: PerAxis)
    requires
        forall|i: int|
            0 <= i < 4 ==> (#[trigger] d[i]).finite() && -pow2(1074) <= d[i].units() <= pow2(1074),
    ensures
        ({
            let (low, high) = ((Scalar { bits: D_MIN }).units(), (Scalar { bits: D_MAX }).units());
            let sum = d[0].units() + d[1].units() + d[2].units() + d[3].units();
            let (lower, upper) = (room_of(d).0.units(), room_of(d).1.units());
            &&& -pow2(1028) <= 4 * lower + sum - 4 * low <= pow2(1028)
            &&& -pow2(1028) <= 4 * upper + sum - 4 * high <= pow2(1028)
        }),
{
    assert(d[0].finite() && d[1].finite() && d[2].finite() && d[3].finite());
    lemma_mean_is_near(d);
    lemma_ends();
    let sum = d[0].units() + d[1].units() + d[2].units() + d[3].units();
    lemma_room(Scalar { bits: D_MIN }, mean_of(d), sum);
    lemma_room(Scalar { bits: D_MAX }, mean_of(d), sum);
}

/// Each tracking error in degrees is the angle of the estimate in degrees minus the
/// angle to track, within 2^-40 degrees: for angles of at most 2 radians and 256
/// degrees. Both sides are multiplied by one twice, in units.
pub proof fn law_error_in_degrees_is_near(x: Seq<Scalar>, setpoint_deg: [Scalar; 2], i: int)
    requires
        0 <= i < 2,
        x.len() >= 2,
        x[i].finite(),
        setpoint_deg[i].finite(),
        -2 * pow2(1074) <= x[i].units() <= 2 * pow2(1074),
        -pow2(1082) <= setpoint_deg[i].units() <= pow2(1082),
    ensures
        ({
            let one = pow2(1074) as int;
            let e_deg = pair_in_degrees(error_of(x, setpoint_deg))[i];
            let exact = x[i].units() * one - setpoint_deg[i].units() * (Scalar {
                bits: RAD_PER_DEG,
            }).units();
            let off = (e_deg.units() * one) * one - exact * (Scalar { bits: DEG_PER_RAD }).units();
            let most = (pow2(1034) * one) * one;
            -most <= off <= most
        }),
{
    lemma_scales();
    law_error_is_near(x, setpoint_deg, i);
    let one = pow2(1074) as int;
    let e = error_of(x, setpoint_deg)[i];
    let c = Scalar { bits: DEG_PER_RAD };
    let r = (Scalar { bits: RAD_PER_DEG }).units();
    let (eu, xu, su, cu) = (e.units(), x[i].units(), setpoint_deg[i].units(), c.units());
    let (a, b) = (pow2(1027) as int, pow2(1026) as int);
    lemma_pow2_adds(3, 1024);
    lemma_pow2_adds(50, 1024);
    lemma_pow2_adds(10, 1024);
    lemma_pow2_adds(12, 1024);
    vstd::arithmetic::power2::lemma2_to64();
    vstd::arithmetic::power2::lemma2_to64_rest();
    let w = pow2(1024) as int;
    let exact = xu * one - su * r;
    assert((eu - xu) * one + su * r == eu * one - exact) by (nonlinear_arith)
        requires
            exact == xu * one - su * r,
    ;
    assert(-(11 * one) <= eu <= 11 * one) by (nonlinear_arith)
        requires
            -((8 * w) * one) <= (eu - xu) * one + su * r <= (8 * w) * one,
            -(2 * one) <= xu <= 2 * one,
            -(256 * one) <= su <= 256 * one,
            0 < r,
            32 * r < one,
            0x1_0000 * w <= one,
            w > 0,
    {
        assert(su * r <= 8 * (one * one) && -(8 * (one * one)) <= su * r);
    }
    assert(-((1024 * one) * one) < eu * cu < (1024 * one) * one) by (nonlinear_arith)
        requires
            -(11 * one) <= eu <= 11 * one,
            0 < cu < 64 * one,
            one > 0,
    ;
    lemma_powers();
    assert(c.finite());
    lemma_pow2_adds(7, 1024);
    law_product_is_nearly_exact(e, c, 1031);
    let t = e.times(c).units();
    assert(-((1024 * w * one) * one) <= (t * one) * one - exact * cu <= (1024 * w * one) * one)
        by (nonlinear_arith)
        requires
            -((128 * w) * one) <= 2 * (t * one - eu * cu) <= (128 * w) * one,
            -((8 * w) * one) <= eu * one - exact <= (8 * w) * one,
            0 < cu < 64 * one,
            w > 0,
            one > 0,
    {
        let off = eu * one - exact;
        assert(exact * cu == (eu * cu) * one - off * cu);
        assert(-((8 * w * one) * (64 * one)) <= off * cu <= (8 * w * one) * (64 * one));
        assert(2 * (t * one - eu * cu) * one <= (128 * w * one) * one);
        assert(2 * (t * one - eu * cu) * one >= -((128 * w * one) * one));
    }
}

/// A cycle of `plant_t` seconds adds the tracking error times these seconds to the
/// integral of each axis, within 2^-31: for angles of at most 2 radians and 128
/// degrees, at most 32 seconds, and integrals below 2^20.
pub proof fn law_cycle_integrates_error(
    x: Seq<Scalar>,
    setpoint_deg: [Scalar; 2],
    e_int: [Scalar; 2],
    plant_t: Scalar,
    i: int,
)
    requires
        0 <= i < 2,
        x.len() >= 2,
        x[i].finite(),
        setpoint_deg[i].finite(),
        e_int[i].finite(),
        plant_t.finite(),
        -2 * pow2(1074) <= x[i].units() <= 2 * pow2(1074),
        -pow2(1081) <= setpoint_deg[i].units() <= pow2(1081),
        0 <= plant_t.units() <= pow2(1079),
        -1048576 * pow2(1074) <= e_int[i].units() <= 1048576 * pow2(1074),
    ensures
        ({
            let one = pow2(1074) as int;
            let after = integrated(e_int, error_of(x, setpoint_deg), plant_t)[i];
            let exact = x[i].units() * one - setpoint_deg[i].units() * (Scalar {
                bits: RAD_PER_DEG,
            }).units();
            let off = ((after.units() - e_int[i].units()) * one) * one - plant_t.units() * exact;
            let most = (pow2(1043) * one) * one;
            -most <= off <= most
        }),
{
    lemma_scales();
    lemma_pow2_unfold(1082);
    law_error_is_near(x, setpoint_deg, i);
    let one = pow2(1074) as int;
    let e = error_of(x, setpoint_deg);
    let r = (Scalar { bits: RAD_PER_DEG }).units();
    let (eu, xu, su, tu) = (e[i].units(), x[i].units(), setpoint_deg[i].units(), plant_t.units());
    let w = pow2(1024) as int;
    lemma_pow2_adds(3, 1024);
    lemma_pow2_adds(50, 1024);
    lemma_pow2_adds(18, 1024);
    lemma_pow2_adds(19, 1024);
    vstd::arithmetic::power2::lemma2_to64();
    vstd::arithmetic::power2::lemma2_to64_rest();
    let exact = xu * one - su * r;
    assert((eu - xu) * one + su * r == eu * one - exact) by (nonlinear_arith)
        requires
            exact == xu * one - su * r,
    ;
    assert(-(8 * one) <= eu <= 8 * one) by (nonlinear_arith)
        requires
            -((8 * w) * one) <= (eu - xu) * one + su * r <= (8 * w) * one,
            -(2 * one) <= xu <= 2 * one,
            -(128 * one) <= su <= 128 * one,
            0 < r,
            32 * r < one,
            0x1_0000 * w <= one,
            w > 0,
    {
        assert(su * r <= 4 * (one * one) && -(4 * (one * one)) <= su * r);
    }
    law_integral_is_near(e_int, e, plant_t, i);
    let d = integrated(e_int, e, plant_t)[i].units() - e_int[i].units();
    let m = pow2(1042) as int;
    assert(-((2 * m * one) * one) <= (d * one) * one - tu * exact <= (2 * m * one) * one)
        by (nonlinear_arith)
        requires
            -(m * one) <= d * one - tu * eu <= m * one,
            -((8 * w) * one) <= eu * one - exact <= (8 * w) * one,
            0 <= tu <= 32 * one,
            m == 0x4_0000 * w,
            w > 0,
            one > 0,
    {
        let off = eu * one - exact;
        assert(tu * exact == (tu * eu) * one - tu * off);
        assert(-((32 * one) * (8 * w * one)) <= tu * off <= (32 * one) * (8 * w * one));
        assert((d * one - tu * eu) * one <= (m * one) * one);
        assert((d * one - tu * eu) * one >= -((m * one) * one));
    }
}

} // verus!
