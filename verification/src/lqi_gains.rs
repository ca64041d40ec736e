//! The gains of the linear-quadratic controller: which weights are accepted,
//! the problem they pose, and which solutions are used.

use crate::commands::TuneWeights;
use crate::dare::DareResult;
use crate::matrix::{diagonal_entry, grid, Matrix};
use crate::scalar::{all_finite, is_all_finite, Scalar};
use vstd::prelude::*;

verus! {

/// The tolerance of the Riccati recursion, 1e-10, as bits.
pub const DARE_TOLERANCE: u64 = 0x3DDB_7CDF_D9D7_BDBB;

/// The largest number of turns of the Riccati recursion.
pub const DARE_MAX_ITER: usize = 2000;

/// Default weights, as bits: 100 on the angles.
pub const DEFAULT_QX_ANGLE: u64 = 0x4059_0000_0000_0000;

/// 50 on the roll and pitch rates and on the torques.
pub const DEFAULT_QX_RATE: u64 = 0x4049_0000_0000_0000;

/// 25 on the yaw rate.
pub const DEFAULT_QX_YAW_RATE: u64 = 0x4039_0000_0000_0000;

/// 1 on the integrated errors.
pub const DEFAULT_QI: u64 = 0x3FF0_0000_0000_0000;

/// Default largest change of a position in one cycle, 0.05 m, as bits.
pub const DEFAULT_DU_MAX: u64 = 0x3FA9_9999_9999_999A;

/// Default tolerance of the tracking gate, 0.08 m, as bits.
pub const DEFAULT_D_TRACK_TOL: u64 = 0x3FB4_7AE1_47AE_147B;

/// The weights of the linear-quadratic controller.
#[derive(Debug, Clone, Copy)]
pub struct LqiWeights {
    /// On the attitude states.
    pub qx: [Scalar; 5],
    /// On the integrated tracking errors.
    pub qi: [Scalar; 2],
    /// On the torques.
    pub r: Scalar,
    /// The largest change of a position in one cycle, in metres.
    pub du_max: Scalar,
    /// The tolerance of the tracking gate, in metres.
    pub d_track_tol: Scalar,
}

/// The default weights.
pub open spec fn default_lqi_weights() -> LqiWeights {
    LqiWeights {
        qx: [
            Scalar { bits: DEFAULT_QX_ANGLE },
            Scalar { bits: DEFAULT_QX_ANGLE },
            Scalar { bits: DEFAULT_QX_RATE },
            Scalar { bits: DEFAULT_QX_RATE },
            Scalar { bits: DEFAULT_QX_YAW_RATE },
        ],
        qi: [Scalar { bits: DEFAULT_QI }, Scalar { bits: DEFAULT_QI }],
        r: Scalar { bits: DEFAULT_QX_RATE },
        du_max: Scalar { bits: DEFAULT_DU_MAX },
        d_track_tol: Scalar { bits: DEFAULT_D_TRACK_TOL },
    }
}

impl Default for LqiWeights {
    fn default() -> (w: LqiWeights)
        ensures
            w == default_lqi_weights(),
    {
        let angle = Scalar { bits: DEFAULT_QX_ANGLE };
        let rate = Scalar { bits: DEFAULT_QX_RATE };
        let qi = Scalar { bits: DEFAULT_QI };
        LqiWeights {
            qx: [angle, angle, rate, rate, Scalar { bits: DEFAULT_QX_YAW_RATE }],
            qi: [qi, qi],
            r: rate,
            du_max: Scalar { bits: DEFAULT_DU_MAX },
            d_track_tol: Scalar { bits: DEFAULT_D_TRACK_TOL },
        }
    }
}

/// The weights of the operator that this controller has a use for.
pub open spec fn lqi_weights_of(w: TuneWeights) -> LqiWeights {
    LqiWeights { qx: w.q, qi: w.qi, r: w.r, du_max: w.du_max, d_track_tol: w.d_track_tol }
}

impl From<TuneWeights> for LqiWeights {
    fn from(w: TuneWeights) -> (res: LqiWeights) {
        LqiWeights { qx: w.q, qi: w.qi, r: w.r, du_max: w.du_max, d_track_tol: w.d_track_tol }
    }
}

impl vstd::std_specs::convert::FromSpecImpl<TuneWeights> for LqiWeights {
    open spec fn obeys_from_spec() -> bool {
        true
    }

    open spec fn from_spec(w: TuneWeights) -> LqiWeights {
        lqi_weights_of(w)
    }
}

/// Every number of `v` is finite and not negative.
pub open spec fn all_nonnegative(v: Seq<Scalar>) -> bool {
    forall|i: int|
        0 <= i < v.len() ==> (#[trigger] v[i]).finite() && !v[i].lt(Scalar { bits: 0 })
}

/// The weights pose a problem with a solution: the torque weight is positive,
/// and no other weight is negative.
pub open spec fn acceptable(w: LqiWeights) -> bool {
    &&& (Scalar { bits: 0 }).lt(w.r) && w.r.finite()
    &&& all_nonnegative(w.qx@)
    &&& all_nonnegative(w.qi@)
}

fn is_all_nonnegative(v: &[Scalar]) -> (res: bool)
    ensures
        res == all_nonnegative(v@),
{
    let mut i: usize = 0;
    while i < v.len()
        invariant
            i <= v@.len(),
            forall|j: int|
                0 <= j < i ==> (#[trigger] v@[j]).finite() && !v@[j].lt(Scalar { bits: 0 }),
        decreases v@.len() - i,
    {
        if !v[i].is_finite() || v[i].less(Scalar { bits: 0 }) {
            return false;
        }
        i = i + 1;
    }
    true
}

/// The weights on the seven states of the problem.
pub open spec fn state_weights(w: LqiWeights) -> Seq<Scalar> {
    w.qx@ + w.qi@
}

/// The weights on the three torques.
pub open spec fn torque_weights(w: LqiWeights) -> Seq<Scalar> {
    seq![w.r, w.r, w.r]
}

/// The weight matrices of the problem that `w` poses, if it is accepted: on the
/// seven states, and on the three torques.
pub fn gain_problem(w: &LqiWeights) -> (res: Option<(Matrix, Matrix)>)
    ensures
        res is Some <==> acceptable(*w),
        res is Some ==> (res->0).0.is_grid(
            7,
            7,
            |i: int, j: int| diagonal_entry(state_weights(*w), i, j),
        ),
        res is Some ==> (res->0).1.is_grid(
            3,
            3,
            |i: int, j: int| diagonal_entry(torque_weights(*w), i, j),
        ),
{
    let zero = Scalar { bits: 0 };
    if !zero.less(w.r) || !w.r.is_finite() {
        return None;
    }
    if !is_all_nonnegative(w.qx.as_slice()) || !is_all_nonnegative(w.qi.as_slice()) {
        return None;
    }
    let states: [Scalar; 7] = [
        w.qx[0], w.qx[1], w.qx[2], w.qx[3], w.qx[4], w.qi[0], w.qi[1],
    ];
    let torques: [Scalar; 3] = [w.r, w.r, w.r];
    assert(states@ =~= state_weights(*w));
    assert(torques@ =~= torque_weights(*w));
    Some((Matrix::diag(states.as_slice()), Matrix::diag(torques.as_slice())))
}

/// Every entry of `m` is finite.
pub open spec fn finite_matrix(m: Matrix) -> bool {
    forall|i: int| 0 <= i < m@.len() ==> all_finite(#[trigger] m@[i])
}

/// The gains on the attitude and on the integrated errors, out of the gain on
/// all seven states, if the recursion settled and every number is finite.
pub fn usable_gains(result: &DareResult) -> (res: Option<(Matrix, Matrix)>)
    requires
        result.k.is_shape(3, 7),
    ensures
        res is Some <==> result.settled && finite_matrix(result.k),
        res is Some ==> (res->0).0.is_grid(3, 5, |i: int, j: int| result.k@[i][j]),
        res is Some ==> (res->0).1.is_grid(3, 2, |i: int, j: int| result.k@[i][j + 5]),
{
    if !result.settled {
        return None;
    }
    let k = &result.k;
    let mut i: usize = 0;
    while i < 3
        invariant
            i <= 3,
            k.is_shape(3, 7),
            *k == result.k,
            forall|a: int| 0 <= a < i ==> all_finite(#[trigger] k@[a]),
        decreases 3 - i,
    {
        assert(k@[i as int] == k.rows@[i as int]@);
        if !is_all_finite(k.rows[i].as_slice()) {
            return None;
        }
        i = i + 1;
    }
    let kx_at = |i: usize, j: usize| -> (x: Scalar)
        requires
            i < 3,
            j < 5,
        ensures
            x == k@[i as int][j as int],
        { k.get(i, j) };
    let ki_at = |i: usize, j: usize| -> (x: Scalar)
        requires
            i < 3,
            j < 2,
        ensures
            x == k@[i as int][j + 5],
        { k.get(i, j + 5) };
    let kx = Matrix::generate(3, 5, kx_at);
    let ki = Matrix::generate(3, 2, ki_at);
    assert(kx@ =~~= grid(3, 5, |i: int, j: int| k@[i][j]));
    assert(ki@ =~~= grid(3, 2, |i: int, j: int| k@[i][j + 5]));
    Some((kx, ki))
}

/// A torque weight of zero, of either sign, is never accepted, and neither is
/// one that is negative or not finite.
pub proof fn law_torque_weight_must_be_positive(w: LqiWeights)
    requires
        w.r.is_negative() || w.r.bits == 0 || !w.r.finite(),
    ensures
        !acceptable(w),
{
    crate::scalar::lemma_magnitude_order(0, w.r.magnitude());
    assert(crate::scalar::magnitude_units(0) == 0);
}

/// The linear-quadratic controller gets the operator's weights, each for what it is
/// named after.
pub proof fn law_lqi_weights_keep_each_weight(w: TuneWeights)
    ensures
        lqi_weights_of(w).qx == w.q,
        lqi_weights_of(w).qi == w.qi,
        lqi_weights_of(w).r == w.r,
        lqi_weights_of(w).du_max == w.du_max,
        lqi_weights_of(w).d_track_tol == w.d_track_tol,
        <LqiWeights as vstd::std_specs::convert::FromSpec<TuneWeights>>::from_spec(w)
            == lqi_weights_of(w),
{
}

/// Which weights pose a problem: the torque weight is above zero and finite, and every
/// weight on a state is at least zero and finite. Nothing else matters.
pub proof fn law_weights_are_accepted_by_sign(w: LqiWeights)
    requires
        !w.r.nan(),
        forall|i: int| 0 <= i < 5 ==> !(#[trigger] w.qx[i]).nan(),
        forall|i: int| 0 <= i < 2 ==> !(#[trigger] w.qi[i]).nan(),
    ensures
        acceptable(w) ==> {
            &&& w.r.finite() && w.r.units() > 0
            &&& forall|i: int| 0 <= i < 5 ==> (#[trigger] w.qx[i]).finite() && w.qx[i].units() >= 0
            &&& forall|i: int| 0 <= i < 2 ==> (#[trigger] w.qi[i]).finite() && w.qi[i].units() >= 0
        },
        !acceptable(w) ==> {
            ||| !w.r.finite() || w.r.units() <= 0
            ||| exists|i: int|
                0 <= i < 5 && (!(#[trigger] w.qx[i]).finite() || w.qx[i].units() < 0)
            ||| exists|i: int|
                0 <= i < 2 && (!(#[trigger] w.qi[i]).finite() || w.qi[i].units() < 0)
        },
{
    assert(crate::scalar::magnitude_units(0) == 0);
    assert forall|i: int| 0 <= i < 5 implies w.qx@[i] == #[trigger] w.qx[i] by {}
    assert forall|i: int| 0 <= i < 2 implies w.qi@[i] == #[trigger] w.qi[i] by {}
    if acceptable(w) {
        assert forall|i: int| 0 <= i < 5 implies (#[trigger] w.qx[i]).finite() && w.qx[i].units()
            >= 0 by {
            assert(w.qx@[i].finite() && !w.qx@[i].lt(Scalar { bits: 0 }));
        }
        assert forall|i: int| 0 <= i < 2 implies (#[trigger] w.qi[i]).finite() && w.qi[i].units()
            >= 0 by {
            assert(w.qi@[i].finite() && !w.qi@[i].lt(Scalar { bits: 0 }));
        }
    } else if w.r.finite() && w.r.units() > 0 {
        if !all_nonnegative(w.qx@) {
            let i = choose|i: int|
                0 <= i < 5 && (!(#[trigger] w.qx@[i]).finite() || w.qx@[i].lt(Scalar { bits: 0 }));
            assert(!w.qx[i].finite() || w.qx[i].units() < 0);
        } else {
            let i = choose|i: int|
                0 <= i < 2 && (!(#[trigger] w.qi@[i]).finite() || w.qi@[i].lt(Scalar { bits: 0 }));
            assert(!w.qi[i].finite() || w.qi[i].units() < 0);
        }
    }
}

/// The seven states are weighted in their order, the five of the attitude before the
/// two integrated errors, and the three torques alike.
pub proof fn law_problem_weighs_each_state(w: LqiWeights, j: int, i: int, k: int)
    requires
        0 <= j < 5,
        0 <= i < 2,
        0 <= k < 3,
    ensures
        state_weights(w).len() == 7,
        state_weights(w)[j] == w.qx[j],
        state_weights(w)[5 + i] == w.qi[i],
        torque_weights(w).len() == 3,
        torque_weights(w)[k] == w.r,
{
}

/// The weights before the operator changes any: 100 for the angles, 50 for their rates
/// and for the torques, 25 for the yaw rate, 1 for the integrals; 0.05 m for a step, 0.08
/// m for the tracking.
pub proof fn law_default_lqi_weights()
    ensures
        ({
            let w = default_lqi_weights();
            &&& w.qx[0].bits == 0x4059_0000_0000_0000 && w.qx[1].bits == w.qx[0].bits
            &&& w.qx[2].bits == 0x4049_0000_0000_0000 && w.qx[3].bits == w.qx[2].bits
            &&& w.qx[4].bits == 0x4039_0000_0000_0000
            &&& w.qi[0].bits == 0x3FF0_0000_0000_0000 && w.qi[1].bits == w.qi[0].bits
            &&& w.r.bits == w.qx[2].bits
            &&& w.du_max.bits == 0x3FA9_9999_9999_999A
            &&& w.d_track_tol.bits == 0x3FB4_7AE1_47AE_147B
        }),
{
}

} // verus!
