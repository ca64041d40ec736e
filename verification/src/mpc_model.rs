//! The plant model and the tuning of the model-predictive controller.
//!
//! The model has eleven states: attitude (roll, pitch and three rates),
//! integrated tracking error (roll and pitch), and the four mass positions,
//! which follow their commands with a first-order lag.

use crate::binary64::{
    law_product_is_nearly_exact, law_sum_is_nearly_exact, lemma_composed, lemma_powers,
};
use crate::geometry::{
    attitude_base, attitude_of_mass, attitude_of_offset, base_entry, influence_entry, mass_entry,
    mass_influence, offset_entry, A_GRAVITY, A_MASS, A_OFFSET, A_YAW,
};
use crate::matrix::{diagonal_entry, grid, Matrix, ONE, ZERO};
use crate::rail::PerAxis;
use crate::scalar::{
    law_negation_reverses_value, lemma_magnitude_order, magnitude_units, Scalar, FRACTION_RANGE,
    SIGN_BIT,
};
use crate::trajectory::{reads_units, sum};
use vstd::arithmetic::power2::{lemma2_to64, lemma_pow2_adds, lemma_pow2_pos, pow2};
use vstd::prelude::*;

verus! {

/// The z-offset of the centre of mass before balancing, -0.0 m, as bits.
pub const MODEL_INIT_R0Z: u64 = 0x8000_0000_0000_0000;

/// The lag factor before balancing, 0.2, as bits.
pub const MODEL_INIT_ALPHA: u64 = 0x3FC9_9999_9999_999A;

/// The z-offset of the centre of mass after balancing, -0.007 m, as bits.
pub const POST_BALANCE_R0Z: u64 = 0xBF7C_AC08_3126_E979;

/// The lag factor after balancing, 0.1, as bits.
pub const POST_BALANCE_ALPHA: u64 = 0x3FB9_9999_9999_999A;

/// How close a z-offset must be to [`POST_BALANCE_R0Z`] to be taken for it,
/// 1e-12 m, as bits.
pub const R0Z_TOLERANCE: u64 = 0x3D71_9799_812D_EA11;

/// The number of binary64 numbers on each side of [`POST_BALANCE_R0Z`] that lie
/// within [`R0Z_TOLERANCE`].
const R0Z_NEIGHBOURS: u64 = 1_152_921;

/// Steps in the horizon.
pub const N_MPC: usize = 5;

/// Weights after balancing, as bits: 100, 50 and 25 on the attitude, 0.3 on the
/// integrated error, 15 on the positions and 150 on changes of the command.
pub const POST_BALANCE_Q_ANGLE: u64 = 0x4059_0000_0000_0000;

pub const POST_BALANCE_Q_RATE: u64 = 0x4049_0000_0000_0000;

pub const POST_BALANCE_Q_YAW_RATE: u64 = 0x4039_0000_0000_0000;

pub const POST_BALANCE_QI: u64 = 0x3FD3_3333_3333_3333;

pub const POST_BALANCE_QD: u64 = 0x402E_0000_0000_0000;

pub const POST_BALANCE_R: u64 = 0x4062_C000_0000_0000;

/// The largest change of a command in one step, and the tolerance of the
/// tracking gate, after balancing: 0.01 m, as bits.
pub const POST_BALANCE_LIMIT: u64 = 0x3F84_7AE1_47AE_147B;

/// The factor from the state weights to those of the last step: 5 after
/// balancing, as bits.
pub const POST_BALANCE_PF_FACTOR: u64 = 0x4014_0000_0000_0000;

/// The factor from the state weights to those of the last step: 0.3 before
/// balancing, as bits.
pub const MODEL_INIT_PF_FACTOR: u64 = 0x3FD3_3333_3333_3333;

/// Number of states.
pub const STATES: usize = 11;

/// Number of masses.
pub const MASSES: usize = 4;

/// A configuration of the model.
#[derive(Debug, Clone, Copy, PartialEq, Eq, Structural)]
pub struct Preset {
    /// The z-offset of the platform's centre of mass, in metres.
    pub r0z: Scalar,
    /// The share of its old position that a mass keeps in one step.
    pub alpha: Scalar,
    /// Steps in the horizon.
    pub n_mpc: usize,
}

/// The configuration before the platform has been balanced in x and y. It uses
/// the weights of the operator.
pub fn preset_model_init() -> (preset: Preset)
    ensures
        preset == (Preset {
            r0z: Scalar { bits: MODEL_INIT_R0Z },
            alpha: Scalar { bits: MODEL_INIT_ALPHA },
            n_mpc: N_MPC,
        }),
        !post_balanced(preset.r0z),
{
    proof {
        lemma_post_balanced(Scalar { bits: MODEL_INIT_R0Z });
    }
    Preset {
        r0z: Scalar { bits: MODEL_INIT_R0Z },
        alpha: Scalar { bits: MODEL_INIT_ALPHA },
        n_mpc: N_MPC,
    }
}

/// The configuration after the platform has been balanced in x and y. It has
/// weights of its own.
pub fn preset_post_balance() -> (preset: Preset)
    ensures
        preset == (Preset {
            r0z: Scalar { bits: POST_BALANCE_R0Z },
            alpha: Scalar { bits: POST_BALANCE_ALPHA },
            n_mpc: N_MPC,
        }),
        post_balanced(preset.r0z),
{
    proof {
        lemma_post_balanced(Scalar { bits: POST_BALANCE_R0Z });
    }
    Preset {
        r0z: Scalar { bits: POST_BALANCE_R0Z },
        alpha: Scalar { bits: POST_BALANCE_ALPHA },
        n_mpc: N_MPC,
    }
}

/// `r0z` is the z-offset after balancing, up to [`R0Z_TOLERANCE`].
pub open spec fn post_balanced(r0z: Scalar) -> bool {
    let difference = r0z.units() - (Scalar { bits: POST_BALANCE_R0Z }).units();
    let tolerance = (Scalar { bits: R0Z_TOLERANCE }).units();
    !r0z.nan() && -tolerance < difference < tolerance
}

/// A z-offset is taken for the one after balancing exactly when it is one of
/// the neighbours of that number.
proof fn lemma_post_balanced(r0z: Scalar)
    ensures
        post_balanced(r0z) <==> POST_BALANCE_R0Z - R0Z_NEIGHBOURS <= r0z.bits <= POST_BALANCE_R0Z
            + R0Z_NEIGHBOURS,
{
    let low: u64 = (POST_BALANCE_R0Z - R0Z_NEIGHBOURS - SIGN_BIT) as u64;
    let mid: u64 = (POST_BALANCE_R0Z - SIGN_BIT) as u64;
    let high: u64 = (POST_BALANCE_R0Z + R0Z_NEIGHBOURS - SIGN_BIT) as u64;
    let below: u64 = (low - 1) as u64;
    let above: u64 = (high + 1) as u64;
    let unit = pow2(982) as int;
    lemma_pow2_pos(982);
    lemma_pow2_adds(982, 32);
    lemma2_to64();
    assert(pow2(1014) == unit * 0x1_0000_0000);
    let range = FRACTION_RANGE as int;
    assert(mid as int / range == 1015 && low as int / range == 1015 && high as int / range == 1015
        && below as int / range == 1015 && above as int / range == 1015);
    let fraction = mid as int % range;
    let k = R0Z_NEIGHBOURS as int;
    assert(low as int % range == fraction - k && high as int % range == fraction + k);
    assert(below as int % range == fraction - k - 1 && above as int % range == fraction + k + 1);
    let step = unit * 0x1_0000_0000;
    let u_mid = magnitude_units(mid);
    assert(u_mid == (range + fraction) * step);
    assert(magnitude_units(low) == (range + fraction - k) * step);
    assert(magnitude_units(high) == (range + fraction + k) * step);
    assert(magnitude_units(below) == (range + fraction - k - 1) * step);
    assert(magnitude_units(above) == (range + fraction + k + 1) * step);
    let tolerance = (Scalar { bits: R0Z_TOLERANCE }).units();
    assert(R0Z_TOLERANCE as int / range == 983);
    let tolerance_fraction = R0Z_TOLERANCE as int % range;
    assert(tolerance == (range + tolerance_fraction) * unit);
    assert(k * 0x1_0000_0000 < range + tolerance_fraction < (k + 1) * 0x1_0000_0000);
    assert((range + fraction) * step - (range + fraction - k) * step == k * step) by (nonlinear_arith);
    assert((range + fraction + k) * step - (range + fraction) * step == k * step) by (nonlinear_arith);
    assert((range + fraction) * step - (range + fraction - k - 1) * step == (k + 1) * step)
        by (nonlinear_arith);
    assert((range + fraction + k + 1) * step - (range + fraction) * step == (k + 1) * step)
        by (nonlinear_arith);
    assert(k * (unit * 0x1_0000_0000) == (k * 0x1_0000_0000) * unit) by (nonlinear_arith);
    assert((k + 1) * (unit * 0x1_0000_0000) == ((k + 1) * 0x1_0000_0000) * unit)
        by (nonlinear_arith);
    assert((k * 0x1_0000_0000) * unit < (range + tolerance_fraction) * unit) by (nonlinear_arith)
        requires
            k * 0x1_0000_0000 < range + tolerance_fraction,
            unit > 0,
    ;
    assert((range + tolerance_fraction) * unit < ((k + 1) * 0x1_0000_0000) * unit)
        by (nonlinear_arith)
        requires
            range + tolerance_fraction < (k + 1) * 0x1_0000_0000,
            unit > 0,
    ;
    let size = r0z.magnitude();
    crate::scalar::lemma_magnitude_order(size, low);
    crate::scalar::lemma_magnitude_order(high, size);
    crate::scalar::lemma_magnitude_order(size, below);
    crate::scalar::lemma_magnitude_order(below, size);
    crate::scalar::lemma_magnitude_order(size, above);
    crate::scalar::lemma_magnitude_order(above, size);
    crate::scalar::lemma_magnitude_order(0, size);
    crate::scalar::lemma_magnitude_order(0, below);
    assert(magnitude_units(0) == 0);
}

/// Whether `r0z` is the z-offset after balancing, up to [`R0Z_TOLERANCE`].
pub fn is_post_balanced(r0z: Scalar) -> (res: bool)
    ensures
        res == post_balanced(r0z),
{
    proof {
        lemma_post_balanced(r0z);
    }
    POST_BALANCE_R0Z - R0Z_NEIGHBOURS <= r0z.bits && r0z.bits <= POST_BALANCE_R0Z + R0Z_NEIGHBOURS
}

/// The weights of the operator.
#[derive(Debug, Clone, Copy)]
pub struct TuningWeights {
    /// On the attitude states.
    pub q: [Scalar; 5],
    /// On the integrated tracking errors.
    pub qi: [Scalar; 2],
    /// On the mass positions.
    pub qd: Scalar,
    /// On changes of the commands.
    pub r: Scalar,
    /// The largest change of a command in one step, in metres.
    pub du_max: Scalar,
    /// The tolerance of the tracking gate, in metres.
    pub d_track_tol: Scalar,
}

/// The assembled model and tuning.
#[derive(Debug)]
pub struct CtrlMats {
    pub ad: Matrix,
    pub bd: Matrix,
    pub gd: Matrix,
    pub q11: Matrix,
    pub r: Matrix,
    /// The weights of the last step.
    pub pf11: Matrix,
    pub n_mpc: usize,
    pub du_max: Scalar,
    pub d_track_tol: Scalar,
}

/// The weights that the configuration after balancing uses.
pub open spec fn post_balance_weights() -> TuningWeights {
    TuningWeights {
        q: [
            Scalar { bits: POST_BALANCE_Q_ANGLE },
            Scalar { bits: POST_BALANCE_Q_ANGLE },
            Scalar { bits: POST_BALANCE_Q_RATE },
            Scalar { bits: POST_BALANCE_Q_RATE },
            Scalar { bits: POST_BALANCE_Q_YAW_RATE },
        ],
        qi: [Scalar { bits: POST_BALANCE_QI }, Scalar { bits: POST_BALANCE_QI }],
        qd: Scalar { bits: POST_BALANCE_QD },
        r: Scalar { bits: POST_BALANCE_R },
        du_max: Scalar { bits: POST_BALANCE_LIMIT },
        d_track_tol: Scalar { bits: POST_BALANCE_LIMIT },
    }
}

/// The weights that `preset` uses: its own after balancing, those of the
/// operator before.
pub open spec fn weights_in_use(preset: Preset, weights: Option<TuningWeights>) -> TuningWeights {
    if post_balanced(preset.r0z) {
        post_balance_weights()
    } else {
        weights->0
    }
}

/// The weights on all eleven states.
pub open spec fn state_diagonal(w: TuningWeights) -> Seq<Scalar> {
    w.q@ + w.qi@ + seq![w.qd, w.qd, w.qd, w.qd]
}

/// The weights on the four inputs.
pub open spec fn input_diagonal(w: TuningWeights) -> Seq<Scalar> {
    seq![w.r, w.r, w.r, w.r]
}

/// The factor from the state weights to those of the last step.
pub open spec fn pf_factor_of(preset: Preset) -> Scalar {
    Scalar {
        bits: if post_balanced(preset.r0z) {
            POST_BALANCE_PF_FACTOR
        } else {
            MODEL_INIT_PF_FACTOR
        },
    }
}

/// The entry at `(i, j)` of the weights of the last step: those of the others,
/// `diagonal`, times `factor`.
pub open spec fn last_step_entry(
    diagonal: Seq<Scalar>,
    factor: Scalar,
    i: int,
    j: int,
) -> Scalar {
    diagonal_entry(diagonal, i, j).times(factor)
}

/// The entry at `(i, j)` of the state matrix of the attitude, linearized at the
/// mass positions `d_op`: the base, what each metre of each mass adds, and what
/// each metre of the z-offset `r0z` adds, in this order.
pub open spec fn attitude_entry(d_op: PerAxis, r0z: Scalar, i: int, j: int) -> Scalar {
    base_entry(i, j).plus(mass_entry(0, i, j).times(d_op[0])).plus(
        mass_entry(1, i, j).times(d_op[1]),
    ).plus(mass_entry(2, i, j).times(d_op[2])).plus(mass_entry(3, i, j).times(d_op[3])).plus(
        offset_entry(i, j).times(r0z),
    )
}

/// The state matrix of the attitude, linearized at the mass positions `d_op`.
pub open spec fn attitude_matrix(d_op: PerAxis, r0z: Scalar) -> Seq<Seq<Scalar>> {
    grid(5, 5, |i: int, j: int| attitude_entry(d_op, r0z, i, j))
}

/// The entry of the state matrix at `(i, j)`: the linearized attitude, driven
/// by the masses; the tracking errors, integrated over `ts`; the lag of the
/// masses.
pub open spec fn ad_entry(
    a_op: Seq<Seq<Scalar>>,
    e_op: Seq<Seq<Scalar>>,
    ts: Scalar,
    alpha: Scalar,
    i: int,
    j: int,
) -> Scalar {
    if i < 5 && j < 5 {
        a_op[i][j]
    } else if i < 5 && j >= 7 {
        e_op[i][j - 7]
    } else if 5 <= i < 7 && j == i - 5 {
        ts
    } else if 5 <= i < 7 && j == i {
        Scalar { bits: ONE }
    } else if i >= 7 && j == i {
        alpha
    } else {
        Scalar { bits: ZERO }
    }
}

/// The entry of the input matrix at `(i, j)`: each command moves its own mass.
pub open spec fn bd_entry(alpha: Scalar, i: int, j: int) -> Scalar {
    if i == j + 7 {
        (Scalar { bits: ONE }).minus(alpha)
    } else {
        Scalar { bits: ZERO }
    }
}

/// The entry of the reference matrix at `(i, j)`: each reference lowers its own
/// integrated error.
pub open spec fn gd_entry(ts: Scalar, i: int, j: int) -> Scalar {
    if i == j + 5 {
        ts.negated()
    } else {
        Scalar { bits: ZERO }
    }
}

/// Linearizes the attitude at the mass positions `d_op`: the matrices of the state
/// and of the positions.
pub fn linearize(d_op: PerAxis, r0z: Scalar) -> (res: (Matrix, Matrix))
    ensures
        res.0.is_grid(5, 5, |i: int, j: int| attitude_entry(d_op, r0z, i, j)),
        res.1.is_grid(5, 4, |i: int, j: int| influence_entry(i, j)),
{
    let base = attitude_base();
    let (m0, m1) = (attitude_of_mass(0), attitude_of_mass(1));
    let (m2, m3) = (attitude_of_mass(2), attitude_of_mass(3));
    let offset = attitude_of_offset();
    let entry = |i: usize, j: usize| -> (x: Scalar)
        requires
            i < 5,
            j < 5,
        ensures
            x == attitude_entry(d_op, r0z, i as int, j as int),
        {
            base.get(i, j).add(m0.get(i, j).mul(d_op[0])).add(
                m1.get(i, j).mul(d_op[1]),
            ).add(m2.get(i, j).mul(d_op[2])).add(m3.get(i, j).mul(d_op[3])).add(
                offset.get(i, j).mul(r0z),
            )
        };
    let a = Matrix::generate(5, 5, entry);
    assert(a@ =~~= grid(5, 5, |i: int, j: int| attitude_entry(d_op, r0z, i, j)));
    (a, mass_influence())
}

/// Assembles the eleven-state model from a linearization of the attitude.
pub fn build_11state(
    a_op: &Matrix,
    e_op: &Matrix,
    ts: Scalar,
    alpha: Scalar,
) -> (res: (Matrix, Matrix, Matrix))
    requires
        a_op.is_shape(5, 5),
        e_op.is_shape(5, 4),
    ensures
        res.0.is_grid(11, 11, |i: int, j: int| ad_entry(a_op@, e_op@, ts, alpha, i, j)),
        res.1.is_grid(11, 4, |i: int, j: int| bd_entry(alpha, i, j)),
        res.2.is_grid(11, 2, |i: int, j: int| gd_entry(ts, i, j)),
{
    let ad_at = |i: usize, j: usize| -> (x: Scalar)
        requires
            i < 11,
            j < 11,
        ensures
            x == ad_entry(a_op@, e_op@, ts, alpha, i as int, j as int),
        {
            if i < 5 && j < 5 {
                a_op.get(i, j)
            } else if i < 5 && j >= 7 {
                e_op.get(i, j - 7)
            } else if i >= 5 && i < 7 && j == i - 5 {
                ts
            } else if i >= 5 && i < 7 && j == i {
                Scalar { bits: ONE }
            } else if i >= 7 && j == i {
                alpha
            } else {
                Scalar { bits: ZERO }
            }
        };
    let rest: Scalar = (Scalar { bits: ONE }).sub(alpha);
    let bd_at = |i: usize, j: usize| -> (x: Scalar)
        requires
            j < 4,
        ensures
            x == bd_entry(alpha, i as int, j as int),
        {
            if i == j + 7 {
                rest
            } else {
                Scalar { bits: ZERO }
            }
        };
    let gd_at = |i: usize, j: usize| -> (x: Scalar)
        requires
            j < 2,
        ensures
            x == gd_entry(ts, i as int, j as int),
        {
            if i == j + 5 {
                ts.neg()
            } else {
                Scalar { bits: ZERO }
            }
        };
    let ad = Matrix::generate(STATES, STATES, ad_at);
    let bd = Matrix::generate(STATES, MASSES, bd_at);
    let gd = Matrix::generate(STATES, 2, gd_at);
    assert(ad@ =~~= grid(11, 11, |i: int, j: int| ad_entry(a_op@, e_op@, ts, alpha, i, j)));
    assert(bd@ =~~= grid(11, 4, |i: int, j: int| bd_entry(alpha, i, j)));
    assert(gd@ =~~= grid(11, 2, |i: int, j: int| gd_entry(ts, i, j)));
    (ad, bd, gd)
}

/// The weights that `preset` uses.
pub fn choose_weights(preset: Preset, weights: Option<TuningWeights>) -> (res: TuningWeights)
    requires
        post_balanced(preset.r0z) || weights is Some,
    ensures
        res == weights_in_use(preset, weights),
{
    if is_post_balanced(preset.r0z) {
        let angle = Scalar { bits: POST_BALANCE_Q_ANGLE };
        let rate = Scalar { bits: POST_BALANCE_Q_RATE };
        let qi = Scalar { bits: POST_BALANCE_QI };
        TuningWeights {
            q: [angle, angle, rate, rate, Scalar { bits: POST_BALANCE_Q_YAW_RATE }],
            qi: [qi, qi],
            qd: Scalar { bits: POST_BALANCE_QD },
            r: Scalar { bits: POST_BALANCE_R },
            du_max: Scalar { bits: POST_BALANCE_LIMIT },
            d_track_tol: Scalar { bits: POST_BALANCE_LIMIT },
        }
    } else {
        weights.unwrap()
    }
}

impl CtrlMats {
    /// This is the model of the attitude, linearized at the mass positions `d_op`,
    /// with the tuning that `preset` and `weights` ask for, in steps of one second.
    pub open spec fn assembled(
        &self,
        preset: Preset,
        d_op: PerAxis,
        weights: Option<TuningWeights>,
    ) -> bool {
        let ts = Scalar { bits: ONE };
        let a_op = attitude_matrix(d_op, preset.r0z);
        let e_op = grid(5, 4, |i: int, j: int| influence_entry(i, j));
        let alpha = preset.alpha;
        let w = weights_in_use(preset, weights);
        &&& self.ad.is_grid(11, 11, |i: int, j: int| ad_entry(a_op, e_op, ts, alpha, i, j))
        &&& self.bd.is_grid(11, 4, |i: int, j: int| bd_entry(alpha, i, j))
        &&& self.gd.is_grid(11, 2, |i: int, j: int| gd_entry(ts, i, j))
        &&& self.q11.is_grid(11, 11, |i: int, j: int| diagonal_entry(state_diagonal(w), i, j))
        &&& self.r.is_grid(4, 4, |i: int, j: int| diagonal_entry(input_diagonal(w), i, j))
        &&& self.pf11.is_grid(
            11,
            11,
            |i: int, j: int| last_step_entry(state_diagonal(w), pf_factor_of(preset), i, j),
        )
        &&& self.n_mpc == preset.n_mpc
        &&& self.du_max == w.du_max
        &&& self.d_track_tol == w.d_track_tol
    }
}

/// Assembles the model of the attitude, linearized at the mass positions `d_op`,
/// and its tuning. Before balancing the weights of the operator are required;
/// after it they are ignored.
pub fn build_ctrl(preset: Preset, d_op: PerAxis, weights: Option<TuningWeights>) -> (ctrl: CtrlMats)
    requires
        post_balanced(preset.r0z) || weights is Some,
    ensures
        ctrl.assembled(preset, d_op, weights),
{
    let (a_op, e_op) = linearize(d_op, preset.r0z);
    let (ad, bd, gd) = build_11state(&a_op, &e_op, Scalar { bits: ONE }, preset.alpha);
    let w = choose_weights(preset, weights);
    let on_states: [Scalar; 11] = [
        w.q[0], w.q[1], w.q[2], w.q[3], w.q[4], w.qi[0], w.qi[1], w.qd, w.qd, w.qd, w.qd,
    ];
    let on_inputs: [Scalar; 4] = [w.r, w.r, w.r, w.r];
    assert(on_states@ =~= state_diagonal(w));
    assert(on_inputs@ =~= input_diagonal(w));
    let factor = Scalar {
        bits: if is_post_balanced(preset.r0z) {
            POST_BALANCE_PF_FACTOR
        } else {
            MODEL_INIT_PF_FACTOR
        },
    };
    let q11 = Matrix::diag(on_states.as_slice());
    let last_at = |i: usize, j: usize| -> (x: Scalar)
        requires
            i < 11,
            j < 11,
        ensures
            x == last_step_entry(state_diagonal(w), factor, i as int, j as int),
        { q11.get(i, j).mul(factor) };
    let pf11 = Matrix::generate(STATES, STATES, last_at);
    assert(pf11@ =~~= grid(
        11,
        11,
        |i: int, j: int| last_step_entry(state_diagonal(w), factor, i, j),
    ));
    CtrlMats {
        ad,
        bd,
        gd,
        q11,
        r: Matrix::diag(on_inputs.as_slice()),
        pf11,
        n_mpc: preset.n_mpc,
        du_max: w.du_max,
        d_track_tol: w.d_track_tol,
    }
}

/// After balancing the weights of the operator have no effect.
pub proof fn law_post_balance_ignores_operator_weights(
    preset: Preset,
    first: Option<TuningWeights>,
    second: Option<TuningWeights>,
)
    requires
        post_balanced(preset.r0z),
    ensures
        weights_in_use(preset, first) == weights_in_use(preset, second),
{
}

/// A change of the linearization touches the attitude rows of the state matrix
/// only.
pub proof fn law_linearization_stays_in_attitude_rows(
    a1: Seq<Seq<Scalar>>,
    e1: Seq<Seq<Scalar>>,
    a2: Seq<Seq<Scalar>>,
    e2: Seq<Seq<Scalar>>,
    ts: Scalar,
    alpha: Scalar,
    i: int,
    j: int,
)
    requires
        5 <= i < 11,
        0 <= j < 11,
    ensures
        ad_entry(a1, e1, ts, alpha, i, j) == ad_entry(a2, e2, ts, alpha, i, j),
{
}

/// What one step of the model does to the states `x`, with the commands `u` and the
/// angles to track `r`, read as integers: the attitude follows its linearization and the
/// mass positions; each integral grows by its own angle and falls by the angle to track,
/// both times the step; each mass keeps a share of its position and takes the rest from
/// its own command.
pub proof fn law_model_steps(
    a_op: Matrix,
    e_op: Matrix,
    ts: Scalar,
    alpha: Scalar,
    val: spec_fn(Scalar) -> int,
    x: spec_fn(int) -> int,
    u: spec_fn(int) -> int,
    r: spec_fn(int) -> int,
    i: int,
)
    requires
        reads_units(val),
        0 <= i < 11,
    ensures
        ({
            let next = sum(|j: int| val(ad_entry(a_op@, e_op@, ts, alpha, i, j)) * x(j), 11) + sum(
                |j: int| val(bd_entry(alpha, i, j)) * u(j),
                4,
            ) + sum(|j: int| val(gd_entry(ts, i, j)) * r(j), 2);
            &&& i < 5 ==> next == sum(|j: int| val(a_op@[i][j]) * x(j), 5) + sum(
                |k: int| val(e_op@[i][k]) * x(7 + k),
                4,
            )
            &&& 5 <= i < 7 ==> next == x(i) + val(ts) * x(i - 5) + val(ts.negated()) * r(i - 5)
            &&& 7 <= i ==> next == val(alpha) * x(i) + val((Scalar { bits: ONE }).minus(alpha)) * u(
                i - 7,
            )
        }),
{
    reveal_with_fuel(sum, 12);
    lemma_times_zero_and_one(x, u, r);
}

proof fn lemma_times_zero_and_one(
    x: spec_fn(int) -> int,
    u: spec_fn(int) -> int,
    r: spec_fn(int) -> int,
)
    ensures
        forall|j: int| 0 * #[trigger] x(j) == 0 && 1 * x(j) == x(j),
        forall|j: int| 0 * #[trigger] u(j) == 0,
        forall|j: int| 0 * #[trigger] r(j) == 0,
{
    assert forall|j: int| 0 * #[trigger] x(j) == 0 && 1 * x(j) == x(j) by {
        assert(0 * x(j) == 0 && 1 * x(j) == x(j)) by (nonlinear_arith);
    }
    assert forall|j: int| 0 * #[trigger] u(j) == 0 by {
        assert(0 * u(j) == 0) by (nonlinear_arith);
    }
    assert forall|j: int| 0 * #[trigger] r(j) == 0 by {
        assert(0 * r(j) == 0) by (nonlinear_arith);
    }
}

/// The model of a loop before balancing is weighted as the operator says: the five
/// attitude states, the two integrals, the four positions and the four commands, each
/// by its own weight, with nothing between them; the last step by 0.3 times that. The
/// limits are the operator's too. The model steps by one second, with the lag of the
/// preset.
pub proof fn law_model_uses_operator_weights(
    ctrl: CtrlMats,
    preset: Preset,
    d_op: PerAxis,
    w: TuningWeights,
    j: int,
    i: int,
    k: int,
    other: int,
)
    requires
        ctrl.assembled(preset, d_op, Some(w)),
        !post_balanced(preset.r0z),
        0 <= j < 5,
        0 <= i < 2,
        0 <= k < 4,
        0 <= other < 11,
    ensures
        ctrl.q11@[j][j] == w.q[j],
        ctrl.q11@[5 + i][5 + i] == w.qi[i],
        ctrl.q11@[7 + k][7 + k] == w.qd,
        other != j ==> ctrl.q11@[j][other].bits == 0,
        other != 5 + i ==> ctrl.q11@[5 + i][other].bits == 0,
        other != 7 + k ==> ctrl.q11@[7 + k][other].bits == 0,
        ctrl.r@[k][k] == w.r,
        other < 4 && other != k ==> ctrl.r@[k][other].bits == 0,
        ctrl.pf11@[other][other] == ctrl.q11@[other][other].times(
            Scalar { bits: 0x3FD3_3333_3333_3333 },
        ),
        ctrl.du_max == w.du_max,
        ctrl.d_track_tol == w.d_track_tol,
        ctrl.n_mpc == preset.n_mpc,
        ctrl.ad@[5 + i][i].bits == 0x3FF0_0000_0000_0000,
        ctrl.ad@[7 + k][7 + k] == preset.alpha,
        ctrl.bd@[7 + k][k] == (Scalar { bits: 0x3FF0_0000_0000_0000 }).minus(preset.alpha),
        ctrl.gd@[5 + i][i].bits == 0xBFF0_0000_0000_0000,
        ctrl.ad@[j][7 + k] == influence_entry(j, k),
        j == 0 || j == 1 ==> ctrl.ad@[j][j + 2] == attitude_entry(d_op, preset.r0z, j, j + 2),
        j == 2 || j == 3 ==> ctrl.ad@[j][j - 2] == attitude_entry(d_op, preset.r0z, j, j - 2),
        ctrl.ad@[4][i] == attitude_entry(d_op, preset.r0z, 4, i),
{
    assert((Scalar { bits: ONE }).negated().bits == 0xBFF0_0000_0000_0000u64);
}

/// After balancing the model is weighted by 100, 100, 50, 50 and 25 on the attitude, 0.3
/// on the integrals, 15 on the positions and 150 on the commands, the last step five
/// times as much, with 0.01 m for both limits, whatever the operator says.
pub proof fn law_balanced_model_has_its_own_weights(
    ctrl: CtrlMats,
    preset: Preset,
    d_op: PerAxis,
    weights: Option<TuningWeights>,
    i: int,
    k: int,
    other: int,
)
    requires
        ctrl.assembled(preset, d_op, weights),
        post_balanced(preset.r0z),
        0 <= i < 2,
        0 <= k < 4,
        0 <= other < 11,
    ensures
        ctrl.q11@[i][i].bits == 0x4059_0000_0000_0000,
        ctrl.q11@[2 + i][2 + i].bits == 0x4049_0000_0000_0000,
        ctrl.q11@[4][4].bits == 0x4039_0000_0000_0000,
        ctrl.q11@[5 + i][5 + i].bits == 0x3FD3_3333_3333_3333,
        ctrl.q11@[7 + k][7 + k].bits == 0x402E_0000_0000_0000,
        ctrl.r@[k][k].bits == 0x4062_C000_0000_0000,
        ctrl.pf11@[other][other] == ctrl.q11@[other][other].times(
            Scalar { bits: 0x4014_0000_0000_0000 },
        ),
        ctrl.du_max.bits == 0x3F84_7AE1_47AE_147B,
        ctrl.d_track_tol.bits == 0x3F84_7AE1_47AE_147B,
{
}

/// A product more, of numbers below 128 and of at most 1, onto at most 600.
proof fn lemma_next_term(a: Scalar, c: Scalar, d: Scalar)
    requires
        a.finite() && c.finite() && d.finite(),
        -128 * pow2(1074) < c.units() < 128 * pow2(1074),
        -pow2(1074) <= d.units() <= pow2(1074),
        -600 * pow2(1074) <= a.units() <= 600 * pow2(1074),
    ensures
        ({
            let one = pow2(1074) as int;
            let res = a.plus(c.times(d));
            let off = (res.units() - a.units()) * one - c.units() * d.units();
            let most = pow2(1031) * one;
            &&& res.finite()
            &&& -most <= off <= most
            &&& -130 * one <= res.units() - a.units() <= 130 * one
        }),
{
    lemma_pow2_pos(1074);
    lemma_pow2_pos(1028);
    lemma2_to64();
    vstd::arithmetic::power2::lemma2_to64_rest();
    lemma_pow2_adds(7, 1074);
    lemma_pow2_adds(10, 1074);
    lemma_pow2_adds(46, 1028);
    lemma_pow2_adds(2, 1028);
    lemma_pow2_adds(3, 1028);
    let one = pow2(1074) as int;
    let (cu, du) = (c.units(), d.units());
    let tiny = pow2(1028) as int;
    assert(-((128 * one) * one) < cu * du < (128 * one) * one) by (nonlinear_arith)
        requires
            -(128 * one) < cu < 128 * one,
            -one <= du <= one,
            one > 0,
    ;
    law_product_is_nearly_exact(c, d, 1028);
    let p = c.times(d);
    let pu = p.units();
    assert(-(129 * one) < pu < 129 * one) by (nonlinear_arith)
        requires
            -(tiny * one) <= 2 * (pu * one - cu * du) <= tiny * one,
            -((128 * one) * one) < cu * du < (128 * one) * one,
            tiny <= one,
            one > 0,
            tiny > 0,
    ;
    law_sum_is_nearly_exact(a, p, 1031);
    let ru = a.plus(p).units();
    let au = a.units();
    assert(-((8 * tiny) * one) <= (ru - au) * one - cu * du <= (8 * tiny) * one)
        by (nonlinear_arith)
        requires
            -(8 * tiny) <= 2 * (ru - (au + pu)) <= 8 * tiny,
            -(tiny * one) <= 2 * (pu * one - cu * du) <= tiny * one,
            one > 0,
            tiny > 0,
    ;
}

/// The coefficients of the attitude are below 128.
proof fn lemma_coefficients_are_small(c: Scalar)
    requires
        c.magnitude() < 0x4060_0000_0000_0000,
    ensures
        c.finite(),
        -128 * pow2(1074) < c.units() < 128 * pow2(1074),
{
    let range = FRACTION_RANGE as int;
    lemma_powers();
    lemma_composed(1029, range);
    assert((1029 * range + range) as u64 == 0x4060_0000_0000_0000);
    lemma_pow2_adds(52, 1029);
    lemma2_to64();
    lemma_pow2_adds(7, 1074);
    lemma_magnitude_order(c.magnitude(), 0x4060_0000_0000_0000);
}

/// A base, four products and a fifth.
proof fn lemma_affine(b: Scalar, c: [Scalar; 4], o: Scalar, d: PerAxis, r0z: Scalar)
    requires
        b.magnitude() <= ONE,
        forall|k: int| 0 <= k < 4 ==> (#[trigger] c[k]).magnitude() < 0x4060_0000_0000_0000,
        o.magnitude() < 0x4060_0000_0000_0000,
        forall|k: int|
            0 <= k < 4 ==> (#[trigger] d[k]).finite() && -pow2(1074) <= d[k].units() <= pow2(1074),
        r0z.finite(),
        -pow2(1074) <= r0z.units() <= pow2(1074),
    ensures
        ({
            let one = pow2(1074) as int;
            let res = b.plus(c[0].times(d[0])).plus(c[1].times(d[1])).plus(c[2].times(d[2])).plus(
                c[3].times(d[3]),
            ).plus(o.times(r0z));
            let off = (res.units() - b.units()) * one - c[0].units() * d[0].units() - c[1].units()
                * d[1].units() - c[2].units() * d[2].units() - c[3].units() * d[3].units()
                - o.units() * r0z.units();
            let most = 5 * (pow2(1031) * one);
            &&& res.finite()
            &&& -most <= off <= most
        }),
{
    let one = pow2(1074) as int;
    let range = FRACTION_RANGE as int;
    lemma_powers();
    lemma_composed(1022, range);
    assert((1022 * range + range) as u64 == ONE);
    lemma_pow2_adds(52, 1022);
    lemma_magnitude_order(b.magnitude(), ONE);
    lemma_coefficients_are_small(b);
    lemma_coefficients_are_small(c[0]);
    lemma_coefficients_are_small(c[1]);
    lemma_coefficients_are_small(c[2]);
    lemma_coefficients_are_small(c[3]);
    lemma_coefficients_are_small(o);
    let s1 = b.plus(c[0].times(d[0]));
    let s2 = s1.plus(c[1].times(d[1]));
    let s3 = s2.plus(c[2].times(d[2]));
    let s4 = s3.plus(c[3].times(d[3]));
    let s5 = s4.plus(o.times(r0z));
    lemma_next_term(b, c[0], d[0]);
    lemma_next_term(s1, c[1], d[1]);
    lemma_next_term(s2, c[2], d[2]);
    lemma_next_term(s3, c[3], d[3]);
    lemma_next_term(s4, o, r0z);
    let (u0, u1, u2, u3, u4, u5) = (
        b.units(),
        s1.units(),
        s2.units(),
        s3.units(),
        s4.units(),
        s5.units(),
    );
    assert((u5 - u0) * one == (u1 - u0) * one + (u2 - u1) * one + (u3 - u2) * one + (u4 - u3) * one
        + (u5 - u4) * one) by (nonlinear_arith);
}

/// The linearized attitude, with every position and the offset within a metre, up to
/// rounding: for its own angle, each of the two rates feels gravity, the same of every
/// mass for each metre, and the z-offset for each metre; the yaw rate feels, for roll,
/// the masses 2 and 3 against 0 and 1, and for pitch, the masses 1 and 2 against 0 and 3;
/// each angle takes its own rate, and nothing else stands there.
pub proof fn law_attitude_is_affine(d: PerAxis, r0z: Scalar, i: int, j: int)
    requires
        forall|k: int|
            0 <= k < 4 ==> (#[trigger] d[k]).finite() && -pow2(1074) <= d[k].units() <= pow2(1074),
        r0z.finite(),
        -pow2(1074) <= r0z.units() <= pow2(1074),
        0 <= i < 5,
        0 <= j < 5,
    ensures
        ({
            let one = pow2(1074) as int;
            let most = 5 * (pow2(1031) * one);
            let a = attitude_entry(d, r0z, i, j).units();
            let (d0, d1, d2, d3) = (d[0].units(), d[1].units(), d[2].units(), d[3].units());
            let g = (Scalar { bits: A_GRAVITY }).units();
            let m = (Scalar { bits: A_MASS }).units();
            let y = (Scalar { bits: A_YAW }).units();
            let o = (Scalar { bits: A_OFFSET }).units();
            let off = a * one - if i == 2 && j == 0 || i == 3 && j == 1 {
                g * one + m * (d0 + d1 + d2 + d3) + o * r0z.units()
            } else if i == 4 && j == 0 {
                y * (d2 + d3 - d0 - d1)
            } else if i == 4 && j == 1 {
                y * (d1 + d2 - d0 - d3)
            } else if i == 0 && j == 2 || i == 1 && j == 3 {
                one * one
            } else {
                0
            };
            -most <= off <= most
        }),
{
    let one = pow2(1074) as int;
    let c = [
        mass_entry(0, i, j),
        mass_entry(1, i, j),
        mass_entry(2, i, j),
        mass_entry(3, i, j),
    ];
    assert(forall|k: int| 0 <= k < 4 ==> #[trigger] c[k] == mass_entry(k, i, j));
    let (b, o) = (base_entry(i, j), offset_entry(i, j));
    lemma_affine(b, c, o, d, r0z);
    let (y, m) = (Scalar { bits: A_YAW }, Scalar { bits: A_MASS });
    law_negation_reverses_value(y);
    assert(magnitude_units(0) == 0);
    let range = FRACTION_RANGE as int;
    lemma_powers();
    lemma_composed(1022, range);
    assert((1022 * range + range) as u64 == ONE);
    lemma_pow2_adds(52, 1022);
    let (d0, d1, d2, d3) = (d[0].units(), d[1].units(), d[2].units(), d[3].units());
    let (yu, mu, r) = (y.units(), m.units(), r0z.units());
    let (a, bu) = (attitude_entry(d, r0z, i, j).units(), b.units());
    assert((a - bu) * one == a * one - bu * one) by (nonlinear_arith);
    assert(mu * (d0 + d1 + d2 + d3) == mu * d0 + mu * d1 + mu * d2 + mu * d3) by (nonlinear_arith);
    assert(yu * (d2 + d3 - d0 - d1) == yu * d2 + yu * d3 + (-yu) * d0 + (-yu) * d1)
        by (nonlinear_arith);
    assert(yu * (d1 + d2 - d0 - d3) == yu * d1 + yu * d2 + (-yu) * d0 + (-yu) * d3)
        by (nonlinear_arith);
    assert(0 * d0 == 0 && 0 * d1 == 0 && 0 * d2 == 0 && 0 * d3 == 0 && 0 * r == 0 && 0 * one == 0)
        by (nonlinear_arith);
}

} // verus!
