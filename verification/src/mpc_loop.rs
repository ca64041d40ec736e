//! The model-predictive control loop, one cycle at a time.
//!
//! A cycle alternates between what is done here and the linear algebra of the
//! filter and of the program, which the caller does: [`MpcLoop::one_step`] takes
//! the outcome of the last piece of that and returns what to compute next. All
//! traffic on the bus is made here.

use crate::binary64::{
    lemma_composed, lemma_parts, lemma_powers, places_of, significand_of, DEG_PER_RAD, RAD_PER_DEG,
};
use crate::commands::{DEFAULT_ACC, DEFAULT_SPD};
use crate::imu;
use crate::imu::ImuFrame;
use crate::kf;
use crate::matrix::Matrix;
use crate::mks;
use crate::mpc_model;
use crate::mpc_model::{build_ctrl, CtrlMats, Preset, TuningWeights};
use crate::mpc_solve::{settle, Attempt};
use crate::prime::Nudge;
use crate::rail;
use crate::rail::PerAxis;
use crate::rig;
use crate::rig::Readings;
use crate::scalar::{all_finite, is_all_finite, lemma_magnitude_order, Scalar};
use crate::telemetry::{
    ExitFlag, RunState, Snapshot, Telemetry, FLAG_HELD, FLAG_INFEASIBLE, FLAG_OFF, FLAG_SOLVED,
};
use crate::tracking::{
    aim_motors, distances, error_of, integrate, integrated, law_cycle_integrates_error,
    law_error_in_degrees_is_near, law_gate_goes_by_distance, lemma_scales, measure_distances,
    motor_targets, pair_in_degrees, pair_in_radians, pair_to_degrees, pair_to_radians,
    rates_in_degrees, rates_to_degrees, tracking_error,
};
use crate::transport::{follows_script, lemma_script_stands_still, writes_in, Bus, BusEvent};
use vstd::arithmetic::power2::{lemma_pow2_adds, lemma_pow2_unfold, pow2};
use vstd::prelude::*;

verus! {

/// The length of a cycle, in milliseconds.
pub const PLANT_T_MS: u64 = 2000;

/// The length of a cycle, 2 seconds, as bits.
pub const PLANT_T: u64 = 0x4000_0000_0000_0000;

/// Pause after each move, in milliseconds.
pub const MOTOR_PAUSE_MS: u64 = 120;

/// Pause after each encoder read and after the attitude reading, in
/// milliseconds.
pub const SENSOR_PAUSE_MS: u64 = 50;

/// How far from its home end every mass must be at the start, 0.01 m, as bits.
pub const INIT_MIN_D: u64 = 0x3F84_7AE1_47AE_147B;

/// The nudge before the first encoder poll, -0.001 m, as bits.
pub const NUDGE_DIST: u64 = 0xBF50_624D_D2F1_A9FC;

/// Acceleration of that nudge.
pub const NUDGE_ACC: u8 = 128;

/// The uncertainty of the first estimate, 10000, as bits.
pub const INITIAL_VARIANCE: u64 = 0x40C3_8800_0000_0000;

/// More cycles than any run takes; the run clock holds this many.
pub const MAX_CYCLES: u64 = 9_000_000_000_000_000;

/// How far the current cycle has come.
#[derive(Debug, Clone, Copy)]
pub enum MpcPhase {
    /// Between cycles.
    Resting,
    /// The mass positions are known.
    Filtering { d_meas: PerAxis },
    /// The command is being computed.
    Solving { d_meas: PerAxis, e_deg: [Scalar; 2] },
}

/// The outcome of what [`MpcAction`] asked for.
#[derive(Debug)]
pub enum MpcEvent {
    /// A cycle begins.
    Begin,
    /// The filter's next estimate and its covariance.
    Filtered { x: [Scalar; 5], p: Matrix },
    /// What came of the quadratic program.
    Solved { attempt: Attempt },
}

/// What the caller computes next, or the end of the cycle.
#[derive(Debug)]
pub enum MpcAction {
    /// Run the filter from the current estimate with the observation `y`.
    Filter { y: [Scalar; 5] },
    /// Solve the quadratic program for these eleven states, to track these
    /// angles, in radians.
    Solve { x11: [Scalar; 11], reference: [Scalar; 2] },
    /// The cycle is over.
    Report { telemetry: Telemetry },
}

/// A running loop.
#[derive(Debug)]
pub struct MpcLoop {
    pub preset: Preset,
    /// Where the masses were when the loop started; the model is linearized
    /// here for the whole run.
    pub d_op: PerAxis,
    /// The same, limited to the rails; their sum is kept for the whole run.
    pub d_init: PerAxis,
    pub ctrl: CtrlMats,
    pub x_est: [Scalar; 5],
    pub p_kf: Matrix,
    pub d_meas_prev: PerAxis,
    pub d_cmd_prev: PerAxis,
    pub e_int: [Scalar; 2],
    /// Time since the start, in milliseconds.
    pub t_ms: u64,
    pub cycle: u64,
    pub phase: MpcPhase,
    pub controller_on: bool,
    pub setpoint_deg: [Scalar; 2],
    /// Speed of the moves, in RPM.
    pub spd: Scalar,
    /// Acceleration of the moves.
    pub acc: u8,
}

/// The nudge before the first encoder poll.
pub fn nudge() -> (res: Nudge)
    ensures
        res == (Nudge {
            dist_m: Scalar { bits: NUDGE_DIST },
            acc: NUDGE_ACC,
            pause_ms: MOTOR_PAUSE_MS,
        }),
{
    Nudge { dist_m: Scalar { bits: NUDGE_DIST }, acc: NUDGE_ACC, pause_ms: MOTOR_PAUSE_MS }
}

/// The configuration that the operator asks for.
pub fn choose_preset(xy_pre_balance: bool) -> (preset: Preset)
    ensures
        mpc_model::post_balanced(preset.r0z) == xy_pre_balance,
        preset.n_mpc == mpc_model::N_MPC,
        xy_pre_balance ==> preset.r0z.bits == mpc_model::POST_BALANCE_R0Z && preset.alpha.bits
            == mpc_model::POST_BALANCE_ALPHA,
        !xy_pre_balance ==> preset.r0z.bits == mpc_model::MODEL_INIT_R0Z && preset.alpha.bits
            == mpc_model::MODEL_INIT_ALPHA,
{
    if xy_pre_balance {
        mpc_model::preset_post_balance()
    } else {
        mpc_model::preset_model_init()
    }
}

/// The positions of a cycle: readings that are missing or not finite leave the
/// previous position, and all are limited to the rails.
pub open spec fn positions_of(previous: PerAxis, latest: Readings) -> PerAxis {
    rail::saturated(
        [
            rail::held(previous[0], latest[0]),
            rail::held(previous[1], latest[1]),
            rail::held(previous[2], latest[2]),
            rail::held(previous[3], latest[3]),
        ],
    )
}

/// The observation of a cycle: roll and pitch of the reading if its angles are
/// finite, and rates of the reading if they are; the estimate otherwise.
pub open spec fn observed(x_est: [Scalar; 5], attitude: Option<ImuFrame>) -> [Scalar; 5] {
    let angles = match attitude {
        Some(a) if all_finite(a.angle_deg@) => [
            a.angle_deg[0].in_radians(),
            a.angle_deg[1].in_radians(),
        ],
        _ => [x_est[0], x_est[1]],
    };
    let rates = match attitude {
        Some(a) if all_finite(a.gyro_dps@) => [
            a.gyro_dps[0].in_radians(),
            a.gyro_dps[1].in_radians(),
            a.gyro_dps[2].in_radians(),
        ],
        _ => [x_est[2], x_est[3], x_est[4]],
    };
    [angles[0], angles[1], rates[0], rates[1], rates[2]]
}

/// The first input of a solution.
pub open spec fn first_input(u: Seq<Scalar>) -> PerAxis {
    [u[0], u[1], u[2], u[3]]
}

/// The eleven states of the model.
pub open spec fn model_state(x: [Scalar; 5], e_int: [Scalar; 2], d: PerAxis) -> [Scalar; 11] {
    [x[0], x[1], x[2], x[3], x[4], e_int[0], e_int[1], d[0], d[1], d[2], d[3]]
}

fn observe(x_est: [Scalar; 5], attitude: Option<ImuFrame>) -> (y: [Scalar; 5])
    ensures
        y == observed(x_est, attitude),
{
    let mut y: [Scalar; 5] = x_est;
    if let Some(a) = attitude {
        if is_all_finite(a.angle_deg.as_slice()) {
            let deg = a.angle_deg;
            y = [deg[0].to_radians(), deg[1].to_radians(), y[2], y[3], y[4]];
        }
        if is_all_finite(a.gyro_dps.as_slice()) {
            let dps = a.gyro_dps;
            y = [y[0], y[1], dps[0].to_radians(), dps[1].to_radians(), dps[2].to_radians()];
        }
    }
    assert(y =~= observed(x_est, attitude));
    y
}

fn measure(previous: PerAxis, latest: Readings) -> (d_meas: PerAxis)
    ensures
        d_meas == positions_of(previous, latest),
{
    rail::saturate(
        [
            rail::hold_reading(previous[0], latest[0]),
            rail::hold_reading(previous[1], latest[1]),
            rail::hold_reading(previous[2], latest[2]),
            rail::hold_reading(previous[3], latest[3]),
        ],
    )
}

impl MpcLoop {
    /// The positions lie on the rails, the loop started far enough from the home
    /// ends, the estimate is plausible, and the clock counts cycles.
    pub open spec fn wf(&self) -> bool {
        &&& rail::all_on_rail(self.d_cmd_prev)
        &&& rail::all_on_rail(self.d_meas_prev)
        &&& !rail::any_below(self.d_op, Scalar { bits: INIT_MIN_D })
        &&& kf::plausible(self.x_est@)
        &&& self.t_ms == self.cycle * PLANT_T_MS
        &&& self.cycle <= MAX_CYCLES
        &&& match self.phase {
            MpcPhase::Resting => true,
            MpcPhase::Filtering { d_meas } => rail::all_on_rail(d_meas),
            MpcPhase::Solving { d_meas, .. } => rail::all_on_rail(d_meas),
        }
    }

    /// Every measured and every commanded position is a number between the ends
    /// of its rail.
    pub open spec fn positions_within_ends(&self) -> bool {
        &&& rail::all_within_ends(self.d_cmd_prev)
        &&& rail::all_within_ends(self.d_meas_prev)
        &&& match self.phase {
            MpcPhase::Resting => true,
            MpcPhase::Filtering { d_meas } => rail::all_within_ends(d_meas),
            MpcPhase::Solving { d_meas, .. } => rail::all_within_ends(d_meas),
        }
    }

    /// `event` is the outcome of what this phase waits for.
    pub open spec fn awaits(&self, event: MpcEvent) -> bool {
        match event {
            MpcEvent::Begin => self.phase is Resting,
            MpcEvent::Filtered { .. } => self.phase is Filtering && self.cycle < MAX_CYCLES,
            MpcEvent::Solved { attempt } => {
                &&& self.phase is Solving
                &&& self.cycle < MAX_CYCLES
                &&& attempt.usable() ==> attempt->x@.len() >= 4
                &&& 4 * self.ctrl.n_mpc <= usize::MAX
            },
        }
    }

    /// The loop after a cycle that measured `d_meas` and ends with the command
    /// `u_cmd`.
    pub open spec fn finished(self, u_cmd: PerAxis, d_meas: PerAxis) -> MpcLoop {
        MpcLoop {
            d_cmd_prev: rail::saturated(u_cmd),
            d_meas_prev: d_meas,
            cycle: (self.cycle + 1) as u64,
            t_ms: (self.t_ms + PLANT_T_MS) as u64,
            phase: MpcPhase::Resting,
            ..self
        }
    }

    /// The loop with the estimate `x` of the filter, unless that is implausible: it
    /// is thrown away with its covariance then.
    pub open spec fn estimated(self, x: [Scalar; 5], p: Matrix) -> MpcLoop {
        let before = if self.cycle > 0 {
            Some(self.x_est@)
        } else {
            None
        };
        if kf::diverged(x@, before) {
            self
        } else {
            MpcLoop { x_est: x, p_kf: p, ..self }
        }
    }

    /// What a cycle reports that has just ended, with the tracking error `e_deg`.
    pub open spec fn cycle_report(&self, e_deg: [Scalar; 2], exitflag: ExitFlag) -> Snapshot {
        let tilt_deg = kf::tilt_of(self.x_est@);
        Snapshot {
            run_state: RunState::Mpc,
            connected: true,
            is_sample: true,
            is_poll: false,
            manual_read: None,
            t_ms: self.t_ms,
            roll_deg: tilt_deg[0],
            pitch_deg: tilt_deg[1],
            gyro_dps: rates_in_degrees(self.x_est),
            d_meas: self.d_meas_prev,
            d_cmd: self.d_cmd_prev,
            e_deg,
            exitflag,
            status: "Running..."@,
            cycle: self.cycle,
        }
    }
}

/// The end of a cycle: the command `u_cmd` is taken over, limited to the rails, and
/// reported. With the controller on, all four masses are driven to it.
pub open spec fn ended(
    before: MpcLoop,
    u_cmd: PerAxis,
    d_meas: PerAxis,
    e_deg: [Scalar; 2],
    exitflag: ExitFlag,
    after: MpcLoop,
    action: MpcAction,
    log: Seq<BusEvent>,
    log_after: Seq<BusEvent>,
) -> bool {
    &&& after == before.finished(u_cmd, d_meas)
    &&& action is Report
    &&& action->telemetry@ == after.cycle_report(e_deg, exitflag)
    &&& log_after == if before.controller_on {
        log + rig::drive_traffic(
            motor_targets(after.d_cmd_prev, d_meas),
            before.spd,
            before.acc,
            MOTOR_PAUSE_MS,
        )
    } else {
        log
    }
}

/// One step of a cycle: from the loop `before`, `event` leads to the loop
/// `after` and to `action`, and the bus log grows from `log` to `log_after`.
pub open spec fn stepped(
    before: MpcLoop,
    event: MpcEvent,
    after: MpcLoop,
    action: MpcAction,
    log: Seq<BusEvent>,
    log_after: Seq<BusEvent>,
) -> bool {
    match event {
        MpcEvent::Begin => {
            let encoders = rig::sensed_positions(log, log_after, SENSOR_PAUSE_MS);
            let imu = rig::sensed_attitude(log_after);
            let d_meas = positions_of(before.d_meas_prev, encoders);
            &&& rig::sensed(log, log_after, encoders, imu, SENSOR_PAUSE_MS)
            &&& after == (MpcLoop { phase: MpcPhase::Filtering { d_meas }, ..before })
            &&& action == (MpcAction::Filter { y: observed(before.x_est, imu) })
        },
        MpcEvent::Filtered { x, p } => {
            let d_meas = before.phase->Filtering_d_meas;
            let kept = before.estimated(x, p);
            let e = error_of(kept.x_est@, before.setpoint_deg);
            let e_int = integrated(before.e_int, e, Scalar { bits: PLANT_T });
            let e_deg = pair_in_degrees(e);
            let tracking = MpcLoop { e_int, ..kept };
            let gap = distances(d_meas, before.d_cmd_prev);
            let held = before.d_cmd_prev;
            if !before.controller_on {
                ended(tracking, held, d_meas, e_deg, FLAG_OFF, after, action, log, log_after)
            } else if rail::gate_held(gap, before.ctrl.d_track_tol) {
                ended(tracking, held, d_meas, e_deg, FLAG_HELD, after, action, log, log_after)
            } else {
                &&& after == (MpcLoop { phase: MpcPhase::Solving { d_meas, e_deg }, ..tracking })
                &&& action == (MpcAction::Solve {
                    x11: model_state(kept.x_est, e_int, d_meas),
                    reference: pair_in_radians(before.setpoint_deg),
                })
                &&& log_after == log
            }
        },
        MpcEvent::Solved { attempt } => {
            let d_meas = before.phase->Solving_d_meas;
            let e_deg = before.phase->Solving_e_deg;
            let (u_cmd, flag) = if attempt.usable() {
                (first_input(attempt->x@), FLAG_SOLVED)
            } else {
                (before.d_cmd_prev, FLAG_INFEASIBLE)
            };
            ended(before, u_cmd, d_meas, e_deg, flag, after, action, log, log_after)
        },
    }
}

impl MpcLoop {
    /// Starts a loop with the masses at `d0`, where the model is linearized.
    pub fn init(d0: PerAxis, preset: Preset, weights: TuningWeights) -> (res: MpcLoop)
        requires
            !rail::any_below(d0, Scalar { bits: INIT_MIN_D }),
        ensures
            res.wf(),
            rail::all_numbers(d0) ==> res.positions_within_ends(),
            !rail::any_below(res.d_init, Scalar { bits: INIT_MIN_D }),
            res.phase is Resting,
            res.preset == preset,
            res.ctrl.assembled(preset, d0, Some(weights)),
            res.d_op == d0,
            res.d_init == rail::saturated(d0),
            res.d_meas_prev == rail::saturated(d0),
            res.d_cmd_prev == rail::saturated(d0),
            res.x_est@ == Seq::new(5, |i: int| Scalar { bits: 0 }),
            res.p_kf.is_grid(
                5,
                5,
                |i: int, j: int|
                    crate::matrix::diagonal_entry(
                        Seq::new(5, |k: int| Scalar { bits: INITIAL_VARIANCE }),
                        i,
                        j,
                    ),
            ),
            res.e_int@ == Seq::new(2, |i: int| Scalar { bits: 0 }),
            res.t_ms == 0,
            res.cycle == 0,
            res.controller_on,
            res.setpoint_deg@ == Seq::new(2, |i: int| Scalar { bits: 0 }),
            res.spd.bits == DEFAULT_SPD,
            res.acc == DEFAULT_ACC,
    {
        let zero = Scalar { bits: 0 };
        let x_est: [Scalar; 5] = [zero; 5];
        let variance: [Scalar; 5] = [Scalar { bits: INITIAL_VARIANCE }; 5];
        assert(variance@ =~= Seq::new(5, |k: int| Scalar { bits: INITIAL_VARIANCE }));
        let d_init = rail::saturate(d0);
        proof {
            rail::law_saturation_is_idempotent(d0);
            lemma_magnitude_order(INIT_MIN_D, rail::D_MAX);
            rail::law_saturation_keeps_threshold(d0, Scalar { bits: INIT_MIN_D });
            if rail::all_numbers(d0) {
                rail::law_saturated_positions_lie_within_ends(d0);
            }
            kf::lemma_level_is_plausible(x_est@);
        }
        MpcLoop {
            preset,
            d_op: d0,
            d_init,
            ctrl: build_ctrl(preset, d0, Some(weights)),
            x_est,
            p_kf: Matrix::diag(variance.as_slice()),
            d_meas_prev: d_init,
            d_cmd_prev: d_init,
            e_int: [zero; 2],
            t_ms: 0,
            cycle: 0,
            phase: MpcPhase::Resting,
            controller_on: true,
            setpoint_deg: [zero; 2],
            spd: Scalar { bits: DEFAULT_SPD },
            acc: DEFAULT_ACC,
        }
    }

    /// Takes over a new tuning: the model is built again with the same preset,
    /// linearized at the same start positions. The estimate, the integrated error
    /// and the commands survive.
    pub fn retune(&mut self, weights: TuningWeights)
        ensures
            final(self).ctrl.assembled(old(self).preset, old(self).d_op, Some(weights)),
            *final(self) == (MpcLoop { ctrl: final(self).ctrl, ..*old(self) }),
    {
        self.ctrl = build_ctrl(self.preset, self.d_op, Some(weights));
    }

    /// Ends a cycle: see [`ended`].
    fn end_cycle<B: Bus>(
        &mut self,
        bus: &mut B,
        u_cmd: PerAxis,
        d_meas: PerAxis,
        e_deg: [Scalar; 2],
        exitflag: ExitFlag,
    ) -> (action: MpcAction)
        requires
            old(self).cycle < MAX_CYCLES,
            old(self).t_ms == old(self).cycle * PLANT_T_MS,
        ensures
            ended(
                *old(self),
                u_cmd,
                d_meas,
                e_deg,
                exitflag,
                *final(self),
                action,
                old(bus).log(),
                final(bus).log(),
            ),
            follows_script(*old(bus), *final(bus)),
    {
        proof {
            lemma_script_stands_still(*bus);
        }
        self.d_cmd_prev = rail::saturate(u_cmd);
        self.d_meas_prev = d_meas;
        if self.controller_on {
            let targets = aim_motors(self.d_cmd_prev, d_meas);
            rig::drive_axes(bus, targets, self.spd, self.acc, MOTOR_PAUSE_MS);
        }
        self.phase = MpcPhase::Resting;
        self.cycle = self.cycle + 1;
        self.t_ms = self.t_ms + PLANT_T_MS;
        let tilt_deg = kf::tilt(self.x_est.as_slice());
        let telemetry = Telemetry {
            run_state: RunState::Mpc,
            connected: true,
            is_sample: true,
            is_poll: false,
            manual_read: None,
            t_ms: self.t_ms,
            roll_deg: tilt_deg[0],
            pitch_deg: tilt_deg[1],
            gyro_dps: rates_to_degrees(self.x_est),
            d_meas,
            d_cmd: self.d_cmd_prev,
            e_deg,
            exitflag,
            status: "Running...".to_owned(),
            cycle: self.cycle,
        };
        MpcAction::Report { telemetry }
    }

    /// Takes one step of a cycle.
    pub fn one_step<B: Bus>(&mut self, bus: &mut B, event: MpcEvent) -> (action: MpcAction)
        requires
            old(self).awaits(event),
            old(self).wf(),
        ensures
            stepped(*old(self), event, *final(self), action, old(bus).log(), final(bus).log()),
            final(self).wf(),
            follows_script(*old(bus), *final(bus)),
            old(self).positions_within_ends() ==> final(self).positions_within_ends(),
    {
        proof {
            lemma_script_stands_still(*bus);
            lemma_commands_are_on_rail(*self, event);
            if self.positions_within_ends() {
                lemma_commands_lie_within_ends(*self, event);
            }
        }
        match event {
            MpcEvent::Begin => {
                let (encoders, imu) = rig::read_sensors(bus, SENSOR_PAUSE_MS);
                let d_meas = measure(self.d_meas_prev, encoders);
                let y = observe(self.x_est, imu);
                proof {
                    lemma_positions_are_on_rail(self.d_meas_prev, encoders);
                }
                self.phase = MpcPhase::Filtering { d_meas };
                MpcAction::Filter { y }
            },
            MpcEvent::Filtered { x, p } => {
                let d_meas = match self.phase {
                    MpcPhase::Filtering { d_meas } => d_meas,
                    _ => self.d_meas_prev,
                };
                let before = if self.cycle > 0 {
                    Some(self.x_est.as_slice())
                } else {
                    None
                };
                if !kf::is_diverged(x.as_slice(), before) {
                    self.x_est = x;
                    self.p_kf = p;
                }
                let e = tracking_error(self.x_est.as_slice(), self.setpoint_deg);
                let e_int = integrate(self.e_int, e, Scalar { bits: PLANT_T });
                let e_deg = pair_to_degrees(e);
                self.e_int = e_int;
                let gap = measure_distances(d_meas, self.d_cmd_prev);
                if !self.controller_on {
                    self.end_cycle(bus, self.d_cmd_prev, d_meas, e_deg, FLAG_OFF)
                } else if rail::is_gate_held(gap, self.ctrl.d_track_tol) {
                    self.end_cycle(bus, self.d_cmd_prev, d_meas, e_deg, FLAG_HELD)
                } else {
                    self.phase = MpcPhase::Solving { d_meas, e_deg };
                    let x = self.x_est;
                    MpcAction::Solve {
                        x11: [
                            x[0], x[1], x[2], x[3], x[4], e_int[0], e_int[1], d_meas[0], d_meas[1],
                            d_meas[2], d_meas[3],
                        ],
                        reference: pair_to_radians(self.setpoint_deg),
                    }
                }
            },
            MpcEvent::Solved { attempt } => {
                let (d_meas, e_deg) = match self.phase {
                    MpcPhase::Solving { d_meas, e_deg } => (d_meas, e_deg),
                    _ => (self.d_meas_prev, self.e_int),
                };
                let result = settle(attempt, self.d_cmd_prev.as_slice(), self.ctrl.n_mpc);
                let u0: PerAxis = [result.u0[0], result.u0[1], result.u0[2], result.u0[3]];
                if result.feasible {
                    assert(u0 =~= first_input(attempt->x@));
                    self.end_cycle(bus, u0, d_meas, e_deg, FLAG_SOLVED)
                } else {
                    assert(u0 =~= self.d_cmd_prev);
                    self.end_cycle(bus, u0, d_meas, e_deg, FLAG_INFEASIBLE)
                }
            },
        }
    }
}

/// Measured positions lie on the rails, and between their ends if the previous
/// ones did.
proof fn lemma_positions_are_on_rail(previous: PerAxis, latest: Readings)
    ensures
        rail::all_on_rail(positions_of(previous, latest)),
        rail::all_within_ends(previous) ==> rail::all_within_ends(positions_of(previous, latest)),
{
    let d = [
        rail::held(previous[0], latest[0]),
        rail::held(previous[1], latest[1]),
        rail::held(previous[2], latest[2]),
        rail::held(previous[3], latest[3]),
    ];
    rail::law_saturation_is_idempotent(d);
    if rail::all_within_ends(previous) {
        assert forall|i: int| 0 <= i < 4 implies !(#[trigger] d[i]).nan() by {
            assert(!previous[i].nan());
        }
        rail::law_saturated_positions_lie_within_ends(d);
    }
}

proof fn lemma_commands_are_on_rail(state: MpcLoop, event: MpcEvent)
    ensures
        rail::all_on_rail(rail::saturated(state.d_cmd_prev)),
        event matches MpcEvent::Solved { attempt } ==> rail::all_on_rail(
            rail::saturated(first_input(attempt->x@)),
        ),
{
    rail::law_saturation_is_idempotent(state.d_cmd_prev);
    if let MpcEvent::Solved { attempt } = event {
        rail::law_saturation_is_idempotent(first_input(attempt->x@));
    }
}

proof fn lemma_commands_lie_within_ends(state: MpcLoop, event: MpcEvent)
    requires
        state.positions_within_ends(),
    ensures
        rail::all_within_ends(rail::saturated(state.d_cmd_prev)),
        event matches MpcEvent::Solved { attempt } ==> (attempt.usable() && attempt->x@.len() >= 4
            ==> rail::all_within_ends(rail::saturated(first_input(attempt->x@)))),
{
    rail::law_saturated_positions_lie_within_ends(state.d_cmd_prev);
    if let MpcEvent::Solved { attempt } = event {
        if attempt.usable() && attempt->x@.len() >= 4 {
            let u = first_input(attempt->x@);
            assert forall|i: int| 0 <= i < 4 implies !(#[trigger] u[i]).nan() by {
                assert(attempt->x@[i].finite());
            }
            rail::law_saturated_positions_lie_within_ends(u);
        }
    }
}

/// Steps of a cycle in a row: `loops[k]` takes `events[k]`, which leads to
/// `loops[k + 1]` and `actions[k]`, while the bus log grows from `logs[k]` to
/// `logs[k + 1]`.
pub open spec fn runs(
    loops: Seq<MpcLoop>,
    events: Seq<MpcEvent>,
    actions: Seq<MpcAction>,
    logs: Seq<Seq<BusEvent>>,
) -> bool {
    &&& loops.len() == events.len() + 1
    &&& actions.len() == events.len()
    &&& logs.len() == events.len() + 1
    &&& loops[0].wf() && loops[0].phase is Resting
    &&& forall|k: int|
        0 <= k < events.len() ==> #[trigger] loops[k].awaits(events[k]) && stepped(
            loops[k],
            events[k],
            loops[k + 1],
            actions[k],
            logs[k],
            logs[k + 1],
        )
}

/// The positions that the cycle `logs` measures.
pub open spec fn measured(first: MpcLoop, logs: Seq<Seq<BusEvent>>) -> PerAxis {
    positions_of(
        first.d_meas_prev,
        rig::sensed_positions(logs[0], logs[1], SENSOR_PAUSE_MS),
    )
}

/// The first step of a cycle reads the sensors and leaves the command and the
/// settings alone.
proof fn lemma_begin(
    loops: Seq<MpcLoop>,
    events: Seq<MpcEvent>,
    actions: Seq<MpcAction>,
    logs: Seq<Seq<BusEvent>>,
)
    requires
        runs(loops, events, actions, logs),
        events.len() > 1,
    ensures
        loops[1] == (MpcLoop {
            phase: MpcPhase::Filtering { d_meas: measured(loops[0], logs) },
            ..loops[0]
        }),
        logs[0].is_prefix_of(logs[1]),
        rig::motionless(logs[1].skip(logs[0].len() as int)),
        writes_in(logs[1].skip(logs[0].len() as int)) == rig::sensing_requests(),
{
    assert(loops[0].awaits(events[0]));
    rig::law_sensing_writes_five_requests(
        logs[0],
        logs[1],
        rig::sensed_positions(logs[0], logs[1], SENSOR_PAUSE_MS),
        rig::sensed_attitude(logs[1]),
        SENSOR_PAUSE_MS,
    );
    rig::law_sensing_moves_nothing(
        logs[0],
        logs[1],
        rig::sensed_positions(logs[0], logs[1], SENSOR_PAUSE_MS),
        rig::sensed_attitude(logs[1]),
        SENSOR_PAUSE_MS,
    );
}

/// With the controller off, a whole cycle writes nothing but the requests to the
/// sensors, holds the command exactly, and reports so.
pub proof fn law_controller_off_moves_nothing(
    loops: Seq<MpcLoop>,
    events: Seq<MpcEvent>,
    actions: Seq<MpcAction>,
    logs: Seq<Seq<BusEvent>>,
)
    requires
        runs(loops, events, actions, logs),
        events.len() == 2,
        !loops[0].controller_on,
    ensures
        loops[2].phase is Resting,
        loops[2].d_cmd_prev == loops[0].d_cmd_prev,
        loops[2].cycle == loops[0].cycle + 1,
        actions[1] is Report,
        actions[1]->telemetry@.exitflag == FLAG_OFF,
        actions[1]->telemetry@.d_cmd == loops[0].d_cmd_prev,
        logs[0].is_prefix_of(logs[2]),
        rig::motionless(logs[2].skip(logs[0].len() as int)),
        writes_in(logs[2].skip(logs[0].len() as int)) == rig::sensing_requests(),
{
    lemma_begin(loops, events, actions, logs);
    assert(loops[1].awaits(events[1]));
    rail::law_positions_on_rail_are_kept(loops[0].d_cmd_prev);
}

/// While the masses are further from their commands than the tolerance, the
/// cycle holds the command exactly, skips the solve, and reports so.
pub proof fn law_tracking_gate_holds_command(
    loops: Seq<MpcLoop>,
    events: Seq<MpcEvent>,
    actions: Seq<MpcAction>,
    logs: Seq<Seq<BusEvent>>,
)
    requires
        runs(loops, events, actions, logs),
        events.len() == 2,
        loops[0].controller_on,
        rail::gate_held(
            distances(measured(loops[0], logs), loops[0].d_cmd_prev),
            loops[0].ctrl.d_track_tol,
        ),
    ensures
        loops[2].phase is Resting,
        loops[2].d_cmd_prev == loops[0].d_cmd_prev,
        actions[1] is Report,
        actions[1]->telemetry@.exitflag == FLAG_HELD,
        actions[1]->telemetry@.d_cmd == loops[0].d_cmd_prev,
        writes_in(logs[2].skip(logs[0].len() as int)) == rig::sensing_requests()
            + rig::drive_requests(
            motor_targets(loops[0].d_cmd_prev, measured(loops[0], logs)),
            loops[0].spd,
            loops[0].acc,
        ),
{
    lemma_begin(loops, events, actions, logs);
    assert(loops[1].awaits(events[1]));
    rail::law_positions_on_rail_are_kept(loops[0].d_cmd_prev);
    rig::law_driving_writes_four_more(
        logs[0],
        logs[1],
        motor_targets(loops[0].d_cmd_prev, measured(loops[0], logs)),
        loops[0].spd,
        loops[0].acc,
        MOTOR_PAUSE_MS,
    );
}

/// A cycle that solves ends with the first input of the solution, limited to
/// the rails, as the command. Without a usable solution the command is held
/// exactly. Either way all four masses are driven to it, with the speed and the
/// acceleration of the loop.
pub proof fn law_solved_cycle_commands_solution(
    loops: Seq<MpcLoop>,
    events: Seq<MpcEvent>,
    actions: Seq<MpcAction>,
    logs: Seq<Seq<BusEvent>>,
    attempt: Attempt,
)
    requires
        runs(loops, events, actions, logs),
        events.len() == 3,
        events[2] == (MpcEvent::Solved { attempt }),
    ensures
        loops[3].phase is Resting,
        actions[2] is Report,
        actions[2]->telemetry@.d_cmd == loops[3].d_cmd_prev,
        actions[2]->telemetry@.d_meas == measured(loops[0], logs),
        attempt.usable() ==> loops[3].d_cmd_prev == rail::saturated(first_input(attempt->x@))
            && actions[2]->telemetry@.exitflag == FLAG_SOLVED,
        !attempt.usable() ==> loops[3].d_cmd_prev == loops[0].d_cmd_prev
            && actions[2]->telemetry@.exitflag == FLAG_INFEASIBLE,
        writes_in(logs[3].skip(logs[0].len() as int)) == rig::sensing_requests()
            + rig::drive_requests(
            motor_targets(loops[3].d_cmd_prev, measured(loops[0], logs)),
            loops[0].spd,
            loops[0].acc,
        ),
{
    lemma_begin(loops, events, actions, logs);
    let first = loops[0];
    rail::law_positions_on_rail_are_kept(first.d_cmd_prev);
    assert(loops[2].phase is Solving && loops[2].phase->Solving_d_meas == measured(first, logs)
        && loops[2].d_cmd_prev == first.d_cmd_prev && loops[2].acc == first.acc && loops[2].spd
        == first.spd && loops[2].controller_on && logs[2] == logs[1]) by {
        assert(loops[1].awaits(events[1]));
        assert(loops[2].awaits(events[2]));
    }
    assert(loops[2].awaits(events[2]));
    rig::law_driving_writes_four_more(
        logs[0],
        logs[1],
        motor_targets(loops[3].d_cmd_prev, measured(first, logs)),
        first.spd,
        first.acc,
        MOTOR_PAUSE_MS,
    );
}

/// An implausible estimate, and after the first cycle one that jumped, changes
/// neither the estimate nor its covariance.
pub proof fn law_divergence_keeps_estimate(
    before: MpcLoop,
    x: [Scalar; 5],
    p: Matrix,
    after: MpcLoop,
    action: MpcAction,
    log: Seq<BusEvent>,
    log_after: Seq<BusEvent>,
)
    requires
        stepped(before, MpcEvent::Filtered { x, p }, after, action, log, log_after),
        kf::diverged(x@, None) || before.cycle > 0 && kf::diverged(x@, Some(before.x_est@)),
    ensures
        after.x_est == before.x_est,
        after.p_kf == before.p_kf,
{
}

/// What a cycle of the loop `loops[0]` reports: angles between -50 and 50 degrees
/// which, after the first cycle, are at most 20 degrees from those of the cycle
/// before; positions between the ends of the rails, if they were there before;
/// and the next cycle, two seconds later.
pub proof fn law_reports_are_plausible(
    loops: Seq<MpcLoop>,
    events: Seq<MpcEvent>,
    actions: Seq<MpcAction>,
    logs: Seq<Seq<BusEvent>>,
)
    requires
        runs(loops, events, actions, logs),
        events.len() == 2 || events.len() == 3,
        actions.last() is Report,
    ensures
        ({
            let first = loops[0];
            let last = loops.last();
            let report = actions.last()->telemetry@;
            let tilt_deg = [report.roll_deg, report.pitch_deg];
            &&& last.phase is Resting
            &&& tilt_deg == kf::tilt_of(last.x_est@)
            &&& kf::plausible(last.x_est@)
            &&& first.cycle > 0 ==> kf::close_to(kf::tilt_of(first.x_est@), tilt_deg)
            &&& report.d_cmd == last.d_cmd_prev
            &&& report.d_meas == last.d_meas_prev
            &&& first.positions_within_ends() ==> last.positions_within_ends()
            &&& report.cycle == first.cycle + 1
            &&& report.t_ms == first.t_ms + PLANT_T_MS
        }),
{
    lemma_step_of_run(loops, events, actions, logs, 0);
    lemma_filtered_angles_are_close(loops, events, actions, logs);
    lemma_step_of_run(loops, events, actions, logs, 1);
    if events.len() == 3 {
        lemma_step_of_run(loops, events, actions, logs, 2);
    }
}

/// What a step of a cycle keeps, and what the last one reports.
proof fn lemma_step_of_run(
    loops: Seq<MpcLoop>,
    events: Seq<MpcEvent>,
    actions: Seq<MpcAction>,
    logs: Seq<Seq<BusEvent>>,
    k: int,
)
    requires
        runs(loops, events, actions, logs),
        0 <= k < events.len(),
        loops[k].wf(),
    ensures
        ({
            let before = loops[k];
            let after = loops[k + 1];
            &&& after.wf()
            &&& before.positions_within_ends() ==> after.positions_within_ends()
            &&& match events[k] {
                MpcEvent::Begin => before.phase is Resting && after.phase is Filtering,
                MpcEvent::Filtered { .. } => before.phase is Filtering && !(after.phase
                    is Filtering),
                MpcEvent::Solved { .. } => before.phase is Solving && after.phase is Resting,
            }
            &&& !(events[k] is Filtered) ==> after.x_est == before.x_est
            &&& actions[k] is Report <==> !(before.phase is Resting) && after.phase is Resting
            &&& if actions[k] is Report {
                let report = actions[k]->telemetry@;
                &&& after.cycle == before.cycle + 1
                &&& after.t_ms == before.t_ms + PLANT_T_MS
                &&& [report.roll_deg, report.pitch_deg] == kf::tilt_of(after.x_est@)
                &&& report.d_cmd == after.d_cmd_prev
                &&& report.d_meas == after.d_meas_prev
                &&& report.cycle == after.cycle
                &&& report.t_ms == after.t_ms
            } else {
                after.cycle == before.cycle && after.t_ms == before.t_ms
            }
        }),
{
    let before = loops[k];
    let event = events[k];
    assert(before.awaits(event));
    lemma_commands_are_on_rail(before, event);
    if before.positions_within_ends() {
        lemma_commands_lie_within_ends(before, event);
    }
    if event is Begin {
        lemma_positions_are_on_rail(
            before.d_meas_prev,
            rig::sensed_positions(logs[k], logs[k + 1], SENSOR_PAUSE_MS),
        );
    }
    if actions[k] is Report {
        let report = actions[k]->telemetry@;
        assert([report.roll_deg, report.pitch_deg] =~= kf::tilt_of(loops[k + 1].x_est@));
    }
}

/// The angles after the filter of a cycle are close to those before it.
proof fn lemma_filtered_angles_are_close(
    loops: Seq<MpcLoop>,
    events: Seq<MpcEvent>,
    actions: Seq<MpcAction>,
    logs: Seq<Seq<BusEvent>>,
)
    requires
        runs(loops, events, actions, logs),
        events.len() > 1,
        loops[1].phase is Filtering,
        loops[1].wf(),
    ensures
        loops[1].cycle > 0 ==> kf::close_to(
            kf::tilt_of(loops[1].x_est@),
            kf::tilt_of(loops[2].x_est@),
        ),
{
    assert(loops[1].awaits(events[1]));
    let before = loops[1].x_est@;
    kf::lemma_same_angles_are_close(kf::tilt_of(before));
    if let MpcEvent::Filtered { x, .. } = events[1] {
        if !kf::diverged(x@, Some(before)) {
            kf::law_accepted_estimate_is_close(before, x@);
        }
    }
}

/// No step of a cycle changes the preset or the positions at which the model is
/// linearized.
pub proof fn law_steps_keep_start(
    before: MpcLoop,
    event: MpcEvent,
    after: MpcLoop,
    action: MpcAction,
    log: Seq<BusEvent>,
    log_after: Seq<BusEvent>,
)
    requires
        before.awaits(event),
        stepped(before, event, after, action, log, log_after),
    ensures
        after.preset == before.preset,
        after.d_op == before.d_op,
        after.d_init == before.d_init,
        after.ctrl == before.ctrl,
{
}

/// A running loop was linearized where no mass was below the threshold of its
/// start.
pub proof fn law_start_is_above_threshold(state: MpcLoop, i: int)
    requires
        state.wf(),
        0 <= i < 4,
    ensures
        !state.d_op[i].lt(Scalar { bits: INIT_MIN_D }),
{
}

/// At the beginning of a cycle every axis is measured by its own reply: the reply to
/// the request with its address gives its position if it decodes to a finite one, and
/// what was measured before stays otherwise. Beyond an end of the rail it counts as at
/// that end.
pub proof fn law_begin_measures_each_axis(
    before: MpcLoop,
    after: MpcLoop,
    action: MpcAction,
    log: Seq<BusEvent>,
    log_after: Seq<BusEvent>,
    k: int,
)
    requires
        stepped(before, MpcEvent::Begin, after, action, log, log_after),
        0 <= k < 4,
    ensures
        ({
            let n = log.len() as int;
            let reading = mks::encoder_reply((k + 1) as u8, log_after[n + 4 * k + 2]->reply);
            let known = match reading {
                Some(v) if v.finite() => v,
                _ => before.d_meas_prev[k],
            };
            let d = after.phase->Filtering_d_meas[k];
            let (low, high) = (Scalar { bits: rail::D_MIN }, Scalar { bits: rail::D_MAX });
            &&& log_after[n + 4 * k + 1] == (BusEvent::Write {
                bytes: mks::request_frame((k + 1) as u8, 0x30),
            })
            &&& log_after[n + 4 * k + 2] is Read
            &&& after.phase is Filtering
            &&& known.nan() ==> d == known
            &&& low.units() <= known.units() <= high.units() ==> d == known
            &&& !known.nan() && known.units() < low.units() ==> d == low
            &&& !known.nan() && known.units() > high.units() ==> d == high
            &&& after == (MpcLoop { phase: after.phase, ..before })
        }),
{
    let encoders = rig::sensed_positions(log, log_after, SENSOR_PAUSE_MS);
    let imu = rig::sensed_attitude(log_after);
    rig::law_sensors_are_asked_in_turn(log, log_after, encoders, imu, SENSOR_PAUSE_MS, k);
    let p = before.d_meas_prev;
    let d = [
        rail::held(p[0], encoders[0]),
        rail::held(p[1], encoders[1]),
        rail::held(p[2], encoders[2]),
        rail::held(p[3], encoders[3]),
    ];
    assert(k == 0 || k == 1 || k == 2 || k == 3);
    rail::law_each_position_is_limited(d, k);
}

/// What the filter observes at the beginning of a cycle: roll and pitch of the
/// attitude sensor's reply, in radians, and its three rates in their order, as far as
/// the reply gives finite ones; the estimate where it does not.
pub proof fn law_begin_observes_attitude(
    before: MpcLoop,
    after: MpcLoop,
    action: MpcAction,
    log: Seq<BusEvent>,
    log_after: Seq<BusEvent>,
    i: int,
    k: int,
)
    requires
        stepped(before, MpcEvent::Begin, after, action, log, log_after),
        0 <= i < 2,
        0 <= k < 3,
    ensures
        action is Filter,
        ({
            let y = action->y;
            let c = Scalar { bits: RAD_PER_DEG };
            match imu::combined_reply(log_after[log.len() as int + 18]->reply) {
                Some(frame) => {
                    let (angle, gyro) = (frame.angle_deg, frame.gyro_dps);
                    &&& angle[0].finite() && angle[1].finite() && angle[2].finite() ==> y[i]
                        == angle[i].times(c)
                    &&& gyro[0].finite() && gyro[1].finite() && gyro[2].finite() ==> y[2 + k]
                        == gyro[k].times(c)
                    &&& !angle[0].finite() || !angle[1].finite() || !angle[2].finite() ==> y[i]
                        == before.x_est[i]
                    &&& !gyro[0].finite() || !gyro[1].finite() || !gyro[2].finite() ==> y[2 + k]
                        == before.x_est[2 + k]
                },
                None => y[i] == before.x_est[i] && y[2 + k] == before.x_est[2 + k],
            }
        }),
{
    let encoders = rig::sensed_positions(log, log_after, SENSOR_PAUSE_MS);
    let imu = rig::sensed_attitude(log_after);
    rig::law_sensors_are_asked_in_turn(log, log_after, encoders, imu, SENSOR_PAUSE_MS, 0);
    if let Some(frame) = imu {
        lemma_three_finite(frame.angle_deg);
        lemma_three_finite(frame.gyro_dps);
    }
}

pub proof fn lemma_three_finite(v: [Scalar; 3])
    ensures
        all_finite(v@) <==> v[0].finite() && v[1].finite() && v[2].finite(),
{
    if v[0].finite() && v[1].finite() && v[2].finite() {
        assert forall|i: int| 0 <= i < 3 implies (#[trigger] v@[i]).finite() by {
            assert(i == 0 || i == 1 || i == 2);
        }
    } else if all_finite(v@) {
        assert(v@[0].finite() && v@[1].finite() && v@[2].finite());
    }
}

/// The estimate of the filter is taken over with its covariance unless it has
/// diverged; from the first cycle on it is held against the estimate before it.
pub proof fn law_sound_estimate_is_taken(
    before: MpcLoop,
    x: [Scalar; 5],
    p: Matrix,
    after: MpcLoop,
    action: MpcAction,
    log: Seq<BusEvent>,
    log_after: Seq<BusEvent>,
)
    requires
        stepped(before, MpcEvent::Filtered { x, p }, after, action, log, log_after),
    ensures
        before.cycle == 0 && !kf::diverged(x@, None) ==> after.x_est == x && after.p_kf == p,
        before.cycle > 0 && !kf::diverged(x@, Some(before.x_est@)) ==> after.x_est == x
            && after.p_kf == p,
        before.cycle == 0 && kf::diverged(x@, None) ==> after.x_est == before.x_est && after.p_kf
            == before.p_kf,
        before.cycle > 0 && kf::diverged(x@, Some(before.x_est@)) ==> after.x_est == before.x_est
            && after.p_kf == before.p_kf,
{
}

/// What the loop tracks: after the filter, the tracking error of each axis is its
/// estimated angle minus the angle that the operator sets, in degrees within 2^-40,
/// and two seconds of it are added to the integral of that axis, within 2^-31. The
/// error is reported, or kept for the report while the program is solved.
pub proof fn law_filter_step_tracks_setpoint(
    before: MpcLoop,
    x: [Scalar; 5],
    p: Matrix,
    after: MpcLoop,
    action: MpcAction,
    log: Seq<BusEvent>,
    log_after: Seq<BusEvent>,
    i: int,
)
    requires
        before.wf(),
        stepped(before, MpcEvent::Filtered { x, p }, after, action, log, log_after),
        0 <= i < 2,
        before.setpoint_deg[i].finite(),
        -pow2(1081) <= before.setpoint_deg[i].units() <= pow2(1081),
        before.e_int[i].finite(),
        -1048576 * pow2(1074) <= before.e_int[i].units() <= 1048576 * pow2(1074),
    ensures
        ({
            let one = pow2(1074) as int;
            let e_deg = if action is Report {
                action->telemetry@.e_deg[i]
            } else {
                after.phase->Solving_e_deg[i]
            };
            let exact = after.x_est[i].units() * one - before.setpoint_deg[i].units() * (Scalar {
                bits: RAD_PER_DEG,
            }).units();
            let shown = (e_deg.units() * one) * one - exact * (Scalar {
                bits: DEG_PER_RAD,
            }).units();
            let grown = (after.e_int[i].units() - before.e_int[i].units()) * one - 2 * exact;
            &&& action is Report || action is Solve && after.phase is Solving
            &&& -((pow2(1034) * one) * one) <= shown <= (pow2(1034) * one) * one
            &&& -(pow2(1043) * one) <= grown <= pow2(1043) * one
        }),
{
    let kept = before.estimated(x, p);
    let xs = kept.x_est@;
    assert(kf::plausible(xs));
    assert(xs[i].finite());
    kf::law_accepted_angles_are_small(xs, None, i);
    lemma_angle_is_below_two(xs[i]);
    lemma_scales();
    lemma_pow2_unfold(1082);
    law_error_in_degrees_is_near(xs, before.setpoint_deg, i);
    let t = Scalar { bits: PLANT_T };
    lemma_two_seconds();
    law_cycle_integrates_error(xs, before.setpoint_deg, before.e_int, t, i);
    let one = pow2(1074) as int;
    let exact = xs[i].units() * one - before.setpoint_deg[i].units() * (Scalar {
        bits: RAD_PER_DEG,
    }).units();
    let d = after.e_int[i].units() - before.e_int[i].units();
    let m = pow2(1043) as int;
    assert(-(m * one) <= d * one - 2 * exact <= m * one) by (nonlinear_arith)
        requires
            -((m * one) * one) <= (d * one) * one - (2 * one) * exact <= (m * one) * one,
            one > 0,
    ;
}

/// Angles of at most 50 degrees are below 2 radians.
pub proof fn lemma_angle_is_below_two(x: Scalar)
    requires
        ({
            let exact = x.units() * (Scalar { bits: DEG_PER_RAD }).units();
            let most = ((Scalar { bits: kf::MAX_ANGLE_DEG }).units() + pow2(1027)) * pow2(1074);
            -most <= exact <= most
        }),
    ensures
        -2 * pow2(1074) <= x.units() <= 2 * pow2(1074),
{
    lemma_scales();
    lemma_powers();
    vstd::arithmetic::power2::lemma2_to64();
    vstd::arithmetic::power2::lemma2_to64_rest();
    lemma_parts(kf::MAX_ANGLE_DEG);
    assert(significand_of(kf::MAX_ANGLE_DEG) == 50 * 0x8000_0000_0000u64 && places_of(
        kf::MAX_ANGLE_DEG,
    ) == 1027);
    lemma_pow2_adds(47, 1027);
    let (one, step) = (pow2(1074) as int, pow2(1027) as int);
    assert((50 * 0x8000_0000_0000int) * step == 50 * (0x8000_0000_0000int * step))
        by (nonlinear_arith);
    let (u, c) = (x.units(), (Scalar { bits: DEG_PER_RAD }).units());
    assert(-(2 * one) <= u <= 2 * one) by (nonlinear_arith)
        requires
            -((50 * one + step) * one) <= u * c <= (50 * one + step) * one,
            step <= one,
            32 * one < c,
            one > 0,
    ;
}

/// The length of a cycle is two, in seconds.
proof fn lemma_two_seconds()
    ensures
        (Scalar { bits: PLANT_T }).units() == 2 * pow2(1074),
        (Scalar { bits: PLANT_T }).finite(),
        2 * pow2(1074) <= pow2(1079),
{
    lemma_scales();
    lemma_powers();
    let range = crate::scalar::FRACTION_RANGE as int;
    lemma_composed(1023, range);
    lemma_pow2_adds(52, 1023);
    lemma_pow2_unfold(1075);
    assert((1023 * range + range) as u64 == PLANT_T);
}

/// The program is solved for the state as it is: the five numbers of the estimate, the
/// two integrals, and the four measured positions, each at its place. It is to track
/// the angles that the operator sets, in radians, each axis its own.
pub proof fn law_program_gets_current_state(
    before: MpcLoop,
    x: [Scalar; 5],
    p: Matrix,
    after: MpcLoop,
    action: MpcAction,
    log: Seq<BusEvent>,
    log_after: Seq<BusEvent>,
    j: int,
    i: int,
    k: int,
)
    requires
        stepped(before, MpcEvent::Filtered { x, p }, after, action, log, log_after),
        action is Solve,
        0 <= j < 5,
        0 <= i < 2,
        0 <= k < 4,
    ensures
        action->x11[j] == after.x_est[j],
        action->x11[5 + i] == after.e_int[i],
        action->x11[7 + k] == before.phase->Filtering_d_meas[k],
        action->reference[i] == before.setpoint_deg[i].times(Scalar { bits: RAD_PER_DEG }),
        after.phase is Solving,
        after.phase->Solving_d_meas == before.phase->Filtering_d_meas,
        after.d_cmd_prev == before.d_cmd_prev,
        log_after == log,
{
}

/// When the program is solved at all: with the controller on, and with every mass at
/// most the tolerance from its command. If some mass is further away, by more than
/// 2^-51 m for rounding, the command is held and so reported; with the controller off
/// it is held in any case, and reported as off.
pub proof fn law_program_waits_for_masses(
    before: MpcLoop,
    x: [Scalar; 5],
    p: Matrix,
    after: MpcLoop,
    action: MpcAction,
    log: Seq<BusEvent>,
    log_after: Seq<BusEvent>,
)
    requires
        before.wf(),
        stepped(before, MpcEvent::Filtered { x, p }, after, action, log, log_after),
        all_finite(before.phase->Filtering_d_meas@),
        all_finite(before.d_cmd_prev@),
        !before.ctrl.d_track_tol.nan(),
        before.ctrl.d_track_tol.units() >= 0,
    ensures
        ({
            let (d, c) = (before.phase->Filtering_d_meas, before.d_cmd_prev);
            let tol = before.ctrl.d_track_tol.units();
            let near = forall|i: int|
                0 <= i < 4 ==> -tol <= (#[trigger] d[i]).units() - c[i].units() <= tol;
            let far = exists|i: int|
                0 <= i < 4 && {
                    let exact = (#[trigger] d[i]).units() - c[i].units();
                    &&& -pow2(1077) < exact < pow2(1077)
                    &&& exact > tol + pow2(1023) || exact < -tol - pow2(1023)
                };
            &&& before.controller_on && near ==> action is Solve
            &&& before.controller_on && far ==> action is Report && action->telemetry@.exitflag
                == -99 && after.d_cmd_prev == c
            &&& !before.controller_on ==> action is Report && action->telemetry@.exitflag == 0
                && after.d_cmd_prev == c
        }),
{
    let (d, c) = (before.phase->Filtering_d_meas, before.d_cmd_prev);
    law_gate_goes_by_distance(d, c, before.ctrl.d_track_tol);
    rail::law_positions_on_rail_are_kept(c);
}

/// What a solution does: after a usable one, with finite numbers, each mass `k` is
/// commanded to input `k` of its first step, limited to the rail; after any other
/// outcome the command stays exactly. The report says which of the two it was.
pub proof fn law_solution_commands_each_axis(
    before: MpcLoop,
    attempt: Attempt,
    after: MpcLoop,
    action: MpcAction,
    log: Seq<BusEvent>,
    log_after: Seq<BusEvent>,
    k: int,
)
    requires
        before.wf(),
        before.awaits(MpcEvent::Solved { attempt }),
        stepped(before, MpcEvent::Solved { attempt }, after, action, log, log_after),
        0 <= k < 4,
    ensures
        action is Report,
        action->telemetry@.d_cmd[k] == after.d_cmd_prev[k],
        action->telemetry@.e_deg == before.phase->Solving_e_deg,
        after.x_est == before.x_est && after.e_int == before.e_int,
        match attempt {
            Attempt::Finished { solved, x } => if solved && forall|j: int|
                0 <= j < x@.len() ==> (#[trigger] x@[j]).finite() {
                let (low, high) = (Scalar { bits: rail::D_MIN }, Scalar { bits: rail::D_MAX });
                let u = x@[k];
                &&& action->telemetry@.exitflag == 1
                &&& low.units() <= u.units() <= high.units() ==> after.d_cmd_prev[k] == u
                &&& u.units() < low.units() ==> after.d_cmd_prev[k] == low
                &&& u.units() > high.units() ==> after.d_cmd_prev[k] == high
            } else {
                action->telemetry@.exitflag == -1 && after.d_cmd_prev[k] == before.d_cmd_prev[k]
            },
            Attempt::Refused => action->telemetry@.exitflag == -1 && after.d_cmd_prev[k]
                == before.d_cmd_prev[k],
        },
{
    rail::law_positions_on_rail_are_kept(before.d_cmd_prev);
    if attempt.usable() {
        assert(attempt->x@[k].finite());
        rail::law_each_position_is_limited(first_input(attempt->x@), k);
        assert(k == 0 || k == 1 || k == 2 || k == 3);
    }
}

/// At the end of a cycle every motor is driven to the command of its own axis, with
/// the speed and the acceleration of the loop: the second by the distance from where
/// it was measured, the others to the position. With the controller off nothing is
/// sent.
pub proof fn law_cycle_drives_each_motor(
    before: MpcLoop,
    event: MpcEvent,
    after: MpcLoop,
    action: MpcAction,
    log: Seq<BusEvent>,
    log_after: Seq<BusEvent>,
    k: int,
)
    requires
        before.awaits(event),
        stepped(before, event, after, action, log, log_after),
        action is Report,
        0 <= k < 4,
    ensures
        !before.controller_on ==> log_after == log,
        before.controller_on ==> {
            let n = log.len() as int;
            let target = if k == 1 {
                after.d_cmd_prev[1].minus(after.d_meas_prev[1])
            } else {
                after.d_cmd_prev[k]
            };
            &&& log_after.len() == n + 12
            &&& log == log_after.take(n)
            &&& rig::asks_for_move(
                log_after[n + 3 * k + 1],
                if k == 1 {
                    0xF4
                } else {
                    0xF5
                },
                k,
                target,
                before.spd,
                before.acc,
            )
            &&& log_after[n + 3 * k] is Flush
            &&& log_after[n + 3 * k + 2] == (BusEvent::Pause { ms: 120 })
        },
{
    if before.controller_on {
        let targets = motor_targets(after.d_cmd_prev, after.d_meas_prev);
        rig::law_drive_moves_each_axis(targets, before.spd, before.acc, MOTOR_PAUSE_MS, k);
        assert(k == 0 || k == 1 || k == 2 || k == 3);
        assert(log =~= log_after.take(log.len() as int));
    }
}

/// What a cycle reports is what the loop has: the angles of the estimate and its
/// rates, in degrees and in their order, the measured and the commanded positions, the
/// cycle and the time. The measured positions are those of this cycle.
pub proof fn law_report_shows_the_loop(
    before: MpcLoop,
    event: MpcEvent,
    after: MpcLoop,
    action: MpcAction,
    log: Seq<BusEvent>,
    log_after: Seq<BusEvent>,
    k: int,
    j: int,
)
    requires
        before.wf(),
        before.awaits(event),
        stepped(before, event, after, action, log, log_after),
        action is Report,
        0 <= k < 4,
        0 <= j < 3,
    ensures
        ({
            let report = action->telemetry@;
            let c = Scalar { bits: DEG_PER_RAD };
            let d_meas = match before.phase {
                MpcPhase::Filtering { d_meas } => d_meas,
                MpcPhase::Solving { d_meas, .. } => d_meas,
                MpcPhase::Resting => after.d_meas_prev,
            };
            &&& report.run_state == RunState::Mpc
            &&& report.connected && report.is_sample && !report.is_poll
            &&& report.manual_read is None
            &&& report.roll_deg == after.x_est[0].times(c)
            &&& report.pitch_deg == after.x_est[1].times(c)
            &&& report.gyro_dps[j] == after.x_est[2 + j].times(c)
            &&& report.d_meas[k] == d_meas[k]
            &&& after.d_meas_prev[k] == d_meas[k]
            &&& report.d_cmd[k] == after.d_cmd_prev[k]
            &&& report.cycle == before.cycle + 1
            &&& report.t_ms == before.t_ms + 2000
            &&& after.cycle == report.cycle && after.t_ms == report.t_ms
            &&& after.phase is Resting
            &&& after.controller_on == before.controller_on
            &&& after.setpoint_deg == before.setpoint_deg
            &&& after.spd == before.spd && after.acc == before.acc
        }),
{
}

} // verus!
