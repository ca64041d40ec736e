//! The linear-quadratic control loop with integral action, one cycle at a time.
//!
//! As in [`crate::mpc_loop`], [`LqiLoop::one_step`] takes the outcome of the last
//! piece of arithmetic and returns what to compute next.

use crate::binary64::{
    law_difference_is_nearly_exact, law_difference_tells_order, law_sum_is_nearly_exact,
    law_sum_respects_order, law_sum_stays_finite, law_sum_with_infinity, lemma_composed,
    lemma_parts, lemma_powers, places_of, significand_of, DEG_PER_RAD, RAD_PER_DEG,
};
use crate::commands::{MassSolver, DEFAULT_ACC, DEFAULT_SPD};
use crate::division::{law_quotient_is_nearly_exact, law_whole_is_exact, whole};
use crate::imu;
use crate::imu::ImuFrame;
use crate::kf;
use crate::lqi_gains::LqiWeights;
use crate::matrix::Matrix;
use crate::mks;
use crate::mpc_loop::{lemma_angle_is_below_two, lemma_three_finite, INITIAL_VARIANCE};
use crate::prime::Nudge;
use crate::rail;
use crate::rail::PerAxis;
use crate::rig;
use crate::rig::Readings;
use crate::scalar::{
    all_finite, is_all_finite, law_absolute_drops_sign, lemma_magnitude_order, magnitude_units,
    Scalar, FRACTION_RANGE, INFINITY_BITS,
};
use crate::telemetry::{
    ExitFlag, RunState, Snapshot, Telemetry, FLAG_HELD, FLAG_OFF, FLAG_SOLVED,
};
use crate::tracking::{
    aim_motors, distances, error_of, integrate, integrated, law_cycle_integrates_error,
    law_error_in_degrees_is_near, law_gate_goes_by_distance, law_room_reaches_the_ends,
    lemma_scales, measure_distances, measure_room, motor_targets, move_each, moved, pair_in_degrees,
    pair_to_degrees, rates_in_degrees, rates_to_degrees, room_of, tracking_error,
};
use crate::transport::{follows_script, lemma_script_stands_still, writes_in, Bus, BusEvent};
use vstd::arithmetic::power2::{
    lemma_pow2_adds, lemma_pow2_pos, lemma_pow2_strictly_increases, lemma_pow2_unfold, pow2,
};
use vstd::prelude::*;

verus! {

/// Pause after each move, in milliseconds.
pub const MOTOR_PAUSE_MS: u64 = 100;

/// Pause after each encoder read and after the attitude reading, in
/// milliseconds.
pub const SENSOR_PAUSE_MS: u64 = 50;

/// The centre of the rails, where the allocated positions count from, 0.2 m, as
/// bits.
pub const D0_CENTER: u64 = 0x3FC9_9999_9999_999A;

/// Milliseconds in a second, 1000, as bits.
pub const MS_PER_SECOND: u64 = 0x408F_4000_0000_0000;

/// How far from its home end every mass must be at the start, 0.05 m, as bits.
pub const INIT_MIN_D: u64 = 0x3FA9_9999_9999_999A;

/// The nudge before the first encoder poll, -0.0015 m, as bits.
pub const NUDGE_DIST: u64 = 0xBF58_9374_BC6A_7EFA;

/// Acceleration of that nudge.
pub const NUDGE_ACC: u8 = 32;

/// What is known of the current cycle once the masses have been measured.
#[derive(Debug, Clone, Copy)]
pub struct LqiCycle {
    /// The length of the cycle, in milliseconds.
    pub plant_t_ms: u64,
    pub d_meas: PerAxis,
    /// The observation that the filter was given.
    pub y: [Scalar; 5],
}

/// How far the current cycle has come.
#[derive(Debug, Clone, Copy)]
pub enum LqiPhase {
    /// Between cycles.
    Resting,
    /// The mass positions and the observation are known.
    Filtering { cycle: LqiCycle },
    /// The torque is being allocated.
    Allocating { cycle: LqiCycle, e_deg: [Scalar; 2] },
}

/// The outcome of what [`LqiAction`] asked for.
#[derive(Debug)]
pub enum LqiEvent {
    /// A cycle of this length begins.
    Begin { plant_t_ms: u64 },
    /// The filter's next estimate and its covariance.
    Filtered { x: [Scalar; 5], p: Matrix },
    /// The allocated positions, counted from the centre of the rails.
    Allocated { d_sol: PerAxis },
}

/// What the caller computes next, or the end of the cycle.
#[derive(Debug)]
pub enum LqiAction {
    /// Run the filter from the current estimate with the observation `y`.
    Filter { y: [Scalar; 5] },
    /// Compute the torque from the current estimate and the integrated error, and
    /// allocate it; each mass may go from `lower` to `upper`.
    Allocate { solver: MassSolver, lower: Scalar, upper: Scalar },
    /// The cycle is over.
    Report { telemetry: Telemetry },
}

/// A running loop.
#[derive(Debug)]
pub struct LqiLoop {
    /// The gain on the attitude.
    pub kx: Matrix,
    /// The gain on the integrated error.
    pub ki: Matrix,
    pub x_est: [Scalar; 5],
    pub p_kf: Matrix,
    pub e_int: [Scalar; 2],
    /// The allocated positions, counted from the centre of the rails.
    pub d_running: PerAxis,
    pub d_cmd_prev: PerAxis,
    pub d_meas_prev: PerAxis,
    pub du_max: Scalar,
    pub d_track_tol: Scalar,
    pub cycle: u64,
    /// Time since the start, in milliseconds.
    pub t_ms: u64,
    pub phase: LqiPhase,
    pub controller_on: bool,
    pub setpoint_deg: [Scalar; 2],
    pub mass_solver: MassSolver,
    /// Speed of the moves, in RPM.
    pub spd: Scalar,
    /// Acceleration of the moves.
    pub acc: u8,
}

/// The nudge before the first encoder poll.
pub fn nudge() -> (res: Nudge)
    ensures
        res == (Nudge {
            dist_m: Scalar { bits: NUDGE_DIST },
            acc: NUDGE_ACC,
            pause_ms: MOTOR_PAUSE_MS,
        }),
{
    Nudge { dist_m: Scalar { bits: NUDGE_DIST }, acc: NUDGE_ACC, pause_ms: MOTOR_PAUSE_MS }
}

/// The positions of a cycle: readings that are missing or not finite leave the
/// previous position.
pub open spec fn positions_of(previous: PerAxis, latest: Readings) -> PerAxis {
    [
        rail::held(previous[0], latest[0]),
        rail::held(previous[1], latest[1]),
        rail::held(previous[2], latest[2]),
        rail::held(previous[3], latest[3]),
    ]
}

/// The observation of a cycle: roll and pitch of the reading if both are
/// finite, and rates of the reading if they are; the estimate otherwise.
pub open spec fn observed(x_est: [Scalar; 5], attitude: Option<ImuFrame>) -> [Scalar; 5] {
    let angles = match attitude {
        Some(a) if a.angle_deg[0].finite() && a.angle_deg[1].finite() => [
            a.angle_deg[0].in_radians(),
            a.angle_deg[1].in_radians(),
        ],
        _ => [x_est[0], x_est[1]],
    };
    let rates = match attitude {
        Some(a) if all_finite(a.gyro_dps@) => [
            a.gyro_dps[0].in_radians(),
            a.gyro_dps[1].in_radians(),
            a.gyro_dps[2].in_radians(),
        ],
        _ => [x_est[2], x_est[3], x_est[4]],
    };
    [angles[0], angles[1], rates[0], rates[1], rates[2]]
}

/// The change `excess` limited to `du_max` either way.
pub open spec fn rate_limited(excess: PerAxis, du_max: Scalar) -> PerAxis {
    [
        excess[0].clamped(du_max.negated(), du_max),
        excess[1].clamped(du_max.negated(), du_max),
        excess[2].clamped(du_max.negated(), du_max),
        excess[3].clamped(du_max.negated(), du_max),
    ]
}

/// `du_max` is a limit: a number that is not negative.
pub open spec fn is_limit(du_max: Scalar) -> bool {
    !du_max.nan() && du_max.units() >= 0
}

/// `ms` milliseconds in seconds.
pub open spec fn seconds(ms: u64) -> Scalar {
    whole(ms as int).over(Scalar { bits: MS_PER_SECOND })
}

/// The running positions `d_running` after a cycle that allocates `d_sol`: each
/// moves towards it, by at most `du_max`.
pub open spec fn advanced(d_running: PerAxis, d_sol: PerAxis, du_max: Scalar) -> PerAxis {
    moved(d_running, rate_limited(distances(d_sol, d_running), du_max))
}

/// The running positions `d_running`, counted from the home ends.
pub open spec fn from_home(d_running: PerAxis) -> PerAxis {
    let center = Scalar { bits: D0_CENTER };
    moved(d_running, [center, center, center, center])
}

fn observe(x_est: [Scalar; 5], attitude: Option<ImuFrame>) -> (y: [Scalar; 5])
    ensures
        y == observed(x_est, attitude),
{
    let mut y: [Scalar; 5] = x_est;
    if let Some(a) = attitude {
        if a.angle_deg[0].is_finite() && a.angle_deg[1].is_finite() {
            let deg = a.angle_deg;
            y = [deg[0].to_radians(), deg[1].to_radians(), y[2], y[3], y[4]];
        }
        if is_all_finite(a.gyro_dps.as_slice()) {
            let dps = a.gyro_dps;
            y = [y[0], y[1], dps[0].to_radians(), dps[1].to_radians(), dps[2].to_radians()];
        }
    }
    assert(y =~= observed(x_est, attitude));
    y
}

fn measure(previous: PerAxis, latest: Readings) -> (d_meas: PerAxis)
    ensures
        d_meas == positions_of(previous, latest),
{
    [
        rail::hold_reading(previous[0], latest[0]),
        rail::hold_reading(previous[1], latest[1]),
        rail::hold_reading(previous[2], latest[2]),
        rail::hold_reading(previous[3], latest[3]),
    ]
}

/// Limits the change `excess` to `du_max` either way.
pub fn limit_rate(excess: PerAxis, du_max: Scalar) -> (du: PerAxis)
    requires
        is_limit(du_max),
    ensures
        du == rate_limited(excess, du_max),
{
    proof {
        crate::scalar::law_negation_reverses_value(du_max);
    }
    let low = du_max.neg();
    [
        excess[0].clamp(low, du_max),
        excess[1].clamp(low, du_max),
        excess[2].clamp(low, du_max),
        excess[3].clamp(low, du_max),
    ]
}

/// Whether `du_max` is a limit: see [`is_limit`].
pub fn check_limit(du_max: Scalar) -> (res: bool)
    ensures
        res == is_limit(du_max),
{
    assert(crate::scalar::magnitude_units(0) == 0);
    (Scalar { bits: 0 }).less_or_equal(du_max)
}

impl LqiLoop {
    /// The commanded positions lie on the rails, and the estimate is plausible.
    pub open spec fn wf(&self) -> bool {
        rail::all_on_rail(self.d_cmd_prev) && kf::plausible(self.x_est@)
    }

    /// The command follows the running positions: it is what they are when counted
    /// from the home ends, limited to the rails.
    pub open spec fn follows(&self) -> bool {
        self.d_cmd_prev == rail::saturated(from_home(self.d_running))
    }

    /// `event` is the outcome of what this phase waits for. The rate limit must
    /// be a limit by the time it is needed, and the clock must not overflow.
    pub open spec fn awaits(&self, event: LqiEvent) -> bool {
        match event {
            LqiEvent::Begin { .. } => self.phase is Resting,
            LqiEvent::Filtered { .. } => {
                &&& self.phase is Filtering
                &&& self.t_ms + self.phase->Filtering_cycle.plant_t_ms <= u64::MAX
                &&& self.cycle < u64::MAX
            },
            LqiEvent::Allocated { .. } => {
                &&& self.phase is Allocating
                &&& is_limit(self.du_max)
                &&& self.t_ms + self.phase->Allocating_cycle.plant_t_ms <= u64::MAX
                &&& self.cycle < u64::MAX
            },
        }
    }

    /// The loop after the cycle `cycle`, which ends with the command `d_target`.
    pub open spec fn finished(self, d_target: PerAxis, cycle: LqiCycle) -> LqiLoop {
        LqiLoop {
            d_cmd_prev: rail::saturated(d_target),
            d_meas_prev: cycle.d_meas,
            cycle: (self.cycle + 1) as u64,
            t_ms: (self.t_ms + cycle.plant_t_ms) as u64,
            phase: LqiPhase::Resting,
            ..self
        }
    }

    /// The loop with the estimate `x` of the filter, unless that is implausible: it
    /// is thrown away with its covariance then.
    pub open spec fn estimated(self, x: [Scalar; 5], p: Matrix) -> LqiLoop {
        let before = if self.cycle > 0 {
            Some(self.x_est@)
        } else {
            None
        };
        if kf::diverged(x@, before) {
            self
        } else {
            LqiLoop { x_est: x, p_kf: p, ..self }
        }
    }

    /// What a cycle reports that has just ended, with the observation `y` and the
    /// tracking error `e_deg`.
    pub open spec fn cycle_report(
        &self,
        y: [Scalar; 5],
        e_deg: [Scalar; 2],
        exitflag: ExitFlag,
    ) -> Snapshot {
        let tilt_deg = kf::tilt_of(self.x_est@);
        Snapshot {
            run_state: RunState::Lqi,
            connected: true,
            is_sample: true,
            is_poll: false,
            manual_read: None,
            t_ms: self.t_ms,
            roll_deg: tilt_deg[0],
            pitch_deg: tilt_deg[1],
            gyro_dps: rates_in_degrees(y),
            d_meas: self.d_meas_prev,
            d_cmd: self.d_cmd_prev,
            e_deg,
            exitflag,
            status: "Running..."@,
            cycle: self.cycle,
        }
    }
}

/// The end of a cycle: the command `d_target` is taken over, limited to the rails,
/// and reported. With the controller on, all four masses are driven to it.
pub open spec fn ended(
    before: LqiLoop,
    d_target: PerAxis,
    cycle: LqiCycle,
    e_deg: [Scalar; 2],
    exitflag: ExitFlag,
    after: LqiLoop,
    action: LqiAction,
    log: Seq<BusEvent>,
    log_after: Seq<BusEvent>,
) -> bool {
    &&& after == before.finished(d_target, cycle)
    &&& action is Report
    &&& action->telemetry@ == after.cycle_report(cycle.y, e_deg, exitflag)
    &&& log_after == if before.controller_on {
        log + rig::drive_traffic(
            motor_targets(after.d_cmd_prev, cycle.d_meas),
            before.spd,
            before.acc,
            MOTOR_PAUSE_MS,
        )
    } else {
        log
    }
}

/// One step of a cycle: from the loop `before`, `event` leads to the loop
/// `after` and to `action`, and the bus log grows from `log` to `log_after`.
pub open spec fn stepped(
    before: LqiLoop,
    event: LqiEvent,
    after: LqiLoop,
    action: LqiAction,
    log: Seq<BusEvent>,
    log_after: Seq<BusEvent>,
) -> bool {
    match event {
        LqiEvent::Begin { plant_t_ms } => {
            let encoders = rig::sensed_positions(log, log_after, SENSOR_PAUSE_MS);
            let imu = rig::sensed_attitude(log_after);
            let y = observed(before.x_est, imu);
            let d_meas = positions_of(before.d_meas_prev, encoders);
            let cycle = LqiCycle { plant_t_ms, d_meas, y };
            &&& rig::sensed(log, log_after, encoders, imu, SENSOR_PAUSE_MS)
            &&& after == (LqiLoop { phase: LqiPhase::Filtering { cycle }, ..before })
            &&& action == (LqiAction::Filter { y })
        },
        LqiEvent::Filtered { x, p } => {
            let cycle = before.phase->Filtering_cycle;
            let kept = before.estimated(x, p);
            let e = error_of(kept.x_est@, before.setpoint_deg);
            let e_deg = pair_in_degrees(e);
            let e_int = integrated(before.e_int, e, seconds(cycle.plant_t_ms));
            let tracking = LqiLoop { e_int, ..kept };
            let held = before.d_cmd_prev;
            if !before.controller_on {
                ended(tracking, held, cycle, e_deg, FLAG_OFF, after, action, log, log_after)
            } else {
                &&& after == (LqiLoop { phase: LqiPhase::Allocating { cycle, e_deg }, ..tracking })
                &&& action == (LqiAction::Allocate {
                    solver: before.mass_solver,
                    lower: room_of(cycle.d_meas).0,
                    upper: room_of(cycle.d_meas).1,
                })
                &&& log_after == log
            }
        },
        LqiEvent::Allocated { d_sol } => {
            let cycle = before.phase->Allocating_cycle;
            let e_deg = before.phase->Allocating_e_deg;
            let d_running = advanced(before.d_running, d_sol, before.du_max);
            let gap = distances(cycle.d_meas, before.d_cmd_prev);
            let allocated = LqiLoop { d_running, ..before };
            let (d_target, flag) = if rail::gate_held(gap, before.d_track_tol) {
                (before.d_cmd_prev, FLAG_HELD)
            } else {
                (rail::saturated(from_home(d_running)), FLAG_SOLVED)
            };
            ended(allocated, d_target, cycle, e_deg, flag, after, action, log, log_after)
        },
    }
}

impl LqiLoop {
    /// Starts a loop with the masses at `d0` and the gains `kx` and `ki`.
    pub fn init(d0: PerAxis, kx: Matrix, ki: Matrix, weights: &LqiWeights) -> (res: LqiLoop)
        requires
            !rail::any_below(d0, Scalar { bits: INIT_MIN_D }),
        ensures
            res.wf(),
            rail::all_numbers(d0) ==> rail::all_within_ends(res.d_cmd_prev),
            !rail::any_below(res.d_cmd_prev, Scalar { bits: INIT_MIN_D }),
            res.phase is Resting,
            res.kx == kx,
            res.ki == ki,
            res.x_est@ == Seq::new(5, |i: int| Scalar { bits: 0 }),
            res.p_kf.is_grid(
                5,
                5,
                |i: int, j: int|
                    crate::matrix::diagonal_entry(
                        Seq::new(5, |k: int| Scalar { bits: INITIAL_VARIANCE }),
                        i,
                        j,
                    ),
            ),
            res.e_int@ == Seq::new(2, |i: int| Scalar { bits: 0 }),
            res.d_running@ == Seq::new(4, |i: int| Scalar { bits: 0 }),
            res.d_cmd_prev == rail::saturated(d0),
            res.d_meas_prev == rail::saturated(d0),
            res.du_max == weights.du_max,
            res.d_track_tol == weights.d_track_tol,
            res.cycle == 0,
            res.t_ms == 0,
            res.controller_on,
            res.setpoint_deg@ == Seq::new(2, |i: int| Scalar { bits: 0 }),
            res.mass_solver == MassSolver::Pinv,
            res.spd.bits == DEFAULT_SPD,
            res.acc == DEFAULT_ACC,
    {
        let zero = Scalar { bits: 0 };
        let x_est: [Scalar; 5] = [zero; 5];
        let variance: [Scalar; 5] = [Scalar { bits: INITIAL_VARIANCE }; 5];
        assert(variance@ =~= Seq::new(5, |k: int| Scalar { bits: INITIAL_VARIANCE }));
        let d_init = rail::saturate(d0);
        proof {
            rail::law_saturation_is_idempotent(d0);
            lemma_magnitude_order(INIT_MIN_D, rail::D_MAX);
            rail::law_saturation_keeps_threshold(d0, Scalar { bits: INIT_MIN_D });
            if rail::all_numbers(d0) {
                rail::law_saturated_positions_lie_within_ends(d0);
            }
            kf::lemma_level_is_plausible(x_est@);
        }
        LqiLoop {
            kx,
            ki,
            x_est,
            p_kf: Matrix::diag(variance.as_slice()),
            e_int: [zero; 2],
            d_running: [zero; 4],
            d_cmd_prev: d_init,
            d_meas_prev: d_init,
            du_max: weights.du_max,
            d_track_tol: weights.d_track_tol,
            cycle: 0,
            t_ms: 0,
            phase: LqiPhase::Resting,
            controller_on: true,
            setpoint_deg: [zero; 2],
            mass_solver: MassSolver::Pinv,
            spd: Scalar { bits: DEFAULT_SPD },
            acc: DEFAULT_ACC,
        }
    }

    /// Takes over new gains, and the rate limit and tracking tolerance of
    /// `weights`, and says so; without gains everything stays as it is.
    pub fn retune(&mut self, weights: &LqiWeights, gains: Option<(Matrix, Matrix)>) -> (done: bool)
        ensures
            done == (gains is Some),
            !done ==> *final(self) == *old(self),
            done ==> *final(self) == (LqiLoop {
                kx: (gains->0).0,
                ki: (gains->0).1,
                du_max: weights.du_max,
                d_track_tol: weights.d_track_tol,
                ..*old(self)
            }),
    {
        match gains {
            Some((kx, ki)) => {
                self.kx = kx;
                self.ki = ki;
                self.du_max = weights.du_max;
                self.d_track_tol = weights.d_track_tol;
                true
            },
            None => false,
        }
    }

    /// Ends a cycle: see [`ended`].
    fn end_cycle<B: Bus>(
        &mut self,
        bus: &mut B,
        d_target: PerAxis,
        cycle: LqiCycle,
        e_deg: [Scalar; 2],
        exitflag: ExitFlag,
    ) -> (action: LqiAction)
        requires
            old(self).t_ms + cycle.plant_t_ms <= u64::MAX,
            old(self).cycle < u64::MAX,
        ensures
            ended(
                *old(self),
                d_target,
                cycle,
                e_deg,
                exitflag,
                *final(self),
                action,
                old(bus).log(),
                final(bus).log(),
            ),
            follows_script(*old(bus), *final(bus)),
    {
        proof {
            lemma_script_stands_still(*bus);
        }
        self.d_cmd_prev = rail::saturate(d_target);
        self.d_meas_prev = cycle.d_meas;
        if self.controller_on {
            let targets = aim_motors(self.d_cmd_prev, cycle.d_meas);
            rig::drive_axes(bus, targets, self.spd, self.acc, MOTOR_PAUSE_MS);
        }
        self.phase = LqiPhase::Resting;
        self.cycle = self.cycle + 1;
        self.t_ms = self.t_ms + cycle.plant_t_ms;
        let tilt_deg = kf::tilt(self.x_est.as_slice());
        let telemetry = Telemetry {
            run_state: RunState::Lqi,
            connected: true,
            is_sample: true,
            is_poll: false,
            manual_read: None,
            t_ms: self.t_ms,
            roll_deg: tilt_deg[0],
            pitch_deg: tilt_deg[1],
            gyro_dps: rates_to_degrees(cycle.y),
            d_meas: cycle.d_meas,
            d_cmd: self.d_cmd_prev,
            e_deg,
            exitflag,
            status: "Running...".to_owned(),
            cycle: self.cycle,
        };
        LqiAction::Report { telemetry }
    }

    /// A cycle of which nothing is known yet: no time has passed, the masses are
    /// where they were measured last, and the estimate stands for the observation.
    fn blank_cycle(&self) -> (res: LqiCycle)
        ensures
            res == (LqiCycle { plant_t_ms: 0, d_meas: self.d_meas_prev, y: self.x_est }),
    {
        LqiCycle { plant_t_ms: 0, d_meas: self.d_meas_prev, y: self.x_est }
    }

    /// Takes one step of a cycle.
    pub fn one_step<B: Bus>(&mut self, bus: &mut B, event: LqiEvent) -> (action: LqiAction)
        requires
            old(self).awaits(event),
            old(self).wf(),
        ensures
            stepped(*old(self), event, *final(self), action, old(bus).log(), final(bus).log()),
            final(self).wf(),
            follows_script(*old(bus), *final(bus)),
            rail::all_within_ends(old(self).d_cmd_prev) && (event is Allocated
                ==> rail::all_numbers(from_home(final(self).d_running))) ==> rail::all_within_ends(
                final(self).d_cmd_prev,
            ),
    {
        proof {
            lemma_script_stands_still(*bus);
            lemma_saturations_are_on_rail(*self, event);
            lemma_saturations_lie_within_ends(*self, event);
        }
        match event {
            LqiEvent::Begin { plant_t_ms } => {
                let (encoders, imu) = rig::read_sensors(bus, SENSOR_PAUSE_MS);
                let d_meas = measure(self.d_meas_prev, encoders);
                let y = observe(self.x_est, imu);
                self.phase = LqiPhase::Filtering { cycle: LqiCycle { plant_t_ms, d_meas, y } };
                LqiAction::Filter { y }
            },
            LqiEvent::Filtered { x, p } => {
                let cycle = match self.phase {
                    LqiPhase::Filtering { cycle } => cycle,
                    _ => self.blank_cycle(),
                };
                let before = if self.cycle > 0 {
                    Some(self.x_est.as_slice())
                } else {
                    None
                };
                if !kf::is_diverged(x.as_slice(), before) {
                    self.x_est = x;
                    self.p_kf = p;
                }
                let e = tracking_error(self.x_est.as_slice(), self.setpoint_deg);
                let e_deg = pair_to_degrees(e);
                let ms = Scalar::from_natural(cycle.plant_t_ms);
                let plant_t = ms.div(Scalar { bits: MS_PER_SECOND });
                self.e_int = integrate(self.e_int, e, plant_t);
                if !self.controller_on {
                    self.end_cycle(bus, self.d_cmd_prev, cycle, e_deg, FLAG_OFF)
                } else {
                    self.phase = LqiPhase::Allocating { cycle, e_deg };
                    let (lower, upper) = measure_room(cycle.d_meas);
                    LqiAction::Allocate { solver: self.mass_solver, lower, upper }
                }
            },
            LqiEvent::Allocated { d_sol } => {
                let (cycle, e_deg) = match self.phase {
                    LqiPhase::Allocating { cycle, e_deg } => (cycle, e_deg),
                    _ => (self.blank_cycle(), self.e_int),
                };
                let du = limit_rate(measure_distances(d_sol, self.d_running), self.du_max);
                self.d_running = move_each(self.d_running, du);
                let gap = measure_distances(cycle.d_meas, self.d_cmd_prev);
                if rail::is_gate_held(gap, self.d_track_tol) {
                    self.end_cycle(bus, self.d_cmd_prev, cycle, e_deg, FLAG_HELD)
                } else {
                    let center = Scalar { bits: D0_CENTER };
                    let target = move_each(self.d_running, [center, center, center, center]);
                    self.end_cycle(bus, rail::saturate(target), cycle, e_deg, FLAG_SOLVED)
                }
            },
        }
    }
}

proof fn lemma_saturations_are_on_rail(state: LqiLoop, event: LqiEvent)
    ensures
        rail::all_on_rail(rail::saturated(state.d_cmd_prev)),
        event matches LqiEvent::Allocated { d_sol } ==> {
            let target = from_home(advanced(state.d_running, d_sol, state.du_max));
            rail::all_on_rail(rail::saturated(rail::saturated(target)))
        },
{
    rail::law_saturation_is_idempotent(state.d_cmd_prev);
    if let LqiEvent::Allocated { d_sol } = event {
        let target = from_home(advanced(state.d_running, d_sol, state.du_max));
        rail::law_saturation_is_idempotent(rail::saturated(target));
    }
}

proof fn lemma_saturations_lie_within_ends(state: LqiLoop, event: LqiEvent)
    ensures
        rail::all_within_ends(state.d_cmd_prev) ==> rail::all_within_ends(
            rail::saturated(state.d_cmd_prev),
        ),
        event matches LqiEvent::Allocated { d_sol } ==> {
            let target = from_home(advanced(state.d_running, d_sol, state.du_max));
            rail::all_numbers(target) ==> rail::all_within_ends(
                rail::saturated(rail::saturated(target)),
            )
        },
{
    if rail::all_within_ends(state.d_cmd_prev) {
        rail::law_saturated_positions_lie_within_ends(state.d_cmd_prev);
    }
    if let LqiEvent::Allocated { d_sol } = event {
        let target = from_home(advanced(state.d_running, d_sol, state.du_max));
        if rail::all_numbers(target) {
            rail::law_saturation_is_idempotent(target);
            rail::law_saturated_positions_lie_within_ends(target);
        }
    }
}

/// Steps of a cycle in a row: `loops[k]` takes `events[k]`, which leads to
/// `loops[k + 1]` and `actions[k]`, while the bus log grows from `logs[k]` to
/// `logs[k + 1]`.
pub open spec fn runs(
    loops: Seq<LqiLoop>,
    events: Seq<LqiEvent>,
    actions: Seq<LqiAction>,
    logs: Seq<Seq<BusEvent>>,
) -> bool {
    &&& loops.len() == events.len() + 1
    &&& actions.len() == events.len()
    &&& logs.len() == events.len() + 1
    &&& loops[0].wf() && loops[0].phase is Resting
    &&& forall|k: int|
        0 <= k < events.len() ==> #[trigger] loops[k].awaits(events[k]) && stepped(
            loops[k],
            events[k],
            loops[k + 1],
            actions[k],
            logs[k],
            logs[k + 1],
        )
}

/// The positions that the cycle `logs` measures.
pub open spec fn measured(first: LqiLoop, logs: Seq<Seq<BusEvent>>) -> PerAxis {
    positions_of(
        first.d_meas_prev,
        rig::sensed_positions(logs[0], logs[1], SENSOR_PAUSE_MS),
    )
}

/// The first step of a cycle reads the sensors and leaves the command and the
/// settings alone.
proof fn lemma_begin(
    loops: Seq<LqiLoop>,
    events: Seq<LqiEvent>,
    actions: Seq<LqiAction>,
    logs: Seq<Seq<BusEvent>>,
)
    requires
        runs(loops, events, actions, logs),
        events.len() > 1,
    ensures
        loops[1].phase is Filtering,
        loops[1] == (LqiLoop { phase: loops[1].phase, ..loops[0] }),
        loops[1].phase->Filtering_cycle.d_meas == measured(loops[0], logs),
        logs[0].is_prefix_of(logs[1]),
        rig::motionless(logs[1].skip(logs[0].len() as int)),
        writes_in(logs[1].skip(logs[0].len() as int)) == rig::sensing_requests(),
{
    assert(loops[0].awaits(events[0]));
    rig::law_sensing_writes_five_requests(
        logs[0],
        logs[1],
        rig::sensed_positions(logs[0], logs[1], SENSOR_PAUSE_MS),
        rig::sensed_attitude(logs[1]),
        SENSOR_PAUSE_MS,
    );
    rig::law_sensing_moves_nothing(
        logs[0],
        logs[1],
        rig::sensed_positions(logs[0], logs[1], SENSOR_PAUSE_MS),
        rig::sensed_attitude(logs[1]),
        SENSOR_PAUSE_MS,
    );
}

/// With the controller off, a whole cycle writes nothing but the requests to the
/// sensors, holds the command and the running positions exactly, and reports so.
pub proof fn law_controller_off_moves_nothing(
    loops: Seq<LqiLoop>,
    events: Seq<LqiEvent>,
    actions: Seq<LqiAction>,
    logs: Seq<Seq<BusEvent>>,
)
    requires
        runs(loops, events, actions, logs),
        events.len() == 2,
        !loops[0].controller_on,
    ensures
        loops[2].phase is Resting,
        loops[2].d_cmd_prev == loops[0].d_cmd_prev,
        loops[2].d_running == loops[0].d_running,
        loops[2].cycle == loops[0].cycle + 1,
        actions[1] is Report,
        actions[1]->telemetry@.exitflag == FLAG_OFF,
        actions[1]->telemetry@.d_cmd == loops[0].d_cmd_prev,
        logs[0].is_prefix_of(logs[2]),
        rig::motionless(logs[2].skip(logs[0].len() as int)),
        writes_in(logs[2].skip(logs[0].len() as int)) == rig::sensing_requests(),
{
    lemma_begin(loops, events, actions, logs);
    assert(loops[1].awaits(events[1]));
    rail::law_positions_on_rail_are_kept(loops[0].d_cmd_prev);
}

/// A cycle that allocates moves the running positions, and drives the masses with
/// the speed and the acceleration of the loop, whatever the tracking gate says.
pub proof fn law_allocating_cycle(
    loops: Seq<LqiLoop>,
    events: Seq<LqiEvent>,
    actions: Seq<LqiAction>,
    logs: Seq<Seq<BusEvent>>,
    d_sol: PerAxis,
)
    requires
        runs(loops, events, actions, logs),
        events.len() == 3,
        events[2] == (LqiEvent::Allocated { d_sol }),
    ensures
        ({
            let first = loops[0];
            let last = loops[3];
            let report = actions[2]->telemetry@;
            let d_meas = measured(first, logs);
            let held = rail::gate_held(distances(d_meas, first.d_cmd_prev), first.d_track_tol);
            &&& is_limit(first.du_max)
            &&& last.phase is Resting
            &&& last.d_running == advanced(first.d_running, d_sol, first.du_max)
            &&& last.d_cmd_prev == if held {
                first.d_cmd_prev
            } else {
                rail::saturated(from_home(last.d_running))
            }
            &&& actions[2] is Report
            &&& report.d_cmd == last.d_cmd_prev
            &&& report.exitflag == if held {
                FLAG_HELD
            } else {
                FLAG_SOLVED
            }
            &&& writes_in(logs[3].skip(logs[0].len() as int)) == rig::sensing_requests()
                + rig::drive_requests(
                motor_targets(last.d_cmd_prev, d_meas),
                first.spd,
                first.acc,
            )
        }),
{
    lemma_begin(loops, events, actions, logs);
    let first = loops[0];
    let d_meas = measured(first, logs);
    rail::law_positions_on_rail_are_kept(first.d_cmd_prev);
    rail::law_saturation_is_idempotent(
        from_home(advanced(first.d_running, d_sol, first.du_max)),
    );
    assert(loops[2].phase is Allocating && loops[2].phase->Allocating_cycle.d_meas == d_meas
        && loops[2].d_cmd_prev == first.d_cmd_prev && loops[2].d_running == first.d_running
        && loops[2].d_track_tol == first.d_track_tol && loops[2].du_max == first.du_max
        && loops[2].spd == first.spd && loops[2].acc == first.acc && loops[2].controller_on
        && is_limit(first.du_max) && logs[2] == logs[1]) by {
        assert(loops[1].awaits(events[1]));
        assert(loops[2].awaits(events[2]));
    }
    assert(loops[2].awaits(events[2]));
    rig::law_driving_writes_four_more(
        logs[0],
        logs[1],
        motor_targets(loops[3].d_cmd_prev, d_meas),
        first.spd,
        first.acc,
        MOTOR_PAUSE_MS,
    );
}

/// While the masses are further from their commands than the tolerance, the
/// cycle holds the command exactly and reports so. The running positions move
/// on all the same.
pub proof fn law_tracking_gate_holds_command(
    loops: Seq<LqiLoop>,
    events: Seq<LqiEvent>,
    actions: Seq<LqiAction>,
    logs: Seq<Seq<BusEvent>>,
    d_sol: PerAxis,
)
    requires
        runs(loops, events, actions, logs),
        events.len() == 3,
        events[2] == (LqiEvent::Allocated { d_sol }),
        rail::gate_held(
            distances(measured(loops[0], logs), loops[0].d_cmd_prev),
            loops[0].d_track_tol,
        ),
    ensures
        loops[3].phase is Resting,
        loops[3].d_cmd_prev == loops[0].d_cmd_prev,
        loops[3].d_running == advanced(loops[0].d_running, d_sol, loops[0].du_max),
        actions[2] is Report,
        actions[2]->telemetry@.exitflag == FLAG_HELD,
        actions[2]->telemetry@.d_cmd == loops[0].d_cmd_prev,
{
    law_allocating_cycle(loops, events, actions, logs, d_sol);
}

/// An implausible estimate, and after the first cycle one that jumped, changes
/// neither the estimate nor its covariance.
pub proof fn law_divergence_keeps_estimate(
    before: LqiLoop,
    x: [Scalar; 5],
    p: Matrix,
    after: LqiLoop,
    action: LqiAction,
    log: Seq<BusEvent>,
    log_after: Seq<BusEvent>,
)
    requires
        stepped(before, LqiEvent::Filtered { x, p }, after, action, log, log_after),
        kf::diverged(x@, None) || before.cycle > 0 && kf::diverged(x@, Some(before.x_est@)),
    ensures
        after.x_est == before.x_est,
        after.p_kf == before.p_kf,
{
}

/// No position is advanced by more than the rate limit, either way, unless the
/// change is not a number.
pub proof fn law_advance_is_rate_limited(excess: PerAxis, du_max: Scalar, i: int)
    requires
        is_limit(du_max),
        0 <= i < 4,
        !excess[i].nan(),
    ensures
        -du_max.units() <= rate_limited(excess, du_max)[i].units() <= du_max.units(),
        -du_max.units() <= excess[i].units() <= du_max.units() ==> rate_limited(excess, du_max)[i]
            == excess[i],
{
    crate::scalar::law_negation_reverses_value(du_max);
}

/// Every cycle reports the angles of the estimate, and those are between -50 and
/// 50 degrees.
pub proof fn law_reported_angles_are_plausible(
    before: LqiLoop,
    event: LqiEvent,
    after: LqiLoop,
    action: LqiAction,
    log: Seq<BusEvent>,
    log_after: Seq<BusEvent>,
)
    requires
        before.wf(),
        before.awaits(event),
        stepped(before, event, after, action, log, log_after),
        action is Report,
    ensures
        ({
            let report = action->telemetry@;
            &&& [report.roll_deg, report.pitch_deg] == kf::tilt_of(after.x_est@)
            &&& kf::plausible(after.x_est@)
            &&& report.cycle == before.cycle + 1
            &&& report.cycle == after.cycle
            &&& report.t_ms == after.t_ms
            &&& report.t_ms >= before.t_ms
        }),
{
    let report = action->telemetry@;
    assert([report.roll_deg, report.pitch_deg] =~= kf::tilt_of(after.x_est@));
}

/// What the numbers in [`lemma_command_is_rate_limited`] are worth.
proof fn lemma_values()
    ensures
        ({
            let one = pow2(1074) as int;
            &&& one > 0
            &&& 0 < pow2(1023)
            &&& 2048 * pow2(1023) == pow2(1034)
            &&& pow2(53 + 1024) == 8 * one
            &&& pow2(1024) == 2 * pow2(1023)
            &&& pow2(1034) <= one
            &&& (Scalar { bits: 0x4000_0000_0000_0000 }).units() == 2 * one
            &&& 2 * (Scalar { bits: 0x3FF8_0000_0000_0000 }).units() == 3 * one
            &&& (Scalar { bits: 0x3FF0_0000_0000_0000 }).units() == one
            &&& 0 <= (Scalar { bits: D0_CENTER }).units()
            &&& 2 * (Scalar { bits: D0_CENTER }).units() <= one
            &&& 0 <= (Scalar { bits: rail::D_MIN }).units()
            &&& (Scalar { bits: rail::D_MIN }).units() <= (Scalar { bits: rail::D_MAX }).units()
            &&& 2 * (Scalar { bits: rail::D_MAX }).units() <= one
        }),
{
    lemma_powers();
    let range = FRACTION_RANGE as int;
    lemma_pow2_pos(1074);
    lemma_pow2_pos(1023);
    lemma_composed(1023, range);
    lemma_composed(1022, range);
    lemma_composed(1022, range + range / 2);
    lemma_composed(1021, range);
    lemma_pow2_adds(52, 1023);
    lemma_pow2_adds(52, 1022);
    lemma_pow2_adds(52, 1021);
    lemma_pow2_adds(51, 1022);
    vstd::arithmetic::power2::lemma2_to64();
    vstd::arithmetic::power2::lemma2_to64_rest();
    assert(range + range / 2 == 3 * pow2(51));
    assert((3 * pow2(51)) * pow2(1022) == 3 * (pow2(51) * pow2(1022))) by (nonlinear_arith);
    assert((Scalar { bits: 0x4000_0000_0000_0000 }).magnitude() == 1023 * range + range);
    assert((Scalar { bits: 0x3FF0_0000_0000_0000 }).magnitude() == 1022 * range + range);
    assert((Scalar { bits: 0x3FF8_0000_0000_0000 }).magnitude() == 1022 * range + (range + range
        / 2));
    assert((Scalar { bits: 0x3FE0_0000_0000_0000 }).magnitude() == 1021 * range + range);
    lemma_pow2_unfold(1074);
    lemma_pow2_unfold(1075);
    lemma_pow2_adds(3, 1074);
    lemma_pow2_unfold(1024);
    lemma_pow2_adds(11, 1023);
    lemma_pow2_strictly_increases(1034, 1074);
    assert(magnitude_units(0) == 0);
    lemma_magnitude_order(0, D0_CENTER);
    lemma_magnitude_order(0, rail::D_MIN);
    lemma_magnitude_order(rail::D_MIN, rail::D_MAX);
    lemma_magnitude_order(rail::D_MAX, 0x3FE0_0000_0000_0000);
    lemma_magnitude_order(D0_CENTER, 0x3FE0_0000_0000_0000);
}

/// One mass: the command that follows the running position `to` is no further
/// from the one that follows `from` than the rate limit, and roundings.
proof fn lemma_command_is_rate_limited(from: Scalar, d_sol: Scalar, du_max: Scalar)
    requires
        is_limit(du_max),
        from.finite(),
        d_sol.finite(),
    ensures
        ({
            let center = Scalar { bits: D0_CENTER };
            let to = from.plus(d_sol.minus(from).clamped(du_max.negated(), du_max));
            let (a, b) = (from.plus(center), to.plus(center));
            let most = du_max.units() + pow2(1034);
            &&& !a.nan()
            &&& !b.nan()
            &&& -most <= rail::on_rail(b).units() - rail::on_rail(a).units() <= most
        }),
{
    let center = Scalar { bits: D0_CENTER };
    let du = d_sol.minus(from).clamped(du_max.negated(), du_max);
    let to = from.plus(du);
    let one = pow2(1074) as int;
    lemma_values();
    assert(center.finite());
    crate::scalar::law_negation_reverses_value(du_max);
    crate::scalar::law_negation_reverses_value(from);
    let two = Scalar { bits: 0x4000_0000_0000_0000 };
    let most = Scalar { bits: 0x3FF8_0000_0000_0000 };
    let unit = Scalar { bits: 0x3FF0_0000_0000_0000 };
    crate::scalar::law_negation_reverses_value(two);
    crate::scalar::law_negation_reverses_value(most);
    crate::scalar::law_negation_reverses_value(unit);
    law_sum_respects_order(d_sol, from.negated(), two);
    law_sum_respects_order(from, center, two);
    law_sum_respects_order(from, center, most.negated());
    if du.finite() {
        law_sum_respects_order(from, du, most);
        law_sum_respects_order(from, du, most.negated());
    } else {
        law_sum_with_infinity(du, from);
    }
    if to.finite() {
        law_sum_respects_order(to, center, unit);
        law_sum_respects_order(to, center, unit.negated());
    } else {
        law_sum_with_infinity(to, center);
    }
    let (a, b) = (from.plus(center), to.plus(center));
    assert(!a.nan() && !b.nan());
    if 2 * du_max.units() < one {
        lemma_small_is_finite(du);
        if from.units() >= 2 * one {
            if !to.finite() {
                assert(to.infinite() && !to.is_negative());
            }
        } else if from.units() <= -2 * one {
            if !to.finite() {
                assert(to.infinite() && to.is_negative());
            }
        } else {
            law_sum_is_nearly_exact(from, du, 1024);
            law_sum_is_nearly_exact(to, center, 1024);
            law_sum_is_nearly_exact(from, center, 1024);
        }
    }
}

/// A number below one is finite.
proof fn lemma_small_is_finite(x: Scalar)
    requires
        !x.nan(),
        -pow2(1074) < x.units() < pow2(1074),
    ensures
        x.finite(),
{
    lemma_values();
    lemma_magnitude_order(0x3FF0_0000_0000_0000, INFINITY_BITS);
}

/// All masses: the commands that follow the running positions before and after
/// `d_sol` is allocated are no further apart than the rate limit, and roundings.
proof fn lemma_commands_are_close(d_running: PerAxis, d_sol: PerAxis, du_max: Scalar)
    requires
        is_limit(du_max),
        all_finite(d_running@),
        all_finite(d_sol@),
    ensures
        rail::all_numbers(from_home(advanced(d_running, d_sol, du_max))),
        forall|i: int|
            0 <= i < 4 ==> {
                let most = du_max.units() + pow2(1034);
                -most <= (#[trigger] rail::saturated(
                    from_home(advanced(d_running, d_sol, du_max)),
                )[i]).units() - rail::saturated(from_home(d_running))[i].units() <= most
            },
{
    assert(d_running@[0].finite() && d_running@[1].finite() && d_running@[2].finite()
        && d_running@[3].finite());
    assert(d_sol@[0].finite() && d_sol@[1].finite() && d_sol@[2].finite() && d_sol@[3].finite());
    lemma_command_is_rate_limited(d_running[0], d_sol[0], du_max);
    lemma_command_is_rate_limited(d_running[1], d_sol[1], du_max);
    lemma_command_is_rate_limited(d_running[2], d_sol[2], du_max);
    lemma_command_is_rate_limited(d_running[3], d_sol[3], du_max);
}

/// The running positions stay finite, as they are at the start, as long as what is
/// allocated is finite and the rate limit is below 2^926 m.
pub proof fn law_running_positions_stay_finite(d_running: PerAxis, d_sol: PerAxis, du_max: Scalar)
    requires
        is_limit(du_max),
        du_max.units() < pow2(2000),
        all_finite(d_running@),
        all_finite(d_sol@),
    ensures
        all_finite(advanced(d_running, d_sol, du_max)@),
{
    let to = advanced(d_running, d_sol, du_max);
    assert forall|i: int| 0 <= i < 4 implies (#[trigger] to@[i]).finite() by {
        assert(d_running@[i].finite() && d_sol@[i].finite());
        lemma_advance_stays_finite(d_running[i], d_sol[i], du_max);
    }
}

proof fn lemma_advance_stays_finite(from: Scalar, d_sol: Scalar, du_max: Scalar)
    requires
        is_limit(du_max),
        du_max.units() < pow2(2000),
        from.finite(),
        d_sol.finite(),
    ensures
        from.plus(d_sol.minus(from).clamped(du_max.negated(), du_max)).finite(),
{
    let du = d_sol.minus(from).clamped(du_max.negated(), du_max);
    crate::scalar::law_negation_reverses_value(du_max);
    crate::scalar::law_negation_reverses_value(from);
    law_sum_respects_order(d_sol, from.negated(), du_max);
    let range = FRACTION_RANGE as int;
    lemma_powers();
    lemma_composed(2045, 2 * range);
    assert(2045 * range + 2 * range == INFINITY_BITS);
    lemma_pow2_adds(53, 2045);
    lemma_pow2_strictly_increases(2000, 2098);
    lemma_magnitude_order(du.magnitude(), INFINITY_BITS);
    law_sum_stays_finite(from, du);
}

/// A cycle that computes its command ends with one that follows the running
/// positions and lies between the ends of the rails. If the command before it
/// followed them too, as after another cycle of this kind, no mass is commanded
/// further from where it was commanded before than the rate limit, and 2^-40 m
/// for rounding.
pub proof fn law_commands_are_rate_limited(
    loops: Seq<LqiLoop>,
    events: Seq<LqiEvent>,
    actions: Seq<LqiAction>,
    logs: Seq<Seq<BusEvent>>,
    d_sol: PerAxis,
)
    requires
        runs(loops, events, actions, logs),
        events.len() == 3,
        events[2] == (LqiEvent::Allocated { d_sol }),
        !rail::gate_held(
            distances(measured(loops[0], logs), loops[0].d_cmd_prev),
            loops[0].d_track_tol,
        ),
        all_finite(loops[0].d_running@),
        all_finite(d_sol@),
    ensures
        actions[2] is Report,
        actions[2]->telemetry@.exitflag == FLAG_SOLVED,
        actions[2]->telemetry@.d_cmd == loops[3].d_cmd_prev,
        loops[3].d_running == advanced(loops[0].d_running, d_sol, loops[0].du_max),
        loops[3].follows(),
        rail::all_within_ends(loops[3].d_cmd_prev),
        loops[0].follows() ==> forall|i: int|
            0 <= i < 4 ==> {
                let most = loops[0].du_max.units() + pow2(1034);
                -most <= (#[trigger] loops[3].d_cmd_prev[i]).units()
                    - loops[0].d_cmd_prev[i].units() <= most
            },
{
    law_allocating_cycle(loops, events, actions, logs, d_sol);
    lemma_commands_are_close(loops[0].d_running, d_sol, loops[0].du_max);
    rail::law_saturated_positions_lie_within_ends(from_home(loops[3].d_running));
}

/// At the beginning of a cycle every axis is measured by its own reply: the reply to
/// the request with its address gives its position if it decodes to a finite one, and
/// what was measured before stays otherwise.
pub proof fn law_begin_measures_each_axis(
    before: LqiLoop,
    plant_t_ms: u64,
    after: LqiLoop,
    action: LqiAction,
    log: Seq<BusEvent>,
    log_after: Seq<BusEvent>,
    k: int,
)
    requires
        stepped(before, LqiEvent::Begin { plant_t_ms }, after, action, log, log_after),
        0 <= k < 4,
    ensures
        ({
            let n = log.len() as int;
            let reading = mks::encoder_reply((k + 1) as u8, log_after[n + 4 * k + 2]->reply);
            let d = after.phase->Filtering_cycle.d_meas[k];
            &&& log_after[n + 4 * k + 1] == (BusEvent::Write {
                bytes: mks::request_frame((k + 1) as u8, 0x30),
            })
            &&& log_after[n + 4 * k + 2] is Read
            &&& after.phase is Filtering
            &&& after.phase->Filtering_cycle.plant_t_ms == plant_t_ms
            &&& match reading {
                Some(v) if v.finite() => d == v,
                _ => d == before.d_meas_prev[k],
            }
            &&& after == (LqiLoop { phase: after.phase, ..before })
        }),
{
    let encoders = rig::sensed_positions(log, log_after, SENSOR_PAUSE_MS);
    let imu = rig::sensed_attitude(log_after);
    rig::law_sensors_are_asked_in_turn(log, log_after, encoders, imu, SENSOR_PAUSE_MS, k);
    assert(k == 0 || k == 1 || k == 2 || k == 3);
}

/// What the filter observes at the beginning of a cycle: roll and pitch of the
/// attitude sensor's reply, in radians, and its three rates in their order, as far as
/// the reply gives finite ones; the estimate where it does not. The yaw angle does not
/// matter.
pub proof fn law_begin_observes_attitude(
    before: LqiLoop,
    plant_t_ms: u64,
    after: LqiLoop,
    action: LqiAction,
    log: Seq<BusEvent>,
    log_after: Seq<BusEvent>,
    i: int,
    k: int,
)
    requires
        stepped(before, LqiEvent::Begin { plant_t_ms }, after, action, log, log_after),
        0 <= i < 2,
        0 <= k < 3,
    ensures
        action is Filter,
        after.phase->Filtering_cycle.y == action->y,
        ({
            let y = action->y;
            let c = Scalar { bits: RAD_PER_DEG };
            match imu::combined_reply(log_after[log.len() as int + 18]->reply) {
                Some(frame) => {
                    let (angle, gyro) = (frame.angle_deg, frame.gyro_dps);
                    &&& angle[0].finite() && angle[1].finite() ==> y[i] == angle[i].times(c)
                    &&& gyro[0].finite() && gyro[1].finite() && gyro[2].finite() ==> y[2 + k]
                        == gyro[k].times(c)
                    &&& !angle[0].finite() || !angle[1].finite() ==> y[i] == before.x_est[i]
                    &&& !gyro[0].finite() || !gyro[1].finite() || !gyro[2].finite() ==> y[2 + k]
                        == before.x_est[2 + k]
                },
                None => y[i] == before.x_est[i] && y[2 + k] == before.x_est[2 + k],
            }
        }),
{
    let encoders = rig::sensed_positions(log, log_after, SENSOR_PAUSE_MS);
    let imu = rig::sensed_attitude(log_after);
    rig::law_sensors_are_asked_in_turn(log, log_after, encoders, imu, SENSOR_PAUSE_MS, 0);
    if let Some(frame) = imu {
        lemma_three_finite(frame.gyro_dps);
    }
}

/// The estimate of the filter is taken over with its covariance unless it has
/// diverged; from the first cycle on it is held against the estimate before it.
pub proof fn law_sound_estimate_is_taken(
    before: LqiLoop,
    x: [Scalar; 5],
    p: Matrix,
    after: LqiLoop,
    action: LqiAction,
    log: Seq<BusEvent>,
    log_after: Seq<BusEvent>,
)
    requires
        stepped(before, LqiEvent::Filtered { x, p }, after, action, log, log_after),
    ensures
        before.cycle == 0 && !kf::diverged(x@, None) ==> after.x_est == x && after.p_kf == p,
        before.cycle > 0 && !kf::diverged(x@, Some(before.x_est@)) ==> after.x_est == x
            && after.p_kf == p,
        before.cycle == 0 && kf::diverged(x@, None) ==> after.x_est == before.x_est && after.p_kf
            == before.p_kf,
        before.cycle > 0 && kf::diverged(x@, Some(before.x_est@)) ==> after.x_est == before.x_est
            && after.p_kf == before.p_kf,
{
}


/// What the loop tracks: after the filter, the tracking error of each axis is its
/// estimated angle minus the angle that the operator sets, in degrees within 2^-40,
/// and the integral of that axis grows by it times the length of the cycle: for a
/// thousand integrals, in seconds, within 2^-22. The error is reported, or kept for
/// the report while the torque is allocated.
pub proof fn law_filter_step_tracks_setpoint(
    before: LqiLoop,
    x: [Scalar; 5],
    p: Matrix,
    after: LqiLoop,
    action: LqiAction,
    log: Seq<BusEvent>,
    log_after: Seq<BusEvent>,
    i: int,
)
    requires
        before.wf(),
        stepped(before, LqiEvent::Filtered { x, p }, after, action, log, log_after),
        0 <= i < 2,
        before.setpoint_deg[i].finite(),
        -pow2(1081) <= before.setpoint_deg[i].units() <= pow2(1081),
        before.e_int[i].finite(),
        -1048576 * pow2(1074) <= before.e_int[i].units() <= 1048576 * pow2(1074),
        before.phase->Filtering_cycle.plant_t_ms <= 30000,
    ensures
        ({
            let one = pow2(1074) as int;
            let ms = before.phase->Filtering_cycle.plant_t_ms as int;
            let e_deg = if action is Report {
                action->telemetry@.e_deg[i]
            } else {
                after.phase->Allocating_e_deg[i]
            };
            let exact = after.x_est[i].units() * one - before.setpoint_deg[i].units() * (Scalar {
                bits: RAD_PER_DEG,
            }).units();
            let shown = (e_deg.units() * one) * one - exact * (Scalar {
                bits: DEG_PER_RAD,
            }).units();
            let grown = 1000 * ((after.e_int[i].units() - before.e_int[i].units()) * one) - ms
                * exact;
            &&& action is Report || action is Allocate && after.phase is Allocating
            &&& -((pow2(1034) * one) * one) <= shown <= (pow2(1034) * one) * one
            &&& -((1024 * pow2(1043)) * one) <= grown <= (1024 * pow2(1043)) * one
        }),
{
    let kept = before.estimated(x, p);
    let xs = kept.x_est@;
    assert(kf::plausible(xs));
    assert(xs[i].finite());
    kf::law_accepted_angles_are_small(xs, None, i);
    lemma_angle_is_below_two(xs[i]);
    lemma_scales();
    lemma_pow2_unfold(1082);
    law_error_in_degrees_is_near(xs, before.setpoint_deg, i);
    let ms = before.phase->Filtering_cycle.plant_t_ms;
    law_seconds_are_near(ms);
    let t = seconds(ms);
    law_cycle_integrates_error(xs, before.setpoint_deg, before.e_int, t, i);
    let one = pow2(1074) as int;
    let r = (Scalar { bits: RAD_PER_DEG }).units();
    let (xu, su, tu) = (xs[i].units(), before.setpoint_deg[i].units(), t.units());
    let exact = xu * one - su * r;
    let d = after.e_int[i].units() - before.e_int[i].units();
    let (m, w) = (pow2(1043) as int, pow2(1026) as int);
    lemma_pow2_adds(17, 1026);
    vstd::arithmetic::power2::lemma2_to64();
    lemma_pow2_pos(1026);
    assert(-(8 * (one * one)) <= exact <= 8 * (one * one)) by (nonlinear_arith)
        requires
            exact == xu * one - su * r,
            -(2 * one) <= xu <= 2 * one,
            -(128 * one) <= su <= 128 * one,
            0 < r,
            32 * r < one,
            one > 0,
    {
        assert(su * r <= 4 * (one * one) && -(4 * (one * one)) <= su * r);
    }
    assert(-((1024 * m) * one) <= 1000 * (d * one) - ms * exact <= (1024 * m) * one)
        by (nonlinear_arith)
        requires
            -((m * one) * one) <= (d * one) * one - tu * exact <= (m * one) * one,
            -(1000 * w) <= 1000 * tu - ms * one <= 1000 * w,
            -(8 * (one * one)) <= exact <= 8 * (one * one),
            m == 0x2_0000 * w,
            w > 0,
            one > 0,
    {
        let off = 1000 * tu - ms * one;
        assert(1000 * (tu * exact) == (ms * exact) * one + off * exact);
        assert(off * exact <= (1000 * w) * (8 * (one * one)));
        assert(off * exact >= -((1000 * w) * (8 * (one * one))));
        assert((1000 * (d * one) - ms * exact) * one == 1000 * ((d * one) * one - tu * exact) + off
            * exact);
        assert((1000 * (d * one) - ms * exact) * one <= ((1024 * m) * one) * one);
        assert((1000 * (d * one) - ms * exact) * one >= -(((1024 * m) * one) * one));
    }
}

/// Milliseconds in seconds: a thousand times the seconds are the milliseconds, within
/// 2^-38, up to 30 seconds.
pub proof fn law_seconds_are_near(ms: u64)
    requires
        ms <= 30000,
    ensures
        seconds(ms).finite(),
        0 <= seconds(ms).units() <= pow2(1079),
        -1000 * pow2(1026) <= 1000 * seconds(ms).units() - ms * pow2(1074) <= 1000 * pow2(1026),
{
    lemma_scales();
    lemma_powers();
    let one = pow2(1074) as int;
    let k = Scalar { bits: MS_PER_SECOND };
    vstd::arithmetic::power2::lemma2_to64();
    vstd::arithmetic::power2::lemma2_to64_rest();
    lemma_parts(MS_PER_SECOND);
    assert(significand_of(MS_PER_SECOND) == 1000 * 0x800_0000_0000u64 && places_of(MS_PER_SECOND)
        == 1031);
    lemma_pow2_adds(43, 1031);
    let step = pow2(1031) as int;
    assert((1000 * 0x800_0000_0000int) * step == 1000 * (0x800_0000_0000int * step))
        by (nonlinear_arith);
    assert(k.units() == 1000 * one && k.finite());
    let a = whole(ms as int);
    law_whole_is_exact(ms as int);
    law_absolute_drops_sign(a);
    law_absolute_drops_sign(k);
    assert(0 <= ms * one <= 30000 * one) by (nonlinear_arith)
        requires
            0 <= ms <= 30000,
            one > 0,
    ;
    let au = a.units();
    assert(au * one < (32 * one) * (1000 * one)) by (nonlinear_arith)
        requires
            0 <= au <= 30000 * one,
            one > 0,
    ;
    law_quotient_is_nearly_exact(a, k, 1026);
    let (q, w) = (a.over(k).units(), pow2(1026) as int);
    lemma_pow2_pos(1026);
    lemma_pow2_adds(48, 1026);
    assert(-(1000 * w) <= 1000 * q - ms * one <= 1000 * w && q <= 32 * one) by (nonlinear_arith)
        requires
            -(w * (1000 * one)) <= 2 * (q * (1000 * one) - au * one) <= w * (1000 * one),
            au == ms * one,
            0 <= au <= 30000 * one,
            w <= one,
            w > 0,
            one > 0,
    ;
    reveal(Scalar::over);
    assert(crate::scalar::magnitude_units(0) == 0);
    lemma_magnitude_order(0, seconds(ms).magnitude());
    assert(!whole(ms as int).is_negative()) by {
        crate::binary64::lemma_rounded_is_number(ms * one, 1);
    }
    let (x, y) = (magnitude_units(a.magnitude()), magnitude_units(k.magnitude()));
    assert(x * one >= 0) by (nonlinear_arith)
        requires
            x >= 0,
            one > 0,
    ;
    crate::binary64::lemma_rounded_is_number(x * one, y);
}

/// When a torque is allocated: with the controller on. The room that is asked for is
/// that of the measured positions, the solver the one that is chosen. With the
/// controller off the command is held, and reported as off.
pub proof fn law_allocation_needs_controller(
    before: LqiLoop,
    x: [Scalar; 5],
    p: Matrix,
    after: LqiLoop,
    action: LqiAction,
    log: Seq<BusEvent>,
    log_after: Seq<BusEvent>,
)
    requires
        before.wf(),
        stepped(before, LqiEvent::Filtered { x, p }, after, action, log, log_after),
        forall|i: int|
            0 <= i < 4 ==> (#[trigger] before.phase->Filtering_cycle.d_meas[i]).finite()
                && -pow2(1074) <= before.phase->Filtering_cycle.d_meas[i].units() <= pow2(1074),
    ensures
        before.controller_on ==> {
            let d = before.phase->Filtering_cycle.d_meas;
            let (low, high) = (
                (Scalar { bits: rail::D_MIN }).units(),
                (Scalar { bits: rail::D_MAX }).units(),
            );
            let sum = d[0].units() + d[1].units() + d[2].units() + d[3].units();
            &&& action is Allocate
            &&& action->solver == before.mass_solver
            &&& -pow2(1028) <= 4 * action->lower.units() + sum - 4 * low <= pow2(1028)
            &&& -pow2(1028) <= 4 * action->upper.units() + sum - 4 * high <= pow2(1028)
            &&& after.phase is Allocating
            &&& after.phase->Allocating_cycle == before.phase->Filtering_cycle
            &&& after.d_cmd_prev == before.d_cmd_prev
            &&& after.d_running == before.d_running
            &&& log_after == log
        },
        !before.controller_on ==> action is Report && action->telemetry@.exitflag == 0
            && after.d_cmd_prev == before.d_cmd_prev && after.d_running == before.d_running
            && log_after == log,
{
    law_room_reaches_the_ends(before.phase->Filtering_cycle.d_meas);
    rail::law_positions_on_rail_are_kept(before.d_cmd_prev);
}

/// What is below 2^2000 units is finite.
proof fn lemma_bounded_is_finite(x: Scalar)
    requires
        !x.nan(),
        -pow2(2000) < x.units() < pow2(2000),
    ensures
        x.finite(),
{
    let range = FRACTION_RANGE as int;
    lemma_powers();
    lemma_composed(2045, 2 * range);
    assert(2045 * range + 2 * range == INFINITY_BITS);
    lemma_pow2_adds(53, 2045);
    lemma_pow2_strictly_increases(2000, 2098);
    lemma_magnitude_order(x.magnitude(), INFINITY_BITS);
    assert(magnitude_units(0) == 0);
    lemma_magnitude_order(0, x.magnitude());
}

/// One mass: how its running position goes towards the one that is allocated to it.
proof fn lemma_advance_goes_towards(from: Scalar, d_sol: Scalar, du_max: Scalar)
    requires
        is_limit(du_max),
        from.finite(),
        d_sol.finite(),
    ensures
        ({
            let to = from.plus(d_sol.minus(from).clamped(du_max.negated(), du_max));
            let change = d_sol.units() - from.units();
            let small = -2 * pow2(1074) <= from.units() <= 2 * pow2(1074) && -2 * pow2(1074)
                <= d_sol.units() <= 2 * pow2(1074);
            &&& change >= 0 ==> to.units() >= from.units()
            &&& change <= 0 ==> to.units() <= from.units()
            &&& small && -du_max.units() <= change <= du_max.units() ==> -pow2(1024) <= to.units()
                - d_sol.units() <= pow2(1024)
            &&& small && change > du_max.units() ==> -pow2(1024) <= to.units() - (from.units()
                + du_max.units()) <= pow2(1024)
            &&& small && change < -du_max.units() ==> -pow2(1024) <= to.units() - (from.units()
                - du_max.units()) <= pow2(1024)
        }),
{
    lemma_scales();
    let excess = d_sol.minus(from);
    let du = excess.clamped(du_max.negated(), du_max);
    let one = pow2(1074) as int;
    crate::scalar::law_negation_reverses_value(du_max);
    crate::scalar::law_negation_reverses_value(from);
    law_difference_tells_order(d_sol, from);
    let change = d_sol.units() - from.units();
    law_sum_respects_order(d_sol, from.negated(), du_max);
    law_sum_respects_order(d_sol, from.negated(), du_max.negated());
    if du.finite() {
        law_sum_respects_order(from, du, from);
    } else {
        law_sum_with_infinity(du, from);
        lemma_magnitude_order(from.magnitude(), INFINITY_BITS);
    }
    if -2 * one <= from.units() <= 2 * one && -2 * one <= d_sol.units() <= 2 * one {
        law_difference_is_nearly_exact(d_sol, from, 1024);
        lemma_pow2_strictly_increases(1077, 2000);
        lemma_pow2_strictly_increases(1023, 1074);
        lemma_bounded_is_finite(du);
        law_sum_is_nearly_exact(from, du, 1024);
    }
}

/// How an allocation moves the running positions: each goes towards the position that
/// is allocated to the same axis, never away from it. Where that is no further away
/// than the rate limit it gets there, and elsewhere it goes as far as the limit: within
/// 2^-50 m, for positions of at most 2 m.
pub proof fn law_allocation_moves_each_axis(
    before: LqiLoop,
    d_sol: PerAxis,
    after: LqiLoop,
    action: LqiAction,
    log: Seq<BusEvent>,
    log_after: Seq<BusEvent>,
    i: int,
)
    requires
        stepped(before, LqiEvent::Allocated { d_sol }, after, action, log, log_after),
        is_limit(before.du_max),
        0 <= i < 4,
        before.d_running[i].finite(),
        d_sol[i].finite(),
    ensures
        ({
            let (from, to) = (before.d_running[i].units(), after.d_running[i].units());
            let (sol, limit) = (d_sol[i].units(), before.du_max.units());
            let small = -2 * pow2(1074) <= from <= 2 * pow2(1074) && -2 * pow2(1074) <= sol <= 2
                * pow2(1074);
            &&& sol >= from ==> to >= from
            &&& sol <= from ==> to <= from
            &&& small && -limit <= sol - from <= limit ==> -pow2(1024) <= to - sol <= pow2(1024)
            &&& small && sol - from > limit ==> -pow2(1024) <= to - (from + limit) <= pow2(1024)
            &&& small && sol - from < -limit ==> -pow2(1024) <= to - (from - limit) <= pow2(1024)
        }),
{
    lemma_advance_goes_towards(before.d_running[i], d_sol[i], before.du_max);
    assert(i == 0 || i == 1 || i == 2 || i == 3);
}

/// What an allocation commands: while every mass is at most the tolerance from its
/// command, each is sent to its own running position, counted from the centre of the
/// rails and limited to them, within 2^-51 m; the report says that it was computed. If
/// some mass is further away, by more than 2^-51 m for rounding, the command is held
/// and so reported.
pub proof fn law_allocation_commands_each_axis(
    before: LqiLoop,
    d_sol: PerAxis,
    after: LqiLoop,
    action: LqiAction,
    log: Seq<BusEvent>,
    log_after: Seq<BusEvent>,
    k: int,
)
    requires
        before.wf(),
        stepped(before, LqiEvent::Allocated { d_sol }, after, action, log, log_after),
        all_finite(before.phase->Allocating_cycle.d_meas@),
        all_finite(before.d_cmd_prev@),
        !before.d_track_tol.nan(),
        before.d_track_tol.units() >= 0,
        0 <= k < 4,
        after.d_running[k].finite(),
        -4 * pow2(1074) <= after.d_running[k].units() <= 4 * pow2(1074),
    ensures
        ({
            let (d, c) = (before.phase->Allocating_cycle.d_meas, before.d_cmd_prev);
            let tol = before.d_track_tol.units();
            let near = forall|i: int|
                0 <= i < 4 ==> -tol <= (#[trigger] d[i]).units() - c[i].units() <= tol;
            let far = exists|i: int|
                0 <= i < 4 && {
                    let exact = (#[trigger] d[i]).units() - c[i].units();
                    &&& -pow2(1077) < exact < pow2(1077)
                    &&& exact > tol + pow2(1023) || exact < -tol - pow2(1023)
                };
            let (low, high) = (
                (Scalar { bits: rail::D_MIN }).units(),
                (Scalar { bits: rail::D_MAX }).units(),
            );
            let there = after.d_running[k].units() + (Scalar { bits: D0_CENTER }).units();
            let cmd = after.d_cmd_prev[k].units();
            &&& action is Report
            &&& action->telemetry@.d_cmd[k] == after.d_cmd_prev[k]
            &&& action->telemetry@.e_deg == before.phase->Allocating_e_deg
            &&& after.x_est == before.x_est && after.e_int == before.e_int
            &&& near ==> action->telemetry@.exitflag == 1
            &&& near && low <= there <= high ==> -pow2(1023) <= cmd - there <= pow2(1023)
            &&& near && there <= low ==> low <= cmd <= low + pow2(1023)
            &&& near && there >= high ==> high - pow2(1023) <= cmd <= high
            &&& far ==> action->telemetry@.exitflag == -99 && after.d_cmd_prev[k] == c[k]
        }),
{
    let (d, c) = (before.phase->Allocating_cycle.d_meas, before.d_cmd_prev);
    law_gate_goes_by_distance(d, c, before.d_track_tol);
    rail::law_positions_on_rail_are_kept(c);
    let target = from_home(after.d_running);
    rail::law_saturation_is_idempotent(target);
    lemma_scales();
    lemma_values();
    let center = Scalar { bits: D0_CENTER };
    assert(center.finite());
    law_sum_is_nearly_exact(after.d_running[k], center, 1024);
    rail::law_each_position_is_limited(target, k);
    assert(k == 0 || k == 1 || k == 2 || k == 3);
}

/// At the end of a cycle every motor is driven to the command of its own axis, with
/// the speed and the acceleration of the loop: the second by the distance from where
/// it was measured, the others to the position. With the controller off nothing is
/// sent.
pub proof fn law_cycle_drives_each_motor(
    before: LqiLoop,
    event: LqiEvent,
    after: LqiLoop,
    action: LqiAction,
    log: Seq<BusEvent>,
    log_after: Seq<BusEvent>,
    k: int,
)
    requires
        before.awaits(event),
        stepped(before, event, after, action, log, log_after),
        action is Report,
        0 <= k < 4,
    ensures
        !before.controller_on ==> log_after == log,
        before.controller_on ==> {
            let n = log.len() as int;
            let target = if k == 1 {
                after.d_cmd_prev[1].minus(after.d_meas_prev[1])
            } else {
                after.d_cmd_prev[k]
            };
            &&& log_after.len() == n + 12
            &&& log == log_after.take(n)
            &&& rig::asks_for_move(
                log_after[n + 3 * k + 1],
                if k == 1 {
                    0xF4
                } else {
                    0xF5
                },
                k,
                target,
                before.spd,
                before.acc,
            )
            &&& log_after[n + 3 * k] is Flush
            &&& log_after[n + 3 * k + 2] == (BusEvent::Pause { ms: 100 })
        },
{
    if before.controller_on {
        let targets = motor_targets(after.d_cmd_prev, after.d_meas_prev);
        rig::law_drive_moves_each_axis(targets, before.spd, before.acc, MOTOR_PAUSE_MS, k);
        assert(k == 0 || k == 1 || k == 2 || k == 3);
        assert(log =~= log_after.take(log.len() as int));
    }
}

/// What a cycle reports is what the loop has: the angles of the estimate and the rates
/// that were observed, in degrees and in their order, the measured and the commanded
/// positions, the cycle and the time. The measured positions are those of this cycle.
pub proof fn law_report_shows_the_loop(
    before: LqiLoop,
    event: LqiEvent,
    after: LqiLoop,
    action: LqiAction,
    log: Seq<BusEvent>,
    log_after: Seq<BusEvent>,
    k: int,
    j: int,
)
    requires
        before.wf(),
        before.awaits(event),
        stepped(before, event, after, action, log, log_after),
        action is Report,
        0 <= k < 4,
        0 <= j < 3,
    ensures
        ({
            let report = action->telemetry@;
            let c = Scalar { bits: DEG_PER_RAD };
            let cycle = match before.phase {
                LqiPhase::Filtering { cycle } => cycle,
                LqiPhase::Allocating { cycle, .. } => cycle,
                LqiPhase::Resting => before.phase->Filtering_cycle,
            };
            let d_meas = cycle.d_meas;
            &&& report.run_state == RunState::Lqi
            &&& report.connected && report.is_sample && !report.is_poll
            &&& report.manual_read is None
            &&& report.roll_deg == after.x_est[0].times(c)
            &&& report.pitch_deg == after.x_est[1].times(c)
            &&& report.gyro_dps[j] == cycle.y[2 + j].times(c)
            &&& report.d_meas[k] == d_meas[k]
            &&& after.d_meas_prev[k] == d_meas[k]
            &&& report.d_cmd[k] == after.d_cmd_prev[k]
            &&& report.cycle == before.cycle + 1
            &&& report.t_ms == before.t_ms + cycle.plant_t_ms
            &&& after.cycle == report.cycle && after.t_ms == report.t_ms
            &&& after.phase is Resting
            &&& after.controller_on == before.controller_on
            &&& after.setpoint_deg == before.setpoint_deg
            &&& after.spd == before.spd && after.acc == before.acc
            &&& after.mass_solver == before.mass_solver
            &&& after.du_max == before.du_max && after.d_track_tol == before.d_track_tol
            &&& after.kx == before.kx && after.ki == before.ki
        }),
{
}

} // verus!
