//! Both control loops on a bus without hardware, with the numerical crates doing
//! the numbers.

use automass::allocation::{
    accept_allocation, allocation_constraints, build_a, choose_allocation,
};
use automass::batch_mats::{build, BatchMats, PlantPowers};
use automass::checksum::sum8;
use automass::commands::{MassSolver, RunMode};
use automass::dare::{DareError, DareResult, Progress, Recursion, Turn};
use automass::geometry::c_vectors;
use automass::kf::tilt;
use automass::lqi_gains::{gain_problem, usable_gains, LqiWeights, DARE_MAX_ITER, DARE_TOLERANCE};
use automass::lqi_loop::{check_limit, limit_rate, LqiAction, LqiEvent, LqiLoop};
use automass::lqi_model;
use automass::matrix::Matrix;
use automass::mks;
use automass::mpc_constraints::{loop_constraints, position_selector, step_sums};
use automass::mpc_loop;
use automass::mpc_loop::{MpcAction, MpcEvent, MpcLoop};
use automass::mpc_model::{CtrlMats, TuningWeights};
use automass::mpc_solve::{
    condition_weights, kron_eye_block, make_cones, stage_weights, Attempt, Cone, ConstraintRows,
};
use automass::prime::{begin_start, PrimeStep};
use automass::rail::PerAxis;
use automass::scalar::Scalar;
use automass::telemetry::{RunState, Telemetry};
use automass::transport::{Bus, MockBus};
use clarabel::algebra::CscMatrix;
use clarabel::solver::{
    DefaultSettings, DefaultSolver, IPSolver, NonnegativeConeT, SolverStatus, SupportedConeT,
    ZeroConeT,
};
use nalgebra::{DMatrix, DVector, Matrix3x4, SVector, Vector3};
use std::time::Instant;

fn num(x: Scalar) -> f64 {
    f64::from_bits(x.bits)
}

fn scalar(x: f64) -> Scalar {
    Scalar { bits: x.to_bits() }
}

fn nums<const N: usize>(v: [Scalar; N]) -> [f64; N] {
    v.map(num)
}

fn scalars<const N: usize>(v: [f64; N]) -> [Scalar; N] {
    v.map(scalar)
}

fn scalar_vec(v: &DVector<f64>) -> Vec<Scalar> {
    v.iter().map(|x| scalar(*x)).collect()
}

fn vector(v: &[Scalar]) -> DVector<f64> {
    DVector::from_iterator(v.len(), v.iter().map(|x| num(*x)))
}

fn dense(m: &Matrix) -> DMatrix<f64> {
    DMatrix::from_fn(m.nrows(), m.cols, |i, j| num(m.get(i, j)))
}

fn matrix(m: &DMatrix<f64>) -> Matrix {
    Matrix {
        cols: m.ncols(),
        rows: (0..m.nrows())
            .map(|i| m.row(i).iter().map(|x| scalar(*x)).collect())
            .collect(),
    }
}

/// Gravity in the body frame, for small angles.
const GRAVITY: [f64; 3] = [0.0, 0.0, -9.81];

/// The torque that a mass on each rail exerts, per metre, under the gravity
/// `gb`.
fn torques() -> Matrix3x4<f64> {
    let cxy = (60f64).to_radians().cos() * (45f64).to_radians().cos();
    let cz = (60f64).to_radians().sin();
    let a = build_a(&c_vectors(scalar(cxy), scalar(cz)), scalars(GRAVITY));
    Matrix3x4::from_fn(|i, k| num(a.get(i, k)))
}

fn predict(
    x: &DVector<f64>,
    p: &DMatrix<f64>,
    a: &DMatrix<f64>,
    q: &DMatrix<f64>,
) -> (DVector<f64>, DMatrix<f64>) {
    (a * x, a * p * a.transpose() + q)
}

fn update(
    x: &DVector<f64>,
    p: &DMatrix<f64>,
    y: &DVector<f64>,
    c: &DMatrix<f64>,
    r: &DMatrix<f64>,
) -> (DVector<f64>, DMatrix<f64>) {
    let s = c * p * c.transpose() + r;
    let s_inv = s
        .clone()
        .try_inverse()
        .expect("KF innovation covariance singular");
    let k = p * c.transpose() * s_inv;
    let v = y - c * x;
    (x + &k * v, p - &k * &s * k.transpose())
}

/// Process noise of both loops.
fn process_noise() -> DMatrix<f64> {
    DMatrix::from_diagonal(&DVector::from_row_slice(&[
        100.0, 100.0, 10000.0, 10000.0, 100.0,
    ]))
}

/// Measurement noise, the same on every channel.
fn measurement_noise(variance: f64) -> DMatrix<f64> {
    DMatrix::from_diagonal(&DVector::from_element(5, variance))
}

/// One prediction and update from the estimate `x`, `p` with the observation
/// `y`, where every state is observed.
fn filter(
    x: &DVector<f64>,
    p: &DMatrix<f64>,
    a: &DMatrix<f64>,
    y: &DVector<f64>,
    measurement_variance: f64,
) -> (DVector<f64>, DMatrix<f64>) {
    let (x_pred, p_pred) = predict(x, p, a, &process_noise());
    update(
        &x_pred,
        &p_pred,
        y,
        &DMatrix::identity(5, 5),
        &measurement_noise(measurement_variance),
    )
}

/// One turn of the Riccati recursion from the cost-to-go `p`; nothing when the
/// matrix to invert is singular.
fn riccati_turn(
    p: &DMatrix<f64>,
    a: &DMatrix<f64>,
    b: &DMatrix<f64>,
    q: &DMatrix<f64>,
    r: &DMatrix<f64>,
) -> Option<Turn> {
    let (at, bt) = (a.transpose(), b.transpose());
    let pb = p * b;
    let s_inv = (r + &bt * &pb).try_inverse()?;
    let k = &s_inv * &bt * p * a;
    let p_next = q + &at * p * a - &at * &pb * &k;
    let diff = (&p_next - p).norm();
    Some(Turn {
        k: matrix(&k),
        p_next: matrix(&p_next),
        diff: scalar(diff),
    })
}

/// Iterates the Riccati recursion until the library says it is over.
fn solve_riccati(
    a: &DMatrix<f64>,
    b: &DMatrix<f64>,
    q: &Matrix,
    r: &Matrix,
    tol: Scalar,
    max_iter: usize,
) -> Result<DareResult, DareError> {
    let (q, r) = (dense(q), dense(r));
    let mut recursion = Recursion::start(matrix(&q), tol, max_iter);
    loop {
        let turn = riccati_turn(&dense(&recursion.p), a, b, &q, &r);
        match recursion.advance(turn) {
            Progress::Running { next } => recursion = next,
            Progress::Done { result } => return result,
        }
    }
}

/// The gains of the linear-quadratic loop, if the weights are accepted and the
/// recursion settles on finite ones.
fn solve_gains(weights: &LqiWeights) -> Option<(Matrix, Matrix)> {
    let (q, r) = gain_problem(weights)?;
    let (ad, bd) = lqi_model::build_augmented(scalar(1.0));
    let tol = Scalar { bits: DARE_TOLERANCE };
    let result = solve_riccati(&dense(&ad), &dense(&bd), &q, &r, tol, DARE_MAX_ITER).ok()?;
    usable_gains(&result)
}

/// Hands a quadratic program to the solver.
fn run_solver(
    h: &DMatrix<f64>,
    f: &[f64],
    constraints: &ConstraintRows,
    max_iter: u32,
) -> Attempt {
    let cones: Vec<SupportedConeT<f64>> = make_cones(constraints.n_eq, constraints.n_ineq)
        .into_iter()
        .map(|cone| match cone {
            Cone::Zero { dim } => ZeroConeT(dim),
            Cone::Nonnegative { dim } => NonnegativeConeT(dim),
        })
        .collect();
    if cones.is_empty() {
        return Attempt::Refused;
    }
    let rows: Vec<Vec<f64>> = constraints
        .rows
        .iter()
        .map(|row| row.iter().map(|x| num(*x)).collect())
        .collect();
    let b: Vec<f64> = constraints.bounds.iter().map(|x| num(*x)).collect();
    let h_rows: Vec<Vec<f64>> = (0..h.nrows())
        .map(|i| h.row(i).iter().copied().collect())
        .collect();
    let settings = DefaultSettings {
        verbose: false,
        max_iter,
        ..Default::default()
    };
    let solver = DefaultSolver::new(
        &CscMatrix::from(&h_rows),
        f,
        &CscMatrix::from(&rows),
        &b,
        &cones,
        settings,
    );
    let Ok(mut solver) = solver else {
        return Attempt::Refused;
    };
    solver.solve();
    Attempt::Finished {
        solved: matches!(
            solver.solution.status,
            SolverStatus::Solved | SolverStatus::AlmostSolved
        ),
        x: solver.solution.x.iter().map(|x| scalar(*x)).collect(),
    }
}

/// The products of the plant matrices over the horizon.
fn plant_powers(ad: &DMatrix<f64>, bd: &DMatrix<f64>, gd: &DMatrix<f64>, n: usize) -> PlantPowers {
    let mut powers = vec![DMatrix::<f64>::identity(ad.nrows(), ad.nrows())];
    for i in 1..=n {
        powers.push(&powers[i - 1] * ad);
    }
    PlantPowers {
        forced: powers[..n].iter().map(|p| matrix(&(p * bd))).collect(),
        referenced: powers[..n].iter().map(|p| matrix(&(p * gd))).collect(),
        powers: powers.iter().map(matrix).collect(),
    }
}

/// The prediction matrices and the free response from the state `x0`.
fn predict_horizon(
    ctrl: &CtrlMats,
    x0: &DVector<f64>,
    reference: &[Scalar],
    u_prev: &[Scalar],
) -> (BatchMats, DVector<f64>) {
    let (ad, bd, gd) = (dense(&ctrl.ad), dense(&ctrl.bd), dense(&ctrl.gd));
    let plant = plant_powers(&ad, &bd, &gd, ctrl.n_mpc);
    assert!(ctrl.n_mpc >= 1, "the horizon has at least one step");
    let mats = build(&plant, ad.nrows(), ctrl.n_mpc, reference, u_prev);
    let x_free = dense(&mats.omega) * x0 + dense(&mats.phi) * vector(&mats.r_stack);
    (mats, x_free)
}

/// Solves the program of the model-predictive loop for the states `x11`.
fn solve_mpc(mpc: &MpcLoop, x11: [Scalar; 11], reference: [Scalar; 2]) -> Attempt {
    let ctrl = &mpc.ctrl;
    let n = ctrl.n_mpc;
    let (mats, x_free) = predict_horizon(ctrl, &vector(&x11), &reference, &mpc.d_cmd_prev);
    let gamma = dense(&mats.gamma);
    let d = dense(&mats.d);
    let d0 = vector(&mats.d0);

    let sums = dense(&step_sums(n)) * dense(&position_selector(n));
    let sum_d_init: f64 = nums(mpc.d_init).iter().sum();
    let b_eq = DVector::from_element(n, sum_d_init) - &sums * &x_free;
    let constraints = loop_constraints(
        n,
        &mats.d,
        &mats.d0,
        ctrl.du_max,
        matrix(&(&sums * &gamma)),
        scalar_vec(&b_eq),
    );

    let qbar = dense(&stage_weights(n, &ctrl.q11, &ctrl.pf11));
    let rbar = dense(&kron_eye_block(n, &ctrl.r));
    let h = gamma.transpose() * &qbar * &gamma + d.transpose() * &rbar * &d;
    let f = gamma.transpose() * &qbar * &x_free - d.transpose() * &rbar * &d0;
    let h = dense(&condition_weights(&matrix(&h)));
    let f: Vec<f64> = f.iter().copied().collect();
    run_solver(&h, &f, &constraints, 500)
}

/// The smallest mass positions that exert the torque `tgt`.
fn allocate_pinv(a: &Matrix3x4<f64>, tgt: Vector3<f64>) -> PerAxis {
    let svd = (*a).svd(true, true);
    let pinv = svd.pseudo_inverse(1e-12).expect("SVD pseudo-inverse failed");
    let d = pinv * tgt;
    scalars([d[0], d[1], d[2], d[3]])
}

/// The mass positions between `lb` and `ub` that come closest to the torque
/// `tgt` and sum to zero.
fn allocate_qp(
    a: &Matrix3x4<f64>,
    tgt: Vector3<f64>,
    lb: PerAxis,
    ub: PerAxis,
) -> Option<PerAxis> {
    let h = a.transpose() * a * 2.0;
    let f: SVector<f64, 4> = a.transpose() * tgt * -2.0;
    let constraints = allocation_constraints(lb, ub);
    let h = DMatrix::from_fn(4, 4, |i, j| h[(i, j)]);
    let f: Vec<f64> = f.iter().copied().collect();
    accept_allocation(run_solver(&h, &f, &constraints, 200))
}

/// Primes the encoders; nothing when that takes too long.
fn prime<B: Bus>(bus: &mut B, mode: RunMode) -> Option<PerAxis> {
    let mut priming = begin_start(bus, mode);
    let started = Instant::now();
    loop {
        match priming.next(bus, started.elapsed().as_nanos()) {
            PrimeStep::Polled => {}
            PrimeStep::Ready => return Some(priming.d0),
            PrimeStep::TimedOut => return None,
        }
    }
}

fn start_mpc<B: Bus>(
    bus: &mut B,
    xy_pre_balance: bool,
    weights: TuningWeights,
) -> Option<MpcLoop> {
    let d0 = prime(bus, RunMode::Mpc)?;
    Some(MpcLoop::init(d0, mpc_loop::choose_preset(xy_pre_balance), weights))
}

fn start_lqi<B: Bus>(bus: &mut B, weights: &LqiWeights) -> Option<LqiLoop> {
    let (kx, ki) = solve_gains(weights)?;
    let d0 = prime(bus, RunMode::Lqi)?;
    Some(LqiLoop::init(d0, kx, ki, weights))
}

/// The filter's next estimate and its covariance.
fn run_filter(
    x_est: [Scalar; 5],
    p_kf: &Matrix,
    a: &DMatrix<f64>,
    y: [Scalar; 5],
    variance: f64,
) -> ([Scalar; 5], Matrix) {
    let (x, p) = filter(&vector(&x_est), &dense(p_kf), a, &vector(&y), variance);
    (scalars([x[0], x[1], x[2], x[3], x[4]]), matrix(&p))
}

/// One cycle of the model-predictive loop.
fn mpc_cycle<B: Bus>(bus: &mut B, mpc: &mut MpcLoop) -> Telemetry {
    assert!(mpc.cycle < mpc_loop::MAX_CYCLES, "cycle counter overflow");
    let mut event = MpcEvent::Begin;
    loop {
        event = match mpc.one_step(bus, event) {
            MpcAction::Filter { y } => {
                let a5 = dense(&mpc.ctrl.ad).view((0, 0), (5, 5)).into_owned();
                let (x, p) = run_filter(mpc.x_est, &mpc.p_kf, &a5, y, 10.0);
                MpcEvent::Filtered { x, p }
            }
            MpcAction::Solve { x11, reference } => MpcEvent::Solved {
                attempt: solve_mpc(mpc, x11, reference),
            },
            MpcAction::Report { telemetry } => return telemetry,
        };
    }
}

/// The torque of the control law, allocated to mass positions.
fn allocate(lqi: &LqiLoop, solver: MassSolver, lower: Scalar, upper: Scalar) -> PerAxis {
    let u = -dense(&lqi.kx) * vector(&lqi.x_est) - dense(&lqi.ki) * vector(&lqi.e_int);
    let tgt = Vector3::new(u[0] / 0.25, u[1] / 0.25, u[2] / 0.25);
    let a = torques();
    let qp = match solver {
        MassSolver::Pinv => None,
        MassSolver::Qp => allocate_qp(&a, tgt, [lower; 4], [upper; 4]),
    };
    choose_allocation(solver, qp, allocate_pinv(&a, tgt))
}

/// One cycle of the linear-quadratic loop.
fn lqi_cycle<B: Bus>(bus: &mut B, lqi: &mut LqiLoop, plant_t_ms: u64) -> Telemetry {
    assert!(lqi.cycle < u64::MAX, "cycle counter overflow");
    assert!(lqi.t_ms.checked_add(plant_t_ms).is_some(), "run clock overflow");
    let mut event = LqiEvent::Begin { plant_t_ms };
    loop {
        event = match lqi.one_step(bus, event) {
            LqiAction::Filter { y } => {
                let a = dense(&lqi_model::ad_op());
                let (x, p) = run_filter(lqi.x_est, &lqi.p_kf, &a, y, 1.0);
                LqiEvent::Filtered { x, p }
            }
            LqiAction::Allocate { solver, lower, upper } => {
                let d_sol = allocate(lqi, solver, lower, upper);
                assert!(
                    check_limit(lqi.du_max),
                    "min > max, or either was NaN. min = {:?}, max = {:?}",
                    -num(lqi.du_max),
                    num(lqi.du_max)
                );
                LqiEvent::Allocated { d_sol }
            }
            LqiAction::Report { telemetry } => return telemetry,
        };
    }
}

/// Queues a reply that decodes to about `meters`, within a millimetre.
fn push_encoder_reply(bus: &mut MockBus, addr: u8, meters: f64) {
    let total_angle_deg = meters * 90000.0;
    let rotation_turns = (total_angle_deg / 360.0).floor().max(0.0);
    let degree = (total_angle_deg - rotation_turns * 360.0).clamp(1.0, 179.0);
    let ticks14 = (degree * 16383.0 / 180.0).round() as u16;
    let carry = u32::MAX - rotation_turns as u32;

    let mut reply = [0u8; 10];
    reply[0] = mks::RX_HEADER;
    reply[1] = addr;
    reply[2] = 0x30;
    reply[3..7].copy_from_slice(&carry.to_be_bytes());
    reply[7..9].copy_from_slice(&ticks14.to_be_bytes());
    reply[9] = sum8(&reply[..9]);
    bus.push_reply(reply.to_vec());
}

fn push_encoders(bus: &mut MockBus, meters: f64) {
    for addr in 1..=4u8 {
        push_encoder_reply(bus, addr, meters);
    }
}

fn push_imu_reply(bus: &mut MockBus, roll_deg: f64, pitch_deg: f64) {
    let mut reply = [0u8; 35];
    reply[0] = 0x50;
    let enc_angle = |deg: f64| {
        let raw = (deg * 1000.0) as i32 as u32;
        [(raw >> 8) as u8, raw as u8, (raw >> 24) as u8, (raw >> 16) as u8]
    };
    reply[21..25].copy_from_slice(&enc_angle(roll_deg));
    reply[25..29].copy_from_slice(&enc_angle(pitch_deg));
    bus.push_reply(reply.to_vec());
}

fn weights() -> TuningWeights {
    TuningWeights {
        q: scalars([100.0, 100.0, 50.0, 50.0, 25.0]),
        qi: scalars([0.3, 0.3]),
        qd: scalar(15.0),
        r: scalar(150.0),
        du_max: scalar(0.05),
        d_track_tol: scalar(0.5),
    }
}

fn started_mpc(bus: &mut MockBus, w: TuningWeights) -> MpcLoop {
    push_encoders(bus, 0.2);
    start_mpc(bus, true, w).unwrap()
}

fn started_lqi(bus: &mut MockBus) -> LqiLoop {
    push_encoders(bus, 0.2);
    start_lqi(bus, &LqiWeights::default()).unwrap()
}

#[test]
fn init_polls_until_all_encoders_above_threshold() {
    let mut bus = MockBus::default();
    let mpc = started_mpc(&mut bus, weights());
    assert!(nums(mpc.d_op).iter().all(|&d| (d - 0.2).abs() < 2e-3));
}

#[test]
fn init_nudges_then_polls_again_until_ready() {
    let mut bus = MockBus::default();
    push_encoders(&mut bus, 0.005);
    push_encoders(&mut bus, 0.2);
    let mpc = start_mpc(&mut bus, false, weights()).unwrap();
    assert!(nums(mpc.d_op).iter().all(|&d| (d - 0.2).abs() < 2e-3));
    assert_eq!(bus.writes.len(), 4 + 8);
    for (i, w) in bus.writes[..4].iter().enumerate() {
        assert_eq!((w[1] as usize, w[2], w[5]), (i + 1, 0xF4, 128));
        assert_eq!(&w[6..10], &4096i32.to_be_bytes());
    }
    assert_eq!(num(mpc.preset.alpha), 0.2);
    assert_eq!(num(mpc.ctrl.d_track_tol), 0.5);
    assert_eq!((num(mpc.spd), mpc.acc), (180.0, 64));
    assert_eq!(dense(&mpc.p_kf), DMatrix::<f64>::identity(5, 5) * 1e4);
}

#[test]
fn controller_off_sends_no_motor_commands() {
    let mut bus = MockBus::default();
    let mut mpc = started_mpc(&mut bus, weights());
    mpc.controller_on = false;

    push_encoders(&mut bus, 0.2);
    push_imu_reply(&mut bus, 0.0, 0.0);
    let writes_before = bus.writes.len();
    let tel = mpc_cycle(&mut bus, &mut mpc);
    assert_eq!(tel.exitflag, 0);
    assert_eq!(bus.writes.len() - writes_before, 5);
}

#[test]
fn motor_commands_use_configured_speed_accel() {
    let mut bus = MockBus::default();
    let mut mpc = started_mpc(&mut bus, weights());
    mpc.spd = scalar(180.0);
    mpc.acc = 64;

    push_encoders(&mut bus, 0.2);
    push_imu_reply(&mut bus, 0.0, 0.0);
    let writes_before = bus.writes.len();
    let tel = mpc_cycle(&mut bus, &mut mpc);
    assert_eq!(tel.exitflag, 1);

    let motor_writes: Vec<_> = bus.writes[writes_before..]
        .iter()
        .filter(|w| w.len() == 11 && (w[2] == 0xF5 || w[2] == 0xF4))
        .collect();
    assert_eq!(motor_writes.len(), 4);
    for w in motor_writes {
        assert_eq!((w[3], w[4]), (0x0B, 0x40), "speed field");
        assert_eq!(w[5], 64, "accel field");
    }
}

#[test]
fn d_track_tol_gate_holds_previous_command() {
    let mut bus = MockBus::default();
    let mut w = weights();
    w.d_track_tol = scalar(0.0001);
    let mut mpc = started_mpc(&mut bus, w);
    let prev_cmd = mpc.d_cmd_prev;

    push_encoders(&mut bus, 0.25);
    push_imu_reply(&mut bus, 0.0, 0.0);
    let tel = mpc_cycle(&mut bus, &mut mpc);
    assert_eq!(tel.exitflag, -99);
    assert_eq!(tel.d_cmd, prev_cmd);
}

#[test]
fn solved_cycle_tilts_back_and_keeps_the_sum() {
    let mut bus = MockBus::default();
    let mut mpc = started_mpc(&mut bus, weights());
    let before: f64 = nums(mpc.d_cmd_prev).iter().sum();
    push_encoders(&mut bus, 0.2);
    push_imu_reply(&mut bus, 2.0, 0.0);
    let tel = mpc_cycle(&mut bus, &mut mpc);
    assert_eq!((tel.exitflag, tel.cycle, tel.t_ms), (1, 1, 2000));
    assert_eq!((tel.run_state, tel.connected, tel.is_sample), (RunState::Mpc, true, true));
    assert_eq!(tel.status, "Running...");
    assert!(num(tel.roll_deg) > 1.9 && num(tel.roll_deg) < 2.01);
    let d = nums(tel.d_cmd);
    // The sum is kept for the predicted positions, which lag behind.
    assert!((d.iter().sum::<f64>() - before).abs() < 5e-3);
    assert!(d.iter().all(|v| (0.001..=0.495).contains(v)));
    assert!(d.iter().zip(nums(mpc.d_init)).any(|(v, p)| (v - p).abs() > 1e-5), "{d:?}");
    for (v, p) in d.iter().zip(nums(mpc.d_init)) {
        assert!((v - p).abs() <= num(mpc.ctrl.du_max) + 1e-6);
    }
}

#[test]
fn lost_sensors_leave_position_and_estimate() {
    let mut bus = MockBus::default();
    let mut mpc = started_mpc(&mut bus, weights());
    let measured = mpc.d_meas_prev;
    let tel = mpc_cycle(&mut bus, &mut mpc);
    assert_eq!(tel.d_meas, measured);
    assert_eq!(num(tel.roll_deg), 0.0);
    assert_eq!(tel.exitflag, 1);
}

#[test]
fn jump_of_the_estimate_is_thrown_away_after_the_first_cycle() {
    let mut bus = MockBus::default();
    let mut mpc = started_mpc(&mut bus, weights());
    push_encoders(&mut bus, 0.2);
    push_imu_reply(&mut bus, 30.0, 0.0);
    let first = mpc_cycle(&mut bus, &mut mpc);
    assert!(num(first.roll_deg) > 29.0);
    push_encoders(&mut bus, 0.2);
    push_imu_reply(&mut bus, 0.0, 0.0);
    let p_before = dense(&mpc.p_kf);
    let second = mpc_cycle(&mut bus, &mut mpc);
    assert_eq!(second.roll_deg, first.roll_deg);
    assert_eq!(dense(&mpc.p_kf), p_before);
    push_encoders(&mut bus, 0.2);
    push_imu_reply(&mut bus, 25.0, 60.0);
    let third = mpc_cycle(&mut bus, &mut mpc);
    assert_eq!(third.roll_deg, first.roll_deg);
    // What is reported are the angles of the estimate.
    assert_eq!([third.roll_deg, third.pitch_deg], tilt(&mpc.x_est));
    assert_eq!(num(third.roll_deg), num(mpc.x_est[0]).to_degrees());
}

#[test]
fn unusable_solution_holds_the_command() {
    let mut bus = MockBus::default();
    let mut mpc = started_mpc(&mut bus, weights());
    // No command can change less than nothing.
    mpc.ctrl.du_max = scalar(-0.01);
    let prev_cmd = mpc.d_cmd_prev;
    push_encoders(&mut bus, 0.2);
    push_imu_reply(&mut bus, 1.0, 0.0);
    let tel = mpc_cycle(&mut bus, &mut mpc);
    assert_eq!(tel.exitflag, -1);
    assert_eq!(tel.d_cmd, prev_cmd);
}

#[test]
fn retuning_the_predictive_loop_keeps_its_state() {
    let mut bus = MockBus::default();
    push_encoders(&mut bus, 0.2);
    let mut mpc = start_mpc(&mut bus, false, weights()).unwrap();
    push_encoders(&mut bus, 0.2);
    push_imu_reply(&mut bus, 1.0, 0.0);
    mpc_cycle(&mut bus, &mut mpc);
    let (x, e, cmd) = (mpc.x_est, mpc.e_int, mpc.d_cmd_prev);
    let mut w = weights();
    w.r = scalar(300.0);
    let ad = dense(&mpc.ctrl.ad);
    mpc.retune(w);
    assert_eq!(num(mpc.ctrl.r.get(0, 0)), 300.0);
    assert_eq!(dense(&mpc.ctrl.ad), ad, "the model stays at the start positions");
    assert_eq!((mpc.x_est, mpc.e_int, mpc.d_cmd_prev, mpc.cycle), (x, e, cmd, 1));
}

#[test]
fn init_solves_dare_and_primes_encoders() {
    let mut bus = MockBus::default();
    let lqi = started_lqi(&mut bus);
    let kx = dense(&lqi.kx);
    assert!(kx.iter().all(|v| v.is_finite()));
    assert!(kx.iter().any(|&v| v.abs() > 1e-6));
}

#[test]
fn retune_updates_gains_and_rejects_degenerate_weights() {
    let mut bus = MockBus::default();
    let mut lqi = started_lqi(&mut bus);
    let kx_before = dense(&lqi.kx);

    let mut w = LqiWeights::default();
    w.r = scalar(500.0);
    w.du_max = scalar(0.02);
    assert!(lqi.retune(&w, solve_gains(&w)));
    assert!((dense(&lqi.kx) - &kx_before).amax() > 1e-6);
    assert_eq!(num(lqi.du_max), 0.02);

    let mut bad = LqiWeights::default();
    bad.r = scalar(0.0);
    let kx_now = dense(&lqi.kx);
    assert!(!lqi.retune(&bad, solve_gains(&bad)));
    assert_eq!(dense(&lqi.kx), kx_now, "failed retune must keep the old gains");
    assert_eq!(num(lqi.du_max), 0.02);
    assert!(start_lqi(&mut bus, &bad).is_none());
}

#[test]
fn controller_off_holds_command() {
    let mut bus = MockBus::default();
    let mut lqi = started_lqi(&mut bus);
    lqi.controller_on = false;
    let prev = lqi.d_cmd_prev;

    push_encoders(&mut bus, 0.2);
    let tel = lqi_cycle(&mut bus, &mut lqi, 3250);
    assert_eq!(tel.exitflag, 0);
    assert_eq!(tel.d_cmd, prev);
}

#[test]
fn lqi_cycle_limits_the_rate_and_centres() {
    let mut bus = MockBus::default();
    let mut lqi = started_lqi(&mut bus);
    lqi.d_track_tol = scalar(0.5);
    lqi.du_max = scalar(0.01);
    push_encoders(&mut bus, 0.2);
    push_imu_reply(&mut bus, 3.0, -2.0);
    let writes_before = bus.writes.len();
    let tel = lqi_cycle(&mut bus, &mut lqi, 3250);
    assert_eq!((tel.exitflag, tel.cycle, tel.t_ms), (1, 1, 3250));
    assert_eq!(tel.run_state, RunState::Lqi);
    assert_eq!(bus.writes.len() - writes_before, 9);
    for (cmd, run) in nums(tel.d_cmd).iter().zip(nums(lqi.d_running)) {
        assert!(run.abs() <= 0.01 + 1e-12);
        assert_eq!(*cmd, run + 0.2);
    }
    assert!(nums(lqi.d_running).iter().any(|v| *v != 0.0));
}

#[test]
fn commands_of_solved_cycles_stay_within_the_rate_limit() {
    let mut bus = MockBus::default();
    let mut lqi = started_lqi(&mut bus);
    lqi.d_track_tol = scalar(0.5);
    lqi.du_max = scalar(0.01);
    let mut commands = Vec::new();
    for _ in 0..4 {
        push_encoders(&mut bus, 0.2);
        push_imu_reply(&mut bus, 3.0, -2.0);
        let tel = lqi_cycle(&mut bus, &mut lqi, 3250);
        assert_eq!(tel.exitflag, 1);
        assert_eq!([tel.roll_deg, tel.pitch_deg], tilt(&lqi.x_est));
        commands.push(nums(tel.d_cmd));
    }
    for pair in commands.windows(2) {
        for (a, b) in pair[0].iter().zip(pair[1]) {
            assert!((a - b).abs() <= 0.01 + 1e-12);
            assert!((0.001..=0.495).contains(&b));
        }
    }
}

#[test]
fn lqi_gate_holds_the_command_but_not_the_allocation() {
    let mut bus = MockBus::default();
    let mut lqi = started_lqi(&mut bus);
    lqi.d_track_tol = scalar(0.001);
    let prev = lqi.d_cmd_prev;
    push_encoders(&mut bus, 0.3);
    push_imu_reply(&mut bus, 3.0, 0.0);
    let tel = lqi_cycle(&mut bus, &mut lqi, 3250);
    assert_eq!(tel.exitflag, -99);
    assert_eq!(tel.d_cmd, prev);
    assert!(nums(lqi.d_running).iter().any(|v| *v != 0.0));
    // The measured position is reported as it is, even outside of the rails.
    push_encoders(&mut bus, 0.6);
    let tel = lqi_cycle(&mut bus, &mut lqi, 3250);
    assert!(num(tel.d_meas[0]) > 0.59);
}

#[test]
fn lqi_solvers_agree_on_a_small_torque() {
    let mut outcomes = Vec::new();
    for solver in [MassSolver::Pinv, MassSolver::Qp] {
        let mut bus = MockBus::default();
        let mut lqi = started_lqi(&mut bus);
        lqi.mass_solver = solver;
        lqi.d_track_tol = scalar(0.5);
        push_encoders(&mut bus, 0.2);
        push_imu_reply(&mut bus, 0.2, 0.1);
        outcomes.push(nums(lqi_cycle(&mut bus, &mut lqi, 3250).d_cmd));
    }
    for (a, b) in outcomes[0].iter().zip(outcomes[1]) {
        assert!((a - b).abs() < 1e-3, "{outcomes:?}");
    }
}

#[test]
fn rate_limits_are_two_sided_and_checked() {
    let du = limit_rate(scalars([0.5, -0.5, 0.01, f64::NAN]), scalar(0.05));
    assert_eq!(nums(du)[..3], [0.05, -0.05, 0.01]);
    assert!(num(du[3]).is_nan());
    assert!(check_limit(scalar(0.0)) && check_limit(scalar(-0.0)));
    assert!(check_limit(scalar(f64::INFINITY)));
    assert!(!check_limit(scalar(-0.1)) && !check_limit(scalar(f64::NAN)));
}
