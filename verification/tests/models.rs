//! Matrices, models and programs, with the numerical crates doing the numbers.

use automass::allocation;
use automass::allocation::{accept_allocation, allocation_constraints, choose_allocation};
use automass::batch_mats::{build, kron_ones, BatchMats, PlantPowers};
use automass::commands::{MassSolver, TuneWeights};
use automass::dare::{DareError, DareResult, Progress, Recursion, Turn};
use automass::geometry::{
    attitude_base, attitude_of_mass, attitude_of_offset, c_vectors, mass_influence,
};
use automass::lqi_gains::{gain_problem, usable_gains, LqiWeights};
use automass::lqi_model::{ad_op, bd_op, build_augmented, cz};
use automass::matrix::Matrix;
use automass::mpc_constraints::{loop_constraints, position_selector, rate_rows, step_sums};
use automass::mpc_model;
use automass::mpc_model::{
    build_11state, build_ctrl, choose_weights, is_post_balanced, preset_model_init,
    preset_post_balance, Preset, TuningWeights,
};
use automass::mpc_solve::{
    assemble_constraints, condition_weights, kron_eye_block, make_cones, settle, stage_weights,
    Attempt, Cone, ConstraintRows, ExtraConstraints, SolveResult,
};
use automass::scalar::Scalar;
use clarabel::algebra::CscMatrix;
use clarabel::solver::{
    DefaultSettings, DefaultSolver, IPSolver, NonnegativeConeT, SolverStatus, SupportedConeT,
    ZeroConeT,
};
use nalgebra::{DMatrix, DVector, Matrix3x4, Vector3};

fn num(x: Scalar) -> f64 {
    f64::from_bits(x.bits)
}

fn scalar(x: f64) -> Scalar {
    Scalar { bits: x.to_bits() }
}

fn scalars(v: &[f64]) -> Vec<Scalar> {
    v.iter().map(|x| scalar(*x)).collect()
}

fn nums(v: &[Scalar]) -> Vec<f64> {
    v.iter().map(|x| num(*x)).collect()
}

fn dense(m: &Matrix) -> DMatrix<f64> {
    DMatrix::from_fn(m.nrows(), m.cols, |i, j| num(m.get(i, j)))
}

fn matrix(m: &DMatrix<f64>) -> Matrix {
    Matrix {
        cols: m.ncols(),
        rows: (0..m.nrows())
            .map(|i| m.row(i).iter().map(|x| scalar(*x)).collect())
            .collect(),
    }
}

fn batch(
    ad: &DMatrix<f64>,
    bd: &DMatrix<f64>,
    gd: &DMatrix<f64>,
    horizon: usize,
    x0: &DVector<f64>,
    reference: &[f64],
    u_prev: &[f64],
) -> (BatchMats, DVector<f64>) {
    let mut powers = vec![DMatrix::<f64>::identity(ad.nrows(), ad.nrows())];
    for i in 1..=horizon {
        powers.push(&powers[i - 1] * ad);
    }
    let plant = PlantPowers {
        forced: powers[..horizon].iter().map(|p| matrix(&(p * bd))).collect(),
        referenced: powers[..horizon].iter().map(|p| matrix(&(p * gd))).collect(),
        powers: powers.iter().map(matrix).collect(),
    };
    let mats = build(&plant, ad.nrows(), horizon, &scalars(reference), &scalars(u_prev));
    let r_stack = DVector::from_vec(nums(&mats.r_stack));
    let x_free = dense(&mats.omega) * x0 + dense(&mats.phi) * r_stack;
    (mats, x_free)
}

fn csc(rows: &[Vec<f64>]) -> CscMatrix<f64> {
    CscMatrix::from(&rows.to_vec())
}

fn dense_rows(m: &DMatrix<f64>) -> Vec<Vec<f64>> {
    (0..m.nrows()).map(|i| m.row(i).iter().copied().collect()).collect()
}

fn run_solver(h: &DMatrix<f64>, f: &[f64], constraints: &ConstraintRows) -> Attempt {
    let cones: Vec<SupportedConeT<f64>> = make_cones(constraints.n_eq, constraints.n_ineq)
        .into_iter()
        .map(|cone| match cone {
            Cone::Zero { dim } => ZeroConeT(dim),
            Cone::Nonnegative { dim } => NonnegativeConeT(dim),
        })
        .collect();
    let rows: Vec<Vec<f64>> = constraints.rows.iter().map(|r| nums(r)).collect();
    let settings = DefaultSettings { verbose: false, max_iter: 500, ..Default::default() };
    let solver = DefaultSolver::new(
        &csc(&dense_rows(h)),
        f,
        &csc(&rows),
        &nums(&constraints.bounds),
        &cones,
        settings,
    );
    let Ok(mut solver) = solver else {
        return Attempt::Refused;
    };
    solver.solve();
    let status = solver.solution.status;
    Attempt::Finished {
        solved: matches!(status, SolverStatus::Solved | SolverStatus::AlmostSolved),
        x: scalars(&solver.solution.x),
    }
}

/// A whole solve, without constraints beyond the box.
#[allow(clippy::too_many_arguments)]
fn solve(
    ad: f64,
    bd: f64,
    q: f64,
    r: f64,
    horizon: usize,
    x0: f64,
    u_prev: f64,
    bound: f64,
) -> SolveResult {
    let one = |v: f64| DMatrix::from_row_slice(1, 1, &[v]);
    let x0 = DVector::from_vec(vec![x0]);
    let gd = DMatrix::<f64>::zeros(1, 0);
    let (mats, x_free) = batch(&one(ad), &one(bd), &gd, horizon, &x0, &[], &[u_prev]);
    let qm = matrix(&one(q));
    let qbar = dense(&stage_weights(horizon, &qm, &qm));
    let rbar = dense(&kron_eye_block(horizon, &matrix(&one(r))));
    let (gamma, d) = (dense(&mats.gamma), dense(&mats.d));
    let d0 = DVector::from_vec(nums(&mats.d0));
    let h = gamma.transpose() * &qbar * &gamma + d.transpose() * &rbar * &d;
    let f = gamma.transpose() * &qbar * &x_free - d.transpose() * &rbar * &d0;
    let mut h = (&h + h.transpose()) * 0.5;
    for i in 0..h.nrows() {
        h[(i, i)] += 1e-9;
    }
    let lb = kron_ones(horizon, &scalars(&[-bound]));
    let ub = kron_ones(horizon, &scalars(&[bound]));
    let constraints = assemble_constraints(&ExtraConstraints::default(), &lb, &ub);
    let f: Vec<f64> = f.iter().copied().collect();
    settle(run_solver(&h, &f, &constraints), &scalars(&[u_prev]), horizon)
}

#[test]
fn horizon_1_reduces_to_single_step() {
    let ad = DMatrix::<f64>::identity(2, 2);
    let bd = DMatrix::from_row_slice(2, 1, &[1.0, 0.0]);
    let gd = DMatrix::<f64>::zeros(2, 1);
    let x0 = DVector::from_vec(vec![1.0, 2.0]);
    let (mats, x_free) = batch(&ad, &bd, &gd, 1, &x0, &[0.0], &[0.5]);
    let gamma = dense(&mats.gamma);
    assert_eq!(gamma.shape(), (2, 1));
    assert_eq!(gamma.column(0), bd.column(0));
    assert_eq!(x_free, x0);
    assert_eq!(num(mats.d.get(0, 0)), 1.0);
    assert_eq!(num(mats.d0[0]), 0.5);
}

#[test]
fn difference_operator_is_bidiagonal() {
    let one = DMatrix::<f64>::identity(1, 1);
    let gd = DMatrix::<f64>::zeros(1, 1);
    let x0 = DVector::from_vec(vec![0.0]);
    let (mats, _) = batch(&one, &one, &gd, 3, &x0, &[0.0], &[0.0]);
    let d = dense(&mats.d);
    assert_eq!(d.shape(), (3, 3));
    assert_eq!(d[(1, 0)], -1.0);
    assert_eq!(d[(1, 1)], 1.0);
    assert_eq!(d[(2, 1)], -1.0);
    assert_eq!(d[(2, 2)], 1.0);
    assert_eq!(d[(0, 1)], 0.0);
    assert_eq!(d[(2, 0)], 0.0);
}

#[test]
fn predictions_follow_the_recursion() {
    let ad = DMatrix::from_row_slice(2, 2, &[1.0, 0.5, -0.25, 2.0]);
    let bd = DMatrix::from_row_slice(2, 2, &[1.0, 2.0, 3.0, -1.0]);
    let gd = DMatrix::from_row_slice(2, 1, &[-1.0, 4.0]);
    let x0 = DVector::from_vec(vec![1.0, -2.0]);
    let n = 4;
    let (mats, x_free) = batch(&ad, &bd, &gd, n, &x0, &[0.5], &[0.0, 0.0]);
    let u = DVector::from_fn(2 * n, |i, _| (i as f64) - 3.0);
    let stacked = x_free + dense(&mats.gamma) * &u;
    let mut x = x0;
    for k in 0..n {
        x = &ad * &x + &bd * u.rows(2 * k, 2) + &gd * 0.5;
        assert!((stacked.rows(2 * k, 2) - &x).norm() < 1e-9);
    }
    // No input acts on an earlier step.
    let gamma = dense(&mats.gamma);
    for i in 0..2 * n {
        for j in 0..2 * n {
            if j / 2 > i / 2 {
                assert_eq!(gamma[(i, j)], 0.0);
            }
        }
    }
    assert_eq!(nums(&mats.r_stack), vec![0.5; 4]);
}

#[test]
fn unconstrained_tracking_drives_state_to_reference() {
    let result = solve(1.0, 1.0, 100.0, 0.01, 3, 1.0, 0.0, 10.0);
    assert!(result.feasible);
    let u0 = num(result.u0[0]);
    assert!(u0 < -0.5, "u0={u0}");
}

#[test]
fn hessian_off_diagonal_is_read_once_not_doubled() {
    let p = csc(&dense_rows(&DMatrix::from_row_slice(2, 2, &[2.0, 1.0, 1.0, 2.0])));
    let q = vec![-1.0, -1.0];
    let ub = scalars(&[10.0, 10.0]);
    let lb = scalars(&[-10.0, -10.0]);
    let rows = assemble_constraints(&ExtraConstraints::default(), &lb, &ub);
    let a: Vec<Vec<f64>> = rows.rows.iter().map(|r| nums(r)).collect();
    assert_eq!(a, vec![vec![1.0, 0.0], vec![0.0, 1.0], vec![-1.0, 0.0], vec![0.0, -1.0]]);
    let b = nums(&rows.bounds);
    assert_eq!(b, vec![10.0, 10.0, 10.0, 10.0]);
    let cones: Vec<SupportedConeT<f64>> = vec![NonnegativeConeT(4)];
    let settings = DefaultSettings { verbose: false, ..Default::default() };
    let mut solver = DefaultSolver::new(&p, &q, &csc(&a), &b, &cones, settings).unwrap();
    solver.solve();
    assert!((solver.solution.x[0] - 1.0 / 3.0).abs() < 1e-6);
    assert!((solver.solution.x[1] - 1.0 / 3.0).abs() < 1e-6);
}

#[test]
fn box_bounds_are_respected() {
    let result = solve(1.0, 1.0, 100.0, 0.001, 2, 10.0, 0.0, 1.0);
    assert!(result.feasible);
    let u0 = num(result.u0[0]);
    assert!(u0 >= -1.0 - 1e-6 && u0 <= 1.0 + 1e-6);
}

#[test]
fn unusable_answers_hold_the_previous_input() {
    let u_prev = scalars(&[0.25, 0.5]);
    for attempt in [
        Attempt::Refused,
        Attempt::Finished { solved: false, x: scalars(&[1.0, 2.0, 3.0, 4.0]) },
        Attempt::Finished { solved: true, x: scalars(&[1.0, f64::NAN, 3.0, 4.0]) },
    ] {
        let result = settle(attempt, &u_prev, 2);
        assert!(!result.feasible);
        assert_eq!(nums(&result.u0), vec![0.25, 0.5]);
        assert_eq!(nums(&result.u_opt), vec![0.25, 0.5, 0.25, 0.5]);
    }
    let solved = Attempt::Finished { solved: true, x: scalars(&[1.0, 2.0, 3.0, 4.0]) };
    let result = settle(solved, &u_prev, 2);
    assert!(result.feasible);
    assert_eq!(nums(&result.u0), vec![1.0, 2.0]);
    assert_eq!(nums(&result.u_opt), vec![1.0, 2.0, 3.0, 4.0]);
}

#[test]
fn constraint_rows_come_equalities_first() {
    let extra = ExtraConstraints {
        a_ineq: Some(matrix(&DMatrix::from_row_slice(1, 2, &[5.0, 6.0]))),
        b_ineq: Some(scalars(&[7.0])),
        a_eq: Some(matrix(&DMatrix::from_row_slice(1, 2, &[2.0, 3.0]))),
        b_eq: Some(scalars(&[4.0, 99.0])),
    };
    let rows = assemble_constraints(&extra, &scalars(&[-1.0, -2.0]), &scalars(&[1.0, 2.0]));
    let a: Vec<Vec<f64>> = rows.rows.iter().map(|r| nums(r)).collect();
    assert_eq!(
        a,
        vec![
            vec![2.0, 3.0],
            vec![5.0, 6.0],
            vec![1.0, 0.0],
            vec![0.0, 1.0],
            vec![-1.0, 0.0],
            vec![0.0, -1.0],
        ]
    );
    assert_eq!(nums(&rows.bounds), vec![4.0, 7.0, 1.0, 2.0, 1.0, 2.0]);
    assert_eq!((rows.n_eq, rows.n_ineq), (1, 5));
    assert_eq!(
        make_cones(rows.n_eq, rows.n_ineq),
        vec![Cone::Zero { dim: 1 }, Cone::Nonnegative { dim: 5 }]
    );
    assert!(make_cones(0, 0).is_empty());
    // A matrix without bounds is no constraint.
    let half = ExtraConstraints {
        a_eq: Some(matrix(&DMatrix::from_row_slice(1, 1, &[1.0]))),
        ..Default::default()
    };
    let rows = assemble_constraints(&half, &scalars(&[0.0]), &scalars(&[1.0]));
    assert_eq!((rows.n_eq, rows.n_ineq), (0, 2));
}

#[test]
fn stage_weights_end_with_the_terminal_block() {
    let q = matrix(&DMatrix::from_row_slice(2, 2, &[1.0, 2.0, 3.0, 4.0]));
    let pf = matrix(&DMatrix::from_row_slice(2, 2, &[5.0, 6.0, 7.0, 8.0]));
    let qbar = dense(&stage_weights(3, &q, &pf));
    assert_eq!(qbar.shape(), (6, 6));
    assert_eq!(qbar.view((0, 0), (2, 2)), dense(&q));
    assert_eq!(qbar.view((2, 2), (2, 2)), dense(&q));
    assert_eq!(qbar.view((4, 4), (2, 2)), dense(&pf));
    assert_eq!(qbar[(0, 2)], 0.0);
    let rbar = dense(&kron_eye_block(2, &pf));
    assert_eq!(rbar.view((0, 0), (2, 2)), dense(&pf));
    assert_eq!(rbar.view((2, 2), (2, 2)), dense(&pf));
    assert_eq!(rbar[(3, 0)], 0.0);
}

#[test]
fn loop_constraints_limit_rates_and_sum_positions() {
    let d = matrix(&DMatrix::from_row_slice(2, 2, &[1.0, 0.0, -1.0, 1.0]));
    let rates = dense(&rate_rows(&d));
    assert_eq!(rates.shape(), (4, 2));
    assert_eq!(rates.view((0, 0), (2, 2)), dense(&d));
    assert_eq!(rates.view((2, 0), (2, 2)), -dense(&d));
    let n = 3;
    let sums = dense(&step_sums(n)) * dense(&position_selector(n));
    assert_eq!(sums.shape(), (n, 11 * n));
    for k in 0..n {
        for j in 0..11 * n {
            let expected = if j / 11 == k && j % 11 >= 7 { 1.0 } else { 0.0 };
            assert_eq!(sums[(k, j)], expected);
        }
    }
}

#[test]
fn loop_constraints_come_in_their_order() {
    let d = DMatrix::from_fn(4, 4, |i, j| if i == j { 1.0 } else { 0.0 });
    let sums = DMatrix::from_row_slice(1, 4, &[2.0, 3.0, 4.0, 5.0]);
    let rows = loop_constraints(
        1,
        &matrix(&d),
        &scalars(&[0.1, 0.2, 0.3, 0.4]),
        scalar(0.05),
        matrix(&sums),
        scalars(&[0.9]),
    );
    assert_eq!((rows.n_eq, rows.n_ineq), (1, 16));
    assert_eq!(rows.rows.len(), 17);
    assert_eq!(nums(&rows.rows[0]), vec![2.0, 3.0, 4.0, 5.0]);
    assert_eq!(nums(&rows.rows[2]), vec![0.0, 1.0, 0.0, 0.0]);
    assert_eq!(nums(&rows.rows[6]), vec![0.0, -1.0, 0.0, 0.0]);
    assert_eq!(nums(&rows.rows[9]), vec![1.0, 0.0, 0.0, 0.0]);
    assert_eq!(nums(&rows.rows[13]), vec![-1.0, 0.0, 0.0, 0.0]);
    let bounds = [
        0.9, 0.1 + 0.05, 0.2 + 0.05, 0.3 + 0.05, 0.4 + 0.05, -0.1 + 0.05, -0.2 + 0.05,
        -0.3 + 0.05, -0.4 + 0.05, 0.495, 0.495, 0.495, 0.495, -0.001, -0.001,
        -0.001, -0.001,
    ];
    assert_eq!(nums(&rows.bounds), bounds);
}

fn linearize(d_op: [f64; 4], r0z: f64) -> (DMatrix<f64>, DMatrix<f64>) {
    let (a, e) = mpc_model::linearize(d_op.map(scalar), scalar(r0z));
    (dense(&a), dense(&e))
}

#[test]
fn e_op_matches_default_linearization() {
    let (_, e) = linearize([0.2, 0.2, 0.2, 0.2], 0.0);
    assert!((e[(2, 0)] - 0.4691696314).abs() < 1e-6);
}

#[test]
fn a_op_matches_default_linearization() {
    let (a, _) = linearize([0.2, 0.2, 0.2, 0.2], 0.0);
    assert!((a[(0, 2)] - 1.0).abs() < 1e-9);
    assert!((a[(1, 3)] - 1.0).abs() < 1e-9);
    assert!(a[(2, 0)].abs() < 1e-9); // gravity and the masses cancel here
}

#[test]
fn attitude_coefficients_stand_in_their_places() {
    let (g, m, y, o) = (
        9.193_809_597_677_091e-1,
        -1.149_226_199_709_636_2,
        2.894_926_435_933_835e-1,
        -9.448_326_234_052_719e1,
    );
    let mut base = DMatrix::zeros(5, 5);
    base[(0, 2)] = 1.0;
    base[(1, 3)] = 1.0;
    base[(2, 0)] = g;
    base[(3, 1)] = g;
    assert_eq!(dense(&attitude_base()), base);
    for (k, (sx, sy)) in [(-1.0, -1.0), (-1.0, 1.0), (1.0, 1.0), (1.0, -1.0)].into_iter().enumerate() {
        let mut mass = DMatrix::zeros(5, 5);
        mass[(2, 0)] = m;
        mass[(3, 1)] = m;
        mass[(4, 0)] = sx * y;
        mass[(4, 1)] = sy * y;
        assert_eq!(dense(&attitude_of_mass(k)), mass);
    }
    let mut offset = DMatrix::zeros(5, 5);
    offset[(2, 0)] = o;
    offset[(3, 1)] = o;
    assert_eq!(dense(&attitude_of_offset()), offset);
}

#[test]
fn opposite_masses_pull_opposite_ways() {
    let e = 4.691_696_313_877_410_4e-1;
    let influence = dense(&mass_influence());
    let rows = [[0.0; 4], [0.0; 4], [e, -e, -e, e], [-e, -e, e, e], [0.0; 4]];
    assert_eq!(influence, DMatrix::from_fn(5, 4, |i, j| rows[i][j]));
    let c = dense(&c_vectors(scalar(0.25), scalar(0.75)));
    let directions = [[-0.25, -0.25, 0.75], [-0.25, 0.25, 0.75], [0.25, 0.25, 0.75], [0.25, -0.25, 0.75]];
    assert_eq!(c, DMatrix::from_fn(4, 3, |k, j| directions[k][j]));
    for k in 0..2 {
        for j in 0..2 {
            assert_eq!(c[(k + 2, j)], -c[(k, j)]);
            assert_eq!(influence[(j + 2, k + 2)], -influence[(j + 2, k)]);
        }
    }
}

#[test]
fn linearization_is_affine_in_its_order() {
    let d = [0.11, 0.23, 0.31, 0.47];
    let (a, e) = linearize(d, -0.007);
    let mut expected = dense(&attitude_base());
    for (k, di) in d.iter().enumerate() {
        expected += dense(&attitude_of_mass(k)) * *di;
    }
    expected += dense(&attitude_of_offset()) * -0.007;
    assert_eq!(a, expected);
    assert_eq!(e, dense(&mass_influence()));
    assert_ne!(a[(4, 0)], 0.0);
}

#[test]
fn build_11state_matches_model_init_shape() {
    let preset = preset_model_init();
    let (a, e) = mpc_model::linearize([scalar(0.2); 4], preset.r0z);
    let (ad, bd, gd) = build_11state(&a, &e, scalar(1.0), preset.alpha);
    let (ad, bd, gd) = (dense(&ad), dense(&bd), dense(&gd));
    assert_eq!(ad.shape(), (11, 11));
    assert_eq!(bd.shape(), (11, 4));
    assert_eq!(gd.shape(), (11, 2));
    assert!((ad[(7, 7)] - 0.2).abs() < 1e-12);
    assert!((bd[(7, 0)] - 0.8).abs() < 1e-12);
    // The blocks: attitude, masses on attitude, integrators, lag.
    assert_eq!(ad.view((0, 0), (5, 5)), dense(&a));
    assert_eq!(ad.view((0, 7), (5, 4)), dense(&e));
    assert_eq!((ad[(5, 0)], ad[(6, 1)], ad[(5, 5)], ad[(6, 6)]), (1.0, 1.0, 1.0, 1.0));
    assert_eq!((ad[(5, 1)], ad[(7, 0)], ad[(7, 8)], ad[(0, 5)]), (0.0, 0.0, 0.0, 0.0));
    assert_eq!((gd[(5, 0)], gd[(6, 1)], gd[(5, 1)], gd[(0, 0)]), (-1.0, -1.0, 0.0, 0.0));
    assert_eq!((bd[(8, 1)], bd[(8, 0)], bd[(0, 0)]), (0.8, 0.0, 0.0));
}

fn tuning() -> TuningWeights {
    TuningWeights::from(TuneWeights::default())
}

#[test]
fn presets_choose_their_weights() {
    let d_op = [scalar(0.2); 4];
    let before = preset_model_init();
    let ctrl = build_ctrl(before, d_op, Some(tuning()));
    let q: Vec<f64> = (0..11).map(|i| num(ctrl.q11.get(i, i))).collect();
    assert_eq!(q, vec![50.0, 50.0, 25.0, 25.0, 50.0, 0.3, 0.3, 5.0, 5.0, 5.0, 5.0]);
    assert_eq!(dense(&ctrl.r), DMatrix::<f64>::identity(4, 4) * 400.0);
    assert_eq!(dense(&ctrl.pf11), dense(&ctrl.q11) * 0.3);
    assert_eq!(num(ctrl.bd.get(7, 0)), 1.0 - 0.2);
    assert_eq!((num(ctrl.du_max), num(ctrl.d_track_tol)), (0.01, 0.03));
    assert_eq!(ctrl.n_mpc, 5);

    let after = preset_post_balance();
    for weights in [None, Some(tuning())] {
        let ctrl = build_ctrl(after, d_op, weights);
        let q: Vec<f64> = (0..11).map(|i| num(ctrl.q11.get(i, i))).collect();
        assert_eq!(q, vec![100.0, 100.0, 50.0, 50.0, 25.0, 0.3, 0.3, 15.0, 15.0, 15.0, 15.0]);
        assert_eq!(dense(&ctrl.r), DMatrix::<f64>::identity(4, 4) * 150.0);
        assert_eq!(dense(&ctrl.pf11), dense(&ctrl.q11) * 5.0);
        assert_eq!((num(ctrl.du_max), num(ctrl.d_track_tol)), (0.01, 0.01));
    }
    assert_eq!(num(after.alpha), 0.1);
    assert_eq!(num(after.r0z), -0.007);
    assert_eq!(num(choose_weights(after, None).r), 150.0);
}

#[test]
fn post_balance_is_recognized_within_its_tolerance() {
    for r0z in [
        -0.007,
        -0.007 + 0.99e-12,
        -0.007 - 0.99e-12,
        -0.007 + 1.01e-12,
        -0.007 - 1.01e-12,
        -0.0,
        0.0,
        0.007,
        -1.0,
        f64::NAN,
        f64::INFINITY,
        f64::NEG_INFINITY,
    ] {
        let expected = (r0z - -0.007f64).abs() < 1e-12;
        assert_eq!(is_post_balanced(scalar(r0z)), expected, "{r0z}");
        let preset = Preset { r0z: scalar(r0z), alpha: scalar(0.1), n_mpc: 5 };
        let r = num(choose_weights(preset, Some(tuning())).r);
        assert_eq!(r, if expected { 150.0 } else { 400.0 });
    }
    // The exact edge, one number at a time.
    let centre = (-0.007f64).to_bits();
    for k in [1_152_920u64, 1_152_921, 1_152_922] {
        for bits in [centre - k, centre + k] {
            let expected = (f64::from_bits(bits) - -0.007f64).abs() < 1e-12;
            assert_eq!(is_post_balanced(Scalar { bits }), expected);
        }
    }
}

#[test]
fn augmented_matches_ctrl_lqr_fixture_shape() {
    let (ad, bd) = build_augmented(scalar(1.0));
    let (ad, bd) = (dense(&ad), dense(&bd));
    assert_eq!(ad.shape(), (7, 7));
    assert_eq!(bd.shape(), (7, 3));
    assert!((ad[(5, 0)] - 1.0).abs() < 1e-12);
    assert!((ad[(6, 1)] - 1.0).abs() < 1e-12);
    let (longer, _) = build_augmented(scalar(3.25));
    assert_eq!(dense(&longer).view((5, 0), (2, 5)), dense(&cz()) * 3.25);
    assert_eq!(ad.view((0, 0), (5, 5)), dense(&ad_op()));
    assert_eq!(bd.view((0, 0), (5, 3)), dense(&bd_op()));
    assert_eq!((ad[(5, 5)], ad[(6, 6)], ad[(0, 5)], bd[(5, 0)]), (1.0, 1.0, 0.0, 0.0));
}

#[test]
fn plant_constants_are_exact() {
    let a = dense(&ad_op());
    let expected_a = DMatrix::from_row_slice(
        5,
        5,
        &[
            1.0, 0.0, 1.0, 0.0, 0.0, //
            0.0, 1.0, 0.0, 1.0, 0.0, //
            0.0, 0.0, 1.0, 0.0, 0.0, //
            0.0, 0.0, 0.0, 1.0, 0.0, //
            0.0, 0.0, 0.0, 0.0, 1.0,
        ],
    );
    assert_eq!(a, expected_a);
    let b = dense(&bd_op());
    let (x, y, z) = (2.705_427_342_557_101e-1, 5.410_854_685_114_203e-1, 3.338_670_114_389_427_6e-1);
    let expected_b = DMatrix::from_row_slice(
        5,
        3,
        &[
            x, 0.0, 0.0, //
            0.0, x, 0.0, //
            y, 0.0, 0.0, //
            0.0, y, 0.0, //
            0.0, 0.0, z,
        ],
    );
    assert_eq!(b, expected_b);
}

fn turn(diff: f64, mark: f64) -> Option<Turn> {
    let one = DMatrix::from_row_slice(1, 1, &[mark]);
    Some(Turn { k: matrix(&one), p_next: matrix(&(one * 10.0)), diff: scalar(diff) })
}

#[test]
fn recursion_ends_when_settled_exhausted_or_singular() {
    let q = || matrix(&DMatrix::from_row_slice(1, 1, &[1.0]));
    let tol = scalar(1e-3);
    let recursion = Recursion::start(q(), tol, 3);
    let recursion = match recursion.advance(turn(1.0, 1.0)) {
        Progress::Running { next } => next,
        other => panic!("{other:?}"),
    };
    assert_eq!((recursion.taken, num(recursion.p.get(0, 0))), (1, 10.0));
    match recursion.advance(turn(1e-4, 2.0)) {
        Progress::Done { result: Ok(result) } => {
            assert_eq!((result.iterations, result.settled), (2, true));
            assert_eq!((num(result.k.get(0, 0)), num(result.p.get(0, 0))), (2.0, 20.0));
        }
        other => panic!("{other:?}"),
    }
    // Exhausted: the gain of the last cost-to-go, with that cost-to-go.
    let recursion = match Recursion::start(q(), tol, 1).advance(turn(1.0, 3.0)) {
        Progress::Running { next } => next,
        other => panic!("{other:?}"),
    };
    match recursion.advance(turn(1.0, 4.0)) {
        Progress::Done { result: Ok(result) } => {
            assert_eq!((result.iterations, result.settled), (1, false));
            assert_eq!((num(result.k.get(0, 0)), num(result.p.get(0, 0))), (4.0, 30.0));
        }
        other => panic!("{other:?}"),
    }
    assert!(matches!(
        Recursion::start(q(), tol, 5).advance(None),
        Progress::Done { result: Err(DareError) }
    ));
    // A change that is not a number does not settle the recursion.
    assert!(matches!(
        Recursion::start(q(), tol, 5).advance(turn(f64::NAN, 1.0)),
        Progress::Running { .. }
    ));
}

#[test]
fn gain_weights_must_be_sound() {
    let good = LqiWeights::default();
    let (q, r) = gain_problem(&good).unwrap();
    let diagonal: Vec<f64> = (0..7).map(|i| num(q.get(i, i))).collect();
    assert_eq!(diagonal, vec![100.0, 100.0, 50.0, 50.0, 25.0, 1.0, 1.0]);
    assert_eq!(dense(&r), DMatrix::<f64>::identity(3, 3) * 50.0);
    assert_eq!((num(good.du_max), num(good.d_track_tol)), (0.05, 0.08));
    for bad_r in [0.0, -0.0, -1.0, f64::NAN, f64::INFINITY] {
        let mut w = good;
        w.r = scalar(bad_r);
        assert!(gain_problem(&w).is_none(), "{bad_r}");
    }
    for bad_q in [-1.0, f64::NAN, f64::INFINITY] {
        let mut w = good;
        w.qx[4] = scalar(bad_q);
        assert!(gain_problem(&w).is_none());
        let mut w = good;
        w.qi[1] = scalar(bad_q);
        assert!(gain_problem(&w).is_none());
    }
    let mut w = good;
    w.qx = [scalar(0.0); 5];
    w.qi = [scalar(-0.0); 2];
    assert!(gain_problem(&w).is_some());
    let from_operator = LqiWeights::from(TuneWeights::default());
    assert_eq!(num(from_operator.r), 400.0);
    assert_eq!(num(from_operator.qx[4]), 50.0);
}

#[test]
fn gains_must_be_settled_and_finite() {
    let mut k = DMatrix::from_fn(3, 7, |i, j| (10 * i + j) as f64);
    let result = |k: &DMatrix<f64>, settled: bool| DareResult {
        p: Matrix::identity(7),
        k: matrix(k),
        iterations: 5,
        settled,
    };
    let (kx, ki) = usable_gains(&result(&k, true)).unwrap();
    assert_eq!(dense(&kx), k.columns(0, 5).into_owned());
    assert_eq!(dense(&ki), k.columns(5, 2).into_owned());
    assert!(usable_gains(&result(&k, false)).is_none());
    k[(2, 6)] = f64::NAN;
    assert!(usable_gains(&result(&k, true)).is_none());
}

fn build_a(gb: Vector3<f64>) -> Matrix3x4<f64> {
    let cxy = (60f64).to_radians().cos() * (45f64).to_radians().cos();
    let cz = (60f64).to_radians().sin();
    let directions = c_vectors(scalar(cxy), scalar(cz));
    let a = allocation::build_a(&directions, [gb[0], gb[1], gb[2]].map(scalar));
    Matrix3x4::from_fn(|i, k| num(a.get(i, k)))
}

#[test]
fn torques_are_cross_products() {
    let (cxy, cz) = (0.35, 0.87);
    let directions = c_vectors(scalar(cxy), scalar(cz));
    let c = dense(&directions);
    let gb = Vector3::new(0.3, -0.2, -9.81);
    let a = allocation::build_a(&directions, [0.3, -0.2, -9.81].map(scalar));
    for k in 0..4 {
        let t = Vector3::new(c[(k, 0)], c[(k, 1)], c[(k, 2)]).cross(&gb);
        for i in 0..3 {
            assert_eq!(num(a.get(i, k)), t[i]);
        }
    }
}

#[test]
fn conditioned_weights_are_symmetric_and_lifted() {
    let h = DMatrix::from_row_slice(2, 2, &[1.0, 0.1, 0.3, 2.0]);
    let got = dense(&condition_weights(&matrix(&h)));
    let mut expected = (&h + h.transpose()) * 0.5;
    expected[(0, 0)] += 1e-9;
    expected[(1, 1)] += 1e-9;
    assert_eq!(got, expected);
    assert_eq!(got[(0, 1)], got[(1, 0)]);
}

#[test]
fn pinv_and_qp_agree_when_unconstrained_ish() {
    let a = build_a(Vector3::new(0.0, 0.0, -9.81));
    let tgt = Vector3::new(0.1, -0.05, 0.0);

    let pinv = a.svd(true, true).pseudo_inverse(1e-12).unwrap();
    let d_pinv = pinv * tgt;
    let constraints = allocation_constraints([scalar(-1.0); 4], [scalar(1.0); 4]);
    let h = a.transpose() * a * 2.0;
    let f = a.transpose() * tgt * -2.0;
    let h = DMatrix::from_fn(4, 4, |i, j| h[(i, j)]);
    let f: Vec<f64> = f.iter().copied().collect();
    let d_qp = accept_allocation(run_solver(&h, &f, &constraints)).unwrap();
    let d_qp = nalgebra::Vector4::from(d_qp.map(num));

    let res_pinv = (a * d_pinv - tgt).norm();
    let res_qp = (a * d_qp - tgt).norm();
    assert!((res_pinv - res_qp).abs() < 1e-3, "{res_pinv} vs {res_qp}");
}

#[test]
fn allocation_rows_and_fallback() {
    let rows = allocation_constraints([scalar(-0.1); 4], [scalar(0.2); 4]);
    assert_eq!(nums(&rows.rows[0]), vec![1.0; 4]);
    assert_eq!(nums(&rows.rows[4]), vec![0.0, 0.0, 0.0, 1.0]);
    assert_eq!(nums(&rows.rows[5]), vec![-1.0, 0.0, 0.0, 0.0]);
    assert_eq!(
        nums(&rows.bounds),
        vec![0.0, 0.2, 0.2, 0.2, 0.2, 0.1, 0.1, 0.1, 0.1]
    );
    assert_eq!((rows.n_eq, rows.n_ineq), (1, 8));

    let unsolved = Attempt::Finished { solved: false, x: scalars(&[0.0; 4]) };
    assert!(accept_allocation(unsolved).is_none());
    let infinite = Attempt::Finished { solved: true, x: scalars(&[0.0, f64::INFINITY, 0.0, 0.0]) };
    assert!(accept_allocation(infinite).is_none());
    assert!(accept_allocation(Attempt::Refused).is_none());

    let (qp, pinv) = ([scalar(1.0); 4], [scalar(2.0); 4]);
    assert_eq!(choose_allocation(MassSolver::Pinv, Some(qp), pinv), pinv);
    assert_eq!(choose_allocation(MassSolver::Qp, Some(qp), pinv), qp);
    assert_eq!(choose_allocation(MassSolver::Qp, None, pinv), pinv);
}

#[test]
fn plain_matrices() {
    assert_eq!(dense(&Matrix::zeros(2, 3)), DMatrix::<f64>::zeros(2, 3));
    assert_eq!(dense(&Matrix::identity(3)), DMatrix::<f64>::identity(3, 3));
    let d = Matrix::diag(&scalars(&[4.0, 5.0]));
    assert_eq!(dense(&d), DMatrix::from_row_slice(2, 2, &[4.0, 0.0, 0.0, 5.0]));
}
