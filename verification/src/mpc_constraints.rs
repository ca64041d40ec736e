//! The constraints that the model-predictive loop adds to its program: commands
//! change slowly, and the sum of the mass positions stays constant.

use crate::batch_mats::kron_ones;
use crate::matrix::{grid, row_contents, Matrix, ONE, ZERO};
use crate::mpc_model::{MASSES, STATES};
use crate::mpc_solve::{
    assemble_constraints, negated_all, unit_rows, ConstraintRows, ExtraConstraints, MINUS_ONE,
};
use crate::rail::{D_MAX, D_MIN};
use crate::scalar::Scalar;
use vstd::prelude::*;

verus! {

/// The entry at `(i, j)` of `d` on top of `-d`.
pub open spec fn rate_entry(d: Matrix, i: int, j: int) -> Scalar {
    if i < d@.len() {
        d@[i][j]
    } else {
        d@[i - d@.len()][j].negated()
    }
}

/// The entry at `(i, j)` of the matrix that picks the four mass positions of
/// each step out of the stacked states.
pub open spec fn position_entry(i: int, j: int) -> Scalar {
    Scalar {
        bits: if i / 4 == j / 11 && j % 11 == 7 + i % 4 {
            ONE
        } else {
            ZERO
        },
    }
}

/// The entry at `(i, j)` of the matrix that sums the four mass positions of
/// each step.
pub open spec fn step_sum_entry(i: int, j: int) -> Scalar {
    Scalar {
        bits: if j / 4 == i {
            ONE
        } else {
            ZERO
        },
    }
}

/// The rows that bound changes of the commands from above and from below, for
/// the first-difference operator `d`.
pub fn rate_rows(d: &Matrix) -> (res: Matrix)
    requires
        d.wf(),
        2 * d@.len() <= usize::MAX,
    ensures
        res.is_grid(
            2 * d@.len() as int,
            d.cols as int,
            |i: int, j: int| rate_entry(*d, i, j),
        ),
{
    let n: usize = d.nrows();
    let entry = |i: usize, j: usize| -> (x: Scalar)
        requires
            i < 2 * n,
            j < d.cols,
        ensures
            x == rate_entry(*d, i as int, j as int),
        {
            if i < n {
                d.get(i, j)
            } else {
                d.get(i - n, j).neg()
            }
        };
    let res = Matrix::generate(2 * n, d.cols, entry);
    assert(res@ =~~= grid(
        (2 * d@.len()) as nat,
        d.cols as nat,
        |i: int, j: int| rate_entry(*d, i, j),
    ));
    res
}

/// The matrix that picks the four mass positions of each of `n` steps out of
/// the stacked states.
pub fn position_selector(n: usize) -> (res: Matrix)
    requires
        11 * n <= usize::MAX,
    ensures
        res.is_grid(4 * n, 11 * n, |i: int, j: int| position_entry(i, j)),
{
    let entry = |i: usize, j: usize| -> (x: Scalar)
        ensures
            x == position_entry(i as int, j as int),
        {
            if i / MASSES == j / STATES && j % STATES == 7 + i % MASSES {
                Scalar { bits: ONE }
            } else {
                Scalar { bits: ZERO }
            }
        };
    let res = Matrix::generate(MASSES * n, STATES * n, entry);
    assert(res@ =~~= grid(
        (4 * n) as nat,
        (11 * n) as nat,
        |i: int, j: int| position_entry(i, j),
    ));
    res
}

/// The matrix that sums the four mass positions of each of `n` steps.
pub fn step_sums(n: usize) -> (res: Matrix)
    requires
        4 * n <= usize::MAX,
    ensures
        res.is_grid(n as int, 4 * n, |i: int, j: int| step_sum_entry(i, j)),
{
    let entry = |i: usize, j: usize| -> (x: Scalar)
        ensures
            x == step_sum_entry(i as int, j as int),
        {
            if j / MASSES == i {
                Scalar { bits: ONE }
            } else {
                Scalar { bits: ZERO }
            }
        };
    let res = Matrix::generate(n, MASSES * n, entry);
    assert(res@ =~~= grid(n as nat, (4 * n) as nat, |i: int, j: int| step_sum_entry(i, j)));
    res
}

/// The number with the bits `bits` for each mass in each of `n` steps.
pub open spec fn for_each_input(n: nat, bits: u64) -> Seq<Scalar> {
    Seq::new(4 * n, |i: int| Scalar { bits })
}

/// Every number of `d0`, raised by `du_max`.
pub open spec fn raised(d0: Seq<Scalar>, du_max: Scalar) -> Seq<Scalar> {
    Seq::new(d0.len(), |i: int| d0[i].plus(du_max))
}

/// `rows` are the constraints of the loop over `n` steps. The equalities come
/// first: the sum of the positions of each step, `sums * U = totals`. Then come
/// the changes of the commands for the first-difference operator `d`, upwards and
/// downwards: `d * U` is at most `du_max` from `d0`. Last come the ends of the
/// rails.
pub open spec fn states_loop(
    rows: ConstraintRows,
    n: nat,
    d: Matrix,
    d0: Seq<Scalar>,
    du_max: Scalar,
    sums: Seq<Seq<Scalar>>,
    totals: Seq<Scalar>,
) -> bool {
    &&& row_contents(rows.rows@) == sums + grid(
        8 * n,
        4 * n,
        |i: int, j: int| rate_entry(d, i, j),
    ) + unit_rows(4 * n, ONE) + unit_rows(4 * n, MINUS_ONE)
    &&& rows.bounds@ == totals + raised(d0, du_max) + raised(negated_all(d0), du_max)
        + for_each_input(n, D_MAX) + negated_all(
        for_each_input(n, D_MIN),
    )
    &&& rows.n_eq == n
    &&& rows.n_ineq == 16 * n
}

/// Puts the constraints of the loop over `n` steps together: see [`states_loop`].
pub fn loop_constraints(
    n: usize,
    d: &Matrix,
    d0: &[Scalar],
    du_max: Scalar,
    sums: Matrix,
    totals: Vec<Scalar>,
) -> (res: ConstraintRows)
    requires
        16 * n <= usize::MAX,
        d.is_shape(4 * n, 4 * n),
        d0@.len() == 4 * n,
        sums.is_shape(n as int, 4 * n),
        totals@.len() == n,
    ensures
        states_loop(res, n as nat, *d, d0@, du_max, sums@, totals@),
{
    let ghost rise = raised(d0@, du_max);
    let ghost fall = raised(negated_all(d0@), du_max);
    let mut changes: Vec<Scalar> = Vec::new();
    let mut i: usize = 0;
    while i < d0.len()
        invariant
            i <= d0@.len(),
            rise == raised(d0@, du_max),
            changes@ == rise.take(i as int),
        decreases d0@.len() - i,
    {
        changes.push(d0[i].add(du_max));
        i = i + 1;
        assert(changes@ =~= rise.take(i as int));
    }
    assert(changes@ =~= rise + fall.take(0));
    let mut j: usize = 0;
    while j < d0.len()
        invariant
            j <= d0@.len(),
            fall == raised(negated_all(d0@), du_max),
            changes@ == rise + fall.take(j as int),
        decreases d0@.len() - j,
    {
        changes.push(d0[j].neg().add(du_max));
        j = j + 1;
        assert(changes@ =~= rise + fall.take(j as int));
    }
    assert(fall.take(j as int) =~= fall);
    let lowest: [Scalar; 4] = [Scalar { bits: D_MIN }; 4];
    let highest: [Scalar; 4] = [Scalar { bits: D_MAX }; 4];
    let lb = kron_ones(n, lowest.as_slice());
    let ub = kron_ones(n, highest.as_slice());
    assert(lb@ =~= for_each_input(n as nat, D_MIN));
    assert(ub@ =~= for_each_input(n as nat, D_MAX));
    let extra = ExtraConstraints {
        a_ineq: Some(rate_rows(d)),
        b_ineq: Some(changes),
        a_eq: Some(sums),
        b_eq: Some(totals),
    };
    let res = assemble_constraints(&extra, lb.as_slice(), ub.as_slice());
    assert(totals@.take(n as int) =~= totals@);
    assert(changes@.take(8 * n) =~= rise + fall);
    assert(res.bounds@ =~= totals@ + rise + fall + ub@ + negated_all(lb@));
    res
}

/// Every mass position of every step is summed exactly once, in the sum of its
/// own step: position `k` of step `s` is state `7 + k` of that step, and the
/// row that picks it is summed in row `s` alone.
pub proof fn law_each_position_is_summed_once(s: int, k: int, other: int)
    requires
        0 <= s,
        0 <= k < 4,
        0 <= other,
    ensures
        position_entry(4 * s + k, 11 * s + 7 + k).bits == ONE,
        step_sum_entry(s, 4 * s + k).bits == ONE,
        other != 11 * s + 7 + k ==> position_entry(4 * s + k, other).bits == ZERO,
        other != s ==> step_sum_entry(other, 4 * s + k).bits == ZERO,
{
}

/// The lower half of the rate rows is the upper half with every sign reversed,
/// so the same bound limits changes both ways.
pub proof fn law_rate_rows_mirror(d: Matrix, i: int, j: int)
    requires
        0 <= i < d@.len(),
    ensures
        rate_entry(d, i + d@.len(), j) == rate_entry(d, i, j).negated(),
{
}

/// The constraints of the loop, row by row. Equality `s` is the sum of the positions of
/// step `s`. For input `i` of all steps, one row says that its change is at most the
/// limit upwards, one that it is at most the limit downwards, one that it is at most
/// 0.495 m, and one that it is at least 0.001 m: the last two hold of that input alone.
pub proof fn law_loop_rows_say_what_they_bound(
    rows: ConstraintRows,
    n: nat,
    d: Matrix,
    d0: Seq<Scalar>,
    du_max: Scalar,
    sums: Seq<Seq<Scalar>>,
    totals: Seq<Scalar>,
    s: int,
    i: int,
    j: int,
)
    requires
        states_loop(rows, n, d, d0, du_max, sums, totals),
        d.is_shape(4 * n as int, 4 * n as int),
        d0.len() == 4 * n,
        sums.len() == n,
        totals.len() == n,
        0 <= s < n,
        0 <= i < 4 * n,
        0 <= j < 4 * n,
    ensures
        ({
            let row = |k: int| rows.rows@[k]@;
            &&& rows.n_eq == n && rows.n_ineq == 16 * n
            &&& rows.rows@.len() == 17 * n && rows.bounds@.len() == 17 * n
            &&& row(s) == sums[s] && rows.bounds@[s] == totals[s]
            &&& row(n + i)[j] == d@[i][j]
            &&& rows.bounds@[n + i] == d0[i].plus(du_max)
            &&& row(5 * n + i)[j] == d@[i][j].negated()
            &&& rows.bounds@[5 * n + i] == d0[i].negated().plus(du_max)
            &&& row(9 * n + i)[j].bits == if i == j {
                0x3FF0_0000_0000_0000u64
            } else {
                0
            }
            &&& rows.bounds@[9 * n + i].bits == 0x3FDF_AE14_7AE1_47AE
            &&& row(13 * n + i)[j].bits == if i == j {
                0xBFF0_0000_0000_0000u64
            } else {
                0
            }
            &&& rows.bounds@[13 * n + i].bits == 0xBF50_624D_D2F1_A9FC
        }),
{
    let all = row_contents(rows.rows@);
    assert(all.len() == rows.rows@.len());
    assert(all[s] == rows.rows@[s]@);
    assert(all[n + i] == rows.rows@[n + i]@);
    assert(all[5 * n + i] == rows.rows@[5 * n + i]@);
    assert(all[9 * n + i] == rows.rows@[9 * n + i]@);
    assert(all[13 * n + i] == rows.rows@[13 * n + i]@);
    assert((Scalar { bits: D_MIN }).negated().bits == 0xBF50_624D_D2F1_A9FCu64);
}

} // verus!
