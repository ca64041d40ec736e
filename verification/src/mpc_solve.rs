//! The quadratic program of the model-predictive controller: its weights, its
//! constraints, and what is made of the answer of the solver.
//!
//! The decision variable is `U`, the inputs of all steps of the horizon. The
//! constraint rows come in the order that the solver's cones ask for: first all
//! equalities, then all inequalities `row * U <= bound`.

use crate::batch_mats::{kron_ones, lemma_block_index, repeated};
use crate::binary64::{
    law_product_is_nearly_exact, law_sum_commutes, law_sum_is_nearly_exact, lemma_composed,
    lemma_powers,
};
use crate::matrix::{grid, row_contents, Matrix, ONE, ZERO};
use crate::scalar::{all_finite, is_all_finite, Scalar};
use vstd::arithmetic::power2::{lemma_pow2_adds, lemma_pow2_pos, pow2};
use vstd::prelude::*;

verus! {

/// Minus one as binary64 bits.
pub const MINUS_ONE: u64 = 0xBFF0_0000_0000_0000;

/// One half as bits.
pub const HALF: u64 = 0x3FE0_0000_0000_0000;

/// What is added to the diagonal of the quadratic weights, 1e-9, as bits.
pub const DIAGONAL_BOOST: u64 = 0x3E11_2E0B_E826_D695;

/// Constraints beyond the box: `a_ineq U <= b_ineq` and `a_eq U = b_eq`. A
/// constraint counts only when both its parts are there.
#[derive(Debug)]
pub struct ExtraConstraints {
    pub a_ineq: Option<Matrix>,
    pub b_ineq: Option<Vec<Scalar>>,
    pub a_eq: Option<Matrix>,
    pub b_eq: Option<Vec<Scalar>>,
}

impl Default for ExtraConstraints {
    /// No constraints.
    fn default() -> (extra: ExtraConstraints)
        ensures
            extra.a_ineq is None,
            extra.b_ineq is None,
            extra.a_eq is None,
            extra.b_eq is None,
    {
        ExtraConstraints { a_ineq: None, b_ineq: None, a_eq: None, b_eq: None }
    }
}

/// The rows of `a`, when there are bounds for them.
pub open spec fn paired_rows(a: Option<Matrix>, b: Option<Vec<Scalar>>) -> Seq<Seq<Scalar>> {
    match (a, b) {
        (Some(rows), Some(bounds)) => rows@,
        _ => Seq::empty(),
    }
}

/// The bounds in `b`, one for each row of `a`.
pub open spec fn paired_bounds(a: Option<Matrix>, b: Option<Vec<Scalar>>) -> Seq<Scalar> {
    match (a, b) {
        (Some(rows), Some(bounds)) => bounds@.take(rows@.len() as int),
        _ => Seq::empty(),
    }
}

/// `a` has `nu` columns, and `b` has a bound for each of its rows.
pub open spec fn pair_fits(a: Option<Matrix>, b: Option<Vec<Scalar>>, nu: int) -> bool {
    match (a, b) {
        (Some(rows), Some(bounds)) => rows.wf() && rows.cols == nu && rows@.len() <= bounds@.len(),
        _ => true,
    }
}

/// The row of length `nu` that is `bits` at `i` and zero elsewhere.
pub open spec fn unit_row(nu: nat, i: int, bits: u64) -> Seq<Scalar> {
    Seq::new(
        nu,
        |j: int|
            if j == i {
                Scalar { bits }
            } else {
                Scalar { bits: ZERO }
            },
    )
}

/// All unit rows of length `nu`.
pub open spec fn unit_rows(nu: nat, bits: u64) -> Seq<Seq<Scalar>> {
    Seq::new(nu, |i: int| unit_row(nu, i, bits))
}

/// `v` with every sign reversed.
pub open spec fn negated_all(v: Seq<Scalar>) -> Seq<Scalar> {
    v.map_values(|x: Scalar| x.negated())
}

impl ExtraConstraints {
    /// The constraints speak of `nu` decision variables.
    pub open spec fn fits(&self, nu: int) -> bool {
        pair_fits(self.a_eq, self.b_eq, nu) && pair_fits(self.a_ineq, self.b_ineq, nu)
    }

    /// The equality rows.
    pub open spec fn equalities(&self) -> Seq<Seq<Scalar>> {
        paired_rows(self.a_eq, self.b_eq)
    }

    /// The inequality rows.
    pub open spec fn inequalities(&self) -> Seq<Seq<Scalar>> {
        paired_rows(self.a_ineq, self.b_ineq)
    }
}

/// All constraint rows: equalities, inequalities, `U <= ub`, `-U <= -lb`.
pub open spec fn all_rows(extra: ExtraConstraints, nu: nat) -> Seq<Seq<Scalar>> {
    extra.equalities() + extra.inequalities() + unit_rows(nu, ONE) + unit_rows(nu, MINUS_ONE)
}

/// The bounds of [`all_rows`], in the same order.
pub open spec fn all_bounds(extra: ExtraConstraints, lb: Seq<Scalar>, ub: Seq<Scalar>) -> Seq<Scalar> {
    paired_bounds(extra.a_eq, extra.b_eq) + paired_bounds(extra.a_ineq, extra.b_ineq) + ub
        + negated_all(lb)
}

/// The constraints of one quadratic program.
#[derive(Debug)]
pub struct ConstraintRows {
    pub rows: Vec<Vec<Scalar>>,
    pub bounds: Vec<Scalar>,
    /// How many of the rows, at the front, are equalities.
    pub n_eq: usize,
    /// How many of the rows, after them, are inequalities.
    pub n_ineq: usize,
}

impl ConstraintRows {
    /// These are the constraints `extra` and the box from `lb` to `ub`.
    pub open spec fn states(
        &self,
        extra: ExtraConstraints,
        lb: Seq<Scalar>,
        ub: Seq<Scalar>,
    ) -> bool {
        &&& row_contents(self.rows@) == all_rows(extra, ub.len())
        &&& self.bounds@ == all_bounds(extra, lb, ub)
        &&& self.n_eq == extra.equalities().len()
        &&& self.n_ineq == extra.inequalities().len() + 2 * ub.len()
    }
}

/// One cone of the solver, with the number of rows it takes.
#[derive(Debug, Clone, Copy, PartialEq, Eq, Structural)]
pub enum Cone {
    /// The rows are equalities.
    Zero { dim: usize },
    /// The rows are inequalities.
    Nonnegative { dim: usize },
}

/// The cones for `n_eq` equalities and then `n_ineq` inequalities; empty cones
/// are left out.
pub open spec fn cones_of(n_eq: usize, n_ineq: usize) -> Seq<Cone> {
    (if n_eq > 0 {
        seq![Cone::Zero { dim: n_eq }]
    } else {
        Seq::empty()
    }) + (if n_ineq > 0 {
        seq![Cone::Nonnegative { dim: n_ineq }]
    } else {
        Seq::empty()
    })
}

/// A copy of `row`.
fn copied(row: &Vec<Scalar>) -> (copy: Vec<Scalar>)
    ensures
        copy@ == row@,
{
    let mut copy: Vec<Scalar> = Vec::new();
    let mut i: usize = 0;
    while i < row.len()
        invariant
            i <= row@.len(),
            copy@ == row@.take(i as int),
        decreases row@.len() - i,
    {
        copy.push(row[i]);
        i = i + 1;
    }
    assert(row@.take(row@.len() as int) =~= row@);
    copy
}

/// Appends `row` to `rows`.
fn push_row(rows: &mut Vec<Vec<Scalar>>, row: Vec<Scalar>)
    ensures
        row_contents(final(rows)@) == row_contents(old(rows)@).push(row@),
{
    rows.push(row);
    assert(row_contents(rows@) =~= row_contents(old(rows)@).push(row@));
}

/// Appends the constraint of `a` and `b`, when both are there.
fn append_pair(
    rows: &mut Vec<Vec<Scalar>>,
    bounds: &mut Vec<Scalar>,
    a: &Option<Matrix>,
    b: &Option<Vec<Scalar>>,
    nu: usize,
)
    requires
        pair_fits(*a, *b, nu as int),
    ensures
        row_contents(final(rows)@) == row_contents(old(rows)@) + paired_rows(*a, *b),
        final(bounds)@ == old(bounds)@ + paired_bounds(*a, *b),
{
    match (a, b) {
        (Some(matrix), Some(values)) => {
            let mut i: usize = 0;
            let ghost rows_before = row_contents(rows@);
            let ghost bounds_before = bounds@;
            assert(row_contents(rows@) =~= rows_before + matrix@.take(0));
            assert(bounds@ =~= bounds_before + values@.take(0));
            while i < matrix.rows.len()
                invariant
                    i <= matrix@.len(),
                    matrix@.len() <= values@.len(),
                    row_contents(rows@) == rows_before + matrix@.take(i as int),
                    bounds@ == bounds_before + values@.take(i as int),
                decreases matrix@.len() - i,
            {
                push_row(rows, copied(&matrix.rows[i]));
                bounds.push(values[i]);
                i = i + 1;
                assert(row_contents(rows@) =~= rows_before + matrix@.take(i as int));
                assert(bounds@ =~= bounds_before + values@.take(i as int));
            }
            assert(matrix@.take(i as int) =~= matrix@);
        },
        _ => {
            assert(row_contents(rows@) =~= row_contents(rows@) + paired_rows(*a, *b));
            assert(bounds@ =~= bounds@ + paired_bounds(*a, *b));
        },
    }
}

/// The row of length `nu` that is `bits` at `i` and zero elsewhere.
fn make_unit_row(nu: usize, i: usize, bits: u64) -> (row: Vec<Scalar>)
    ensures
        row@ == unit_row(nu as nat, i as int, bits),
{
    let mut row: Vec<Scalar> = Vec::new();
    let mut j: usize = 0;
    while j < nu
        invariant
            j <= nu,
            row@ == unit_row(nu as nat, i as int, bits).take(j as int),
        decreases nu - j,
    {
        row.push(Scalar { bits: if j == i { bits } else { ZERO } });
        j = j + 1;
    }
    assert(unit_row(nu as nat, i as int, bits).take(nu as int) =~= unit_row(nu as nat, i as int, bits));
    row
}

/// Appends one unit row for each decision variable.
fn append_unit_rows(rows: &mut Vec<Vec<Scalar>>, nu: usize, bits: u64)
    ensures
        row_contents(final(rows)@) == row_contents(old(rows)@) + unit_rows(nu as nat, bits),
{
    let mut i: usize = 0;
    let ghost before = row_contents(rows@);
    assert(row_contents(rows@) =~= before + unit_rows(nu as nat, bits).take(0));
    while i < nu
        invariant
            i <= nu,
            row_contents(rows@) == before + unit_rows(nu as nat, bits).take(i as int),
        decreases nu - i,
    {
        push_row(rows, make_unit_row(nu, i, bits));
        i = i + 1;
        assert(row_contents(rows@) =~= before + unit_rows(nu as nat, bits).take(i as int));
    }
    assert(unit_rows(nu as nat, bits).take(nu as int) =~= unit_rows(nu as nat, bits));
}

/// Collects the constraints `extra` and the box from `lb` to `ub`.
pub fn assemble_constraints(extra: &ExtraConstraints, lb: &[Scalar], ub: &[Scalar]) -> (res:
    ConstraintRows)
    requires
        lb@.len() == ub@.len(),
        extra.fits(ub@.len() as int),
        extra.inequalities().len() + 2 * ub@.len() <= usize::MAX,
    ensures
        res.states(*extra, lb@, ub@),
{
    let nu: usize = ub.len();
    let mut rows: Vec<Vec<Scalar>> = Vec::new();
    let mut bounds: Vec<Scalar> = Vec::new();
    assert(row_contents(rows@) =~= Seq::empty());
    append_pair(&mut rows, &mut bounds, &extra.a_eq, &extra.b_eq, nu);
    let n_eq: usize = rows.len();
    assert(n_eq == row_contents(rows@).len());
    append_pair(&mut rows, &mut bounds, &extra.a_ineq, &extra.b_ineq, nu);
    assert(rows@.len() == row_contents(rows@).len());
    let n_extra: usize = rows.len() - n_eq;
    append_unit_rows(&mut rows, nu, ONE);
    append_unit_rows(&mut rows, nu, MINUS_ONE);
    let ghost before = bounds@;
    assert(before =~= paired_bounds(extra.a_eq, extra.b_eq) + paired_bounds(
        extra.a_ineq,
        extra.b_ineq,
    ));
    let mut i: usize = 0;
    assert(bounds@ =~= before + ub@.take(0));
    while i < nu
        invariant
            i <= nu,
            nu == ub@.len(),
            bounds@ == before + ub@.take(i as int),
        decreases nu - i,
    {
        bounds.push(ub[i]);
        i = i + 1;
        assert(bounds@ =~= before + ub@.take(i as int));
    }
    assert(ub@.take(nu as int) =~= ub@);
    i = 0;
    assert(bounds@ =~= before + ub@ + negated_all(lb@).take(0));
    while i < nu
        invariant
            i <= nu,
            nu == lb@.len(),
            bounds@ == before + ub@ + negated_all(lb@).take(i as int),
        decreases nu - i,
    {
        bounds.push(lb[i].neg());
        i = i + 1;
        assert(bounds@ =~= before + ub@ + negated_all(lb@).take(i as int));
    }
    assert(negated_all(lb@).take(nu as int) =~= negated_all(lb@));
    assert(row_contents(rows@) =~= all_rows(*extra, nu as nat));
    ConstraintRows { rows, bounds, n_eq, n_ineq: n_extra + 2 * nu }
}

/// The cones for `n_eq` equalities and then `n_ineq` inequalities; empty cones
/// are left out.
pub fn make_cones(n_eq: usize, n_ineq: usize) -> (cones: Vec<Cone>)
    ensures
        cones@ == cones_of(n_eq, n_ineq),
{
    let mut cones: Vec<Cone> = Vec::new();
    if n_eq > 0 {
        cones.push(Cone::Zero { dim: n_eq });
    }
    if n_ineq > 0 {
        cones.push(Cone::Nonnegative { dim: n_ineq });
    }
    assert(cones@ =~= cones_of(n_eq, n_ineq));
    cones
}

/// The entry at `(i, j)` of the block diagonal matrix of `block` repeated.
pub open spec fn block_diagonal_entry(block: Matrix, i: int, j: int) -> Scalar {
    let size = block.cols as int;
    if i / size == j / size {
        block@[i % size][j % size]
    } else {
        Scalar { bits: ZERO }
    }
}

/// The entry at `(i, j)` of the weights on the states of `count` steps: `q` for
/// every step but the last, which has `pf`.
pub open spec fn stage_weight_entry(q: Matrix, pf: Matrix, count: int, i: int, j: int) -> Scalar {
    if i / (q.cols as int) == count - 1 {
        block_diagonal_entry(pf, i, j)
    } else {
        block_diagonal_entry(q, i, j)
    }
}

/// The block diagonal matrix of `block` repeated `count` times.
pub fn kron_eye_block(count: usize, block: &Matrix) -> (res: Matrix)
    requires
        block.is_shape(block.cols as int, block.cols as int),
        block.cols * count <= usize::MAX,
    ensures
        res.is_grid(
            block.cols * count,
            block.cols * count,
            |i: int, j: int| block_diagonal_entry(*block, i, j),
        ),
{
    let size: usize = block.cols;
    let entry = |i: usize, j: usize| -> (x: Scalar)
        requires
            i < size * count,
            j < size * count,
        ensures
            x == block_diagonal_entry(*block, i as int, j as int),
        {
            proof {
                lemma_block_index(i as int, size as int, count as int);
                lemma_block_index(j as int, size as int, count as int);
            }
            if i / size == j / size {
                block.get(i % size, j % size)
            } else {
                Scalar { bits: ZERO }
            }
        };
    let res = Matrix::generate(size * count, size * count, entry);
    assert(res@ =~~= grid(
        (size * count) as nat,
        (size * count) as nat,
        |i: int, j: int| block_diagonal_entry(*block, i, j),
    ));
    res
}

/// The weights on the states of `count` steps: `q` for every step but the last,
/// which has `pf`.
pub fn stage_weights(count: usize, q: &Matrix, pf: &Matrix) -> (res: Matrix)
    requires
        q.is_shape(q.cols as int, q.cols as int),
        pf.is_shape(q.cols as int, q.cols as int),
        q.cols * count <= usize::MAX,
    ensures
        res.is_grid(
            q.cols * count,
            q.cols * count,
            |i: int, j: int| stage_weight_entry(*q, *pf, count as int, i, j),
        ),
{
    let size: usize = q.cols;
    let entry = |i: usize, j: usize| -> (x: Scalar)
        requires
            i < size * count,
            j < size * count,
        ensures
            x == stage_weight_entry(*q, *pf, count as int, i as int, j as int),
        {
            proof {
                lemma_block_index(i as int, size as int, count as int);
                lemma_block_index(j as int, size as int, count as int);
            }
            if i / size == j / size {
                if i / size == count - 1 {
                    pf.get(i % size, j % size)
                } else {
                    q.get(i % size, j % size)
                }
            } else {
                Scalar { bits: ZERO }
            }
        };
    let res = Matrix::generate(size * count, size * count, entry);
    assert(res@ =~~= grid(
        (size * count) as nat,
        (size * count) as nat,
        |i: int, j: int| stage_weight_entry(*q, *pf, count as int, i, j),
    ));
    res
}

/// What came of handing the quadratic program to the solver.
#[derive(Debug)]
pub enum Attempt {
    /// The solver did not take the program, or there was nothing to solve.
    Refused,
    /// The solver stopped at `x`. It is `solved` when the solver reports it
    /// solved or almost solved.
    Finished { solved: bool, x: Vec<Scalar> },
}

impl Attempt {
    /// The solver found a solution of finite numbers.
    pub open spec fn usable(&self) -> bool {
        match *self {
            Attempt::Finished { solved, x } => solved && all_finite(x@),
            Attempt::Refused => false,
        }
    }
}

/// The outcome of one solve.
#[derive(Debug)]
pub struct SolveResult {
    /// The input of the first step.
    pub u0: Vec<Scalar>,
    /// The inputs of all steps.
    pub u_opt: Vec<Scalar>,
    /// Whether they come from the solver.
    pub feasible: bool,
}

/// The first `n` numbers of `v`.
fn first_of(v: &[Scalar], n: usize) -> (res: Vec<Scalar>)
    requires
        n <= v@.len(),
    ensures
        res@ == v@.take(n as int),
{
    let mut res: Vec<Scalar> = Vec::new();
    let mut i: usize = 0;
    while i < n
        invariant
            i <= n <= v@.len(),
            res@ == v@.take(i as int),
        decreases n - i,
    {
        res.push(v[i]);
        i = i + 1;
    }
    res
}

/// The inputs to use after `attempt`: those of the solver when they are usable,
/// the previous input `u_prev` for every step otherwise.
pub fn settle(attempt: Attempt, u_prev: &[Scalar], horizon: usize) -> (res: SolveResult)
    requires
        attempt.usable() ==> attempt->x@.len() >= u_prev@.len(),
        u_prev@.len() * horizon <= usize::MAX,
    ensures
        res.feasible == attempt.usable(),
        res.feasible ==> res.u_opt == attempt->x && res.u0@ == attempt->x@.take(
            u_prev@.len() as int,
        ),
        !res.feasible ==> res.u_opt@ == repeated(u_prev@, horizon as nat) && res.u0@ == u_prev@,
{
    if let Attempt::Finished { solved, x } = attempt {
        if solved && is_all_finite(x.as_slice()) {
            let u0 = first_of(x.as_slice(), u_prev.len());
            return SolveResult { u0, u_opt: x, feasible: true };
        }
    }
    let u0 = first_of(u_prev, u_prev.len());
    assert(u_prev@.take(u_prev@.len() as int) =~= u_prev@);
    SolveResult { u0, u_opt: kron_ones(horizon, u_prev), feasible: false }
}

/// The number of rows that a cone takes.
pub open spec fn cone_dim(cone: Cone) -> int {
    match cone {
        Cone::Zero { dim } => dim as int,
        Cone::Nonnegative { dim } => dim as int,
    }
}

/// The entry at `(i, j)` of the quadratic weights `h`, made symmetric and lifted on
/// the diagonal.
pub open spec fn conditioned_entry(h: Seq<Seq<Scalar>>, i: int, j: int) -> Scalar {
    let even = h[i][j].plus(h[j][i]).times(Scalar { bits: HALF });
    if i == j {
        even.plus(Scalar { bits: DIAGONAL_BOOST })
    } else {
        even
    }
}

/// Makes the quadratic weights `h` symmetric and lifts their diagonal.
pub fn condition_weights(h: &Matrix) -> (res: Matrix)
    requires
        h.is_shape(h.cols as int, h.cols as int),
    ensures
        res.is_grid(
            h.cols as int,
            h.cols as int,
            |i: int, j: int| conditioned_entry(h@, i, j),
        ),
{
    let n: usize = h.cols;
    let entry = |i: usize, j: usize| -> (x: Scalar)
        requires
            i < n,
            j < n,
        ensures
            x == conditioned_entry(h@, i as int, j as int),
        {
            let even = h.get(i, j).add(h.get(j, i)).mul(Scalar { bits: HALF });
            if i == j {
                even.add(Scalar { bits: DIAGONAL_BOOST })
            } else {
                even
            }
        };
    let res = Matrix::generate(n, n, entry);
    assert(res@ =~~= grid(n as nat, n as nat, |i: int, j: int| conditioned_entry(h@, i, j)));
    res
}

/// The weights that the solver gets are symmetric.
pub proof fn law_conditioned_weights_are_symmetric(h: Seq<Seq<Scalar>>, i: int, j: int)
    ensures
        conditioned_entry(h, i, j) == conditioned_entry(h, j, i),
{
    law_sum_commutes(h[i][j], h[j][i]);
}

/// Each row has its bound, and the cones of the counts take each row exactly
/// once: the equalities first, then the inequalities.
pub proof fn law_cones_take_every_row(
    rows: ConstraintRows,
    extra: ExtraConstraints,
    lb: Seq<Scalar>,
    ub: Seq<Scalar>,
)
    requires
        rows.states(extra, lb, ub),
        lb.len() == ub.len(),
        extra.fits(ub.len() as int),
    ensures
        rows.rows@.len() == rows.bounds@.len(),
        rows.n_eq + rows.n_ineq == rows.rows@.len(),
        rows.n_eq > 0 ==> cones_of(rows.n_eq, rows.n_ineq).first() == (Cone::Zero {
            dim: rows.n_eq,
        }),
        rows.n_ineq > 0 ==> cones_of(rows.n_eq, rows.n_ineq).last() == (Cone::Nonnegative {
            dim: rows.n_ineq,
        }),
        cones_of(rows.n_eq, rows.n_ineq).map_values(|cone: Cone| cone_dim(cone)).fold_left(
            0int,
            |sum: int, dim: int| sum + dim,
        ) == rows.rows@.len(),
{
    assert(rows.rows@.len() == row_contents(rows.rows@).len());
    let dims = cones_of(rows.n_eq, rows.n_ineq).map_values(|cone: Cone| cone_dim(cone));
    reveal_with_fuel(Seq::fold_left, 3);
    if rows.n_eq > 0 && rows.n_ineq > 0 {
        assert(dims =~= seq![rows.n_eq as int, rows.n_ineq as int]);
        assert(dims.drop_last() =~= seq![rows.n_eq as int]);
        assert(dims.drop_last().drop_last() =~= Seq::<int>::empty());
    } else if rows.n_eq > 0 {
        assert(dims =~= seq![rows.n_eq as int]);
        assert(dims.drop_last() =~= Seq::<int>::empty());
    } else if rows.n_ineq > 0 {
        assert(dims =~= seq![rows.n_ineq as int]);
        assert(dims.drop_last() =~= Seq::<int>::empty());
    }
}

/// The rows of the box come after all other rows: row `i` of the last block
/// bounds the decision variable `i` from below, and row `i` of the block before
/// it bounds the same variable from above.
pub proof fn law_box_rows_bound_each_input(
    rows: ConstraintRows,
    extra: ExtraConstraints,
    lb: Seq<Scalar>,
    ub: Seq<Scalar>,
    i: int,
)
    requires
        rows.states(extra, lb, ub),
        lb.len() == ub.len(),
        extra.fits(ub.len() as int),
        0 <= i < ub.len(),
    ensures
        ({
            let upper = extra.equalities().len() + extra.inequalities().len() + i;
            let lower = upper + ub.len();
            &&& rows.rows@[upper]@ == unit_row(ub.len(), i, ONE)
            &&& rows.bounds@[upper] == ub[i]
            &&& rows.rows@[lower]@ == unit_row(ub.len(), i, MINUS_ONE)
            &&& rows.bounds@[lower] == lb[i].negated()
        }),
{
    let upper = extra.equalities().len() + extra.inequalities().len() + i;
    let lower = upper + ub.len();
    assert(rows.rows@.len() == row_contents(rows.rows@).len());
    assert(row_contents(rows.rows@)[upper] == rows.rows@[upper]@);
    assert(row_contents(rows.rows@)[lower] == rows.rows@[lower]@);
}

/// Which rows a program has: the equalities in their order, each with its bound, and
/// after them the other constraints in their order, each with its bound.
pub proof fn law_rows_keep_their_bounds(
    rows: ConstraintRows,
    extra: ExtraConstraints,
    lb: Seq<Scalar>,
    ub: Seq<Scalar>,
    i: int,
    k: int,
)
    requires
        rows.states(extra, lb, ub),
        lb.len() == ub.len(),
        extra.fits(ub.len() as int),
    ensures
        (extra.a_eq is Some && extra.b_eq is Some && 0 <= i < extra.a_eq->0@.len()) ==> {
            &&& rows.n_eq == extra.a_eq->0@.len()
            &&& rows.rows@[i]@ == extra.a_eq->0@[i]
            &&& rows.bounds@[i] == extra.b_eq->0@[i]
        },
        extra.a_eq is None || extra.b_eq is None ==> rows.n_eq == 0,
        (extra.a_ineq is Some && extra.b_ineq is Some && 0 <= k < extra.a_ineq->0@.len()) ==> {
            &&& rows.n_ineq == extra.a_ineq->0@.len() + 2 * ub.len()
            &&& rows.rows@[rows.n_eq + k]@ == extra.a_ineq->0@[k]
            &&& rows.bounds@[rows.n_eq + k] == extra.b_ineq->0@[k]
        },
        extra.a_ineq is None || extra.b_ineq is None ==> rows.n_ineq == 2 * ub.len(),
{
    let all = row_contents(rows.rows@);
    assert(all.len() == rows.rows@.len());
    if extra.a_eq is Some && extra.b_eq is Some && 0 <= i < extra.a_eq->0@.len() {
        assert(all[i] == rows.rows@[i]@);
    }
    if extra.a_ineq is Some && extra.b_ineq is Some && 0 <= k < extra.a_ineq->0@.len() {
        assert(all[rows.n_eq + k] == rows.rows@[rows.n_eq + k]@);
    }
}

/// A bound of the box holds of one input alone: the row of input `i` is one there, or
/// minus one, and zero for every other input. Lower bounds are taken with their sign
/// reversed.
pub proof fn law_unit_rows_pick_one_input(nu: nat, bits: u64, v: Seq<Scalar>, i: int, j: int)
    requires
        0 <= i < nu,
        0 <= j < nu,
        nu == v.len(),
    ensures
        unit_rows(nu, bits).len() == nu,
        unit_rows(nu, bits)[i].len() == nu,
        i == j ==> unit_rows(nu, bits)[i][j].bits == bits,
        i != j ==> unit_rows(nu, bits)[i][j].bits == 0,
        negated_all(v).len() == nu,
        negated_all(v)[i].units() == -v[i].units(),
{
    crate::scalar::law_negation_reverses_value(v[i]);
}

/// The weights on the states of all steps: entry `(a, b)` of step `s` is that of `q`,
/// or that of `pf` in the last step; nothing stands between different steps. The
/// weights on the inputs repeat the one block in the same way.
pub proof fn law_steps_are_weighted_alike(
    q: Matrix,
    pf: Matrix,
    count: int,
    s: int,
    t: int,
    a: int,
    b: int,
)
    requires
        q.cols == pf.cols,
        0 <= s < count,
        0 <= t < count,
        0 <= a < q.cols,
        0 <= b < q.cols,
    ensures
        ({
            let size = q.cols as int;
            let (i, j) = (s * size + a, t * size + b);
            let (weight, repeated) = (
                stage_weight_entry(q, pf, count, i, j),
                block_diagonal_entry(q, i, j),
            );
            &&& s == t && s == count - 1 ==> weight == pf@[a][b]
            &&& s == t && s < count - 1 ==> weight == q@[a][b]
            &&& s != t ==> weight.bits == 0
            &&& s == t ==> repeated == q@[a][b]
            &&& s != t ==> repeated.bits == 0
        }),
{
    let size = q.cols as int;
    vstd::arithmetic::div_mod::lemma_fundamental_div_mod_converse(s * size + a, size, s, a);
    vstd::arithmetic::div_mod::lemma_fundamental_div_mod_converse(t * size + b, size, t, b);
}

/// A solution counts exactly if the solver solved the program and every number of it is
/// finite.
pub proof fn law_usable_means_solved_and_finite(attempt: Attempt)
    ensures
        attempt.usable() <==> attempt is Finished && attempt->solved && forall|i: int|
            0 <= i < attempt->x@.len() ==> (#[trigger] attempt->x@[i]).bits
                % crate::scalar::SIGN_BIT < crate::scalar::INFINITY_BITS,
{
    if attempt is Finished {
        crate::scalar::law_finite_means_every_one(attempt->x@);
    }
}

/// The weights that the solver gets are the mean of the two entries that face each
/// other, within 2^-29 below 2^20, and a little more on the diagonal.
pub proof fn law_conditioned_weights_are_means(h: Seq<Seq<Scalar>>, i: int, j: int)
    requires
        h[i][j].finite(),
        h[j][i].finite(),
        -pow2(1094) <= h[i][j].units() <= pow2(1094),
        -pow2(1094) <= h[j][i].units() <= pow2(1094),
    ensures
        ({
            let c = conditioned_entry(h, i, j).units();
            let both = h[i][j].units() + h[j][i].units();
            let lifted = 2 * (Scalar { bits: DIAGONAL_BOOST }).units();
            &&& i != j ==> -pow2(1046) <= 2 * c - both <= pow2(1046)
            &&& i == j ==> -pow2(1046) <= 2 * c - both - lifted <= pow2(1046)
        }),
{
    let one = pow2(1074) as int;
    lemma_powers();
    vstd::arithmetic::power2::lemma2_to64();
    vstd::arithmetic::power2::lemma2_to64_rest();
    lemma_pow2_pos(1074);
    lemma_pow2_pos(1043);
    lemma_pow2_adds(2, 1094);
    lemma_pow2_adds(22, 1074);
    lemma_pow2_adds(20, 1074);
    lemma_pow2_adds(31, 1043);
    lemma_pow2_adds(3, 1043);
    let (a, b) = (h[i][j], h[j][i]);
    law_sum_is_nearly_exact(a, b, 1043);
    let s = a.plus(b);
    let half = Scalar { bits: HALF };
    let range = crate::scalar::FRACTION_RANGE as int;
    lemma_composed(1021, range);
    assert((1021 * range + range) as u64 == HALF);
    lemma_pow2_adds(52, 1021);
    lemma_pow2_adds(1, 1073);
    assert(2 * half.units() == one && half.finite());
    let (su, hu, tiny) = (s.units(), half.units(), pow2(1043) as int);
    assert(-((0x40_0000 * one) * one) < su * hu < (0x40_0000 * one) * one) by (nonlinear_arith)
        requires
            -(0x30_0000 * one) <= su <= 0x30_0000 * one,
            2 * hu == one,
            one > 0,
    ;
    law_product_is_nearly_exact(s, half, 1043);
    let m = s.times(half);
    let mu = m.units();
    assert(-(2 * tiny) <= 2 * (2 * mu - su) <= 2 * tiny) by (nonlinear_arith)
        requires
            -(tiny * one) <= 2 * (mu * one - su * hu) <= tiny * one,
            2 * hu == one,
            one > 0,
    ;
    if i == j {
        let boost = Scalar { bits: DIAGONAL_BOOST };
        lemma_composed(1022, range);
        lemma_pow2_adds(52, 1022);
        assert((1022 * range + range) as u64 == ONE);
        assert(crate::scalar::magnitude_units(0) == 0);
        crate::scalar::lemma_magnitude_order(0, DIAGONAL_BOOST);
        crate::scalar::lemma_magnitude_order(DIAGONAL_BOOST, ONE);
        law_sum_is_nearly_exact(m, boost, 1043);
    }
}

} // verus!
