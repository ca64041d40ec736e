//! From a torque to mass positions, for the linear-quadratic loop: what torque each
//! mass exerts, the constraints of the quadratic program that allocates it, and which answer is
//! used.

use crate::commands::MassSolver;
use crate::matrix::{grid, row_contents, Matrix, ONE, ZERO};
use crate::mpc_solve::{
    assemble_constraints, negated_all, unit_rows, Attempt, ConstraintRows, ExtraConstraints,
    MINUS_ONE,
};
use crate::rail::PerAxis;
use crate::scalar::{is_all_finite, Scalar};
use vstd::prelude::*;

verus! {

/// The row that sums the four positions.
pub open spec fn sum_row() -> Seq<Scalar> {
    Seq::new(4, |j: int| Scalar { bits: ONE })
}

fn one_at(i: usize, j: usize) -> (x: Scalar)
    ensures
        x.bits == ONE,
{
    Scalar { bits: ONE }
}

/// The torque about axis `i`, per metre, that a mass exerts on the rail whose
/// direction is row `k` of `c`, under the gravity `gb`: their cross product.
pub open spec fn torque_entry(c: Seq<Seq<Scalar>>, gb: [Scalar; 3], i: int, k: int) -> Scalar {
    let (a, b) = ((i + 1) % 3, (i + 2) % 3);
    c[k][a].times(gb[b]).minus(c[k][b].times(gb[a]))
}

/// The torque that each mass exerts, per metre, for the directions `c` of the
/// rails and the gravity `gb`.
pub fn build_a(c: &Matrix, gb: [Scalar; 3]) -> (res: Matrix)
    requires
        c.is_shape(4, 3),
    ensures
        res.is_grid(3, 4, |i: int, k: int| torque_entry(c@, gb, i, k)),
{
    let entry = |i: usize, k: usize| -> (x: Scalar)
        requires
            i < 3,
            k < 4,
        ensures
            x == torque_entry(c@, gb, i as int, k as int),
        {
            let (a, b): (usize, usize) = ((i + 1) % 3, (i + 2) % 3);
            c.get(k, a).mul(gb[b]).sub(c.get(k, b).mul(gb[a]))
        };
    let res = Matrix::generate(3, 4, entry);
    assert(res@ =~~= grid(3, 4, |i: int, k: int| torque_entry(c@, gb, i, k)));
    res
}

/// The constraints of an allocation: the positions sum to zero, and each lies
/// between its bounds.
pub fn allocation_constraints(lb: PerAxis, ub: PerAxis) -> (res: ConstraintRows)
    ensures
        row_contents(res.rows@) == seq![sum_row()] + unit_rows(4, ONE) + unit_rows(4, MINUS_ONE),
        res.bounds@ == seq![Scalar { bits: ZERO }] + ub@ + negated_all(lb@),
        res.n_eq == 1,
        res.n_ineq == 8,
{
    let ones = Matrix::generate(1, 4, one_at);
    assert(ones@ =~~= seq![sum_row()]);
    let mut zero: Vec<Scalar> = Vec::new();
    zero.push(Scalar { bits: ZERO });
    let extra = ExtraConstraints { a_ineq: None, b_ineq: None, a_eq: Some(ones), b_eq: Some(zero) };
    assert(zero@.take(1) =~= seq![Scalar { bits: ZERO }]);
    let res = assemble_constraints(&extra, lb.as_slice(), ub.as_slice());
    assert(row_contents(res.rows@) =~= seq![sum_row()] + unit_rows(4, ONE) + unit_rows(
        4,
        MINUS_ONE,
    ));
    assert(res.bounds@ =~= seq![Scalar { bits: ZERO }] + ub@ + negated_all(lb@));
    res
}

/// The positions of an attempt to solve the program, if they are usable.
pub fn accept_allocation(attempt: Attempt) -> (res: Option<PerAxis>)
    requires
        attempt.usable() ==> attempt->x@.len() == 4,
    ensures
        res is Some <==> attempt.usable(),
        res is Some ==> res->0@ == attempt->x@,
{
    if let Attempt::Finished { solved, x } = attempt {
        if solved && is_all_finite(x.as_slice()) {
            let d: PerAxis = [x[0], x[1], x[2], x[3]];
            assert(d@ =~= x@);
            return Some(d);
        }
    }
    None
}

/// The positions to use: those of the program when it is asked for and has an
/// answer, those of the pseudo-inverse otherwise.
pub open spec fn allocated(solver: MassSolver, qp: Option<PerAxis>, pinv: PerAxis) -> PerAxis {
    if solver == MassSolver::Qp && qp is Some {
        qp->0
    } else {
        pinv
    }
}

/// The positions to use: see [`allocated`].
pub fn choose_allocation(solver: MassSolver, qp: Option<PerAxis>, pinv: PerAxis) -> (res: PerAxis)
    ensures
        res == allocated(solver, qp, pinv),
{
    match (solver, qp) {
        (MassSolver::Qp, Some(d)) => d,
        _ => pinv,
    }
}

/// The torque of a mass is the cross product of its rail's direction and gravity, axis
/// by axis: about x from y and z, about y from z and x, about z from x and y.
pub proof fn law_torque_is_cross_product(c: Seq<Seq<Scalar>>, gb: [Scalar; 3], k: int)
    ensures
        torque_entry(c, gb, 0, k) == c[k][1].times(gb[2]).minus(c[k][2].times(gb[1])),
        torque_entry(c, gb, 1, k) == c[k][2].times(gb[0]).minus(c[k][0].times(gb[2])),
        torque_entry(c, gb, 2, k) == c[k][0].times(gb[1]).minus(c[k][1].times(gb[0])),
{
}

/// The pseudo-inverse is used where it is chosen, and where the program has no answer;
/// the program's answer is used where it is chosen and there.
pub proof fn law_allocation_follows_choice(qp: PerAxis, pinv: PerAxis)
    ensures
        allocated(MassSolver::Pinv, Some(qp), pinv) == pinv,
        allocated(MassSolver::Pinv, None, pinv) == pinv,
        allocated(MassSolver::Qp, Some(qp), pinv) == qp,
        allocated(MassSolver::Qp, None, pinv) == pinv,
        sum_row().len() == 4,
        forall|j: int| 0 <= j < 4 ==> (#[trigger] sum_row()[j]).bits == 0x3FF0_0000_0000_0000,
{
}

} // verus!
