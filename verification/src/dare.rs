//! The Riccati recursion behind the linear-quadratic gains, iterated until it
//! settles.
//!
//! Each turn of the recursion is computed from the cost-to-go `p`; this module
//! decides what a turn means: whether the recursion goes on, has settled, has
//! used up its turns, or cannot go on.

use crate::matrix::Matrix;
use crate::scalar::Scalar;
use vstd::prelude::*;

verus! {

/// The outcome of a recursion.
#[derive(Debug)]
pub struct DareResult {
    /// The cost-to-go.
    pub p: Matrix,
    /// The gain.
    pub k: Matrix,
    /// Turns taken.
    pub iterations: usize,
    /// Whether the last turn changed the cost-to-go by less than the tolerance.
    /// If not, the result is the best that the turns allowed.
    pub settled: bool,
}

/// A matrix that the recursion inverts was singular.
#[derive(Debug, Clone, Copy, PartialEq, Eq, Structural)]
pub struct DareError;

/// What one turn computes from the cost-to-go.
#[derive(Debug)]
pub struct Turn {
    /// The gain for the cost-to-go before the turn.
    pub k: Matrix,
    /// The cost-to-go after the turn.
    pub p_next: Matrix,
    /// The norm of the change of the cost-to-go.
    pub diff: Scalar,
}

/// A recursion under way.
#[derive(Debug)]
pub struct Recursion {
    pub p: Matrix,
    /// Turns taken.
    pub taken: usize,
    pub max_iter: usize,
    pub tol: Scalar,
}

/// What follows a turn.
#[derive(Debug)]
pub enum Progress {
    /// Take another turn.
    Running { next: Recursion },
    /// The recursion is over.
    Done { result: Result<DareResult, DareError> },
}

impl Recursion {
    /// No more turns are taken than allowed.
    pub open spec fn wf(&self) -> bool {
        self.taken <= self.max_iter
    }

    /// Starts from the state weights `q`.
    pub fn start(q: Matrix, tol: Scalar, max_iter: usize) -> (res: Recursion)
        ensures
            res.wf(),
            res.p == q,
            res.taken == 0,
            res.max_iter == max_iter,
            res.tol == tol,
    {
        Recursion { p: q, taken: 0, max_iter, tol }
    }

    /// What follows `turn`, which is absent when a matrix was singular.
    ///
    /// A turn that changes the cost-to-go by less than the tolerance ends the
    /// recursion. After the last turn the gain is computed once more, for the
    /// cost-to-go that was reached, and returned with it.
    pub fn advance(self, turn: Option<Turn>) -> (progress: Progress)
        requires
            self.wf(),
        ensures
            match turn {
                None => progress == (Progress::Done { result: Err(DareError) }),
                Some(t) => if self.taken == self.max_iter {
                    progress == (Progress::Done {
                        result: Ok(
                            DareResult {
                                p: self.p,
                                k: t.k,
                                iterations: self.max_iter,
                                settled: false,
                            },
                        ),
                    })
                } else if t.diff.lt(self.tol) {
                    progress == (Progress::Done {
                        result: Ok(
                            DareResult {
                                p: t.p_next,
                                k: t.k,
                                iterations: (self.taken + 1) as usize,
                                settled: true,
                            },
                        ),
                    })
                } else {
                    progress == (Progress::Running {
                        next: Recursion {
                            p: t.p_next,
                            taken: (self.taken + 1) as usize,
                            max_iter: self.max_iter,
                            tol: self.tol,
                        },
                    }) && progress->next.wf()
                },
            },
    {
        match turn {
            None => Progress::Done { result: Err(DareError) },
            Some(t) => {
                if self.taken == self.max_iter {
                    Progress::Done {
                        result: Ok(
                            DareResult {
                                p: self.p,
                                k: t.k,
                                iterations: self.max_iter,
                                settled: false,
                            },
                        ),
                    }
                } else if t.diff.less(self.tol) {
                    Progress::Done {
                        result: Ok(
                            DareResult {
                                p: t.p_next,
                                k: t.k,
                                iterations: self.taken + 1,
                                settled: true,
                            },
                        ),
                    }
                } else {
                    Progress::Running {
                        next: Recursion {
                            p: t.p_next,
                            taken: self.taken + 1,
                            max_iter: self.max_iter,
                            tol: self.tol,
                        },
                    }
                }
            },
        }
    }
}

} // verus!
