//! The plant model of the linear-quadratic controller with integral action.
//!
//! Its operating point never changes, so its matrices are constants. The
//! geometry behind them is not the one of [`crate::mpc_model`].

use crate::binary64::{law_exact_product, lemma_composed, lemma_powers};
use crate::matrix::{grid, Matrix, ONE, ZERO};
use crate::scalar::{magnitude_units, Scalar, FRACTION_RANGE};
use vstd::arithmetic::power2::{lemma_pow2_adds, pow2};
use vstd::prelude::*;

verus! {

/// What a torque adds to its angle in one step, as bits.
pub const TORQUE_TO_ANGLE: u64 = 0x3FD1_5092_78F3_1DCD;

/// What a torque adds to its rate in one step, as bits.
pub const TORQUE_TO_RATE: u64 = 0x3FE1_5092_78F3_1DCD;

/// What the yaw torque adds to the yaw rate in one step, as bits.
pub const TORQUE_TO_YAW_RATE: u64 = 0x3FD5_5E13_BDD5_FC2F;

/// The entry at `(i, j)` of the state matrix: each state keeps its value, and a
/// rate adds to its angle.
pub open spec fn ad_op_entry(i: int, j: int) -> Scalar {
    Scalar {
        bits: if j == i || (i < 2 && j == i + 2) {
            ONE
        } else {
            ZERO
        },
    }
}

/// The entry at `(i, j)` of the input matrix.
pub open spec fn bd_op_entry(i: int, j: int) -> Scalar {
    Scalar {
        bits: if i < 2 && j == i {
            TORQUE_TO_ANGLE
        } else if 2 <= i < 4 && j == i - 2 {
            TORQUE_TO_RATE
        } else if i == 4 && j == 2 {
            TORQUE_TO_YAW_RATE
        } else {
            ZERO
        },
    }
}

/// The entry at `(i, j)` of the tracking output, which picks roll and pitch.
pub open spec fn cz_entry(i: int, j: int) -> Scalar {
    Scalar {
        bits: if j == i {
            ONE
        } else {
            ZERO
        },
    }
}

/// The entry at `(i, j)` of the augmented state matrix: the plant, and below it
/// the integrated tracking errors.
pub open spec fn augmented_ad_entry(ts: Scalar, i: int, j: int) -> Scalar {
    if i < 5 && j < 5 {
        ad_op_entry(i, j)
    } else if i >= 5 && j < 5 {
        cz_entry(i - 5, j).times(ts)
    } else {
        Scalar {
            bits: if i == j {
                ONE
            } else {
                ZERO
            },
        }
    }
}

/// The entry at `(i, j)` of the augmented input matrix.
pub open spec fn augmented_bd_entry(i: int, j: int) -> Scalar {
    if i < 5 {
        bd_op_entry(i, j)
    } else {
        Scalar { bits: ZERO }
    }
}

fn ad_op_at(i: usize, j: usize) -> (x: Scalar)
    ensures
        x == ad_op_entry(i as int, j as int),
{
    if j == i || (i < 2 && j == i + 2) {
        Scalar { bits: ONE }
    } else {
        Scalar { bits: ZERO }
    }
}

fn bd_op_at(i: usize, j: usize) -> (x: Scalar)
    ensures
        x == bd_op_entry(i as int, j as int),
{
    if i < 2 && j == i {
        Scalar { bits: TORQUE_TO_ANGLE }
    } else if i >= 2 && i < 4 && j == i - 2 {
        Scalar { bits: TORQUE_TO_RATE }
    } else if i == 4 && j == 2 {
        Scalar { bits: TORQUE_TO_YAW_RATE }
    } else {
        Scalar { bits: ZERO }
    }
}

fn cz_at(i: usize, j: usize) -> (x: Scalar)
    ensures
        x == cz_entry(i as int, j as int),
{
    if j == i {
        Scalar { bits: ONE }
    } else {
        Scalar { bits: ZERO }
    }
}

fn augmented_bd_at(i: usize, j: usize) -> (x: Scalar)
    ensures
        x == augmented_bd_entry(i as int, j as int),
{
    if i < 5 {
        bd_op_at(i, j)
    } else {
        Scalar { bits: ZERO }
    }
}

/// The state matrix.
pub fn ad_op() -> (res: Matrix)
    ensures
        res.is_grid(5, 5, |i: int, j: int| ad_op_entry(i, j)),
{
    let res = Matrix::generate(5, 5, ad_op_at);
    assert(res@ =~~= grid(5, 5, |i: int, j: int| ad_op_entry(i, j)));
    res
}

/// The input matrix: three torques.
pub fn bd_op() -> (res: Matrix)
    ensures
        res.is_grid(5, 3, |i: int, j: int| bd_op_entry(i, j)),
{
    let res = Matrix::generate(5, 3, bd_op_at);
    assert(res@ =~~= grid(5, 3, |i: int, j: int| bd_op_entry(i, j)));
    res
}

/// The tracking output.
pub fn cz() -> (res: Matrix)
    ensures
        res.is_grid(2, 5, |i: int, j: int| cz_entry(i, j)),
{
    let res = Matrix::generate(2, 5, cz_at);
    assert(res@ =~~= grid(2, 5, |i: int, j: int| cz_entry(i, j)));
    res
}

/// Augments the plant with the tracking errors, integrated over steps of `ts`
/// seconds.
pub fn build_augmented(ts: Scalar) -> (res: (Matrix, Matrix))
    ensures
        res.0.is_grid(7, 7, |i: int, j: int| augmented_ad_entry(ts, i, j)),
        res.1.is_grid(7, 3, |i: int, j: int| augmented_bd_entry(i, j)),
{
    let ad_at = |i: usize, j: usize| -> (x: Scalar)
        requires
            i < 7,
            j < 7,
        ensures
            x == augmented_ad_entry(ts, i as int, j as int),
        {
            if i < 5 && j < 5 {
                ad_op_at(i, j)
            } else if i >= 5 && j < 5 {
                cz_at(i - 5, j).mul(ts)
            } else if i == j {
                Scalar { bits: ONE }
            } else {
                Scalar { bits: ZERO }
            }
        };
    let ad = Matrix::generate(7, 7, ad_at);
    let bd = Matrix::generate(7, 3, augmented_bd_at);
    assert(ad@ =~~= grid(7, 7, |i: int, j: int| augmented_ad_entry(ts, i, j)));
    assert(bd@ =~~= grid(7, 3, |i: int, j: int| augmented_bd_entry(i, j)));
    (ad, bd)
}

/// The integrated errors act on nothing but themselves, and no torque acts on
/// them directly.
pub proof fn law_integrators_only_accumulate(ts: Scalar, i: int, j: int)
    requires
        0 <= i < 7,
        5 <= j < 7,
    ensures
        augmented_ad_entry(ts, i, j).bits == if i == j {
            ONE
        } else {
            ZERO
        },
        forall|k: int| 0 <= k < 3 ==> (#[trigger] augmented_bd_entry(j, k)).bits == ZERO,
{
}

/// What one step of the plant does: each angle takes its rate and its own torque, each
/// rate its own torque, and the yaw rate the third one; nothing else acts on them. Each
/// integral takes its own angle times the step.
pub proof fn law_plant_steps(ts: Scalar, i: int, j: int, k: int)
    requires
        0 <= i < 5,
        0 <= j < 5,
        0 <= k < 3,
        ts.finite(),
    ensures
        ({
            let one = (Scalar { bits: ONE }).units();
            let a = augmented_ad_entry(ts, i, j).units();
            let b = augmented_bd_entry(i, k);
            let e = augmented_ad_entry(ts, 5 + i % 2, j).units();
            &&& a == if i == j || i == 0 && j == 2 || i == 1 && j == 3 {
                one
            } else {
                0
            }
            &&& i == 0 && k == 0 || i == 1 && k == 1 ==> b.bits == TORQUE_TO_ANGLE
            &&& i == 2 && k == 0 || i == 3 && k == 1 ==> b.bits == TORQUE_TO_RATE
            &&& i == 4 && k == 2 ==> b.bits == TORQUE_TO_YAW_RATE
            &&& !(i == 0 && k == 0 || i == 1 && k == 1 || i == 2 && k == 0 || i == 3 && k == 1 || i
                == 4 && k == 2) ==> b.bits == 0
            &&& e == if j == i % 2 {
                ts.units()
            } else {
                0
            }
        }),
{
    let zero = Scalar { bits: ZERO };
    let unit = Scalar { bits: ONE };
    assert(magnitude_units(0) == 0);
    lemma_one_is_one();
    let (tu, one) = (ts.units(), pow2(1074) as int);
    assert(0 * one == 0 && 0 * tu == 0 && tu * one == one * tu) by (nonlinear_arith);
    law_exact_product(zero, ts, zero);
    law_exact_product(unit, ts, ts);
}

proof fn lemma_one_is_one()
    ensures
        (Scalar { bits: ONE }).units() == pow2(1074),
{
    let range = FRACTION_RANGE as int;
    lemma_powers();
    lemma_composed(1022, range);
    assert((1022 * range + range) as u64 == ONE);
    lemma_pow2_adds(52, 1022);
}

} // verus!
