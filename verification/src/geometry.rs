//! The geometry of the rails and the coefficients of the linearized attitude.
//!
//! The state matrix of the attitude is affine: a base, plus one matrix for each
//! mass times its position, plus one for the z-offset of the centre of mass
//! times that offset. The matrix of the positions themselves is constant. The
//! attitude states are roll, pitch, and the rates about x, y and z.
//!
//! Rail `k` leans outward in x and y. Rails 0 and 1 lean towards negative x,
//! rails 0 and 3 towards negative y.

use crate::matrix::{grid, Matrix, ONE, ZERO};
use crate::scalar::{law_negation_reverses_value, Scalar};
use vstd::prelude::*;

verus! {

/// What gravity on the platform adds to a rate for its angle, as bits.
pub const A_GRAVITY: u64 = 0x3FED_6B91_9E58_8E8F;

/// What a mass adds to a rate for its angle, for each metre, as bits.
pub const A_MASS: u64 = 0xBFF2_633B_02F7_5919;

/// What a mass adds to the yaw rate for roll or pitch, for each metre, up to its
/// sign, as bits.
pub const A_YAW: u64 = 0x3FD2_870C_272A_A277;

/// What the z-offset of the centre of mass adds to a rate for its angle, for
/// each metre, as bits.
pub const A_OFFSET: u64 = 0xC057_9EED_C52A_FCF9;

/// What a mass adds to a rate, for each metre, up to its sign, as bits.
pub const E_MASS: u64 = 0x3FDE_06E0_0FC5_8CDE;

/// Rail `k` leans towards negative x.
pub open spec fn leans_back(k: int) -> bool {
    k == 0 || k == 1
}

/// Rail `k` leans towards negative y.
pub open spec fn leans_left(k: int) -> bool {
    k == 0 || k == 3
}

/// `x`, negated if asked for.
pub open spec fn signed(negative: bool, x: Scalar) -> Scalar {
    if negative {
        x.negated()
    } else {
        x
    }
}

/// Component `j` of the direction of rail `k`: `cxy` along x and y, `cz` along
/// z.
pub open spec fn direction_entry(cxy: Scalar, cz: Scalar, k: int, j: int) -> Scalar {
    if j == 0 {
        signed(leans_back(k), cxy)
    } else if j == 1 {
        signed(leans_left(k), cxy)
    } else {
        cz
    }
}

/// The entry at `(i, j)` of the base: each angle integrates its rate, and
/// gravity acts on each angle.
pub open spec fn base_entry(i: int, j: int) -> Scalar {
    Scalar {
        bits: if i < 2 && j == i + 2 {
            ONE
        } else if 2 <= i < 4 && j == i - 2 {
            A_GRAVITY
        } else {
            ZERO
        },
    }
}

/// The entry at `(i, j)` of the matrix of mass `k`.
pub open spec fn mass_entry(k: int, i: int, j: int) -> Scalar {
    if 2 <= i < 4 && j == i - 2 {
        Scalar { bits: A_MASS }
    } else if i == 4 && j == 0 {
        signed(leans_back(k), Scalar { bits: A_YAW })
    } else if i == 4 && j == 1 {
        signed(leans_left(k), Scalar { bits: A_YAW })
    } else {
        Scalar { bits: ZERO }
    }
}

/// The entry at `(i, j)` of the matrix of the z-offset.
pub open spec fn offset_entry(i: int, j: int) -> Scalar {
    Scalar {
        bits: if 2 <= i < 4 && j == i - 2 {
            A_OFFSET
        } else {
            ZERO
        },
    }
}

/// The entry at `(i, k)` of the matrix of the positions: mass `k` turns the
/// platform towards its own side.
pub open spec fn influence_entry(i: int, k: int) -> Scalar {
    if i == 2 {
        signed(!leans_left(k), Scalar { bits: E_MASS })
    } else if i == 3 {
        signed(leans_back(k), Scalar { bits: E_MASS })
    } else {
        Scalar { bits: ZERO }
    }
}

fn is_back(k: usize) -> (res: bool)
    ensures
        res == leans_back(k as int),
{
    k == 0 || k == 1
}

fn is_left(k: usize) -> (res: bool)
    ensures
        res == leans_left(k as int),
{
    k == 0 || k == 3
}

fn with_sign(negative: bool, x: Scalar) -> (res: Scalar)
    ensures
        res == signed(negative, x),
{
    if negative {
        x.neg()
    } else {
        x
    }
}

fn base_at(i: usize, j: usize) -> (x: Scalar)
    ensures
        x == base_entry(i as int, j as int),
{
    if i < 2 && j == i + 2 {
        Scalar { bits: ONE }
    } else if i >= 2 && i < 4 && j == i - 2 {
        Scalar { bits: A_GRAVITY }
    } else {
        Scalar { bits: ZERO }
    }
}

fn offset_at(i: usize, j: usize) -> (x: Scalar)
    ensures
        x == offset_entry(i as int, j as int),
{
    if i >= 2 && i < 4 && j == i - 2 {
        Scalar { bits: A_OFFSET }
    } else {
        Scalar { bits: ZERO }
    }
}

fn influence_at(i: usize, k: usize) -> (x: Scalar)
    ensures
        x == influence_entry(i as int, k as int),
{
    if i == 2 {
        with_sign(!is_left(k), Scalar { bits: E_MASS })
    } else if i == 3 {
        with_sign(is_back(k), Scalar { bits: E_MASS })
    } else {
        Scalar { bits: ZERO }
    }
}

/// The directions of the four rails, one in each row, with `cxy` along x and y
/// and `cz` along z.
pub fn c_vectors(cxy: Scalar, cz: Scalar) -> (res: Matrix)
    ensures
        res.is_grid(4, 3, |k: int, j: int| direction_entry(cxy, cz, k, j)),
{
    let entry = |k: usize, j: usize| -> (x: Scalar)
        ensures
            x == direction_entry(cxy, cz, k as int, j as int),
        {
            if j == 0 {
                with_sign(is_back(k), cxy)
            } else if j == 1 {
                with_sign(is_left(k), cxy)
            } else {
                cz
            }
        };
    let res = Matrix::generate(4, 3, entry);
    assert(res@ =~~= grid(4, 3, |k: int, j: int| direction_entry(cxy, cz, k, j)));
    res
}

/// The base of the state matrix.
pub fn attitude_base() -> (res: Matrix)
    ensures
        res.is_grid(5, 5, |i: int, j: int| base_entry(i, j)),
{
    let res = Matrix::generate(5, 5, base_at);
    assert(res@ =~~= grid(5, 5, |i: int, j: int| base_entry(i, j)));
    res
}

/// What each metre of mass `k` adds to the state matrix.
pub fn attitude_of_mass(k: usize) -> (res: Matrix)
    requires
        k < 4,
    ensures
        res.is_grid(5, 5, |i: int, j: int| mass_entry(k as int, i, j)),
{
    let entry = |i: usize, j: usize| -> (x: Scalar)
        ensures
            x == mass_entry(k as int, i as int, j as int),
        {
            if i >= 2 && i < 4 && j == i - 2 {
                Scalar { bits: A_MASS }
            } else if i == 4 && j == 0 {
                with_sign(is_back(k), Scalar { bits: A_YAW })
            } else if i == 4 && j == 1 {
                with_sign(is_left(k), Scalar { bits: A_YAW })
            } else {
                Scalar { bits: ZERO }
            }
        };
    let res = Matrix::generate(5, 5, entry);
    assert(res@ =~~= grid(5, 5, |i: int, j: int| mass_entry(k as int, i, j)));
    res
}

/// What each metre of z-offset adds to the state matrix.
pub fn attitude_of_offset() -> (res: Matrix)
    ensures
        res.is_grid(5, 5, |i: int, j: int| offset_entry(i, j)),
{
    let res = Matrix::generate(5, 5, offset_at);
    assert(res@ =~~= grid(5, 5, |i: int, j: int| offset_entry(i, j)));
    res
}

/// The matrix of the positions.
pub fn mass_influence() -> (res: Matrix)
    ensures
        res.is_grid(5, 4, |i: int, k: int| influence_entry(i, k)),
{
    let res = Matrix::generate(5, 4, influence_at);
    assert(res@ =~~= grid(5, 4, |i: int, k: int| influence_entry(i, k)));
    res
}

/// Masses on opposite rails act in opposite ways: their rails lean opposite
/// ways, and what they do to the roll and pitch rates, and to the yaw rate, is
/// the same up to the sign.
pub proof fn law_opposite_masses_mirror(cxy: Scalar, cz: Scalar, k: int, i: int, j: int)
    requires
        k == 0 || k == 1,
        i == 2 || i == 3,
        j == 0 || j == 1,
    ensures
        direction_entry(cxy, cz, k + 2, j) == direction_entry(cxy, cz, k, j).negated(),
        influence_entry(i, k + 2) == influence_entry(i, k).negated(),
        mass_entry(k + 2, 4, j) == mass_entry(k, 4, j).negated(),
{
    crate::scalar::law_negation_reverses_value(cxy);
    crate::scalar::law_negation_reverses_value(Scalar { bits: E_MASS });
    crate::scalar::law_negation_reverses_value(Scalar { bits: A_YAW });
}

/// Rail by rail: the rails 0 and 1 point towards negative x, the rails 2 and 3 towards
/// positive x; the rails 0 and 3 towards negative y, the rails 1 and 2 towards positive
/// y; and all point along z alike.
pub proof fn law_rails_lean_outwards(cxy: Scalar, cz: Scalar)
    ensures
        direction_entry(cxy, cz, 0, 0).units() == -cxy.units(),
        direction_entry(cxy, cz, 0, 1).units() == -cxy.units(),
        direction_entry(cxy, cz, 1, 0).units() == -cxy.units(),
        direction_entry(cxy, cz, 1, 1) == cxy,
        direction_entry(cxy, cz, 2, 0) == cxy,
        direction_entry(cxy, cz, 2, 1) == cxy,
        direction_entry(cxy, cz, 3, 0) == cxy,
        direction_entry(cxy, cz, 3, 1).units() == -cxy.units(),
        forall|k: int| #[trigger] direction_entry(cxy, cz, k, 2) == cz,
{
    law_negation_reverses_value(cxy);
}

/// What a metre of each mass adds to the rates: about x, the masses on negative y add
/// and those on positive y take away; about y, the masses on positive x add and those on
/// negative x take away; all by the same amount, and to nothing else.
pub proof fn law_masses_turn_towards_their_side(i: int, k: int)
    ensures
        influence_entry(2, 0).bits == 0x3FDE_06E0_0FC5_8CDE,
        influence_entry(2, 1).bits == 0xBFDE_06E0_0FC5_8CDE,
        influence_entry(2, 2).bits == 0xBFDE_06E0_0FC5_8CDE,
        influence_entry(2, 3).bits == 0x3FDE_06E0_0FC5_8CDE,
        influence_entry(3, 0).bits == 0xBFDE_06E0_0FC5_8CDE,
        influence_entry(3, 1).bits == 0xBFDE_06E0_0FC5_8CDE,
        influence_entry(3, 2).bits == 0x3FDE_06E0_0FC5_8CDE,
        influence_entry(3, 3).bits == 0x3FDE_06E0_0FC5_8CDE,
        i != 2 && i != 3 ==> influence_entry(i, k).bits == 0,
{
}

} // verus!
