//! Condensed prediction matrices of the model-predictive controller.
//!
//! The plant is `x' = Ad x + Bd u + Gd ref` with `n` states, `m` inputs and `p`
//! references. Over a horizon of `N` steps the stacked states are
//! `Omega x0 + Gamma U + Phi R`. The products of the plant matrices are handed
//! in; this module lays them out.

use crate::matrix::{grid, identity_entry, Matrix, ZERO};
use crate::scalar::Scalar;
use vstd::arithmetic::div_mod::{lemma_fundamental_div_mod, lemma_fundamental_div_mod_converse};
use vstd::prelude::*;

verus! {

/// The products that the prediction matrices are made of.
#[derive(Debug)]
pub struct PlantPowers {
    /// `Ad^k` for `k` in `0..=N`.
    pub powers: Vec<Matrix>,
    /// `Ad^k Bd` for `k` in `0..N`.
    pub forced: Vec<Matrix>,
    /// `Ad^k Gd` for `k` in `0..N`.
    pub referenced: Vec<Matrix>,
}

/// `blocks` has `count` matrices, each of the given shape.
pub open spec fn all_shaped(blocks: Seq<Matrix>, count: int, rows: int, cols: int) -> bool {
    &&& blocks.len() == count
    &&& forall|k: int| 0 <= k < count ==> (#[trigger] blocks[k]).is_shape(rows, cols)
}

impl PlantPowers {
    /// The products have the shapes that `n` states, `m` inputs and `p`
    /// references ask for.
    pub open spec fn fits(&self, n: int, m: int, p: int, horizon: int) -> bool {
        &&& all_shaped(self.powers@, horizon + 1, n, n)
        &&& all_shaped(self.forced@, horizon, n, m)
        &&& all_shaped(self.referenced@, horizon, n, p)
    }
}

/// The prediction matrices of one solve.
#[derive(Debug)]
pub struct BatchMats {
    pub n: usize,
    pub m: usize,
    pub horizon: usize,
    /// Free response: `Ad^1` to `Ad^N`, stacked.
    pub omega: Matrix,
    /// Forced response to the inputs: block Toeplitz in `Ad^k Bd`.
    pub gamma: Matrix,
    /// Response to the references: block Toeplitz in `Ad^k Gd`.
    pub phi: Matrix,
    /// The reference, repeated for each step.
    pub r_stack: Vec<Scalar>,
    /// First-difference operator on the inputs.
    pub d: Matrix,
    /// The previous input followed by zeros.
    pub d0: Vec<Scalar>,
}

/// The entry at `(i, j)` of `blocks[1]`, `blocks[2]`, ... on top of each other,
/// each with `rows` rows.
pub open spec fn stacked_entry(blocks: Seq<Matrix>, rows: int, i: int, j: int) -> Scalar {
    blocks[i / rows + 1]@[i % rows][j]
}

/// The entry at `(i, j)` of the block lower triangular Toeplitz matrix whose
/// block at block row `a` and block column `b <= a` is `blocks[a - b]`.
pub open spec fn toeplitz_entry(
    blocks: Seq<Matrix>,
    rows: int,
    cols: int,
    i: int,
    j: int,
) -> Scalar {
    if j / cols <= i / rows {
        blocks[i / rows - j / cols]@[i % rows][j % cols]
    } else {
        Scalar { bits: ZERO }
    }
}

/// The entry at `(i, j)` of the first-difference operator on inputs of size
/// `m`: identity blocks on the diagonal, negated ones below it.
pub open spec fn difference_entry(m: int, i: int, j: int) -> Scalar {
    if i / m == j / m {
        identity_entry(i % m, j % m)
    } else if i / m == j / m + 1 {
        identity_entry(i % m, j % m).negated()
    } else {
        Scalar { bits: ZERO }
    }
}

/// `v` repeated `count` times.
pub open spec fn repeated(v: Seq<Scalar>, count: nat) -> Seq<Scalar> {
    Seq::new(v.len() * count, |i: int| v[i % (v.len() as int)])
}

/// `v` followed by zeros up to the length `len`.
pub open spec fn zero_padded(v: Seq<Scalar>, len: nat) -> Seq<Scalar> {
    Seq::new(
        len,
        |i: int|
            if i < v.len() {
                v[i]
            } else {
                Scalar { bits: ZERO }
            },
    )
}

/// Index `i` of `count` blocks of `size` falls into one of them.
pub proof fn lemma_block_index(i: int, size: int, count: int)
    requires
        0 <= i < size * count,
        0 <= size,
        0 <= count,
    ensures
        size > 0,
        0 <= i / size < count,
        0 <= i % size < size,
{
    assert(size > 0) by (nonlinear_arith)
        requires
            0 <= i < size * count,
            0 <= size,
            0 <= count,
    ;
    assert(0 <= i / size < count && 0 <= i % size < size) by (nonlinear_arith)
        requires
            0 <= i < size * count,
            0 < size,
            0 <= count,
    ;
}

/// The block lower triangular Toeplitz matrix of `count` blocks each way.
pub fn block_toeplitz(blocks: &Vec<Matrix>, rows: usize, cols: usize, count: usize) -> (res: Matrix)
    requires
        all_shaped(blocks@, count as int, rows as int, cols as int),
        rows * count <= usize::MAX,
        cols * count <= usize::MAX,
    ensures
        res.is_grid(
            rows * count,
            cols * count,
            |i: int, j: int| toeplitz_entry(blocks@, rows as int, cols as int, i, j),
        ),
{
    let entry = |i: usize, j: usize| -> (x: Scalar)
        requires
            i < rows * count,
            j < cols * count,
        ensures
            x == toeplitz_entry(blocks@, rows as int, cols as int, i as int, j as int),
        {
            proof {
                lemma_block_index(i as int, rows as int, count as int);
                lemma_block_index(j as int, cols as int, count as int);
            }
            let a: usize = i / rows;
            let b: usize = j / cols;
            if b <= a {
                blocks[a - b].get(i % rows, j % cols)
            } else {
                Scalar { bits: ZERO }
            }
        };
    let res = Matrix::generate(rows * count, cols * count, entry);
    assert(res@ =~~= grid(
        (rows * count) as nat,
        (cols * count) as nat,
        |i: int, j: int| toeplitz_entry(blocks@, rows as int, cols as int, i, j),
    ));
    res
}

/// `blocks[1]` to `blocks[count]` on top of each other.
pub fn stack_powers(blocks: &Vec<Matrix>, n: usize, count: usize) -> (res: Matrix)
    requires
        all_shaped(blocks@, count + 1, n as int, n as int),
        n * count <= usize::MAX,
    ensures
        res.is_grid(
            n * count,
            n as int,
            |i: int, j: int| stacked_entry(blocks@, n as int, i, j),
        ),
{
    let entry = |i: usize, j: usize| -> (x: Scalar)
        requires
            i < n * count,
            j < n,
        ensures
            x == stacked_entry(blocks@, n as int, i as int, j as int),
        {
            proof {
                lemma_block_index(i as int, n as int, count as int);
            }
            blocks[i / n + 1].get(i % n, j)
        };
    let res = Matrix::generate(n * count, n, entry);
    assert(res@ =~~= grid(
        (n * count) as nat,
        n as nat,
        |i: int, j: int| stacked_entry(blocks@, n as int, i, j),
    ));
    res
}

/// The first-difference operator on `count` inputs of size `m`.
pub fn difference_operator(m: usize, count: usize) -> (res: Matrix)
    requires
        m * count <= usize::MAX,
    ensures
        res.is_grid(m * count, m * count, |i: int, j: int| difference_entry(m as int, i, j)),
{
    let one = Matrix::identity(m);
    let entry = |i: usize, j: usize| -> (x: Scalar)
        requires
            i < m * count,
            j < m * count,
        ensures
            x == difference_entry(m as int, i as int, j as int),
        {
            proof {
                lemma_block_index(i as int, m as int, count as int);
                lemma_block_index(j as int, m as int, count as int);
            }
            let a: usize = i / m;
            let b: usize = j / m;
            if a == b {
                one.get(i % m, j % m)
            } else if a > b && a - b == 1 {
                one.get(i % m, j % m).neg()
            } else {
                Scalar { bits: ZERO }
            }
        };
    let res = Matrix::generate(m * count, m * count, entry);
    assert(res@ =~~= grid(
        (m * count) as nat,
        (m * count) as nat,
        |i: int, j: int| difference_entry(m as int, i, j),
    ));
    res
}

/// `v` repeated `count` times.
pub fn kron_ones(count: usize, v: &[Scalar]) -> (res: Vec<Scalar>)
    requires
        v@.len() * count <= usize::MAX,
    ensures
        res@ == repeated(v@, count as nat),
{
    let total: usize = v.len() * count;
    let mut res: Vec<Scalar> = Vec::new();
    let mut i: usize = 0;
    while i < total
        invariant
            i <= total,
            total == v@.len() * count,
            res@ == repeated(v@, count as nat).take(i as int),
        decreases total - i,
    {
        proof {
            lemma_block_index(i as int, v@.len() as int, count as int);
        }
        res.push(v[i % v.len()]);
        i = i + 1;
    }
    assert(repeated(v@, count as nat).take(total as int) =~= repeated(v@, count as nat));
    res
}

/// `v` followed by zeros up to the length `len`.
pub fn pad_with_zeros(v: &[Scalar], len: usize) -> (res: Vec<Scalar>)
    requires
        v@.len() <= len,
    ensures
        res@ == zero_padded(v@, len as nat),
{
    let mut res: Vec<Scalar> = Vec::new();
    let mut i: usize = 0;
    while i < len
        invariant
            i <= len,
            res@ == zero_padded(v@, len as nat).take(i as int),
        decreases len - i,
    {
        if i < v.len() {
            res.push(v[i]);
        } else {
            res.push(Scalar { bits: ZERO });
        }
        i = i + 1;
    }
    assert(zero_padded(v@, len as nat).take(len as int) =~= zero_padded(v@, len as nat));
    res
}

impl BatchMats {
    /// These are the prediction matrices of a plant with the products `plant`,
    /// for the reference `reference` and after the input `u_prev`.
    pub open spec fn predicts(
        &self,
        plant: PlantPowers,
        horizon: int,
        reference: Seq<Scalar>,
        u_prev: Seq<Scalar>,
    ) -> bool {
        let n = self.n as int;
        let m = self.m as int;
        let p = reference.len() as int;
        &&& self.horizon == horizon
        &&& self.m == u_prev.len()
        &&& self.omega.is_grid(
            n * horizon,
            n,
            |i: int, j: int| stacked_entry(plant.powers@, n, i, j),
        )
        &&& self.gamma.is_grid(
            n * horizon,
            m * horizon,
            |i: int, j: int| toeplitz_entry(plant.forced@, n, m, i, j),
        )
        &&& self.phi.is_grid(
            n * horizon,
            p * horizon,
            |i: int, j: int| toeplitz_entry(plant.referenced@, n, p, i, j),
        )
        &&& self.r_stack@ == repeated(reference, horizon as nat)
        &&& self.d.is_grid(m * horizon, m * horizon, |i: int, j: int| difference_entry(m, i, j))
        &&& self.d0@ == zero_padded(u_prev, (m * horizon) as nat)
    }
}

/// Lays out the prediction matrices of a plant with `n` states.
pub fn build(
    plant: &PlantPowers,
    n: usize,
    horizon: usize,
    reference: &[Scalar],
    u_prev: &[Scalar],
) -> (mats: BatchMats)
    requires
        plant.fits(n as int, u_prev@.len() as int, reference@.len() as int, horizon as int),
        horizon >= 1,
        n * horizon <= usize::MAX,
        u_prev@.len() * horizon <= usize::MAX,
        reference@.len() * horizon <= usize::MAX,
    ensures
        mats.n == n,
        mats.predicts(*plant, horizon as int, reference@, u_prev@),
{
    let m: usize = u_prev.len();
    let p: usize = reference.len();
    proof {
        assert(m <= m * horizon) by (nonlinear_arith)
            requires
                horizon >= 1,
        ;
    }
    BatchMats {
        n,
        m,
        horizon,
        omega: stack_powers(&plant.powers, n, horizon),
        gamma: block_toeplitz(&plant.forced, n, m, horizon),
        phi: block_toeplitz(&plant.referenced, n, p, horizon),
        r_stack: kron_ones(horizon, reference),
        d: difference_operator(m, horizon),
        d0: pad_with_zeros(u_prev, m * horizon),
    }
}

/// Adding one block moves to the next block at the same place.
proof fn lemma_next_block(i: int, size: int)
    requires
        0 <= i,
        size > 0,
    ensures
        (i + size) / size == i / size + 1,
        (i + size) % size == i % size,
{
    lemma_fundamental_div_mod(i, size);
    assert(i + size == (i / size + 1) * size + i % size) by (nonlinear_arith)
        requires
            i == size * (i / size) + i % size,
    ;
    lemma_fundamental_div_mod_converse(i + size, size, i / size + 1, i % size);
}

/// Causality: the states of a step do not depend on the input or the reference
/// of a later step.
pub proof fn law_prediction_is_causal(
    mats: BatchMats,
    plant: PlantPowers,
    horizon: int,
    reference: Seq<Scalar>,
    u_prev: Seq<Scalar>,
    i: int,
    j: int,
)
    requires
        mats.predicts(plant, horizon, reference, u_prev),
        0 <= i < mats.n * horizon,
    ensures
        0 <= j < mats.m * horizon && j / (mats.m as int) > i / (mats.n as int)
            ==> mats.gamma@[i][j].bits == ZERO,
        0 <= j < reference.len() * horizon && j / (reference.len() as int) > i / (mats.n as int)
            ==> mats.phi@[i][j].bits == ZERO,
{
}

/// Time invariance: an input acts on the states some steps later in the same
/// way at every step of the horizon.
pub proof fn law_prediction_is_time_invariant(
    mats: BatchMats,
    plant: PlantPowers,
    horizon: int,
    reference: Seq<Scalar>,
    u_prev: Seq<Scalar>,
    i: int,
    j: int,
)
    requires
        mats.predicts(plant, horizon, reference, u_prev),
        0 <= i,
        0 <= j,
        i + mats.n < mats.n * horizon,
        j + mats.m < mats.m * horizon,
    ensures
        mats.gamma@[i + mats.n][j + mats.m] == mats.gamma@[i][j],
{
    let n = mats.n as int;
    let m = mats.m as int;
    assert(n > 0 && m > 0) by (nonlinear_arith)
        requires
            0 <= i,
            0 <= j,
            i + n < n * horizon,
            j + m < m * horizon,
            0 <= n,
            0 <= m,
    ;
    lemma_next_block(i, n);
    lemma_next_block(j, m);
}

/// Over a horizon of one step the prediction is the plant itself.
pub proof fn law_horizon_one_is_one_step(
    mats: BatchMats,
    plant: PlantPowers,
    reference: Seq<Scalar>,
    u_prev: Seq<Scalar>,
)
    requires
        plant.fits(mats.n as int, mats.m as int, reference.len() as int, 1),
        mats.predicts(plant, 1, reference, u_prev),
    ensures
        mats.omega@ == plant.powers@[1]@,
        mats.gamma@ == plant.forced@[0]@,
        mats.phi@ == plant.referenced@[0]@,
        mats.r_stack@ == reference,
        mats.d0@ == u_prev,
{
    let n = mats.n as int;
    let m = mats.m as int;
    let p = reference.len() as int;
    assert forall|i: int, size: int| 0 <= i < size implies #[trigger] (i / size) == 0 && i % size
        == i by {
        lemma_fundamental_div_mod_converse(i, size, 0, i);
    }
    assert(plant.powers@[1].is_shape(n, n));
    assert(plant.forced@[0].is_shape(n, m));
    assert(plant.referenced@[0].is_shape(n, p));
    assert(mats.omega@ =~~= plant.powers@[1]@);
    assert(mats.gamma@ =~~= plant.forced@[0]@);
    assert(mats.phi@ =~~= plant.referenced@[0]@);
    assert forall|i: int| 0 <= i < p implies #[trigger] mats.r_stack@[i] == reference[i] by {
        assert(i / p == 0);
    }
    assert(mats.r_stack@ =~= reference);
    assert(mats.d0@ =~= u_prev);
}

/// The difference operator takes each input minus the one before it: one on the
/// diagonal, minus one a whole input below it, and zeros elsewhere.
pub proof fn law_difference_is_bidiagonal(m: int, i: int, j: int)
    requires
        m > 0,
        0 <= i,
        0 <= j,
    ensures
        i == j ==> difference_entry(m, i, j) == identity_entry(0, 0),
        i == j + m ==> difference_entry(m, i, j) == identity_entry(0, 0).negated(),
        i != j && i != j + m ==> difference_entry(m, i, j).units() == 0,
{
    lemma_next_block(j, m);
    lemma_fundamental_div_mod(i, m);
    lemma_fundamental_div_mod(j, m);
    assert(m * (j / m + 1) == m * (j / m) + m) by (nonlinear_arith);
    assert(crate::scalar::magnitude_units(0) == 0);
}

} // verus!
