//! The prediction matrices against the plant that they predict, one step at a
//! time.
//!
//! The matrices hold binary64 numbers, whose products are rounded. The laws here
//! speak of a reading of these numbers as integers under which the products that
//! were handed in are exact, as they are when the numbers are small integers in
//! a common unit. They say that the layout adds no error of its own.

use crate::batch_mats::{difference_entry, repeated, toeplitz_entry, BatchMats, PlantPowers};
use crate::matrix::{identity_entry, Matrix, ONE, ZERO};
use crate::scalar::Scalar;
use vstd::arithmetic::div_mod::lemma_fundamental_div_mod_converse;
use vstd::prelude::*;

verus! {

/// A vector of integers.
pub type Vector = spec_fn(int) -> int;

/// A matrix of integers.
pub type Grid = spec_fn(int, int) -> int;

/// The sum of `f(0)` to `f(n - 1)`.
pub open spec fn sum(f: Vector, n: int) -> int
    decreases n,
{
    if n <= 0 {
        0
    } else {
        sum(f, n - 1) + f(n - 1)
    }
}

/// Entry `i` of `a` times `v`, where `a` has `n` columns.
pub open spec fn applied(a: Grid, v: Vector, n: int, i: int) -> int {
    sum(|j: int| a(i, j) * v(j), n)
}

/// The entry at `(i, j)` of `a` times `b`, where `a` has `n` columns.
pub open spec fn product(a: Grid, b: Grid, n: int, i: int, j: int) -> int {
    applied(a, |l: int| b(l, j), n, i)
}

proof fn lemma_sum_same(f: Vector, g: Vector, n: int)
    requires
        forall|i: int| 0 <= i < n ==> #[trigger] f(i) == g(i),
    ensures
        sum(f, n) == sum(g, n),
    decreases n,
{
    if n > 0 {
        lemma_sum_same(f, g, n - 1);
    }
}

proof fn lemma_sum_of_sums(f: Vector, g: Vector, n: int)
    ensures
        sum(|i: int| f(i) + g(i), n) == sum(f, n) + sum(g, n),
    decreases n,
{
    if n > 0 {
        lemma_sum_of_sums(f, g, n - 1);
    }
}

proof fn lemma_sum_scaled(c: int, f: Vector, n: int)
    ensures
        sum(|i: int| c * f(i), n) == c * sum(f, n),
    decreases n,
{
    if n > 0 {
        lemma_sum_scaled(c, f, n - 1);
        assert(c * sum(f, n - 1) + c * f(n - 1) == c * (sum(f, n - 1) + f(n - 1)))
            by (nonlinear_arith);
    } else {
        assert(c * 0 == 0) by (nonlinear_arith);
    }
}

/// Sums of rows and sums of columns come to the same.
proof fn lemma_sum_swapped(f: Grid, n: int, m: int)
    ensures
        sum(|i: int| sum(|j: int| f(i, j), m), n) == sum(|j: int| sum(|i: int| f(i, j), n), m),
    decreases n,
{
    if n <= 0 {
        lemma_sum_zero(|j: int| sum(|i: int| f(i, j), n), m);
    } else {
        lemma_sum_swapped(f, n - 1, m);
        let shorter = |j: int| sum(|i: int| f(i, j), n - 1);
        let last = |j: int| f(n - 1, j);
        lemma_sum_of_sums(shorter, last, m);
        lemma_sum_same(
            |j: int| shorter(j) + last(j),
            |j: int| sum(|i: int| f(i, j), n),
            m,
        );
    }
}

proof fn lemma_sum_zero(f: Vector, n: int)
    requires
        forall|i: int| 0 <= i < n ==> #[trigger] f(i) == 0,
    ensures
        sum(f, n) == 0,
    decreases n,
{
    if n > 0 {
        lemma_sum_zero(f, n - 1);
    }
}

proof fn lemma_sum_tail(f: Vector, k: int, n: int)
    requires
        0 <= k <= n,
        forall|i: int| k <= i < n ==> #[trigger] f(i) == 0,
    ensures
        sum(f, n) == sum(f, k),
    decreases n,
{
    if k < n {
        lemma_sum_tail(f, k, n - 1);
    }
}

proof fn lemma_sum_single(f: Vector, k: int, n: int)
    requires
        0 <= k < n,
        forall|i: int| 0 <= i < n && i != k ==> #[trigger] f(i) == 0,
    ensures
        sum(f, n) == f(k),
{
    lemma_sum_tail(f, k + 1, n);
    lemma_sum_zero(f, k);
}

/// A sum over `count` blocks of `size` is a sum of sums over the blocks.
proof fn lemma_sum_blocks(f: Vector, size: int, count: int)
    requires
        0 <= size,
        0 <= count,
    ensures
        sum(f, size * count) == sum(|s: int| sum(|j: int| f(s * size + j), size), count),
    decreases count,
{
    if count == 0 {
        assert(size * 0 == 0) by (nonlinear_arith);
    } else {
        lemma_sum_blocks(f, size, count - 1);
        let start = (count - 1) * size;
        lemma_sum_split(f, start, size);
        assert(size * (count - 1) == start) by (nonlinear_arith)
            requires
                start == (count - 1) * size,
        ;
        assert(size * count == start + size) by (nonlinear_arith)
            requires
                start == (count - 1) * size,
        ;
    }
}

proof fn lemma_sum_split(f: Vector, start: int, n: int)
    requires
        0 <= start,
        0 <= n,
    ensures
        sum(f, start + n) == sum(f, start) + sum(|j: int| f(start + j), n),
    decreases n,
{
    if n > 0 {
        lemma_sum_split(f, start, n - 1);
    }
}

/// Applying one matrix after another is applying their product.
proof fn lemma_applied_in_turn(a: Grid, b: Grid, v: Vector, n: int, m: int, i: int)
    ensures
        applied(a, |l: int| applied(b, v, m, l), n, i) == applied(
            |k: int, j: int| product(a, b, n, k, j),
            v,
            m,
            i,
        ),
{
    let f = |l: int, j: int| a(i, l) * (b(l, j) * v(j));
    assert forall|l: int| 0 <= l < n implies a(i, l) * #[trigger] applied(b, v, m, l) == sum(
        |j: int| f(l, j),
        m,
    ) by {
        lemma_sum_scaled(a(i, l), |j: int| b(l, j) * v(j), m);
        lemma_sum_same(
            |j: int| a(i, l) * (|j: int| b(l, j) * v(j))(j),
            |j: int| f(l, j),
            m,
        );
    }
    lemma_sum_same(
        |l: int| a(i, l) * applied(b, v, m, l),
        |l: int| sum(|j: int| f(l, j), m),
        n,
    );
    lemma_sum_same(
        |l: int| a(i, l) * (|l: int| applied(b, v, m, l))(l),
        |l: int| a(i, l) * applied(b, v, m, l),
        n,
    );
    lemma_sum_swapped(f, n, m);
    assert forall|j: int| 0 <= j < m implies sum(|l: int| f(l, j), n) == #[trigger] product(
        a,
        b,
        n,
        i,
        j,
    ) * v(j) by {
        let terms = |l: int| a(i, l) * b(l, j);
        lemma_sum_scaled(v(j), terms, n);
        assert forall|l: int| 0 <= l < n implies f(l, j) == v(j) * #[trigger] terms(l) by {
            assert(a(i, l) * (b(l, j) * v(j)) == v(j) * (a(i, l) * b(l, j))) by (nonlinear_arith);
        }
        lemma_sum_same(|l: int| f(l, j), |l: int| v(j) * terms(l), n);
        lemma_sum_same(terms, |l: int| a(i, l) * (|l: int| b(l, j))(l), n);
        assert(v(j) * sum(terms, n) == sum(terms, n) * v(j)) by (nonlinear_arith);
    }
    lemma_sum_same(
        |j: int| sum(|l: int| f(l, j), n),
        |j: int| (|k: int, j: int| product(a, b, n, k, j))(i, j) * v(j),
        m,
    );
}

/// A plant with `n` states, `m` inputs and `p` references, as integers: power `k`
/// of its state matrix, and that power times its input matrix and times its
/// reference matrix.
pub struct Plant {
    pub n: int,
    pub m: int,
    pub p: int,
    pub power: spec_fn(int) -> Grid,
    pub forced: spec_fn(int) -> Grid,
    pub referenced: spec_fn(int) -> Grid,
}

/// The matrices `blocks` under the reading `val`.
pub open spec fn read_blocks(blocks: Seq<Matrix>, val: spec_fn(Scalar) -> int) -> spec_fn(
    int,
) -> Grid {
    |k: int| |i: int, j: int| val(blocks[k]@[i][j])
}

/// The products `powers` under the reading `val`.
pub open spec fn read_plant(
    powers: PlantPowers,
    n: int,
    m: int,
    p: int,
    val: spec_fn(Scalar) -> int,
) -> Plant {
    Plant {
        n,
        m,
        p,
        power: read_blocks(powers.powers@, val),
        forced: read_blocks(powers.forced@, val),
        referenced: read_blocks(powers.referenced@, val),
    }
}

/// The reading `val` knows zero, one and minus one.
pub open spec fn reads_units(val: spec_fn(Scalar) -> int) -> bool {
    &&& val(Scalar { bits: ZERO }) == 0
    &&& val((Scalar { bits: ZERO }).negated()) == 0
    &&& val(Scalar { bits: ONE }) == 1
    &&& val((Scalar { bits: ONE }).negated()) == -1
}

impl Plant {
    /// Power `k` is exact at `(i, j)`.
    pub open spec fn power_exact(&self, k: int, i: int, j: int) -> bool {
        (self.power)(k)(i, j) == if k <= 0 {
            if i == j {
                1int
            } else {
                0
            }
        } else {
            product((self.power)(1), (self.power)(k - 1), self.n, i, j)
        }
    }

    /// Block `k` of `blocks` is power `k` times the first block, exactly, at
    /// `(i, j)`.
    pub open spec fn times_exact(
        &self,
        blocks: spec_fn(int) -> Grid,
        k: int,
        i: int,
        j: int,
    ) -> bool {
        blocks(k)(i, j) == product((self.power)(k), blocks(0), self.n, i, j)
    }

    /// All products for a horizon of `horizon` steps are exact.
    pub open spec fn exact(&self, horizon: int) -> bool {
        &&& forall|k: int, i: int, j: int|
            0 <= k <= horizon && 0 <= i < self.n && 0 <= j < self.n ==> #[trigger] self.power_exact(
                k,
                i,
                j,
            )
        &&& forall|k: int, i: int, j: int|
            0 <= k < horizon && 0 <= i < self.n && 0 <= j < self.m
                ==> #[trigger] self.times_exact(
                self.forced,
                k,
                i,
                j,
            )
        &&& forall|k: int, i: int, j: int|
            0 <= k < horizon && 0 <= i < self.n && 0 <= j < self.p
                ==> #[trigger] self.times_exact(
                self.referenced,
                k,
                i,
                j,
            )
    }

    /// The state after `k` steps from `x0`, with input `u(s, _)` in step `s` and
    /// the reference `r` in every step.
    pub open spec fn state(&self, x0: Vector, u: Grid, r: Vector, k: int) -> Vector
        decreases k,
    {
        if k <= 0 {
            x0
        } else {
            let before = self.state(x0, u, r, k - 1);
            |i: int|
                applied((self.power)(1), before, self.n, i) + applied(
                    (self.forced)(0),
                    |j: int| u(k - 1, j),
                    self.m,
                    i,
                ) + applied((self.referenced)(0), r, self.p, i)
        }
    }
}

/// What `blocks` make of the inputs `u` of the first `k` steps, at the end of
/// these steps: the input of step `s` has acted for `k - 1 - s` steps.
spec fn response(blocks: spec_fn(int) -> Grid, u: Grid, size: int, k: int, i: int) -> int {
    sum(|s: int| applied(blocks(k - 1 - s), |j: int| u(s, j), size, i), k)
}

/// One more step of a response: what was there is carried on, and the input of
/// the step comes to it.
proof fn lemma_response_step(
    step: Grid,
    blocks: spec_fn(int) -> Grid,
    u: Grid,
    n: int,
    size: int,
    k: int,
    i: int,
)
    requires
        0 <= k,
        forall|q: int, j: int|
            0 <= q < k && 0 <= j < size ==> #[trigger] blocks(q + 1)(i, j) == product(
                step,
                blocks(q),
                n,
                i,
                j,
            ),
    ensures
        response(blocks, u, size, k + 1, i) == applied(
            step,
            |l: int| response(blocks, u, size, k, l),
            n,
            i,
        ) + applied(blocks(0), |j: int| u(k, j), size, i),
{
    let f = |l: int, s: int|
        step(i, l) * applied(blocks(k - 1 - s), |j: int| u(s, j), size, l);
    assert forall|l: int| 0 <= l < n implies step(i, l) * #[trigger] response(
        blocks,
        u,
        size,
        k,
        l,
    ) == sum(|s: int| f(l, s), k) by {
        let terms = |s: int| applied(blocks(k - 1 - s), |j: int| u(s, j), size, l);
        lemma_sum_scaled(step(i, l), terms, k);
        lemma_sum_same(|s: int| step(i, l) * terms(s), |s: int| f(l, s), k);
    }
    lemma_sum_same(
        |l: int| step(i, l) * (|l: int| response(blocks, u, size, k, l))(l),
        |l: int| sum(|s: int| f(l, s), k),
        n,
    );
    lemma_sum_swapped(f, n, k);
    let next = |s: int| applied(blocks(k - s), |j: int| u(s, j), size, i);
    assert forall|s: int| 0 <= s < k implies sum(|l: int| f(l, s), n) == #[trigger] next(s) by {
        let q = k - 1 - s;
        let v = |j: int| u(s, j);
        lemma_applied_in_turn(step, blocks(q), v, n, size, i);
        lemma_sum_same(
            |l: int| f(l, s),
            |l: int| step(i, l) * (|l: int| applied(blocks(q), v, size, l))(l),
            n,
        );
        assert forall|j: int| 0 <= j < size implies #[trigger] blocks(q + 1)(i, j) == product(
            step,
            blocks(q),
            n,
            i,
            j,
        ) by {}
        lemma_sum_same(
            |j: int| (|k: int, j: int| product(step, blocks(q), n, k, j))(i, j) * v(j),
            |j: int| blocks(q + 1)(i, j) * v(j),
            size,
        );
    }
    lemma_sum_same(|s: int| sum(|l: int| f(l, s), n), next, k);
    lemma_sum_same(
        |s: int| applied(blocks((k + 1) - 1 - s), |j: int| u(s, j), size, i),
        next,
        k + 1,
    );
}

/// Each block is the state matrix times the block before it.
proof fn lemma_block_step(
    plant: Plant,
    blocks: spec_fn(int) -> Grid,
    size: int,
    horizon: int,
    q: int,
    i: int,
    j: int,
)
    requires
        plant.exact(horizon),
        forall|k: int, a: int, b: int|
            0 <= k < horizon && 0 <= a < plant.n && 0 <= b < size ==> #[trigger] plant.times_exact(
                blocks,
                k,
                a,
                b,
            ),
        0 <= q < horizon - 1,
        0 <= i < plant.n,
        0 <= j < size,
    ensures
        blocks(q + 1)(i, j) == product((plant.power)(1), blocks(q), plant.n, i, j),
{
    let n = plant.n;
    let step = (plant.power)(1);
    let power = (plant.power)(q);
    let column = |l: int| blocks(0)(l, j);
    assert(plant.times_exact(blocks, q + 1, i, j));
    assert forall|l: int| 0 <= l < n implies #[trigger] (plant.power)(q + 1)(i, l) == product(
        step,
        power,
        n,
        i,
        l,
    ) by {
        assert(plant.power_exact(q + 1, i, l));
    }
    lemma_sum_same(
        |l: int| (plant.power)(q + 1)(i, l) * column(l),
        |l: int| (|a: int, b: int| product(step, power, n, a, b))(i, l) * column(l),
        n,
    );
    lemma_applied_in_turn(step, power, column, n, n, i);
    assert forall|l: int| 0 <= l < n implies #[trigger] applied(power, column, n, l) == blocks(q)(
        l,
        j,
    ) by {
        assert(plant.times_exact(blocks, q, l, j));
    }
    lemma_sum_same(
        |l: int| step(i, l) * (|l: int| applied(power, column, n, l))(l),
        |l: int| step(i, l) * (|l: int| blocks(q)(l, j))(l),
        n,
    );
}

/// The state after `k` steps is the free response from `x0` and the responses to
/// the inputs and to the reference.
proof fn lemma_state_is_sum_of_responses(
    plant: Plant,
    horizon: int,
    x0: Vector,
    u: Grid,
    r: Vector,
    k: int,
    i: int,
)
    requires
        plant.exact(horizon),
        0 <= k <= horizon,
        0 <= i < plant.n,
    ensures
        plant.state(x0, u, r, k)(i) == applied((plant.power)(k), x0, plant.n, i) + response(
            plant.forced,
            u,
            plant.m,
            k,
            i,
        ) + response(plant.referenced, |s: int, j: int| r(j), plant.p, k, i),
    decreases k,
{
    let n = plant.n;
    let rr = |s: int, j: int| r(j);
    if k == 0 {
        let f = |j: int| (plant.power)(0)(i, j) * x0(j);
        assert forall|j: int| 0 <= j < n && j != i implies #[trigger] f(j) == 0 by {
            assert(plant.power_exact(0, i, j));
            assert(0 * x0(j) == 0) by (nonlinear_arith);
        }
        lemma_sum_single(f, i, n);
        assert(plant.power_exact(0, i, i));
        assert(1 * x0(i) == x0(i)) by (nonlinear_arith);
    } else {
        let h = k - 1;
        let step = (plant.power)(1);
        let free = |l: int| applied((plant.power)(h), x0, n, l);
        let driven = |l: int| response(plant.forced, u, plant.m, h, l);
        let steered = |l: int| response(plant.referenced, rr, plant.p, h, l);
        let before = plant.state(x0, u, r, h);
        assert forall|l: int| 0 <= l < n implies #[trigger] before(l) == free(l) + driven(l)
            + steered(l) by {
            lemma_state_is_sum_of_responses(plant, horizon, x0, u, r, h, l);
        }
        lemma_applied_to_sum(step, before, free, driven, steered, n, i);
        // The free response.
        lemma_applied_in_turn(step, (plant.power)(h), x0, n, n, i);
        assert forall|j: int| 0 <= j < n implies #[trigger] (plant.power)(k)(i, j) == product(
            step,
            (plant.power)(h),
            n,
            i,
            j,
        ) by {
            assert(plant.power_exact(k, i, j));
        }
        lemma_sum_same(
            |j: int| (|a: int, b: int| product(step, (plant.power)(h), n, a, b))(i, j) * x0(j),
            |j: int| (plant.power)(k)(i, j) * x0(j),
            n,
        );
        // The responses to the inputs and to the reference.
        assert forall|q: int, j: int| 0 <= q < h && 0 <= j < plant.m implies #[trigger] (
        plant.forced)(q + 1)(i, j) == product(step, (plant.forced)(q), n, i, j) by {
            lemma_block_step(plant, plant.forced, plant.m, horizon, q, i, j);
        }
        lemma_response_step(step, plant.forced, u, n, plant.m, h, i);
        assert forall|q: int, j: int| 0 <= q < h && 0 <= j < plant.p implies #[trigger] (
        plant.referenced)(q + 1)(i, j) == product(step, (plant.referenced)(q), n, i, j) by {
            lemma_block_step(plant, plant.referenced, plant.p, horizon, q, i, j);
        }
        lemma_response_step(step, plant.referenced, rr, n, plant.p, h, i);
        lemma_sum_same(
            |j: int| (plant.referenced)(0)(i, j) * (|j: int| rr(h, j))(j),
            |j: int| (plant.referenced)(0)(i, j) * r(j),
            plant.p,
        );
    }
}

proof fn lemma_applied_to_sum(
    a: Grid,
    v: Vector,
    x: Vector,
    y: Vector,
    z: Vector,
    n: int,
    i: int,
)
    requires
        forall|l: int| 0 <= l < n ==> #[trigger] v(l) == x(l) + y(l) + z(l),
    ensures
        applied(a, v, n, i) == applied(a, x, n, i) + applied(a, y, n, i) + applied(a, z, n, i),
    decreases n,
{
    if n > 0 {
        lemma_applied_to_sum(a, v, x, y, z, n - 1, i);
        let c = a(i, n - 1);
        let (p, q, r) = (x(n - 1), y(n - 1), z(n - 1));
        assert(v(n - 1) == p + q + r);
        assert(c * (p + q + r) == c * p + c * q + c * r) by (nonlinear_arith);
    }
}

/// Place `j` of block `s`.
proof fn lemma_place_in_block(s: int, j: int, size: int)
    requires
        0 <= s,
        0 <= j < size,
    ensures
        (s * size + j) / size == s,
        (s * size + j) % size == j,
        0 <= s * size + j,
{
    assert(0 <= s * size) by (nonlinear_arith)
        requires
            0 <= s,
            0 <= size,
    ;
    lemma_fundamental_div_mod_converse(s * size + j, size, s, j);
}

/// A row of a block Toeplitz matrix times the stacked inputs is the response of
/// its blocks.
proof fn lemma_toeplitz_row(
    blocks: Seq<Matrix>,
    val: spec_fn(Scalar) -> int,
    u: Grid,
    n: int,
    size: int,
    horizon: int,
    k: int,
    i: int,
)
    requires
        reads_units(val),
        0 <= size,
        1 <= k <= horizon,
        0 <= i < n,
    ensures
        sum(
            |c: int|
                val(toeplitz_entry(blocks, n, size, (k - 1) * n + i, c)) * u(c / size, c % size),
            size * horizon,
        ) == response(read_blocks(blocks, val), u, size, k, i),
{
    let row = (k - 1) * n + i;
    let f = |c: int| val(toeplitz_entry(blocks, n, size, row, c)) * u(c / size, c % size);
    let read = read_blocks(blocks, val);
    lemma_place_in_block(k - 1, i, n);
    lemma_sum_blocks(f, size, horizon);
    let whole = |s: int| sum(|j: int| f(s * size + j), size);
    assert forall|s: int| k <= s < horizon implies #[trigger] whole(s) == 0 by {
        let part = |j: int| f(s * size + j);
        assert forall|j: int| 0 <= j < size implies #[trigger] part(j) == 0 by {
            lemma_place_in_block(s, j, size);
            assert(0 * u(s, j) == 0) by (nonlinear_arith);
        }
        lemma_sum_zero(part, size);
    }
    lemma_sum_tail(whole, k, horizon);
    let parts = |s: int| applied(read(k - 1 - s), |j: int| u(s, j), size, i);
    assert forall|s: int| 0 <= s < k implies #[trigger] whole(s) == parts(s) by {
        let part = |j: int| f(s * size + j);
        assert forall|j: int| 0 <= j < size implies #[trigger] part(j) == read(k - 1 - s)(i, j)
            * u(s, j) by {
            lemma_place_in_block(s, j, size);
        }
        lemma_sum_same(
            part,
            |j: int| read(k - 1 - s)(i, j) * (|j: int| u(s, j))(j),
            size,
        );
    }
    lemma_sum_same(whole, parts, k);
}

/// The stacked prediction is the trajectory of the plant: for every input, block
/// row `k - 1` of the free response from `x0`, the response to the inputs and the
/// response to the reference together is the state after `k` steps of the plant.
/// The input `j` of step `s` is `u(s, j)`, at place `s * m + j` of the stack.
pub proof fn law_prediction_is_the_trajectory(
    mats: BatchMats,
    powers: PlantPowers,
    reference: Seq<Scalar>,
    u_prev: Seq<Scalar>,
    val: spec_fn(Scalar) -> int,
    x0: Vector,
    u: Grid,
    k: int,
    i: int,
)
    requires
        mats.predicts(powers, mats.horizon as int, reference, u_prev),
        reads_units(val),
        read_plant(
            powers,
            mats.n as int,
            mats.m as int,
            reference.len() as int,
            val,
        ).exact(mats.horizon as int),
        1 <= k <= mats.horizon,
        0 <= i < mats.n,
    ensures
        ({
            let (n, m, p) = (mats.n as int, mats.m as int, reference.len() as int);
            let horizon = mats.horizon as int;
            let row = (k - 1) * n + i;
            sum(|l: int| val(mats.omega@[row][l]) * x0(l), n) + sum(
                |c: int| val(mats.gamma@[row][c]) * u(c / m, c % m),
                m * horizon,
            ) + sum(|c: int| val(mats.phi@[row][c]) * val(mats.r_stack@[c]), p * horizon)
                == read_plant(powers, n, m, p, val).state(
                x0,
                u,
                |j: int| val(reference[j]),
                k,
            )(i)
        }),
{
    let (n, m, p) = (mats.n as int, mats.m as int, reference.len() as int);
    let horizon = mats.horizon as int;
    let row = (k - 1) * n + i;
    let plant = read_plant(powers, n, m, p, val);
    let r = |j: int| val(reference[j]);
    let rr = |s: int, j: int| r(j);
    lemma_state_is_sum_of_responses(plant, horizon, x0, u, r, k, i);
    lemma_place_in_block(k - 1, i, n);
    assert(row < n * horizon) by (nonlinear_arith)
        requires
            row == (k - 1) * n + i,
            i < n,
            k <= horizon,
            0 <= n,
    ;
    lemma_sum_same(
        |l: int| val(mats.omega@[row][l]) * x0(l),
        |l: int| (plant.power)(k)(i, l) * x0(l),
        n,
    );
    lemma_toeplitz_row(powers.forced@, val, u, n, m, horizon, k, i);
    lemma_sum_same(
        |c: int| val(mats.gamma@[row][c]) * u(c / m, c % m),
        |c: int| val(toeplitz_entry(powers.forced@, n, m, row, c)) * u(c / m, c % m),
        m * horizon,
    );
    lemma_toeplitz_row(powers.referenced@, val, rr, n, p, horizon, k, i);
    assert(mats.r_stack@ == repeated(reference, horizon as nat));
    lemma_sum_same(
        |c: int| val(mats.phi@[row][c]) * val(mats.r_stack@[c]),
        |c: int| val(toeplitz_entry(powers.referenced@, n, p, row, c)) * rr(c / p, c % p),
        p * horizon,
    );
}

/// The difference operator gives the changes of the inputs: block row `k` of it
/// times the stacked inputs, minus the previous input, is the input of step `k`
/// minus the one before it.
pub proof fn law_difference_is_the_change_of_input(
    mats: BatchMats,
    powers: PlantPowers,
    reference: Seq<Scalar>,
    u_prev: Seq<Scalar>,
    val: spec_fn(Scalar) -> int,
    u: Grid,
    k: int,
    i: int,
)
    requires
        mats.predicts(powers, mats.horizon as int, reference, u_prev),
        reads_units(val),
        0 <= k < mats.horizon,
        0 <= i < mats.m,
    ensures
        ({
            let m = mats.m as int;
            let row = k * m + i;
            sum(|c: int| val(mats.d@[row][c]) * u(c / m, c % m), m * mats.horizon) - val(
                mats.d0@[row],
            ) == u(k, i) - if k == 0 {
                val(u_prev[i])
            } else {
                u(k - 1, i)
            }
        }),
{
    let m = mats.m as int;
    let horizon = mats.horizon as int;
    let row = k * m + i;
    lemma_place_in_block(k, i, m);
    assert(row < m * horizon) by (nonlinear_arith)
        requires
            row == k * m + i,
            i < m,
            k < horizon,
            0 <= m,
    ;
    let f = |c: int| val(difference_entry(m, row, c)) * u(c / m, c % m);
    lemma_sum_same(|c: int| val(mats.d@[row][c]) * u(c / m, c % m), f, m * horizon);
    lemma_sum_blocks(f, m, horizon);
    let whole = |s: int| sum(|j: int| f(s * m + j), m);
    assert forall|s: int| 0 <= s < horizon implies #[trigger] whole(s) == if s == k {
        u(k, i)
    } else if s == k - 1 {
        -u(k - 1, i)
    } else {
        0
    } by {
        lemma_difference_block(val, u, m, k, i, s);
        lemma_sum_same(
            |j: int| f(s * m + j),
            |j: int|
                val(difference_entry(m, k * m + i, s * m + j)) * u(
                    (s * m + j) / m,
                    (s * m + j) % m,
                ),
            m,
        );
    }
    if k > 0 {
        assert(m <= row) by (nonlinear_arith)
            requires
                row == k * m + i,
                k >= 1,
                0 <= i,
                0 <= m,
        ;
        lemma_sum_tail(whole, k + 1, horizon);
        lemma_sum_zero(whole, k - 1);
        assert(sum(whole, k + 1) == sum(whole, k) + whole(k));
        assert(sum(whole, k) == sum(whole, k - 1) + whole(k - 1));
    } else {
        assert(row == i) by (nonlinear_arith)
            requires
                row == k * m + i,
                k == 0,
        ;
        lemma_sum_single(whole, 0, horizon);
    }
}

proof fn lemma_difference_block(
    val: spec_fn(Scalar) -> int,
    u: Grid,
    m: int,
    k: int,
    i: int,
    s: int,
)
    requires
        reads_units(val),
        0 <= k,
        0 <= i < m,
        0 <= s,
    ensures
        sum(
            |j: int|
                val(difference_entry(m, k * m + i, s * m + j)) * u((s * m + j) / m, (s * m + j) % m),
            m,
        ) == if s == k {
            u(k, i)
        } else if s == k - 1 {
            -u(k - 1, i)
        } else {
            0
        },
{
    lemma_place_in_block(k, i, m);
    let g = |j: int|
        val(difference_entry(m, k * m + i, s * m + j)) * u((s * m + j) / m, (s * m + j) % m);
    let factor: int = if s == k {
        1
    } else if s == k - 1 {
        -1
    } else {
        0
    };
    assert forall|j: int| 0 <= j < m implies #[trigger] g(j) == if j == i {
        factor * u(s, j)
    } else {
        0
    } by {
        lemma_place_in_block(s, j, m);
        assert(0 * u(s, j) == 0) by (nonlinear_arith);
        assert(identity_entry(i, j) == Scalar { bits: if i == j { ONE } else { ZERO } });
    }
    lemma_sum_single(g, i, m);
    assert(1 * u(s, i) == u(s, i) && (-1) * u(s, i) == -u(s, i) && 0 * u(s, i) == 0)
        by (nonlinear_arith);
}

} // verus!
