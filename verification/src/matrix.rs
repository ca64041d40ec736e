//! Dense matrices of [`Scalar`]s, stored row by row. The library places
//! numbers in matrices; it does not multiply them.

use crate::scalar::Scalar;
use vstd::prelude::*;

verus! {

/// One as binary64 bits.
pub const ONE: u64 = 0x3FF0_0000_0000_0000;

/// Zero as binary64 bits.
pub const ZERO: u64 = 0;

/// A matrix with `cols` columns.
#[derive(Debug)]
pub struct Matrix {
    pub cols: usize,
    pub rows: Vec<Vec<Scalar>>,
}

/// The rows of a matrix as sequences.
pub open spec fn row_contents(rows: Seq<Vec<Scalar>>) -> Seq<Seq<Scalar>> {
    rows.map_values(|row: Vec<Scalar>| row@)
}

/// The rows of the `rows` by `cols` matrix whose entry at `(i, j)` is
/// `entry(i, j)`.
pub open spec fn grid(rows: nat, cols: nat, entry: spec_fn(int, int) -> Scalar) -> Seq<Seq<Scalar>> {
    Seq::new(rows, |i: int| Seq::new(cols, |j: int| entry(i, j)))
}

/// The entry of the identity matrix at `(i, j)`.
pub open spec fn identity_entry(i: int, j: int) -> Scalar {
    Scalar {
        bits: if i == j {
            ONE
        } else {
            ZERO
        },
    }
}

/// The entry at `(i, j)` of the matrix with `vals` on its diagonal.
pub open spec fn diagonal_entry(vals: Seq<Scalar>, i: int, j: int) -> Scalar {
    if i == j {
        vals[i]
    } else {
        Scalar { bits: ZERO }
    }
}

impl View for Matrix {
    type V = Seq<Seq<Scalar>>;

    open spec fn view(&self) -> Seq<Seq<Scalar>> {
        row_contents(self.rows@)
    }
}

impl Matrix {
    /// Every row has `cols` entries.
    pub open spec fn wf(&self) -> bool {
        forall|i: int| 0 <= i < self.rows@.len() ==> (#[trigger] self.rows@[i])@.len() == self.cols
    }

    /// A well-formed matrix of the given shape.
    pub open spec fn is_shape(&self, rows: int, cols: int) -> bool {
        self.wf() && self.rows@.len() == rows && self.cols == cols
    }

    /// The `rows` by `cols` matrix with the given entries.
    pub open spec fn is_grid(&self, rows: int, cols: int, entry: spec_fn(int, int) -> Scalar) -> bool {
        self.is_shape(rows, cols) && self@ == grid(rows as nat, cols as nat, entry)
    }

    /// The `rows` by `cols` matrix with entries `f(i, j)`.
    pub fn generate<F: Fn(usize, usize) -> Scalar>(rows: usize, cols: usize, f: F) -> (res: Matrix)
        requires
            forall|i: usize, j: usize| i < rows && j < cols ==> call_requires(f, (i, j)),
        ensures
            res.is_shape(rows as int, cols as int),
            forall|i: int, j: int|
                0 <= i < rows && 0 <= j < cols ==> call_ensures(
                    f,
                    (i as usize, j as usize),
                    #[trigger] res@[i][j],
                ),
    {
        let mut out: Vec<Vec<Scalar>> = Vec::new();
        let mut i: usize = 0;
        while i < rows
            invariant
                i <= rows,
                out@.len() == i,
                forall|a: usize, b: usize| a < rows && b < cols ==> call_requires(f, (a, b)),
                forall|a: int| 0 <= a < i ==> (#[trigger] out@[a])@.len() == cols,
                forall|a: int, b: int|
                    0 <= a < i && 0 <= b < cols ==> call_ensures(
                        f,
                        (a as usize, b as usize),
                        #[trigger] out@[a]@[b],
                    ),
            decreases rows - i,
        {
            let mut row: Vec<Scalar> = Vec::new();
            let mut j: usize = 0;
            while j < cols
                invariant
                    i < rows,
                    j <= cols,
                    row@.len() == j,
                    forall|a: usize, b: usize| a < rows && b < cols ==> call_requires(f, (a, b)),
                    forall|b: int|
                        0 <= b < j ==> call_ensures(f, (i, b as usize), #[trigger] row@[b]),
                decreases cols - j,
            {
                row.push(f(i, j));
                j = j + 1;
            }
            out.push(row);
            i = i + 1;
        }
        let res = Matrix { cols, rows: out };
        assert forall|a: int, b: int| 0 <= a < rows && 0 <= b < cols implies call_ensures(
            f,
            (a as usize, b as usize),
            #[trigger] res@[a][b],
        ) by {
            assert(res@[a] == res.rows@[a]@);
        }
        res
    }

    /// The number of rows.
    pub fn nrows(&self) -> (n: usize)
        ensures
            n == self@.len(),
    {
        self.rows.len()
    }

    /// The entry at row `i` and column `j`.
    pub fn get(&self, i: usize, j: usize) -> (x: Scalar)
        requires
            self.wf(),
            i < self@.len(),
            j < self.cols,
        ensures
            x == self@[i as int][j as int],
    {
        self.rows[i][j]
    }

    /// The zero matrix.
    pub fn zeros(rows: usize, cols: usize) -> (res: Matrix)
        ensures
            res.is_grid(rows as int, cols as int, |i: int, j: int| Scalar { bits: ZERO }),
    {
        let entry = |i: usize, j: usize| -> (x: Scalar)
            ensures
                x.bits == ZERO,
            { Scalar { bits: ZERO } };
        let res = Matrix::generate(rows, cols, entry);
        assert(res@ =~~= grid(rows as nat, cols as nat, |i: int, j: int| Scalar { bits: ZERO }));
        res
    }

    /// The identity matrix.
    pub fn identity(n: usize) -> (res: Matrix)
        ensures
            res.is_grid(n as int, n as int, |i: int, j: int| identity_entry(i, j)),
    {
        let entry = |i: usize, j: usize| -> (x: Scalar)
            ensures
                x == identity_entry(i as int, j as int),
            {
                if i == j {
                    Scalar { bits: ONE }
                } else {
                    Scalar { bits: ZERO }
                }
            };
        let res = Matrix::generate(n, n, entry);
        assert(res@ =~~= grid(n as nat, n as nat, |i: int, j: int| identity_entry(i, j)));
        res
    }

    /// The square matrix with `vals` on its diagonal and zeros elsewhere.
    pub fn diag(vals: &[Scalar]) -> (res: Matrix)
        ensures
            res.is_grid(
                vals@.len() as int,
                vals@.len() as int,
                |i: int, j: int| diagonal_entry(vals@, i, j),
            ),
    {
        let n: usize = vals.len();
        let entry = |i: usize, j: usize| -> (x: Scalar)
            requires
                i < vals@.len(),
            ensures
                x == diagonal_entry(vals@, i as int, j as int),
            {
                if i == j {
                    vals[i]
                } else {
                    Scalar { bits: ZERO }
                }
            };
        let res = Matrix::generate(n, n, entry);
        assert(res@ =~~= grid(vals@.len(), vals@.len(), |i: int, j: int| diagonal_entry(vals@, i, j)));
        res
    }
}

/// The matrices that are built from a rule: entry `(i, j)` is what the rule says of row
/// `i` and column `j`; a diagonal matrix has its numbers in order on the diagonal, an
/// identity ones, and both have zeros elsewhere.
pub proof fn law_entries_stand_in_their_places(
    rows: nat,
    cols: nat,
    entry: spec_fn(int, int) -> Scalar,
    vals: Seq<Scalar>,
    i: int,
    j: int,
)
    requires
        0 <= i < rows,
        0 <= j < cols,
    ensures
        grid(rows, cols, entry).len() == rows,
        grid(rows, cols, entry)[i].len() == cols,
        grid(rows, cols, entry)[i][j] == entry(i, j),
        i == j ==> diagonal_entry(vals, i, j) == vals[i],
        i != j ==> diagonal_entry(vals, i, j).bits == 0,
        i == j ==> identity_entry(i, j).bits == 0x3FF0_0000_0000_0000,
        i != j ==> identity_entry(i, j).bits == 0,
{
}

} // verus!
