//! The mathematical model of a matrix: a shape and the entries in row-major
//! order, with the operations of the kernel as specification functions.
use crate::scalar::Scalar;
use vstd::prelude::*;

verus! {

/// What a matrix is: `rows * cols` entries, entry `(r, c)` at offset
/// `r * cols + c`.
pub struct MatrixView<T> {
    pub rows: nat,
    pub cols: nat,
    pub entries: Seq<T>,
}

impl<T> MatrixView<T> {
    /// There are exactly `rows * cols` entries.
    pub open spec fn wf(self) -> bool {
        self.entries.len() == self.rows * self.cols
    }

    /// The entry in row `r` and column `c`.
    pub open spec fn at(self, r: int, c: int) -> T {
        self.entries[r * self.cols + c]
    }

    /// `(r, c)` names an entry.
    pub open spec fn in_bounds(self, r: int, c: int) -> bool {
        0 <= r < self.rows && 0 <= c < self.cols
    }

    /// The matrix of the given shape whose entry `(r, c)` is `f(r, c)`.
    pub open spec fn build(rows: nat, cols: nat, f: spec_fn(int, int) -> T) -> Self {
        MatrixView {
            rows,
            cols,
            entries: Seq::new(rows * cols, |k: int| f(k / (cols as int), k % (cols as int))),
        }
    }

    /// As many rows as columns.
    pub open spec fn is_quadratic(self) -> bool {
        self.rows == self.cols
    }

    /// A single row.
    pub open spec fn is_row_vector(self) -> bool {
        self.rows == 1
    }

    /// A single column.
    pub open spec fn is_column_vector(self) -> bool {
        self.cols == 1
    }

    /// A single row or a single column.
    pub open spec fn is_vector(self) -> bool {
        self.is_column_vector() || self.is_row_vector()
    }

    /// Rows and columns exchanged.
    pub open spec fn transpose(self) -> Self {
        Self::build(self.cols, self.rows, |r: int, c: int| self.at(c, r))
    }

    /// The matrix without row `row` and column `col`; the other entries keep
    /// their order.
    pub open spec fn minor(self, row: int, col: int) -> Self {
        Self::build(
            (self.rows - 1) as nat,
            (self.cols - 1) as nat,
            |r: int, c: int|
                self.at(
                    if r < row {
                        r
                    } else {
                        r + 1
                    },
                    if c < col {
                        c
                    } else {
                        c + 1
                    },
                ),
        )
    }

    /// The rows named by `picks`, in that order.
    pub open spec fn select_rows(self, picks: Seq<usize>) -> Self {
        Self::build(picks.len(), self.cols, |r: int, c: int| self.at(picks[r] as int, c))
    }

    /// Column `col` as a column vector.
    pub open spec fn column(self, col: int) -> Self {
        Self::build(self.rows, 1, |r: int, c: int| self.at(r, col))
    }
}

/// The offset of entry `(r, c)` lies inside a buffer of `rows * cols` entries
/// and determines `r` and `c`.
pub proof fn lemma_offset(rows: nat, cols: nat, r: int, c: int)
    requires
        0 <= r < rows,
        0 <= c < cols,
    ensures
        0 <= r * cols + c < rows * cols,
        r * cols <= r * cols + c,
        0 <= r * cols,
        (r * cols + c) / (cols as int) == r,
        (r * cols + c) % (cols as int) == c,
{
    assert(0 <= r * cols) by (nonlinear_arith)
        requires
            0 <= r,
            0 <= cols,
    ;
    assert(r * cols + c < rows * cols) by (nonlinear_arith)
        requires
            0 <= r < rows,
            0 <= c < cols,
    ;
    vstd::arithmetic::div_mod::lemma_fundamental_div_mod_converse(r * cols + c, cols as int, r, c);
}

/// An offset into a buffer of `rows * cols` entries splits into a row and a
/// column.
pub proof fn lemma_split(rows: nat, cols: nat, k: int)
    requires
        0 <= k < rows * cols,
    ensures
        cols > 0,
        0 <= k / (cols as int) < rows,
        0 <= k % (cols as int) < cols,
        k == (k / (cols as int)) * cols + k % (cols as int),
{
    assert(cols > 0) by (nonlinear_arith)
        requires
            0 <= k < rows * cols,
    ;
    let d = cols as int;
    vstd::arithmetic::div_mod::lemma_fundamental_div_mod(k, d);
    vstd::arithmetic::div_mod::lemma_mod_bound(k, d);
    vstd::arithmetic::div_mod::lemma_div_pos_is_pos(k, d);
    assert(d * (k / d) == (k / d) * d) by (nonlinear_arith);
    assert(k / d < rows) by (nonlinear_arith)
        requires
            0 <= k < rows * d,
            d > 0,
            k == (k / d) * d + k % d,
            0 <= k % d < d,
    ;
}

/// `build` puts `f(r, c)` at `(r, c)`.
pub proof fn lemma_build_at<T>(rows: nat, cols: nat, f: spec_fn(int, int) -> T, r: int, c: int)
    requires
        0 <= r < rows,
        0 <= c < cols,
    ensures
        MatrixView::build(rows, cols, f).at(r, c) == f(r, c),
{
    lemma_offset(rows, cols, r, c);
}

/// Two matrices of one shape with the same entries are the same matrix.
pub proof fn lemma_equal_by_entries<T>(a: MatrixView<T>, b: MatrixView<T>)
    requires
        a.wf(),
        b.wf(),
        a.rows == b.rows,
        a.cols == b.cols,
        forall|r: int, c: int| a.in_bounds(r, c) ==> a.at(r, c) == b.at(r, c),
    ensures
        a == b,
{
    assert forall|k: int| 0 <= k < a.entries.len() implies a.entries[k] == b.entries[k] by {
        lemma_split(a.rows, a.cols, k);
        let r = k / (a.cols as int);
        let c = k % (a.cols as int);
        assert(a.in_bounds(r, c));
        assert(a.at(r, c) == b.at(r, c));
    }
    assert(a.entries =~= b.entries);
}

impl<T: Scalar> MatrixView<T> {
    /// The matrix of the given shape with `value` everywhere.
    pub open spec fn constant(value: T, rows: nat, cols: nat) -> Self {
        Self::build(rows, cols, |r: int, c: int| value)
    }

    /// The square matrix with one on the diagonal and zero elsewhere.
    pub open spec fn identity(size: nat) -> Self {
        Self::build(
            size,
            size,
            |r: int, c: int|
                if r == c {
                    T::one_spec()
                } else {
                    T::zero_spec()
                },
        )
    }

    /// Every entry times `factor`.
    pub open spec fn scaled(self, factor: T) -> Self {
        MatrixView {
            rows: self.rows,
            cols: self.cols,
            entries: Seq::new(self.entries.len(), |k: int| self.entries[k].times_spec(factor)),
        }
    }

    /// Entrywise sum.
    pub open spec fn sum(self, rhs: Self) -> Self {
        MatrixView {
            rows: self.rows,
            cols: self.cols,
            entries: Seq::new(self.entries.len(), |k: int| self.entries[k].plus_spec(rhs.entries[k])),
        }
    }

    /// Entrywise difference.
    pub open spec fn difference(self, rhs: Self) -> Self {
        MatrixView {
            rows: self.rows,
            cols: self.cols,
            entries: Seq::new(
                self.entries.len(),
                |k: int| self.entries[k].minus_spec(rhs.entries[k]),
            ),
        }
    }

    /// Every entry negated.
    pub open spec fn negated(self) -> Self {
        MatrixView {
            rows: self.rows,
            cols: self.cols,
            entries: Seq::new(self.entries.len(), |k: int| self.entries[k].negate_spec()),
        }
    }

    /// `self[i, 0] * rhs[0, j] + ... + self[i, k - 1] * rhs[k - 1, j]`, summed
    /// from zero in increasing order of the inner index.
    pub open spec fn inner(self, rhs: Self, i: int, j: int, k: nat) -> T
        decreases k,
    {
        if k == 0 {
            T::zero_spec()
        } else {
            self.inner(rhs, i, j, (k - 1) as nat).plus_spec(
                self.at(i, k - 1).times_spec(rhs.at(k - 1, j)),
            )
        }
    }

    /// The matrix product.
    pub open spec fn product(self, rhs: Self) -> Self {
        Self::build(self.rows, rhs.cols, |i: int, j: int| self.inner(rhs, i, j, self.cols))
    }

    /// The sum of the first `k` entrywise products of two buffers, summed
    /// from zero in increasing order.
    pub open spec fn dot_prefix(self, rhs: Self, k: nat) -> T
        decreases k,
    {
        if k == 0 {
            T::zero_spec()
        } else {
            self.dot_prefix(rhs, (k - 1) as nat).plus_spec(
                self.entries[k - 1].times_spec(rhs.entries[k - 1]),
            )
        }
    }

    /// The dot product of a row vector and a column vector.
    pub open spec fn dot(self, rhs: Self) -> T {
        self.dot_prefix(rhs, self.entries.len())
    }

    /// The outer product of a column vector and a row vector.
    pub open spec fn dyadic(self, rhs: Self) -> Self {
        Self::build(
            self.rows,
            rhs.cols,
            |i: int, j: int| self.entries[i].times_spec(rhs.entries[j]),
        )
    }

    /// The cross product of two column vectors with three entries.
    pub open spec fn cross(self, rhs: Self) -> Self {
        let l = self.entries;
        let r = rhs.entries;
        MatrixView {
            rows: 3,
            cols: 1,
            entries: seq![
                l[1].times_spec(r[2]).minus_spec(l[2].times_spec(r[1])),
                l[2].times_spec(r[0]).minus_spec(l[0].times_spec(r[2])),
                l[0].times_spec(r[1]).minus_spec(l[1].times_spec(r[0])),
            ],
        }
    }

    /// `+1` where `row + col` is even, `-1` where it is odd.
    pub open spec fn sign(row: int, col: int) -> T {
        if (row + col) % 2 == 0 {
            T::one_spec()
        } else {
            T::one_spec().negate_spec()
        }
    }

    /// The determinant by cofactor expansion along row 0. A matrix without
    /// rows has determinant zero.
    pub open spec fn determinant(self) -> T
        decreases self.rows, 2nat, 0nat,
    {
        if self.rows == 1 {
            self.entries[0]
        } else {
            self.expansion(self.cols)
        }
    }

    /// The first `k` terms of the expansion along row 0, summed from zero in
    /// increasing order of the column.
    pub open spec fn expansion(self, k: nat) -> T
        decreases self.rows, 1nat, k,
    {
        if k == 0 {
            T::zero_spec()
        } else {
            self.expansion((k - 1) as nat).plus_spec(
                self.at(0, k - 1).times_spec(self.cofactor(0, k - 1)),
            )
        }
    }

    /// The signed determinant of the minor at `(row, col)`.
    pub open spec fn cofactor(self, row: int, col: int) -> T
        decreases self.rows, 0nat, 0nat,
    {
        if self.rows == 0 {
            T::zero_spec()
        } else {
            Self::sign(row, col).times_spec(self.minor(row, col).determinant())
        }
    }

    /// `self` to the power `exponent` by repeated squaring: the half power
    /// squared, times `self` once more where the exponent is odd.
    pub open spec fn power(self, exponent: nat) -> Self
        decreases exponent,
    {
        if exponent == 0 {
            Self::identity(self.rows)
        } else if exponent == 1 {
            self
        } else {
            let half = self.power(exponent / 2);
            let square = half.product(half);
            if exponent % 2 == 0 {
                square
            } else {
                square.product(self)
            }
        }
    }

    /// The sum of the squares of the first `k` entries, summed from zero in
    /// increasing order.
    pub open spec fn square_sum(self, k: nat) -> T
        decreases k,
    {
        if k == 0 {
            T::zero_spec()
        } else {
            self.square_sum((k - 1) as nat).plus_spec(
                self.entries[k - 1].times_spec(self.entries[k - 1]),
            )
        }
    }
}

} // verus!
