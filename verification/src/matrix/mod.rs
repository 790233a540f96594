//! Dense matrices over a scalar type: storage, shape and indexing.
use crate::error::MatrixError;
use crate::scalar::Scalar;
use vstd::prelude::*;

pub mod algorithms;
pub mod laws;
pub mod model;
pub mod operators;
pub mod text;
pub mod transforms;

use model::{lemma_offset, MatrixView};

verus! {

/// An `m` by `n` matrix that owns its entries in row-major order.
#[derive(Debug)]
pub struct Matrix<T: Scalar> {
    m: usize,
    n: usize,
    data: Vec<T>,
}

impl<T: Scalar> View for Matrix<T> {
    type V = MatrixView<T>;

    closed spec fn view(&self) -> MatrixView<T> {
        MatrixView { rows: self.m as nat, cols: self.n as nat, entries: self.data@ }
    }
}

impl<T: Scalar> Clone for Matrix<T> {
    fn clone(&self) -> (r: Self)
        ensures
            r@ == self@,
    {
        proof {
            use_type_invariant(self);
        }
        let mut data: Vec<T> = Vec::with_capacity(self.data.len());
        let mut k: usize = 0;
        while k < self.data.len()
            invariant
                k <= self.data.len(),
                data@ =~= self.data@.take(k as int),
            decreases self.data.len() - k,
        {
            data.push(self.data[k]);
            k = k + 1;
        }
        proof {
            assert(data@ =~= self.data@);
        }
        Matrix { m: self.m, n: self.n, data }
    }
}

impl<T: Scalar> Matrix<T> {
    #[verifier::type_invariant]
    spec fn well_formed(self) -> bool {
        self.data.len() == self.m * self.n
    }

    /// The number of entries.
    pub fn len(&self) -> (r: usize)
        ensures
            r == self@.entries.len(),
            r == self@.rows * self@.cols,
            self@.wf(),
    {
        proof {
            use_type_invariant(self);
        }
        self.data.len()
    }

    /// Rows and columns.
    pub fn shape(&self) -> (r: (usize, usize))
        ensures
            r.0 == self@.rows,
            r.1 == self@.cols,
    {
        (self.m, self.n)
    }

    /// As many rows as columns.
    pub fn is_quadratic(&self) -> (r: bool)
        ensures
            r == self@.is_quadratic(),
    {
        self.m == self.n
    }

    /// A single row.
    pub fn is_row_vector(&self) -> (r: bool)
        ensures
            r == self@.is_row_vector(),
    {
        self.m == 1
    }

    /// A single column.
    pub fn is_column_vector(&self) -> (r: bool)
        ensures
            r == self@.is_column_vector(),
    {
        self.n == 1
    }

    /// A single row or a single column.
    pub fn is_vector(&self) -> (r: bool)
        ensures
            r == self@.is_vector(),
    {
        self.is_column_vector() || self.is_row_vector()
    }

    /// The matrix of the given shape over a row-major buffer. The buffer must
    /// hold exactly `shape.0 * shape.1` entries.
    pub fn from(data: Vec<T>, shape: (usize, usize)) -> (r: Result<Self, MatrixError>)
        ensures
            match r {
                Ok(matrix) => data@.len() == shape.0 * shape.1 && matrix@ == (MatrixView {
                    rows: shape.0 as nat,
                    cols: shape.1 as nat,
                    entries: data@,
                }),
                Err(e) => data@.len() != shape.0 * shape.1 && e == MatrixError::ShapeMismatch,
            },
    {
        let len = data.len();
        match shape.0.checked_mul(shape.1) {
            Some(count) => {
                if len == count {
                    Ok(Matrix { m: shape.0, n: shape.1, data })
                } else {
                    Err(MatrixError::ShapeMismatch)
                }
            },
            None => Err(MatrixError::ShapeMismatch),
        }
    }

    /// The matrix with the rows of a nested array literal.
    pub fn new<const M: usize, const N: usize>(raw_data: [[T; N]; M]) -> (r: Self)
        requires
            M * N <= usize::MAX,
        ensures
            r@ == MatrixView::build(M as nat, N as nat, |i: int, j: int| raw_data[i][j]),
            r@.wf(),
    {
        let mut data: Vec<T> = Vec::with_capacity(M * N);
        let mut i: usize = 0;
        while i < M
            invariant
                i <= M,
                M * N <= usize::MAX,
                data.len() == i * N,
                forall|k: int|
                    0 <= k < data.len() ==> data[k] == raw_data[k / (N as int)][k % (N as int)],
            decreases M - i,
        {
            let mut j: usize = 0;
            while j < N
                invariant
                    i < M,
                    j <= N,
                    M * N <= usize::MAX,
                    data.len() == i * N + j,
                    forall|k: int|
                        0 <= k < data.len() ==> data[k] == raw_data[k / (N as int)][k % (N as int)],
                decreases N - j,
            {
                proof {
                    lemma_offset(M as nat, N as nat, i as int, j as int);
                }
                data.push(raw_data[i][j]);
                j = j + 1;
            }
            proof {
                assert((i + 1) * N == i * N + N) by (nonlinear_arith);
            }
            i = i + 1;
        }
        proof {
            assert(data@ =~= MatrixView::build(
                M as nat,
                N as nat,
                |i: int, j: int| raw_data[i][j],
            ).entries);
        }
        Matrix { m: M, n: N, data }
    }

    /// The matrix of the given shape filled with zero.
    pub fn zeros(shape: (usize, usize)) -> (r: Self)
        requires
            shape.0 * shape.1 <= usize::MAX,
        ensures
            r@ == MatrixView::constant(T::zero_spec(), shape.0 as nat, shape.1 as nat),
            r@.wf(),
    {
        Self::fill(T::zero(), shape)
    }

    /// The matrix of the given shape filled with `value`.
    pub fn fill(value: T, shape: (usize, usize)) -> (r: Self)
        requires
            shape.0 * shape.1 <= usize::MAX,
        ensures
            r@ == MatrixView::constant(value, shape.0 as nat, shape.1 as nat),
            r@.wf(),
    {
        let count = shape.0 * shape.1;
        let mut data: Vec<T> = Vec::with_capacity(count);
        let mut k: usize = 0;
        while k < count
            invariant
                k <= count,
                data.len() == k,
                forall|i: int| 0 <= i < k ==> data[i] == value,
            decreases count - k,
        {
            data.push(value);
            k = k + 1;
        }
        proof {
            assert(data@ =~= MatrixView::constant(value, shape.0 as nat, shape.1 as nat).entries);
        }
        Matrix { m: shape.0, n: shape.1, data }
    }

    /// The square matrix of the given size with one on the diagonal and zero
    /// elsewhere.
    pub fn identity(size: usize) -> (r: Self)
        requires
            size * size <= usize::MAX,
        ensures
            r@ == MatrixView::<T>::identity(size as nat),
            r@.wf(),
    {
        let mut data: Vec<T> = Vec::with_capacity(size * size);
        let mut i: usize = 0;
        while i < size
            invariant
                i <= size,
                size * size <= usize::MAX,
                data.len() == i * size,
                data@ =~= MatrixView::<T>::identity(size as nat).entries.take(i * size),
            decreases size - i,
        {
            let mut j: usize = 0;
            while j < size
                invariant
                    i < size,
                    j <= size,
                    size * size <= usize::MAX,
                    data.len() == i * size + j,
                    data@ =~= MatrixView::<T>::identity(size as nat).entries.take(i * size + j),
                decreases size - j,
            {
                proof {
                    lemma_offset(size as nat, size as nat, i as int, j as int);
                }
                if i == j {
                    data.push(T::one());
                } else {
                    data.push(T::zero());
                }
                j = j + 1;
            }
            proof {
                assert((i + 1) * size == i * size + size) by (nonlinear_arith);
            }
            i = i + 1;
        }
        proof {
            assert(data@ =~= MatrixView::<T>::identity(size as nat).entries);
        }
        Matrix { m: size, n: size, data }
    }

    /// The rows named by `row_slice`, in that order, as a new matrix.
    pub fn get_rows(&self, row_slice: &[usize]) -> (r: Result<Self, MatrixError>)
        requires
            row_slice@.len() * self@.cols <= usize::MAX,
        ensures
            match r {
                Ok(picked) => (forall|i: int|
                    0 <= i < row_slice@.len() ==> row_slice@[i] < self@.rows) && picked@
                    == self@.select_rows(row_slice@) && picked@.wf(),
                Err(e) => (exists|i: int| 0 <= i < row_slice@.len() && row_slice@[i] >= self@.rows)
                    && e == MatrixError::IndexOutOfBounds,
            },
    {
        let count = row_slice.len();
        let ghost goal = self@.select_rows(row_slice@).entries;
        let mut data: Vec<T> = Vec::with_capacity(count * self.n);
        let mut i: usize = 0;
        while i < count
            invariant
                i <= count,
                count == row_slice@.len(),
                count * self.n <= usize::MAX,
                goal == self@.select_rows(row_slice@).entries,
                forall|k: int| 0 <= k < i ==> row_slice@[k] < self@.rows,
                data.len() == i * self.n,
                data@ =~= goal.take(i * self.n),
            decreases count - i,
        {
            let row = row_slice[i];
            if row >= self.m {
                proof {
                    assert(0 <= i < row_slice@.len() && row_slice@[i as int] >= self@.rows);
                }
                return Err(MatrixError::IndexOutOfBounds);
            }
            let mut j: usize = 0;
            while j < self.n
                invariant
                    i < count,
                    j <= self.n,
                    count == row_slice@.len(),
                    count * self.n <= usize::MAX,
                    goal == self@.select_rows(row_slice@).entries,
                    row == row_slice@[i as int],
                    row < self.m,
                    data.len() == i * self.n + j,
                    data@ =~= goal.take(i * self.n + j),
                decreases self.n - j,
            {
                proof {
                    lemma_offset(count as nat, self.n as nat, i as int, j as int);
                }
                data.push(self.entry(row, j));
                j = j + 1;
            }
            proof {
                assert((i + 1) * self.n == i * self.n + self.n) by (nonlinear_arith);
            }
            i = i + 1;
        }
        proof {
            assert(data@ =~= goal);
        }
        Ok(Matrix { m: count, n: self.n, data })
    }

    /// Column `column_idx` as a column vector.
    pub fn get_column(&self, column_idx: usize) -> (r: Result<Self, MatrixError>)
        ensures
            match r {
                Ok(picked) => column_idx < self@.cols && picked@ == self@.column(
                    column_idx as int,
                ) && picked@.wf(),
                Err(e) => column_idx >= self@.cols && e == MatrixError::IndexOutOfBounds,
            },
    {
        if column_idx >= self.n {
            return Err(MatrixError::IndexOutOfBounds);
        }
        let ghost goal = self@.column(column_idx as int).entries;
        let mut data: Vec<T> = Vec::with_capacity(self.m);
        let mut i: usize = 0;
        while i < self.m
            invariant
                i <= self.m,
                column_idx < self.n,
                goal == self@.column(column_idx as int).entries,
                data.len() == i,
                data@ =~= goal.take(i as int),
            decreases self.m - i,
        {
            proof {
                lemma_offset(self.m as nat, 1, i as int, 0);
            }
            data.push(self.entry(i, column_idx));
            i = i + 1;
        }
        proof {
            assert(data@ =~= goal);
        }
        Ok(Matrix { m: self.m, n: 1, data })
    }

    /// The entry at `index = (row, column)`.
    pub fn index(&self, index: (usize, usize)) -> (r: Result<&T, MatrixError>)
        ensures
            match r {
                Ok(entry) => self@.in_bounds(index.0 as int, index.1 as int) && *entry
                    == self@.at(index.0 as int, index.1 as int),
                Err(e) => !self@.in_bounds(index.0 as int, index.1 as int) && e
                    == MatrixError::IndexOutOfBounds,
            },
    {
        if index.0 < self.m && index.1 < self.n {
            proof {
                use_type_invariant(self);
                lemma_offset(self.m as nat, self.n as nat, index.0 as int, index.1 as int);
            }
            Ok(&self.data[index.0 * self.n + index.1])
        } else {
            Err(MatrixError::IndexOutOfBounds)
        }
    }

    /// Mutable access to the entry at `index = (row, column)`.
    pub fn index_mut(&mut self, index: (usize, usize)) -> (r: Result<&mut T, MatrixError>)
        ensures
            match r {
                Ok(entry) => old(self)@.in_bounds(index.0 as int, index.1 as int)
                    && *entry == old(self)@.at(index.0 as int, index.1 as int)
                    && final(self)@ == (MatrixView {
                    rows: old(self)@.rows,
                    cols: old(self)@.cols,
                    entries: old(self)@.entries.update(
                        index.0 * old(self)@.cols + index.1,
                        *final(entry),
                    ),
                }),
                Err(e) => !old(self)@.in_bounds(index.0 as int, index.1 as int) && e
                    == MatrixError::IndexOutOfBounds && final(self)@ == old(self)@,
            },
    {
        proof {
            use_type_invariant(&*self);
        }
        if index.0 < self.m && index.1 < self.n {
            proof {
                lemma_offset(self.m as nat, self.n as nat, index.0 as int, index.1 as int);
            }
            let offset = index.0 * self.n + index.1;
            Ok(&mut self.data[offset])
        } else {
            Err(MatrixError::IndexOutOfBounds)
        }
    }

    /// The entry at `(row, col)`, for indices known to be in range.
    pub(crate) fn entry(&self, row: usize, col: usize) -> (r: T)
        requires
            self@.in_bounds(row as int, col as int),
        ensures
            r == self@.at(row as int, col as int),
            self@.wf(),
    {
        proof {
            use_type_invariant(self);
            lemma_offset(self.m as nat, self.n as nat, row as int, col as int);
        }
        self.data[row * self.n + col]
    }
}

} // verus!
