//! Transpose, minors and the determinant, integer powers and the vector
//! products.
use super::model::{lemma_offset, MatrixView};
use super::Matrix;
use crate::error::MatrixError;
use crate::scalar::Scalar;
use vstd::prelude::*;

verus! {

impl<T: Scalar> Matrix<T> {
    /// Transposes the matrix in place.
    #[allow(non_snake_case)]
    pub fn T_ip(&mut self)
        ensures
            final(self)@ == old(self)@.transpose(),
    {
        proof {
            use_type_invariant(&*self);
            assert(self.m * self.n == self.n * self.m) by (nonlinear_arith);
        }
        let ghost goal = self@.transpose().entries;
        let mut new_data: Vec<T> = Vec::with_capacity(self.data.len());
        let mut n: usize = 0;
        while n < self.n
            invariant
                n <= self.n,
                self.n * self.m <= usize::MAX,
                goal == self@.transpose().entries,
                new_data.len() == n * self.m,
                new_data@ =~= goal.take(n * self.m),
            decreases self.n - n,
        {
            let mut m: usize = 0;
            while m < self.m
                invariant
                    n < self.n,
                    m <= self.m,
                    self.n * self.m <= usize::MAX,
                    goal == self@.transpose().entries,
                    new_data.len() == n * self.m + m,
                    new_data@ =~= goal.take(n * self.m + m),
                decreases self.m - m,
            {
                proof {
                    lemma_offset(self.n as nat, self.m as nat, n as int, m as int);
                }
                new_data.push(self.entry(m, n));
                m = m + 1;
            }
            proof {
                assert((n + 1) * self.m == n * self.m + self.m) by (nonlinear_arith);
            }
            n = n + 1;
        }
        proof {
            assert(new_data@ =~= goal);
        }
        *self = Matrix { m: self.n, n: self.m, data: new_data };
    }

    /// The transpose as a new matrix.
    #[allow(non_snake_case)]
    pub fn T(&self) -> (r: Matrix<T>)
        ensures
            r@ == self@.transpose(),
            r@.wf(),
    {
        let mut result = self.clone();
        result.T_ip();
        proof {
            use_type_invariant(&result);
        }
        result
    }

    /// The matrix without row `row_exclude` and column `col_exclude`.
    pub fn minor_matrix(&self, row_exclude: usize, col_exclude: usize) -> (r: Result<
        Matrix<T>,
        MatrixError,
    >)
        ensures
            match r {
                Ok(minor) => self@.in_bounds(row_exclude as int, col_exclude as int) && minor@
                    == self@.minor(row_exclude as int, col_exclude as int) && minor@.wf(),
                Err(e) => !self@.in_bounds(row_exclude as int, col_exclude as int) && e
                    == MatrixError::IndexOutOfBounds,
            },
    {
        if !(row_exclude < self.m && col_exclude < self.n) {
            return Err(MatrixError::IndexOutOfBounds);
        }
        proof {
            use_type_invariant(self);
            assert((self.m - 1) * (self.n - 1) <= self.m * self.n) by (nonlinear_arith)
                requires
                    self.m >= 1,
                    self.n >= 1,
            ;
        }
        let ghost goal = self@.minor(row_exclude as int, col_exclude as int).entries;
        let ghost width = self.n - 1;
        let mut minor_data: Vec<T> = Vec::with_capacity((self.m - 1) * (self.n - 1));
        let mut m: usize = 0;
        while m < self.m
            invariant
                m <= self.m,
                row_exclude < self.m,
                col_exclude < self.n,
                width == self.n - 1,
                (self.m - 1) * width <= usize::MAX,
                goal == self@.minor(row_exclude as int, col_exclude as int).entries,
                minor_data.len() == (if m <= row_exclude {
                    m as int
                } else {
                    m - 1
                }) * width,
                minor_data@ =~= goal.take(minor_data.len() as int),
            decreases self.m - m,
        {
            let ghost kept_rows = if m <= row_exclude {
                m as int
            } else {
                m - 1
            };
            let mut n: usize = 0;
            while n < self.n
                invariant
                    m < self.m,
                    n <= self.n,
                    row_exclude < self.m,
                    col_exclude < self.n,
                    width == self.n - 1,
                    (self.m - 1) * width <= usize::MAX,
                    goal == self@.minor(row_exclude as int, col_exclude as int).entries,
                    kept_rows == (if m <= row_exclude {
                        m as int
                    } else {
                        m - 1
                    }),
                    minor_data.len() == kept_rows * width + (if m == row_exclude {
                        0
                    } else if n <= col_exclude {
                        n as int
                    } else {
                        n - 1
                    }),
                    minor_data@ =~= goal.take(minor_data.len() as int),
                decreases self.n - n,
            {
                if m != row_exclude && n != col_exclude {
                    proof {
                        let kept_cols = if n <= col_exclude {
                            n as int
                        } else {
                            n - 1
                        };
                        lemma_offset((self.m - 1) as nat, width as nat, kept_rows, kept_cols);
                    }
                    minor_data.push(self.entry(m, n));
                }
                n = n + 1;
            }
            proof {
                assert((kept_rows + 1) * width == kept_rows * width + width) by (nonlinear_arith);
            }
            m = m + 1;
        }
        proof {
            assert(minor_data@ =~= goal);
        }
        Ok(Matrix { m: self.m - 1, n: self.n - 1, data: minor_data })
    }

    /// The cofactor at `(row, col)`: the determinant of the minor there,
    /// negated where `row + col` is odd.
    pub fn cofactor(&self, row: usize, col: usize) -> (r: Result<T, MatrixError>)
        ensures
            match r {
                Ok(value) => self@.in_bounds(row as int, col as int) && self@.is_quadratic()
                    && value == self@.cofactor(row as int, col as int),
                Err(e) => if self@.in_bounds(row as int, col as int) {
                    !self@.is_quadratic() && e == MatrixError::NonSquareMatrix
                } else {
                    e == MatrixError::IndexOutOfBounds
                },
            },
        decreases self@.rows, 0nat,
    {
        let minor_matrix = match self.minor_matrix(row, col) {
            Ok(minor) => minor,
            Err(e) => {
                return Err(e);
            },
        };
        proof {
            use_type_invariant(self);
            assert(row + col <= usize::MAX) by (nonlinear_arith)
                requires
                    row < self.m,
                    col < self.n,
                    self.m * self.n <= usize::MAX,
            ;
        }
        let sign = if (row + col) % 2 == 0 {
            T::one()
        } else {
            T::one().negate()
        };
        match minor_matrix.determinant() {
            Ok(det) => Ok(sign.times(det)),
            Err(e) => Err(e),
        }
    }

    /// The determinant by cofactor expansion along the first row, the terms
    /// summed from zero in increasing order of the column.
    pub fn determinant(&self) -> (r: Result<T, MatrixError>)
        ensures
            match r {
                Ok(det) => self@.is_quadratic() && det == self@.determinant(),
                Err(e) => !self@.is_quadratic() && e == MatrixError::NonSquareMatrix,
            },
        decreases self@.rows, 1nat,
    {
        if !self.is_quadratic() {
            return Err(MatrixError::NonSquareMatrix);
        }
        if self.m == 1 {
            proof {
                lemma_offset(1, 1, 0, 0);
            }
            Ok(self.entry(0, 0))
        } else {
            let mut det = T::zero();
            let mut n: usize = 0;
            while n < self.n
                invariant
                    n <= self.n,
                    self.m == self.n,
                    self.m != 1,
                    det == self@.expansion(n as nat),
                decreases self.n - n,
            {
                let cofactor = match self.cofactor(0, n) {
                    Ok(value) => value,
                    Err(e) => {
                        return Err(e);
                    },
                };
                det = det.plus(self.entry(0, n).times(cofactor));
                n = n + 1;
            }
            Ok(det)
        }
    }

    /// The dot product of a row vector with a column vector of the same
    /// length, summed from zero in increasing order.
    pub fn dot(&self, rhs: &Matrix<T>) -> (r: Result<T, MatrixError>)
        ensures
            match r {
                Ok(value) => self@.is_row_vector() && rhs@.is_column_vector() && self@.cols
                    == rhs@.rows && value == self@.dot(rhs@),
                Err(e) => !(self@.is_row_vector() && rhs@.is_column_vector() && self@.cols
                    == rhs@.rows) && e == MatrixError::InvalidVectorShape,
            },
    {
        if !(self.is_row_vector() && rhs.is_column_vector()) {
            return Err(MatrixError::InvalidVectorShape);
        }
        if self.len() != rhs.len() {
            return Err(MatrixError::InvalidVectorShape);
        }
        proof {
            use_type_invariant(self);
            use_type_invariant(rhs);
        }
        let mut value = T::zero();
        let mut k: usize = 0;
        while k < self.data.len()
            invariant
                k <= self.data.len(),
                self.data.len() == rhs.data.len(),
                value == self@.dot_prefix(rhs@, k as nat),
            decreases self.data.len() - k,
        {
            value = value.plus(self.data[k].times(rhs.data[k]));
            k = k + 1;
        }
        Ok(value)
    }

    /// The outer product of a column vector with a row vector.
    pub fn dyadic(&self, rhs: &Matrix<T>) -> (r: Result<Matrix<T>, MatrixError>)
        requires
            self@.rows * rhs@.cols <= usize::MAX,
        ensures
            match r {
                Ok(outer) => self@.is_column_vector() && rhs@.is_row_vector() && outer@
                    == self@.dyadic(rhs@) && outer@.wf(),
                Err(e) => !(self@.is_column_vector() && rhs@.is_row_vector()) && e
                    == MatrixError::InvalidVectorShape,
            },
    {
        if !(self.is_column_vector() && rhs.is_row_vector()) {
            return Err(MatrixError::InvalidVectorShape);
        }
        proof {
            use_type_invariant(self);
            use_type_invariant(rhs);
        }
        let ghost goal = self@.dyadic(rhs@).entries;
        let mut result_data: Vec<T> = Vec::with_capacity(self.m * rhs.n);
        let mut m: usize = 0;
        while m < self.m
            invariant
                m <= self.m,
                self.n == 1,
                rhs.m == 1,
                self.data.len() == self.m,
                rhs.data.len() == rhs.n,
                self.m * rhs.n <= usize::MAX,
                goal == self@.dyadic(rhs@).entries,
                result_data.len() == m * rhs.n,
                result_data@ =~= goal.take(m * rhs.n),
            decreases self.m - m,
        {
            let mut n: usize = 0;
            while n < rhs.n
                invariant
                    m < self.m,
                    n <= rhs.n,
                    self.data.len() == self.m,
                    rhs.data.len() == rhs.n,
                    self.m * rhs.n <= usize::MAX,
                    goal == self@.dyadic(rhs@).entries,
                    result_data.len() == m * rhs.n + n,
                    result_data@ =~= goal.take(m * rhs.n + n),
                decreases rhs.n - n,
            {
                proof {
                    lemma_offset(self.m as nat, rhs.n as nat, m as int, n as int);
                }
                result_data.push(self.data[m].times(rhs.data[n]));
                n = n + 1;
            }
            proof {
                assert((m + 1) * rhs.n == m * rhs.n + rhs.n) by (nonlinear_arith);
            }
            m = m + 1;
        }
        proof {
            assert(result_data@ =~= goal);
        }
        Ok(Matrix { m: self.m, n: rhs.n, data: result_data })
    }

    /// The cross product of two column vectors with three entries each.
    pub fn cross(&self, rhs: &Matrix<T>) -> (r: Result<Matrix<T>, MatrixError>)
        ensures
            match r {
                Ok(product) => self@.is_column_vector() && self@.rows == 3
                    && rhs@.is_column_vector() && rhs@.rows == 3 && product@ == self@.cross(rhs@)
                    && product@.wf(),
                Err(e) => !(self@.is_column_vector() && self@.rows == 3 && rhs@.is_column_vector()
                    && rhs@.rows == 3) && e == MatrixError::InvalidVectorShape,
            },
    {
        if !(self.is_column_vector() && self.len() == 3 && rhs.is_column_vector() && rhs.len()
            == 3) {
            return Err(MatrixError::InvalidVectorShape);
        }
        proof {
            use_type_invariant(self);
            use_type_invariant(rhs);
        }
        let l = &self.data;
        let r = &rhs.data;
        let mut data: Vec<T> = Vec::with_capacity(3);
        data.push(l[1].times(r[2]).minus(l[2].times(r[1])));
        data.push(l[2].times(r[0]).minus(l[0].times(r[2])));
        data.push(l[0].times(r[1]).minus(l[1].times(r[0])));
        proof {
            assert(data@ =~= self@.cross(rhs@).entries);
        }
        Ok(Matrix { m: 3, n: 1, data })
    }

    /// `self` to the power `exponent`, as a new matrix.
    pub fn pow(&self, exponent: u64) -> (r: Result<Matrix<T>, MatrixError>)
        ensures
            match r {
                Ok(power) => self@.is_quadratic() && power@ == self@.power(exponent as nat)
                    && power@.wf(),
                Err(e) => !self@.is_quadratic() && e == MatrixError::NonSquareMatrix,
            },
    {
        let mut result = self.clone();
        match result.pow_ip(exponent) {
            Ok(_) => {
                proof {
                    use_type_invariant(&result);
                }
                Ok(result)
            },
            Err(e) => Err(e),
        }
    }

    /// Raises `self` to the power `exponent` in place, by repeated squaring.
    /// A matrix that is not square is left as it was.
    pub fn pow_ip(&mut self, exponent: u64) -> (r: Result<(), MatrixError>)
        ensures
            match r {
                Ok(_) => old(self)@.is_quadratic() && final(self)@ == old(self)@.power(
                    exponent as nat,
                ),
                Err(e) => !old(self)@.is_quadratic() && e == MatrixError::NonSquareMatrix
                    && final(self)@ == old(self)@,
            },
        decreases exponent,
    {
        if !self.is_quadratic() {
            return Err(MatrixError::NonSquareMatrix);
        }
        proof {
            use_type_invariant(&*self);
        }
        if exponent == 0 {
            *self = Matrix::identity(self.m);
            return Ok(());
        } else if exponent == 1 {
            return Ok(());
        }
        let ghost base = self@;
        proof {
            base.lemma_power_shape((exponent / 2) as nat);
        }
        if exponent == 2 {
            let copy = self.clone();
            self.mul_assign(&copy)
        } else if exponent % 2 == 0 {
            match self.pow_ip(exponent / 2) {
                Ok(_) => {},
                Err(e) => {
                    return Err(e);
                },
            }
            let half = self.clone();
            self.mul_assign(&half)
        } else {
            let factor = self.clone();
            match self.pow_ip(exponent / 2) {
                Ok(_) => {},
                Err(e) => {
                    return Err(e);
                },
            }
            let half = self.clone();
            match self.mul_assign(&half) {
                Ok(_) => {},
                Err(e) => {
                    return Err(e);
                },
            }
            self.mul_assign(&factor)
        }
    }
}

impl<T: Scalar> MatrixView<T> {
    /// A power of a well-formed square matrix is well-formed and has its
    /// shape.
    pub proof fn lemma_power_shape(self, exponent: nat)
        requires
            self.wf(),
            self.is_quadratic(),
        ensures
            self.power(exponent).wf(),
            self.power(exponent).rows == self.rows,
            self.power(exponent).cols == self.cols,
        decreases exponent,
    {
        if exponent >= 2 {
            self.lemma_power_shape(exponent / 2);
        }
    }
}

} // verus!
