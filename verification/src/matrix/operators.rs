//! Entrywise arithmetic and the matrix product.
use super::model::lemma_offset;
use super::Matrix;
use crate::error::MatrixError;
use crate::scalar::Scalar;
use vstd::prelude::*;

verus! {

impl<T: Scalar> Matrix<T> {
    /// Every entry times `rhs`, as a new matrix.
    pub fn scale(&self, rhs: T) -> (r: Self)
        ensures
            r@ == self@.scaled(rhs),
            r@.wf(),
    {
        proof {
            use_type_invariant(self);
        }
        let ghost goal = self@.scaled(rhs).entries;
        let mut data: Vec<T> = Vec::with_capacity(self.data.len());
        let mut k: usize = 0;
        while k < self.data.len()
            invariant
                k <= self.data.len(),
                goal == self@.scaled(rhs).entries,
                data@ =~= goal.take(k as int),
            decreases self.data.len() - k,
        {
            data.push(self.data[k].times(rhs));
            k = k + 1;
        }
        proof {
            assert(data@ =~= goal);
        }
        Matrix { m: self.m, n: self.n, data }
    }

    /// Multiplies every entry by `rhs` in place.
    pub fn scale_assign(&mut self, rhs: T)
        ensures
            final(self)@ == old(self)@.scaled(rhs),
    {
        let scaled = self.scale(rhs);
        *self = scaled;
    }

    /// The matrix product `self * rhs`, every entry summed from zero in
    /// increasing order of the inner index.
    pub fn mul(&self, rhs: &Matrix<T>) -> (r: Result<Self, MatrixError>)
        requires
            self@.rows * rhs@.cols <= usize::MAX,
        ensures
            match r {
                Ok(product) => self@.cols == rhs@.rows && product@ == self@.product(rhs@)
                    && product@.wf(),
                Err(e) => self@.cols != rhs@.rows && e == MatrixError::ShapeMismatch,
            },
    {
        if self.n != rhs.m {
            return Err(MatrixError::ShapeMismatch);
        }
        let ghost goal = self@.product(rhs@).entries;
        let mut data: Vec<T> = Vec::with_capacity(self.m * rhs.n);
        let mut m: usize = 0;
        while m < self.m
            invariant
                m <= self.m,
                self.n == rhs.m,
                self.m * rhs.n <= usize::MAX,
                goal == self@.product(rhs@).entries,
                data.len() == m * rhs.n,
                data@ =~= goal.take(m * rhs.n),
            decreases self.m - m,
        {
            let mut o: usize = 0;
            while o < rhs.n
                invariant
                    m < self.m,
                    o <= rhs.n,
                    self.n == rhs.m,
                    self.m * rhs.n <= usize::MAX,
                    goal == self@.product(rhs@).entries,
                    data.len() == m * rhs.n + o,
                    data@ =~= goal.take(m * rhs.n + o),
                decreases rhs.n - o,
            {
                let mut value = T::zero();
                let mut n: usize = 0;
                while n < self.n
                    invariant
                        m < self.m,
                        o < rhs.n,
                        n <= self.n,
                        self.n == rhs.m,
                        value == self@.inner(rhs@, m as int, o as int, n as nat),
                    decreases self.n - n,
                {
                    value = value.plus(self.entry(m, n).times(rhs.entry(n, o)));
                    n = n + 1;
                }
                proof {
                    lemma_offset(self.m as nat, rhs.n as nat, m as int, o as int);
                }
                data.push(value);
                o = o + 1;
            }
            proof {
                assert((m + 1) * rhs.n == m * rhs.n + rhs.n) by (nonlinear_arith);
            }
            m = m + 1;
        }
        proof {
            assert(data@ =~= goal);
        }
        Ok(Matrix { m: self.m, n: rhs.n, data })
    }

    /// Replaces `self` by the product `self * rhs`. The new shape is that of
    /// the product; operands that do not fit leave `self` as it was.
    pub fn mul_assign(&mut self, rhs: &Matrix<T>) -> (r: Result<(), MatrixError>)
        requires
            old(self)@.rows * rhs@.cols <= usize::MAX,
        ensures
            match r {
                Ok(_) => old(self)@.cols == rhs@.rows && final(self)@ == old(self)@.product(rhs@),
                Err(e) => old(self)@.cols != rhs@.rows && e == MatrixError::ShapeMismatch
                    && final(self)@ == old(self)@,
            },
    {
        match self.mul(rhs) {
            Ok(product) => {
                *self = product;
                Ok(())
            },
            Err(e) => Err(e),
        }
    }

    /// The entrywise sum of two matrices of one shape.
    pub fn add(&self, rhs: &Matrix<T>) -> (r: Result<Self, MatrixError>)
        ensures
            match r {
                Ok(sum) => self@.rows == rhs@.rows && self@.cols == rhs@.cols && sum@ == self@.sum(
                    rhs@,
                ) && sum@.wf(),
                Err(e) => !(self@.rows == rhs@.rows && self@.cols == rhs@.cols) && e
                    == MatrixError::ShapeMismatch,
            },
    {
        if self.m != rhs.m || self.n != rhs.n {
            return Err(MatrixError::ShapeMismatch);
        }
        proof {
            use_type_invariant(self);
            use_type_invariant(rhs);
        }
        let ghost goal = self@.sum(rhs@).entries;
        let mut data: Vec<T> = Vec::with_capacity(self.data.len());
        let mut i: usize = 0;
        while i < self.data.len()
            invariant
                i <= self.data.len(),
                self.data.len() == rhs.data.len(),
                goal == self@.sum(rhs@).entries,
                data@ =~= goal.take(i as int),
            decreases self.data.len() - i,
        {
            data.push(self.data[i].plus(rhs.data[i]));
            i = i + 1;
        }
        proof {
            assert(data@ =~= goal);
        }
        Ok(Matrix { m: self.m, n: self.n, data })
    }

    /// The entrywise difference of two matrices of one shape.
    pub fn sub(&self, rhs: &Matrix<T>) -> (r: Result<Self, MatrixError>)
        ensures
            match r {
                Ok(difference) => self@.rows == rhs@.rows && self@.cols == rhs@.cols
                    && difference@ == self@.difference(rhs@) && difference@.wf(),
                Err(e) => !(self@.rows == rhs@.rows && self@.cols == rhs@.cols) && e
                    == MatrixError::ShapeMismatch,
            },
    {
        if self.m != rhs.m || self.n != rhs.n {
            return Err(MatrixError::ShapeMismatch);
        }
        proof {
            use_type_invariant(self);
            use_type_invariant(rhs);
        }
        let ghost goal = self@.difference(rhs@).entries;
        let mut data: Vec<T> = Vec::with_capacity(self.data.len());
        let mut i: usize = 0;
        while i < self.data.len()
            invariant
                i <= self.data.len(),
                self.data.len() == rhs.data.len(),
                goal == self@.difference(rhs@).entries,
                data@ =~= goal.take(i as int),
            decreases self.data.len() - i,
        {
            data.push(self.data[i].minus(rhs.data[i]));
            i = i + 1;
        }
        proof {
            assert(data@ =~= goal);
        }
        Ok(Matrix { m: self.m, n: self.n, data })
    }

    /// Every entry negated, as a new matrix.
    pub fn neg(&self) -> (r: Self)
        ensures
            r@ == self@.negated(),
            r@.wf(),
    {
        proof {
            use_type_invariant(self);
        }
        let ghost goal = self@.negated().entries;
        let mut data: Vec<T> = Vec::with_capacity(self.data.len());
        let mut k: usize = 0;
        while k < self.data.len()
            invariant
                k <= self.data.len(),
                goal == self@.negated().entries,
                data@ =~= goal.take(k as int),
            decreases self.data.len() - k,
        {
            data.push(self.data[k].negate());
            k = k + 1;
        }
        proof {
            assert(data@ =~= goal);
        }
        Matrix { m: self.m, n: self.n, data }
    }
}

} // verus!
