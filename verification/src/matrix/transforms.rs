//! The Householder reflector, the rotation matrices and the mean of squares.
use super::model::MatrixView;
use super::Matrix;
use crate::cordic::{sincos, sincos_spec, two, TWO_BITS};
use crate::error::MatrixError;
use crate::scalar::{Real, Scalar};
use vstd::prelude::*;

verus! {

impl<T: Scalar> MatrixView<T> {
    /// The plane rotation with the given sine and cosine.
    pub open spec fn rotation_2d(sin: T, cos: T) -> Self {
        MatrixView { rows: 2, cols: 2, entries: seq![cos, sin.negate_spec(), sin, cos] }
    }

    /// The rotation composed of a yaw, a pitch and a roll, from the sines and
    /// cosines of the three angles.
    pub open spec fn rotation_3d(
        cos_yaw: T,
        sin_yaw: T,
        cos_pitch: T,
        sin_pitch: T,
        cos_roll: T,
        sin_roll: T,
    ) -> Self {
        MatrixView {
            rows: 3,
            cols: 3,
            entries: seq![
                cos_yaw.times_spec(cos_pitch),
                cos_yaw.times_spec(sin_pitch).times_spec(sin_roll).minus_spec(
                    sin_yaw.times_spec(cos_roll),
                ),
                cos_yaw.times_spec(sin_pitch).times_spec(cos_roll).plus_spec(
                    sin_yaw.times_spec(sin_roll),
                ),
                sin_yaw.times_spec(cos_pitch),
                sin_yaw.times_spec(sin_pitch).times_spec(sin_roll).plus_spec(
                    cos_yaw.times_spec(cos_roll),
                ),
                sin_yaw.times_spec(sin_pitch).times_spec(cos_roll).minus_spec(
                    cos_yaw.times_spec(sin_roll),
                ),
                sin_pitch.negate_spec(),
                cos_pitch.times_spec(sin_roll),
                cos_pitch.times_spec(cos_roll),
            ],
        }
    }
}

impl<T: Real> MatrixView<T> {
    /// The reflector `I - 2 (v vT) / (vT v)` of a column vector `v`.
    pub open spec fn householder(self) -> Self {
        let norm = self.transpose().dot(self);
        let outer = self.dyadic(self.transpose());
        Self::identity(self.rows).difference(outer.scaled(two::<T>().over_spec(norm)))
    }

    /// The sum of the squares of all entries over their number.
    pub open spec fn mean_square(self) -> T {
        self.square_sum(self.entries.len()).over_spec(
            T::from_count_spec(self.entries.len() as usize),
        )
    }
}

impl<T: Scalar> Matrix<T> {
    /// The plane rotation `[[cos, -sin], [sin, cos]]` from the sine and the
    /// cosine of its angle.
    pub fn rotation_2d_from(sin: T, cos: T) -> (r: Self)
        ensures
            r@ == MatrixView::rotation_2d(sin, cos),
            r@.wf(),
    {
        let r = Matrix::new([[cos, sin.negate()], [sin, cos]]);
        proof {
            assert(r@.entries =~= MatrixView::rotation_2d(sin, cos).entries);
        }
        r
    }

    /// The yaw-pitch-roll rotation from the sines and cosines of the three
    /// angles, every entry by its closed formula.
    pub fn rotation_3d_from(
        cos_yaw: T,
        sin_yaw: T,
        cos_pitch: T,
        sin_pitch: T,
        cos_roll: T,
        sin_roll: T,
    ) -> (r: Self)
        ensures
            r@ == MatrixView::rotation_3d(
                cos_yaw,
                sin_yaw,
                cos_pitch,
                sin_pitch,
                cos_roll,
                sin_roll,
            ),
            r@.wf(),
    {
        let r = Matrix::new(
            [
                [
                    cos_yaw.times(cos_pitch),
                    cos_yaw.times(sin_pitch).times(sin_roll).minus(sin_yaw.times(cos_roll)),
                    cos_yaw.times(sin_pitch).times(cos_roll).plus(sin_yaw.times(sin_roll)),
                ],
                [
                    sin_yaw.times(cos_pitch),
                    sin_yaw.times(sin_pitch).times(sin_roll).plus(cos_yaw.times(cos_roll)),
                    sin_yaw.times(sin_pitch).times(cos_roll).minus(cos_yaw.times(sin_roll)),
                ],
                [sin_pitch.negate(), cos_pitch.times(sin_roll), cos_pitch.times(cos_roll)],
            ],
        );
        proof {
            assert(r@.entries =~= MatrixView::rotation_3d(
                cos_yaw,
                sin_yaw,
                cos_pitch,
                sin_pitch,
                cos_roll,
                sin_roll,
            ).entries);
        }
        r
    }
}

impl<T: Real> Matrix<T> {
    /// The plane rotation by `angle` radians, its sine and cosine from
    /// [`sincos`].
    pub fn rotation_2d(angle: T) -> (r: Self)
        ensures
            r@ == MatrixView::rotation_2d(sincos_spec(angle).1, sincos_spec(angle).0),
            r@.wf(),
    {
        let (cos, sin) = sincos(angle);
        Self::rotation_2d_from(sin, cos)
    }

    /// The rotation by the given yaw, pitch and roll in radians, their sines
    /// and cosines from [`sincos`].
    pub fn rotation_3d(yaw: T, pitch: T, roll: T) -> (r: Self)
        ensures
            r@ == MatrixView::rotation_3d(
                sincos_spec(yaw).0,
                sincos_spec(yaw).1,
                sincos_spec(pitch).0,
                sincos_spec(pitch).1,
                sincos_spec(roll).0,
                sincos_spec(roll).1,
            ),
            r@.wf(),
    {
        let (cos_yaw, sin_yaw) = sincos(yaw);
        let (cos_pitch, sin_pitch) = sincos(pitch);
        let (cos_roll, sin_roll) = sincos(roll);
        Self::rotation_3d_from(cos_yaw, sin_yaw, cos_pitch, sin_pitch, cos_roll, sin_roll)
    }

    /// The Householder reflector of a column vector.
    pub fn transform_householder(&self) -> (r: Result<Matrix<T>, MatrixError>)
        requires
            self@.rows * self@.rows <= usize::MAX,
        ensures
            match r {
                Ok(reflector) => self@.is_column_vector() && reflector@ == self@.householder()
                    && reflector@.wf(),
                Err(e) => !self@.is_column_vector() && e == MatrixError::InvalidVectorShape,
            },
    {
        if !self.is_column_vector() {
            return Err(MatrixError::InvalidVectorShape);
        }
        let transposed = self.T();
        let norm = match transposed.dot(self) {
            Ok(value) => value,
            Err(e) => {
                return Err(e);
            },
        };
        let outer = match self.dyadic(&transposed) {
            Ok(matrix) => matrix,
            Err(e) => {
                return Err(e);
            },
        };
        let rhs = outer.scale(T::from_ieee_bits(TWO_BITS).over(norm));
        let size = self.len();
        match Matrix::identity(size).sub(&rhs) {
            Ok(reflector) => Ok(reflector),
            Err(e) => Err(e),
        }
    }

    /// The sum of the squares of all entries, summed from zero in increasing
    /// order, over the number of entries.
    pub fn norm_l2(&self) -> (r: T)
        ensures
            r == self@.mean_square(),
    {
        proof {
            use_type_invariant(self);
        }
        let mut result = T::zero();
        let mut k: usize = 0;
        while k < self.data.len()
            invariant
                k <= self.data.len(),
                result == self@.square_sum(k as nat),
            decreases self.data.len() - k,
        {
            result = result.plus(self.data[k].times(self.data[k]));
            k = k + 1;
        }
        result.over(T::from_count(self.data.len()))
    }
}

} // verus!
