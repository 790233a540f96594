//! The precondition violations the matrix kernel reports.
use vstd::prelude::*;

verus! {

/// Why a matrix operation refused its operands.
#[derive(Clone, Copy, Debug, PartialEq, Eq, Structural)]
pub enum MatrixError {
    /// The shapes of the operands, or a buffer and the shape given for it, do
    /// not fit together.
    ShapeMismatch,
    /// A row or column index lies outside the matrix.
    IndexOutOfBounds,
    /// The operation needs a matrix with as many rows as columns.
    NonSquareMatrix,
    /// The operation needs a row or column vector of a certain form.
    InvalidVectorShape,
}

} // verus!
