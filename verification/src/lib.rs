//! A dense matrix and vector algebra kernel with a CORDIC sine and cosine,
//! generic over the scalar type.
pub mod cordic;
pub mod cordic_laws;
pub mod error;
pub mod fixed;
pub mod integer;
pub mod matrix;
pub mod scalar;
pub mod series;

pub use cordic::sincos;
pub use error::MatrixError;
pub use fixed::Fixed;
pub use matrix::model::MatrixView;
pub use matrix::Matrix;
pub use scalar::{Real, Ring, Scalar, Unital};
