//! Finite-field matrix algebra and round-constant derivation for
//! Poseidon-style permutations over the BLS12-377 scalar field.
pub mod field;
pub mod matrix;
pub mod parameter_set;
pub mod round_constants;
pub mod schedule;
pub mod square;
pub mod transcript;

pub use field::Fq;
pub use matrix::{dot_product, flatten, mat_mul, Matrix, MatrixError};
pub use parameter_set::{ParameterSet, ValidationFailure};
pub use round_constants::{
    transform, Alpha, ArcMatrix, InputParameters, OptimizedArcMatrix, RoundNumbers,
};
pub use square::{square_mat_mul, SquareMatrix};
