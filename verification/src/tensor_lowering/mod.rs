//! Tensor lowering: shape inference and validation, NumPy-style broadcasting
//! and the choice of a matrix-multiplication strategy.

pub mod shape_check;
pub mod matmul;
pub mod lowerer;

pub use shape_check::{ShapeChecker, ShapeError, TensorShape};
pub use matmul::{MatmulOptimizer, MatmulStrategy};
pub use lowerer::{LoweringError, TensorLowerer};
