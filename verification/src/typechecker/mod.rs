//! Hindley-Milner type inference extended with SI unit dimensions, tensor
//! shapes and trait bounds.

pub mod types;
pub mod render;
pub mod subst;
pub mod unify;
pub mod traits;
pub mod tensor_types;
pub mod infer;
pub mod checker;
