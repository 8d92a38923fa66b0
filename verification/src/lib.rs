//! NOVA compiler front end and toolchain: SI dimensions, tensor shapes,
//! computation graphs, type inference and the tooling around them.

pub mod text;
pub mod strings;
pub mod unit_resolver;
pub mod tensor_lowering;
pub mod autodiff;
pub mod typechecker;
pub mod codegen;
pub mod toolchain;
pub mod frontend;
