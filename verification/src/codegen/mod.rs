//! Code generation helpers: foreign function declarations and the choice of
//! a parallel execution strategy.

pub mod ir;
pub mod ffi;
pub mod parallel_scheduler;
