//! The value types of the emitted intermediate representation, and the
//! error of code generation.

use vstd::prelude::*;
use crate::text::str_to_string;

verus! {

/// A value type of the emitted IR.
#[derive(Debug, Clone, Copy, PartialEq, Eq, Structural)]
pub enum NovaType {
    Int,
    Float,
    Bool,
    Void,
    Str,
}

/// The IR spelling of a type.
pub open spec fn ir_name(t: NovaType) -> Seq<char> {
    match t {
        NovaType::Int => "i64"@,
        NovaType::Float => "f64"@,
        NovaType::Bool => "i1"@,
        NovaType::Void => "void"@,
        NovaType::Str => "i8*"@,
    }
}

impl NovaType {
    /// The IR spelling of this type: `f64` for `Float`.
    pub fn to_string(&self) -> (r: String)
        ensures
            r@ == ir_name(*self),
    {
        match self {
            NovaType::Int => str_to_string("i64"),
            NovaType::Float => str_to_string("f64"),
            NovaType::Bool => str_to_string("i1"),
            NovaType::Void => str_to_string("void"),
            NovaType::Str => str_to_string("i8*"),
        }
    }
}

/// A failure of code generation.
#[derive(Debug, Clone)]
pub struct CodegenError {
    pub message: String,
}

} // verus!
