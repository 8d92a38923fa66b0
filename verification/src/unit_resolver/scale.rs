//! Scale factors of units. A factor is kept as the decimal literal it was
//! written with, or as the product, quotient or integer power of factors, in
//! the order in which they combine; turning it into a number is left to the
//! caller.

use vstd::prelude::*;

verus! {

/// A scale factor: 1 [unit] = factor [SI base unit].
#[derive(Debug)]
pub enum Scale {
    /// A decimal literal such as `1.496e11`.
    Literal(String),
    Product(Box<Scale>, Box<Scale>),
    Quotient(Box<Scale>, Box<Scale>),
    Power(Box<Scale>, i8),
}

/// A scale factor over plain values.
pub enum ScaleM {
    Lit(Seq<char>),
    Mul(Box<ScaleM>, Box<ScaleM>),
    Div(Box<ScaleM>, Box<ScaleM>),
    Pow(Box<ScaleM>, int),
}

/// The plain value of a scale factor.
pub open spec fn scale_view(s: Scale) -> ScaleM
    decreases s,
{
    match s {
        Scale::Literal(t) => ScaleM::Lit(t@),
        Scale::Product(a, b) => ScaleM::Mul(Box::new(scale_view(*a)), Box::new(scale_view(*b))),
        Scale::Quotient(a, b) => ScaleM::Div(Box::new(scale_view(*a)), Box::new(scale_view(*b))),
        Scale::Power(a, n) => ScaleM::Pow(Box::new(scale_view(*a)), n as int),
    }
}

impl Scale {
    /// A copy of this factor.
    pub fn copy(&self) -> (r: Scale)
        ensures
            scale_view(r) == scale_view(*self),
        decreases self,
    {
        match self {
            Scale::Literal(t) => Scale::Literal(t.clone()),
            Scale::Product(a, b) => Scale::Product(Box::new((&**a).copy()), Box::new((&**b).copy())),
            Scale::Quotient(a, b) => Scale::Quotient(Box::new((&**a).copy()), Box::new((&**b).copy())),
            Scale::Power(a, n) => Scale::Power(Box::new((&**a).copy()), *n),
        }
    }
}

} // verus!
