//! Lowers high-level tensor operations to primitives suitable for IR
//! emission: shape inference and validation, dimension checks for matmul and
//! element-wise operations, and the choice of a matmul strategy.

use vstd::prelude::*;
use crate::text::{push_char, push_decimals_joined, str_to_string, decimals, join};
use super::shape_check::{
    ShapeChecker, ShapeError, broadcastable, broadcast_shape, fold_broadcast, shape_error_text,
    lemma_fold_none_extends,
};
use super::matmul::{MatmulOptimizer, MatmulStrategy, strategy_for};

verus! {

/// Error type for tensor lowering.
#[derive(Debug, Clone)]
pub enum LoweringError {
    ShapeError(String),
    DimensionMismatch { expected: usize, actual: usize },
    BroadcastingFailed { left: String, right: String },
    UnsupportedOperation(String),
    Other { message: String },
}

/// A list of sizes rendered as "[d0, d1, ...]".
pub open spec fn list_text(s: Seq<usize>) -> Seq<char> {
    seq!['['] + join(decimals(s), ", "@) + seq![']']
}

/// The outcome of inferring the shape of a matrix product: the batch
/// dimensions of the left operand, then its rows, then the right operand's
/// columns.
pub open spec fn matmul_shape(left: Seq<usize>, right: Seq<usize>) -> Seq<usize> {
    left.take(left.len() - 1).push(right[right.len() - 1])
}

fn list_to_text(s: &[usize]) -> (r: String)
    ensures
        r@ == list_text(s@),
{
    let mut t = String::new();
    push_char(&mut t, '[');
    push_decimals_joined(&mut t, s, ", ");
    push_char(&mut t, ']');
    assert(t@ =~= list_text(s@));
    t
}

/// Main tensor lowering orchestrator.
pub struct TensorLowerer {
    shape_checker: ShapeChecker,
    matmul_optimizer: MatmulOptimizer,
}

impl TensorLowerer {
    pub fn new() -> (r: Self) {
        TensorLowerer { shape_checker: ShapeChecker::new(), matmul_optimizer: MatmulOptimizer::new() }
    }

    /// Check tensor dimensions for an operation: the broadcast of the two
    /// shapes, or the broadcast failure's text.
    pub fn check_dimensions(&self, left: &[usize], right: &[usize]) -> (r: Result<Vec<usize>, LoweringError>)
        ensures
            r is Ok <==> broadcastable(left@, right@),
            r matches Ok(v) ==> v@ == broadcast_shape(left@, right@),
            r matches Err(e) ==> (e matches LoweringError::ShapeError(m)
                && m@ == shape_error_text(ShapeError::BroadcastFailed)),
    {
        match self.shape_checker.broadcast(left, right) {
            Ok(v) => Ok(v),
            Err(e) => Err(LoweringError::ShapeError(e.to_text())),
        }
    }

    /// Infer the output shape of a matrix product.
    pub fn infer_matmul_shape(&self, left: &[usize], right: &[usize]) -> (r: Result<Vec<usize>, LoweringError>)
        ensures
            (left@.len() < 2 || right@.len() < 2) ==> (r matches Err(LoweringError::DimensionMismatch { expected, actual })
                && expected == 2 && actual == if left@.len() < 2 { left@.len() } else { right@.len() }),
            (left@.len() >= 2 && right@.len() >= 2 && left@[left@.len() - 1] != right@[right@.len() - 2])
                ==> (r matches Err(LoweringError::BroadcastingFailed { left: l, right: rr })
                    && l@ == list_text(left@) && rr@ == list_text(right@)),
            (left@.len() >= 2 && right@.len() >= 2 && left@[left@.len() - 1] == right@[right@.len() - 2])
                ==> (r matches Ok(v) && v@ == matmul_shape(left@, right@)),
    {
        if left.len() < 2 || right.len() < 2 {
            return Err(LoweringError::DimensionMismatch {
                expected: 2,
                actual: if left.len() < 2 { left.len() } else { right.len() },
            });
        }
        if left[left.len() - 1] != right[right.len() - 2] {
            return Err(LoweringError::BroadcastingFailed { left: list_to_text(left), right: list_to_text(right) });
        }
        let mut result: Vec<usize> = Vec::new();
        let mut i: usize = 0;
        while i < left.len() - 1
            invariant
                left@.len() >= 2,
                i <= left@.len() - 1,
                result@ == left@.take(i as int),
            decreases left@.len() - 1 - i,
        {
            result.push(left[i]);
            i = i + 1;
            assert(result@ =~= left@.take(i as int));
        }
        result.push(right[right.len() - 1]);
        assert(result@ =~= matmul_shape(left@, right@));
        Ok(result)
    }

    /// Choose the matmul implementation strategy.
    pub fn optimize_matmul(&self, left_shape: &[usize], right_shape: &[usize]) -> (r: MatmulStrategy)
        requires
            left_shape@.len() >= 2,
            right_shape@.len() >= 1,
        ensures
            r == strategy_for(left_shape@, right_shape@),
    {
        self.matmul_optimizer.choose_strategy(left_shape, right_shape)
    }

    /// Validate that shapes are compatible for element-wise operations, and
    /// return their common broadcast shape.
    pub fn validate_elementwise(&self, shapes: &[Vec<usize>]) -> (r: Result<Vec<usize>, LoweringError>)
        ensures
            shapes@.len() == 0 ==> (r matches Err(LoweringError::Other { message })
                && message@ == "need at least one shape for element-wise operation"@),
            shapes@.len() > 0 ==> match fold_broadcast(shapes@.map_values(|x: Vec<usize>| x@)) {
                Some(s) => r matches Ok(v) && v@ == s,
                None => r matches Err(LoweringError::ShapeError(m))
                    && m@ == shape_error_text(ShapeError::BroadcastFailed),
            },
    {
        let ghost ss = shapes@.map_values(|x: Vec<usize>| x@);
        if shapes.len() == 0 {
            return Err(LoweringError::Other {
                message: str_to_string("need at least one shape for element-wise operation"),
            });
        }
        let mut result: Vec<usize> = shapes[0].clone();
        assert(ss.take(1).drop_last() =~= Seq::<Seq<usize>>::empty());
        assert(fold_broadcast(ss.take(1)) == Some(ss[0]));
        let mut i: usize = 1;
        while i < shapes.len()
            invariant
                ss == shapes@.map_values(|x: Vec<usize>| x@),
                1 <= i <= shapes@.len(),
                fold_broadcast(ss.take(i as int)) == Some(result@),
            decreases shapes@.len() - i,
        {
            assert(ss.take(i + 1).drop_last() =~= ss.take(i as int));
            match self.shape_checker.broadcast(result.as_slice(), shapes[i].as_slice()) {
                Ok(v) => { result = v; }
                Err(e) => {
                    proof { lemma_fold_none_extends(ss, (i + 1) as nat); }
                    return Err(LoweringError::ShapeError(e.to_text()));
                }
            }
            i = i + 1;
        }
        assert(ss.take(shapes@.len() as int) =~= ss);
        Ok(result)
    }
}

impl Default for TensorLowerer {
    fn default() -> (r: Self) {
        TensorLowerer::new()
    }
}

} // verus!
