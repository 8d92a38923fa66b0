//! Matrix multiplication optimization and lowering.
//!
//! Chooses an implementation strategy based on shape:
//!   - Small dense matrices → direct LLVM code
//!   - Batched operations → vectorized routines
//!   - Large matrices → delegate to a BLAS library stub

use vstd::prelude::*;
use vstd::arithmetic::mul::lemma_mul_is_associative;
use crate::text::str_to_string;
use super::shape_check::product;

verus! {

/// Strategy for implementing matrix multiplication.
#[derive(Debug, Clone, Copy, PartialEq, Eq, Structural)]
pub enum MatmulStrategy {
    /// Direct inline LLVM IR for small matrices
    DirectLLVM,
    /// Use vector instructions for batched operations
    Vectorized,
    /// Delegate to BLAS library (not available at compile time)
    BLASDelegate,
}

impl MatmulStrategy {
    /// The strategy's name: "direct_llvm", "vectorized" or "blas_delegate".
    pub fn to_text(&self) -> (r: String)
        ensures
            r@ == match self {
                MatmulStrategy::DirectLLVM => "direct_llvm"@,
                MatmulStrategy::Vectorized => "vectorized"@,
                MatmulStrategy::BLASDelegate => "blas_delegate"@,
            },
    {
        match self {
            MatmulStrategy::DirectLLVM => str_to_string("direct_llvm"),
            MatmulStrategy::Vectorized => str_to_string("vectorized"),
            MatmulStrategy::BLASDelegate => str_to_string("blas_delegate"),
        }
    }
}

/// The strategy for multiplying matrices of the given shapes: direct LLVM for
/// 2-D operands whose rows, inner and output columns are all at most 1024;
/// vectorized when either operand is batched and both column counts are at
/// most 512; BLAS otherwise.
pub open spec fn strategy_for(left: Seq<usize>, right: Seq<usize>) -> MatmulStrategy {
    let left_cols = left[left.len() - 1];
    let left_rows = left[left.len() - 2];
    let right_cols = right[right.len() - 1];
    if left.len() == 2 && right.len() == 2 && left_rows <= 1024 && left_cols <= 1024
        && right_cols <= 1024 {
        MatmulStrategy::DirectLLVM
    } else if (left.len() > 2 || right.len() > 2) && left_cols <= 512 && right_cols <= 512 {
        MatmulStrategy::Vectorized
    } else {
        MatmulStrategy::BLASDelegate
    }
}

/// Floating-point operations of one matrix product (m·n·k multiply-adds).
pub open spec fn base_cost(left: Seq<usize>, right: Seq<usize>) -> int {
    left[left.len() - 2] * right[right.len() - 1] * left[left.len() - 1] * 2
}

/// The batch dimensions of the left operand (all but the last two).
pub open spec fn batch_dims(left: Seq<usize>) -> Seq<usize> {
    left.take(left.len() - 2)
}

/// No intermediate product of the cost estimate exceeds `usize::MAX`.
pub open spec fn cost_fits(left: Seq<usize>, right: Seq<usize>) -> bool {
    &&& left[left.len() - 2] * right[right.len() - 1] <= usize::MAX
    &&& left[left.len() - 2] * right[right.len() - 1] * left[left.len() - 1] <= usize::MAX
    &&& forall|i: int| 0 <= i <= left.len() - 2
        ==> base_cost(left, right) * product(#[trigger] batch_dims(left).take(i)) <= usize::MAX
}

/// Optimizes matrix multiplication operations.
pub struct MatmulOptimizer;

impl MatmulOptimizer {
    pub fn new() -> (r: Self) {
        MatmulOptimizer
    }

    /// Choose an implementation strategy based on matrix shapes.
    pub fn choose_strategy(&self, left: &[usize], right: &[usize]) -> (r: MatmulStrategy)
        requires
            left@.len() >= 2,
            right@.len() >= 1,
        ensures
            r == strategy_for(left@, right@),
    {
        let left_cols = left[left.len() - 1];
        let left_rows = left[left.len() - 2];
        let right_cols = right[right.len() - 1];

        if left.len() == 2 && right.len() == 2 {
            if left_rows <= 1024 && left_cols <= 1024 && right_cols <= 1024 {
                return MatmulStrategy::DirectLLVM;
            }
        }
        if left.len() > 2 || right.len() > 2 {
            if left_cols <= 512 && right_cols <= 512 {
                return MatmulStrategy::Vectorized;
            }
        }
        MatmulStrategy::BLASDelegate
    }

    /// Estimate the computational cost of a matmul (operations count):
    /// 2·m·n·k times the product of the left operand's batch dimensions.
    pub fn estimate_cost(&self, left: &[usize], right: &[usize]) -> (r: usize)
        requires
            left@.len() >= 2,
            right@.len() >= 1,
            cost_fits(left@, right@),
        ensures
            r == base_cost(left@, right@) * product(batch_dims(left@)),
    {
        let m = left[left.len() - 2];
        let n = right[right.len() - 1];
        let k = left[left.len() - 1];
        assert(batch_dims(left@).take(0) =~= Seq::<usize>::empty());
        assert(base_cost(left@, right@) * product(batch_dims(left@).take(0)) <= usize::MAX);
        let mut flops = m * n * k * 2;
        let nb = left.len() - 2;
        let mut i: usize = 0;
        while i < nb
            invariant
                nb == left@.len() - 2,
                left@.len() >= 2,
                right@.len() >= 1,
                cost_fits(left@, right@),
                i <= nb,
                flops == base_cost(left@, right@) * product(batch_dims(left@).take(i as int)),
            decreases nb - i,
        {
            let ghost b = batch_dims(left@);
            assert(b.take(i + 1).drop_last() =~= b.take(i as int));
            assert(b[i as int] == left@[i as int]);
            proof {
                lemma_mul_is_associative(base_cost(left@, right@), product(b.take(i as int)), left@[i as int] as int);
            }
            assert(base_cost(left@, right@) * product(b.take(i + 1)) <= usize::MAX);
            flops = flops * left[i];
            i = i + 1;
        }
        assert(batch_dims(left@).take(nb as int) =~= batch_dims(left@));
        flops
    }

    /// Recommend whether to transpose the left operand for cache efficiency:
    /// only 2-D operands with more columns than rows.
    pub fn should_transpose_left(&self, left: &[usize]) -> (r: bool)
        ensures
            r == (left@.len() == 2 && left@[1] > left@[0]),
    {
        if left.len() != 2 {
            return false;
        }
        left[1] > left[0]
    }
}

impl Default for MatmulOptimizer {
    fn default() -> (r: Self)
        ensures
            r == MatmulOptimizer,
    {
        MatmulOptimizer::new()
    }
}

} // verus!
