//! The structure of the backward pass: for each operation, how many inputs
//! its gradient rule reads and which input nodes receive a contribution.
//! The contributions themselves are floating-point values, computed by the
//! caller from the forward values; this module decides which nodes get
//! them, and which operations and arities are refused.

use vstd::prelude::*;
use crate::autodiff::graph::{NodeId, OpType};
use crate::text::{push_str, str_to_string};

verus! {

/// The name of an operation as its debug text shows it.
pub open spec fn op_name(op: OpType) -> Seq<char> {
    match op {
        OpType::Parameter => "Parameter"@,
        OpType::Constant => "Constant"@,
        OpType::Add => "Add"@,
        OpType::Sub => "Sub"@,
        OpType::Mul => "Mul"@,
        OpType::Div => "Div"@,
        OpType::Neg => "Neg"@,
        OpType::Pow => "Pow"@,
        OpType::Sin => "Sin"@,
        OpType::Cos => "Cos"@,
        OpType::Tan => "Tan"@,
        OpType::Exp => "Exp"@,
        OpType::Log => "Log"@,
        OpType::Sqrt => "Sqrt"@,
        OpType::Matmul => "Matmul"@,
        OpType::Transpose => "Transpose"@,
        OpType::Reshape => "Reshape"@,
        OpType::ReLU => "ReLU"@,
        OpType::Sigmoid => "Sigmoid"@,
        OpType::Tanh => "Tanh"@,
        OpType::Softmax => "Softmax"@,
        OpType::MSE => "MSE"@,
        OpType::CrossEntropy => "CrossEntropy"@,
    }
}

/// How many inputs the gradient rule of an operation reads: none for
/// leaves, one or two for the differentiable operations, and `None` for
/// those that have no rule.
pub open spec fn rule_arity(op: OpType) -> Option<nat> {
    match op {
        OpType::Parameter | OpType::Constant => Some(0),
        OpType::Add | OpType::Sub | OpType::Mul | OpType::Div | OpType::Pow => Some(2),
        OpType::Neg | OpType::Sin | OpType::Cos | OpType::Tan | OpType::Exp | OpType::Log
        | OpType::Sqrt | OpType::ReLU | OpType::Sigmoid | OpType::Tanh => Some(1),
        _ => None,
    }
}

/// The number of operands an operation reads in the forward pass: two for
/// the binary arithmetic operations and the matrix product, one for the
/// element-wise functions and the other tensor operations, none for leaves.
pub open spec fn operand_count(op: OpType) -> nat {
    match op {
        OpType::Parameter | OpType::Constant => 0,
        OpType::Add | OpType::Sub | OpType::Mul | OpType::Div | OpType::Pow | OpType::Matmul
        | OpType::MSE | OpType::CrossEntropy => 2,
        _ => 1,
    }
}

/// Every gradient rule sends a contribution to each operand its operation
/// reads, and to nothing else: where an operation has a rule, the rule
/// reads exactly as many inputs as the forward pass does. So `a - b` sends
/// gradients to both `a` and `b`, and a binary operation with two inputs
/// has both as targets.
pub proof fn lemma_rules_cover_operands(op: OpType, inputs: Seq<NodeId>)
    ensures
        rule_arity(op) matches Some(n) ==> n == operand_count(op),
        (op is Add || op is Sub || op is Mul || op is Div || op is Pow) ==> rule_arity(op) == Some(2nat),
        (op is Add || op is Sub || op is Mul || op is Div || op is Pow) && inputs.len() >= 2
            ==> (rule_arity(op) matches Some(n) && inputs.take(n as int) == seq![inputs[0], inputs[1]]),
{
    if (op is Add || op is Sub || op is Mul || op is Div || op is Pow) && inputs.len() >= 2 {
        assert(inputs.take(2) =~= seq![inputs[0], inputs[1]]);
    }
}

/// The debug name of an operation.
pub fn op_debug_name(op: OpType) -> (r: String)
    ensures
        r@ == op_name(op),
{
    let s = match op {
        OpType::Parameter => "Parameter",
        OpType::Constant => "Constant",
        OpType::Add => "Add",
        OpType::Sub => "Sub",
        OpType::Mul => "Mul",
        OpType::Div => "Div",
        OpType::Neg => "Neg",
        OpType::Pow => "Pow",
        OpType::Sin => "Sin",
        OpType::Cos => "Cos",
        OpType::Tan => "Tan",
        OpType::Exp => "Exp",
        OpType::Log => "Log",
        OpType::Sqrt => "Sqrt",
        OpType::Matmul => "Matmul",
        OpType::Transpose => "Transpose",
        OpType::Reshape => "Reshape",
        OpType::ReLU => "ReLU",
        OpType::Sigmoid => "Sigmoid",
        OpType::Tanh => "Tanh",
        OpType::Softmax => "Softmax",
        OpType::MSE => "MSE",
        OpType::CrossEntropy => "CrossEntropy",
    };
    str_to_string(s)
}

/// The input nodes that receive a gradient contribution when the backward
/// pass reaches a node of operation `op` with inputs `inputs`: none for a
/// leaf, the first input for a unary operation, the first two for a binary
/// one. An operation with too few inputs, or with no gradient rule, is an
/// error.
pub fn backward_targets(op: OpType, inputs: &Vec<NodeId>) -> (r: Result<Vec<NodeId>, String>)
    ensures
        match rule_arity(op) {
            None => r matches Err(m) && m@ == "Gradient not implemented for "@ + op_name(op),
            Some(n) => if inputs@.len() < n {
                r matches Err(m) && m@ == op_name(op) + (if n == 2 { " requires 2 inputs"@ } else { " requires 1 input"@ })
            } else {
                r matches Ok(v) && v@ == inputs@.take(n as int)
            },
        },
{
    let arity: usize = match op {
        OpType::Parameter | OpType::Constant => 0,
        OpType::Add | OpType::Sub | OpType::Mul | OpType::Div | OpType::Pow => 2,
        OpType::Neg | OpType::Sin | OpType::Cos | OpType::Tan | OpType::Exp | OpType::Log
        | OpType::Sqrt | OpType::ReLU | OpType::Sigmoid | OpType::Tanh => 1,
        _ => {
            let mut m = str_to_string("Gradient not implemented for ");
            let name = op_debug_name(op);
            push_str(&mut m, name.as_str());
            return Err(m);
        },
    };
    if inputs.len() < arity {
        let mut m = op_debug_name(op);
        if arity == 2 {
            push_str(&mut m, " requires 2 inputs");
        } else {
            push_str(&mut m, " requires 1 input");
        }
        return Err(m);
    }
    let mut v: Vec<NodeId> = Vec::new();
    let mut i: usize = 0;
    while i < arity
        invariant
            i <= arity <= inputs@.len(),
            v@ == inputs@.take(i as int),
        decreases arity - i,
    {
        v.push(inputs[i]);
        assert(inputs@.take(i + 1) =~= inputs@.take(i as int).push(inputs@[i as int]));
        i = i + 1;
    }
    Ok(v)
}

} // verus!
