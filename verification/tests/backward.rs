use nova::autodiff::backward::{backward_targets, op_debug_name};
use nova::autodiff::{NodeId, OpType};

#[test]
fn leaves_reach_nothing() {
    assert!(backward_targets(OpType::Parameter, &vec![]).unwrap().is_empty());
    assert!(backward_targets(OpType::Constant, &vec![NodeId(3)]).unwrap().is_empty());
}

#[test]
fn binary_rules_reach_the_first_two_inputs() {
    let inputs = vec![NodeId(1), NodeId(2), NodeId(5)];
    assert_eq!(backward_targets(OpType::Mul, &inputs).unwrap(), vec![NodeId(1), NodeId(2)]);
    assert_eq!(backward_targets(OpType::Add, &vec![NodeId(1)]).unwrap_err(), "Add requires 2 inputs");
    assert_eq!(backward_targets(OpType::Pow, &vec![]).unwrap_err(), "Pow requires 2 inputs");
}

#[test]
fn unary_rules_reach_the_first_input() {
    assert_eq!(backward_targets(OpType::Sin, &vec![NodeId(4), NodeId(7)]).unwrap(), vec![NodeId(4)]);
    assert_eq!(backward_targets(OpType::ReLU, &vec![]).unwrap_err(), "ReLU requires 1 input");
}

#[test]
fn operations_without_rules() {
    assert_eq!(backward_targets(OpType::Matmul, &vec![NodeId(0), NodeId(1)]).unwrap_err(), "Gradient not implemented for Matmul");
    assert_eq!(backward_targets(OpType::CrossEntropy, &vec![]).unwrap_err(), "Gradient not implemented for CrossEntropy");
}

#[test]
fn debug_names_match_derive() {
    for op in [OpType::Parameter, OpType::ReLU, OpType::MSE, OpType::Tanh, OpType::Softmax] {
        assert_eq!(op_debug_name(op), format!("{:?}", op));
    }
}

#[test]
fn operation_short_names() {
    assert_eq!(OpType::Parameter.to_text(), "param");
    assert_eq!(OpType::ReLU.to_text(), "relu");
    assert_eq!(OpType::CrossEntropy.to_text(), "crossentropy");
    assert_eq!(OpType::Matmul.to_text(), "matmul");
}
