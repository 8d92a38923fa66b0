use nova::tensor_lowering::lowerer::{LoweringError, TensorLowerer};
use nova::tensor_lowering::matmul::{MatmulOptimizer, MatmulStrategy};
use nova::tensor_lowering::shape_check::{ShapeChecker, ShapeError, TensorShape};

#[test]
fn lowerer_creation() {
    let lowerer = TensorLowerer::new();
    let _ = lowerer;
}

#[test]
fn infer_matmul_2d() {
    let lowerer = TensorLowerer::new();
    let left = vec![3, 4];
    let right = vec![4, 5];
    let result = lowerer.infer_matmul_shape(&left, &right).expect("should infer");
    assert_eq!(result, vec![3, 5]);
}

#[test]
fn infer_matmul_batched() {
    let lowerer = TensorLowerer::new();
    let left = vec![2, 3, 4];
    let right = vec![4, 5];
    let result = lowerer.infer_matmul_shape(&left, &right).expect("should infer");
    assert_eq!(result, vec![2, 3, 5]);
}

#[test]
fn matmul_shape_mismatch_error() {
    let lowerer = TensorLowerer::new();
    let left = vec![3, 4];
    let right = vec![5, 6];
    let result = lowerer.infer_matmul_shape(&left, &right);
    assert!(result.is_err());
}

#[test]
fn elementwise_same_shape() {
    let lowerer = TensorLowerer::new();
    let shapes = vec![vec![3, 4], vec![3, 4]];
    let result = lowerer.validate_elementwise(&shapes).expect("should validate");
    assert_eq!(result, vec![3, 4]);
}

#[test]
fn elementwise_broadcast_scalar() {
    let lowerer = TensorLowerer::new();
    let shapes = vec![vec![3, 4], vec![1]];
    let result = lowerer.validate_elementwise(&shapes).expect("should validate");
    assert_eq!(result, vec![3, 4]);
}

#[test]
fn check_dimensions() {
    let lowerer = TensorLowerer::new();
    let left = vec![3, 4];
    let right = vec![3, 4];
    let result = lowerer.check_dimensions(&left, &right).expect("should check");
    assert_eq!(result, vec![3, 4]);
}

#[test]
fn choose_strategy_small_2d() {
    let optimizer = MatmulOptimizer::new();
    let strategy = optimizer.choose_strategy(&[10, 20], &[20, 30]);
    assert_eq!(strategy, MatmulStrategy::DirectLLVM);
}

#[test]
fn choose_strategy_batched() {
    let optimizer = MatmulOptimizer::new();
    let strategy = optimizer.choose_strategy(&[5, 100, 200], &[200, 300]);
    assert_eq!(strategy, MatmulStrategy::Vectorized);
}

#[test]
fn choose_strategy_large() {
    let optimizer = MatmulOptimizer::new();
    let strategy = optimizer.choose_strategy(&[2000, 3000], &[3000, 4000]);
    assert_eq!(strategy, MatmulStrategy::BLASDelegate);
}

#[test]
fn estimate_cost_2d() {
    let optimizer = MatmulOptimizer::new();
    let cost = optimizer.estimate_cost(&[10, 20], &[20, 30]);
    assert_eq!(cost, 12000);
}

#[test]
fn estimate_cost_batched() {
    let optimizer = MatmulOptimizer::new();
    let cost = optimizer.estimate_cost(&[5, 10, 20], &[20, 30]);
    assert_eq!(cost, 60000);
}

#[test]
fn transpose_recommendation_wide() {
    let optimizer = MatmulOptimizer::new();
    assert!(optimizer.should_transpose_left(&[10, 100]));
}

#[test]
fn transpose_recommendation_tall() {
    let optimizer = MatmulOptimizer::new();
    assert!(!optimizer.should_transpose_left(&[100, 10]));
}

#[test]
fn broadcast_same_shape() {
    let checker = ShapeChecker::new();
    let result = checker.broadcast(&[3, 4], &[3, 4]).expect("should broadcast");
    assert_eq!(result, vec![3, 4]);
}

#[test]
fn broadcast_scalar() {
    let checker = ShapeChecker::new();
    let result = checker.broadcast(&[3, 4], &[1]).expect("should broadcast");
    assert_eq!(result, vec![3, 4]);
}

#[test]
fn broadcast_1d_2d() {
    let checker = ShapeChecker::new();
    let result = checker.broadcast(&[4], &[3, 4]).expect("should broadcast");
    assert_eq!(result, vec![3, 4]);
}

#[test]
fn broadcast_incompatible() {
    let checker = ShapeChecker::new();
    let result = checker.broadcast(&[3, 4], &[5, 6]);
    assert!(result.is_err());
}

#[test]
fn check_matmul_2d() {
    let checker = ShapeChecker::new();
    let result = checker.check_matmul(&[3, 4], &[4, 5]);
    assert!(result.is_ok());
}

#[test]
fn check_matmul_mismatch() {
    let checker = ShapeChecker::new();
    let result = checker.check_matmul(&[3, 4], &[5, 6]);
    assert!(result.is_err());
}

#[test]
fn tensor_shape_volume() {
    let shape = TensorShape::new(vec![2, 3, 4]);
    assert_eq!(shape.volume(), 24);
}

#[test]
fn tensor_shape_rank() {
    let shape = TensorShape::new(vec![2, 3, 4]);
    assert_eq!(shape.rank(), 3);
}

#[test]
fn broadcast_is_symmetric_on_an_example() {
    let checker = ShapeChecker::new();
    assert_eq!(checker.broadcast(&[2, 1, 4], &[3, 1]).unwrap(), checker.broadcast(&[3, 1], &[2, 1, 4]).unwrap());
    assert_eq!(checker.broadcast(&[2, 1, 4], &[3, 1]).unwrap(), vec![2, 3, 4]);
}

#[test]
fn shape_errors_name_the_problem() {
    let checker = ShapeChecker::new();
    match checker.broadcast(&[3, 4], &[5, 6]) {
        Err(ShapeError::BroadcastFailed) => {}
        other => panic!("unexpected {:?}", other),
    }
    assert!(checker.check_elementwise(&[&[2, 3], &[3], &[1, 3]]).is_ok());
    assert!(checker.check_elementwise(&[&[2, 3], &[4]]).is_err());
    let scalar = TensorShape::new(vec![]);
    assert!(scalar.is_scalar());
    assert_eq!(scalar.volume(), 1);
}

#[test]
fn lowering_errors_carry_the_shapes() {
    let lowerer = TensorLowerer::new();
    match lowerer.infer_matmul_shape(&[3], &[3, 4]) {
        Err(LoweringError::DimensionMismatch { expected, actual }) => {
            assert_eq!(expected, 2);
            assert_eq!(actual, 1);
        }
        other => panic!("unexpected {:?}", other),
    }
}

#[test]
fn broadcast_is_symmetric() {
    let c = ShapeChecker::new();
    let a: [usize; 2] = [3, 1];
    let b: [usize; 3] = [2, 1, 4];
    assert_eq!(c.broadcast(&a, &b).ok(), Some(vec![2, 3, 4]));
    assert_eq!(c.broadcast(&b, &a).ok(), Some(vec![2, 3, 4]));
    let d: [usize; 1] = [5];
    assert!(c.broadcast(&a, &d).is_ok() == c.broadcast(&d, &a).is_ok());
}

#[test]
fn elementwise_inputs_broadcast_to_result() {
    let lowerer = TensorLowerer::new();
    let shapes = vec![vec![3, 4], vec![1], vec![2, 1, 4]];
    let r = lowerer.validate_elementwise(&shapes).unwrap();
    assert_eq!(r, vec![2, 3, 4]);
    let c = ShapeChecker::new();
    for s in &shapes {
        assert_eq!(c.broadcast(s, &r).unwrap(), r);
    }
    let slices: Vec<&[usize]> = shapes.iter().map(|v| v.as_slice()).collect();
    assert!(c.check_elementwise(&slices).is_ok());
}

#[test]
fn check_matmul_inner_mismatch_is_mismatch() {
    let c = ShapeChecker::new();
    let a: [usize; 2] = [3, 4];
    let b: [usize; 2] = [5, 6];
    assert!(matches!(c.check_matmul(&a, &b), Err(ShapeError::Mismatch(_))));
    let v: [usize; 1] = [3];
    assert!(matches!(c.check_matmul(&v, &b), Err(ShapeError::InvalidDimension(_))));
}
