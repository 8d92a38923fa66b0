use nova::typechecker::infer::{BinOp, TypeEnv, TypeError};
use nova::typechecker::subst::Subst;
use nova::typechecker::tensor_types::{infer_elementwise, infer_gradient_shape, infer_matmul};
use nova::typechecker::traits::{TraitBound, TraitRegistry};
use nova::typechecker::types::{FunctionType, NovaType, TensorShape, TypeScheme, TypeVar};
use nova::typechecker::unify::{unify, UnifyError};
use nova::unit_resolver::dimension::Dim;

fn subst() -> Subst {
    Subst::new()
}

fn float_tensor(shape: TensorShape) -> NovaType {
    NovaType::Tensor { elem: Box::new(NovaType::Float), shape }
}

// ── types ────────────────────────────────────────────────────────────────────

#[test]
fn fresh_vars_are_unique() {
    let mut counter = 0u32;
    let a = TypeVar::fresh(&mut counter);
    let b = TypeVar::fresh(&mut counter);
    assert_ne!(a, b);
}

#[test]
fn unit_float_display() {
    let t = NovaType::UnitFloat { dim: Dim::velocity(), unit_str: "m/s".into() };
    assert_eq!(t.to_text(), "Float[m/s]");
}

#[test]
fn tensor_display() {
    let elem = NovaType::UnitFloat { dim: Dim::energy(), unit_str: "eV".into() };
    let t = NovaType::Tensor { elem: Box::new(elem), shape: TensorShape::Rank(1) };
    assert_eq!(t.to_text(), "Tensor[Float[eV], rank=1]");
}

#[test]
fn function_display() {
    let t = NovaType::Function(FunctionType {
        params: vec![NovaType::Float, NovaType::Float],
        ret: Box::new(NovaType::UnitFloat { dim: Dim::velocity(), unit_str: "m/s".into() }),
        parallel: false,
    });
    assert_eq!(t.to_text(), "(Float, Float) -> Float[m/s]");
}

#[test]
fn contains_var_true_for_var() {
    let mut counter = 0u32;
    assert!(NovaType::Var(TypeVar::fresh(&mut counter)).contains_var());
}

#[test]
fn contains_var_false_for_concrete() {
    assert!(!NovaType::Float.contains_var());
    assert!(!NovaType::UnitFloat { dim: Dim::mass(), unit_str: "kg".into() }.contains_var());
}

#[test]
fn is_numeric() {
    assert!(NovaType::Int.is_numeric());
    assert!(NovaType::Float.is_numeric());
    assert!(NovaType::UnitFloat { dim: Dim::mass(), unit_str: "kg".into() }.is_numeric());
    assert!(!NovaType::Bool.is_numeric());
    assert!(!NovaType::Str.is_numeric());
}

#[test]
fn free_vars_collects_all() {
    let mut counter = 0u32;
    let v1 = TypeVar::fresh(&mut counter);
    let v2 = TypeVar::fresh(&mut counter);
    let t = NovaType::Tuple(vec![NovaType::Var(v1), NovaType::Var(v2)]);
    let fv = t.free_vars();
    assert_eq!(fv.len(), 2);
    assert!(fv.contains(&v1));
    assert!(fv.contains(&v2));
}

#[test]
fn option_display() {
    let t = NovaType::Option(Box::new(NovaType::Float));
    assert_eq!(t.to_text(), "Option[Float]");
}

#[test]
fn result_display() {
    let t = NovaType::Result(
        Box::new(NovaType::UnitFloat { dim: Dim::velocity(), unit_str: "m/s".into() }),
        Box::new(NovaType::Named { name: "UnitError".into(), type_args: vec![] }),
    );
    assert_eq!(t.to_text(), "Result[Float[m/s], UnitError]");
}

#[test]
fn free_vars_lists_each_variable_once_in_order() {
    let t = NovaType::Function(FunctionType {
        params: vec![NovaType::Var(TypeVar(4)), NovaType::Array(Box::new(NovaType::Var(TypeVar(2))))],
        ret: Box::new(NovaType::Var(TypeVar(4))),
        parallel: true,
    });
    assert_eq!(t.free_vars(), vec![TypeVar(4), TypeVar(2)]);
    assert!(!t.is_concrete());
    assert_eq!(TypeVar(12).to_text(), "τ12");
}

#[test]
fn row_and_shape_display() {
    let t = NovaType::Row { fields: vec![("a".to_string(), NovaType::Int), ("b".to_string(), NovaType::Bool)] };
    assert_eq!(t.to_text(), "{ a: Int, b: Bool }");
    assert_eq!(TensorShape::Known(vec![2, 3]).to_text(), "(2, 3)");
    assert_eq!(TensorShape::Symbolic(vec!["n".to_string(), "m".to_string()]).to_text(), "(n, m)");
    assert_eq!(TensorShape::Unknown.to_text(), "?");
    let g = NovaType::Named { name: "Map".into(), type_args: vec![NovaType::Str, NovaType::Int] };
    assert_eq!(g.to_text(), "Map[Str, Int]");
}

// ── unification ──────────────────────────────────────────────────────────────

#[test]
fn unify_int_int_ok() {
    let mut s = subst();
    assert!(unify(&NovaType::Int, &NovaType::Int, &mut s, 0, 0).is_ok());
}

#[test]
fn unify_var_to_int() {
    let mut s = subst();
    let mut counter = 0u32;
    let v = TypeVar::fresh(&mut counter);
    unify(&NovaType::Var(v), &NovaType::Int, &mut s, 0, 0).unwrap();
    assert_eq!(s.apply(&NovaType::Var(v)), NovaType::Int);
}

#[test]
fn unify_int_float_fails() {
    let mut s = subst();
    assert!(unify(&NovaType::Int, &NovaType::Float, &mut s, 0, 0).is_err());
}

#[test]
fn unify_float_with_unit_float_ok() {
    let mut s = subst();
    let uf = NovaType::UnitFloat { dim: Dim::velocity(), unit_str: "m/s".into() };
    assert!(unify(&NovaType::Float, &uf, &mut s, 0, 0).is_ok());
}

#[test]
fn unify_same_unit_floats_ok() {
    let mut s = subst();
    let a = NovaType::UnitFloat { dim: Dim::mass(), unit_str: "kg".into() };
    let b = NovaType::UnitFloat { dim: Dim::mass(), unit_str: "kg".into() };
    assert!(unify(&a, &b, &mut s, 0, 0).is_ok());
}

#[test]
fn unify_kg_plus_m_fails_with_hint() {
    let mut s = subst();
    let kg = NovaType::UnitFloat { dim: Dim::mass(), unit_str: "kg".into() };
    let m = NovaType::UnitFloat { dim: Dim::length(), unit_str: "m".into() };
    let err = unify(&kg, &m, &mut s, 12, 3).unwrap_err();
    assert!(err.message.contains("unit dimension mismatch"));
    assert!(err.message.contains("hint"));
    assert_eq!(err.line, 12);
    assert_eq!(err.col, 3);
}

#[test]
fn unify_tensor_same_shape_ok() {
    let mut s = subst();
    let a = NovaType::Tensor { elem: Box::new(NovaType::Float), shape: TensorShape::Rank(2) };
    let b = NovaType::Tensor { elem: Box::new(NovaType::Float), shape: TensorShape::Rank(2) };
    assert!(unify(&a, &b, &mut s, 0, 0).is_ok());
}

#[test]
fn unify_tensor_rank_mismatch_fails() {
    let mut s = subst();
    let a = NovaType::Tensor { elem: Box::new(NovaType::Float), shape: TensorShape::Rank(2) };
    let b = NovaType::Tensor { elem: Box::new(NovaType::Float), shape: TensorShape::Rank(3) };
    assert!(unify(&a, &b, &mut s, 0, 0).is_err());
}

#[test]
fn unify_function_types_ok() {
    let mut s = subst();
    let a = NovaType::Function(FunctionType {
        params: vec![NovaType::Float, NovaType::Float],
        ret: Box::new(NovaType::Float),
        parallel: false,
    });
    let b = NovaType::Function(FunctionType {
        params: vec![NovaType::Float, NovaType::Float],
        ret: Box::new(NovaType::Float),
        parallel: false,
    });
    assert!(unify(&a, &b, &mut s, 0, 0).is_ok());
}

#[test]
fn unify_function_arity_mismatch_fails() {
    let mut s = subst();
    let a = NovaType::Function(FunctionType { params: vec![NovaType::Float], ret: Box::new(NovaType::Float), parallel: false });
    let b = NovaType::Function(FunctionType {
        params: vec![NovaType::Float, NovaType::Float],
        ret: Box::new(NovaType::Float),
        parallel: false,
    });
    assert!(unify(&a, &b, &mut s, 0, 0).is_err());
}

#[test]
fn occurs_check_prevents_infinite_type() {
    let mut s = subst();
    let mut counter = 0u32;
    let v = TypeVar::fresh(&mut counter);
    let recursive = NovaType::Array(Box::new(NovaType::Var(v)));
    assert!(unify(&NovaType::Var(v), &recursive, &mut s, 0, 0).is_err());
}

#[test]
fn never_unifies_with_anything() {
    let mut s = subst();
    assert!(unify(&NovaType::Never, &NovaType::Int, &mut s, 0, 0).is_ok());
    assert!(unify(&NovaType::Float, &NovaType::Never, &mut s, 0, 0).is_ok());
}

#[test]
fn subst_apply_chains() {
    let mut s = Subst::new();
    let mut counter = 0u32;
    let a = TypeVar::fresh(&mut counter);
    let b = TypeVar::fresh(&mut counter);
    s.bind(a, NovaType::Var(b));
    s.bind(b, NovaType::Int);
    assert_eq!(s.apply(&NovaType::Var(a)), NovaType::Int);
}

#[test]
fn unify_named_types_different_names_fails() {
    let mut s = subst();
    let a = NovaType::Named { name: "Star".into(), type_args: vec![] };
    let b = NovaType::Named { name: "Galaxy".into(), type_args: vec![] };
    assert!(unify(&a, &b, &mut s, 0, 0).is_err());
}

#[test]
fn unify_error_messages() {
    let mut s = subst();
    let e = unify(&NovaType::Int, &NovaType::Bool, &mut s, 2, 7).unwrap_err();
    assert_eq!(e.message, "type mismatch: expected Int, found Bool");
    assert_eq!(e.to_text(), "2:7: type error: type mismatch: expected Int, found Bool");
    let a = NovaType::Named { name: "Star".into(), type_args: vec![] };
    let b = NovaType::Named { name: "Galaxy".into(), type_args: vec![] };
    assert_eq!(unify(&a, &b, &mut s, 0, 0).unwrap_err().message, "type mismatch: Star vs Galaxy");
    let v = NovaType::Var(TypeVar(3));
    let arr = NovaType::Array(Box::new(NovaType::Var(TypeVar(3))));
    assert_eq!(unify(&v, &arr, &mut s, 0, 0).unwrap_err().message, "occurs check failed: τ3 appears in Array[τ3]");
    assert!(s.is_empty());
    let t1 = NovaType::Tensor { elem: Box::new(NovaType::Float), shape: TensorShape::Known(vec![2, 3]) };
    let t2 = NovaType::Tensor { elem: Box::new(NovaType::Float), shape: TensorShape::Known(vec![2, 4]) };
    assert_eq!(unify(&t1, &t2, &mut s, 0, 0).unwrap_err().message, "tensor shape mismatch: [2, 3] vs [2, 4]");
    assert_eq!(UnifyError::new("x").to_text(), "type error: x");
}

#[test]
fn unification_binds_through_structure() {
    let mut s = subst();
    let a = NovaType::Tuple(vec![NovaType::Var(TypeVar(0)), NovaType::Array(Box::new(NovaType::Var(TypeVar(1))))]);
    let b = NovaType::Tuple(vec![NovaType::Int, NovaType::Array(Box::new(NovaType::Var(TypeVar(0))))]);
    unify(&a, &b, &mut s, 0, 0).unwrap();
    assert_eq!(s.len(), 2);
    assert_eq!(s.apply(&NovaType::Var(TypeVar(1))), NovaType::Int);
    assert_eq!(s.apply(&a), s.apply(&b));
    assert_eq!(s.apply(&s.apply(&a)), s.apply(&a));
}

#[test]
fn rows_never_unify() {
    let mut s = subst();
    let r = NovaType::Row { fields: vec![("x".to_string(), NovaType::Int)] };
    let e = unify(&r, &r, &mut s, 0, 0).unwrap_err();
    assert_eq!(e.message, "type mismatch: expected { x: Int }, found { x: Int }");
}

// ── traits ───────────────────────────────────────────────────────────────────

fn reg() -> TraitRegistry {
    TraitRegistry::new()
}

#[test]
fn float_satisfies_numeric() {
    let r = reg();
    assert!(r.check_bounds(&NovaType::Float, &[TraitBound::new("Numeric")], 0, 0).is_ok());
}

#[test]
fn int_satisfies_add() {
    let r = reg();
    assert!(r.check_bounds(&NovaType::Int, &[TraitBound::new("Add")], 0, 0).is_ok());
}

#[test]
fn unit_float_satisfies_numeric() {
    let r = reg();
    let uf = NovaType::UnitFloat { dim: Dim::mass(), unit_str: "kg".into() };
    assert!(r.check_bounds(&uf, &[TraitBound::new("Numeric")], 0, 0).is_ok());
}

#[test]
fn unit_float_satisfies_transcendental() {
    let r = reg();
    let uf = NovaType::UnitFloat { dim: Dim::time(), unit_str: "s".into() };
    assert!(r.check_bounds(&uf, &[TraitBound::new("Transcendental")], 0, 0).is_ok());
}

#[test]
fn bool_does_not_satisfy_numeric() {
    let r = reg();
    assert!(r.check_bounds(&NovaType::Bool, &[TraitBound::new("Numeric")], 0, 0).is_err());
}

#[test]
fn str_does_not_satisfy_add() {
    let r = reg();
    let err = r.check_bounds(&NovaType::Str, &[TraitBound::new("Add")], 5, 10);
    assert!(err.is_err());
    assert_eq!(err.unwrap_err().line, 5);
}

#[test]
fn multiple_bounds_all_satisfied() {
    let r = reg();
    let bounds = vec![TraitBound::new("Numeric"), TraitBound::new("Add"), TraitBound::new("Display")];
    assert!(r.check_bounds(&NovaType::Float, &bounds, 0, 0).is_ok());
}

#[test]
fn custom_impl_registered() {
    let mut r = reg();
    r.add_impl("Star", "Measurable");
    let ty = NovaType::Named { name: "Star".into(), type_args: vec![] };
    assert!(r.check_bounds(&ty, &[TraitBound::new("Measurable")], 0, 0).is_ok());
}

#[test]
fn bound_error_has_hint() {
    let r = reg();
    let ty = NovaType::Named { name: "Nebula".into(), type_args: vec![] };
    let err = r.check_bounds(&ty, &[TraitBound::new("Optimiser")], 0, 0).unwrap_err();
    assert!(err.message.contains("hint"));
    assert!(err.message.contains("Optimiser"));
}

#[test]
fn first_failing_bound_is_reported() {
    let r = reg();
    let bounds = vec![TraitBound::new("Display"), TraitBound::new("Measurable"), TraitBound::new("Numeric")];
    let err = r.check_bounds(&NovaType::Bool, &bounds, 4, 2).unwrap_err();
    assert_eq!(err.trait_name, "Measurable");
    assert_eq!(err.ty_name, "Bool");
    assert_eq!(
        err.message,
        "type `Bool` does not implement trait `Measurable`\n  hint: add `impl Measurable for Bool` or derive it"
    );
    assert_eq!(err.to_text(), format!("4:2: {}", err.message));
}

// ── tensor types ─────────────────────────────────────────────────────────────

#[test]
fn matmul_known_shapes_ok() {
    let a = float_tensor(TensorShape::Known(vec![4, 8]));
    let b = float_tensor(TensorShape::Known(vec![8, 16]));
    let r = infer_matmul(&a, &b, 0, 0).unwrap();
    assert_eq!(r.output_type, float_tensor(TensorShape::Known(vec![4, 16])));
}

#[test]
fn matmul_inner_dim_mismatch_fails() {
    let a = float_tensor(TensorShape::Known(vec![4, 8]));
    let b = float_tensor(TensorShape::Known(vec![9, 16]));
    let err = infer_matmul(&a, &b, 5, 3).unwrap_err();
    assert!(err.message.contains("shape mismatch"));
    assert!(err.message.contains("hint"));
    assert_eq!(err.line, 5);
}

#[test]
fn matmul_rank2_symbolic_ok() {
    let a = float_tensor(TensorShape::Rank(2));
    let b = float_tensor(TensorShape::Rank(2));
    let r = infer_matmul(&a, &b, 0, 0).unwrap();
    match r.output_type {
        NovaType::Tensor { shape: TensorShape::Rank(2), .. } => {}
        other => panic!("expected Rank(2) tensor, got {:?}", other),
    }
}

#[test]
fn matmul_non_tensor_fails() {
    let a = NovaType::Float;
    let b = float_tensor(TensorShape::Rank(2));
    assert!(infer_matmul(&a, &b, 0, 0).is_err());
}

#[test]
fn elementwise_same_shape_ok() {
    let a = float_tensor(TensorShape::Known(vec![1024]));
    let b = float_tensor(TensorShape::Known(vec![1024]));
    assert!(infer_elementwise(&a, &b, 0, 0).is_ok());
}

#[test]
fn elementwise_shape_mismatch_fails() {
    let a = float_tensor(TensorShape::Known(vec![512]));
    let b = float_tensor(TensorShape::Known(vec![1024]));
    assert!(infer_elementwise(&a, &b, 0, 0).is_err());
}

#[test]
fn gradient_shape_preserved() {
    let fwd = float_tensor(TensorShape::Known(vec![512, 1024]));
    let grad = infer_gradient_shape(&fwd);
    assert_eq!(grad, float_tensor(TensorShape::Known(vec![512, 1024])));
}

#[test]
fn gradient_strips_unit() {
    let fwd = NovaType::Tensor {
        elem: Box::new(NovaType::UnitFloat { dim: Dim::energy(), unit_str: "eV".into() }),
        shape: TensorShape::Rank(1),
    };
    let grad = infer_gradient_shape(&fwd);
    match grad {
        NovaType::Tensor { elem, .. } => assert_eq!(*elem, NovaType::Float),
        _ => panic!("expected tensor"),
    }
}

#[test]
fn matmul_messages() {
    let a = float_tensor(TensorShape::Known(vec![4, 8]));
    let b = float_tensor(TensorShape::Known(vec![9, 16]));
    let err = infer_matmul(&a, &b, 5, 3).unwrap_err();
    assert_eq!(
        err.message,
        "matmul shape mismatch: inner dimensions 8 vs 9 do not match\n  left:  [4, 8]\n  right: [9, 16]\n  hint:  A @ B requires A.cols == B.rows"
    );
    let batched = infer_matmul(
        &float_tensor(TensorShape::Known(vec![2, 3, 4])),
        &float_tensor(TensorShape::Known(vec![4, 5])),
        0,
        0,
    )
    .unwrap();
    assert_eq!(batched.output_type, float_tensor(TensorShape::Known(vec![2, 3, 5])));
    let e = infer_matmul(&float_tensor(TensorShape::Rank(1)), &float_tensor(TensorShape::Rank(1)), 0, 0).unwrap_err();
    assert_eq!(e.message, "matmul incompatible shapes: rank=1 @ rank=1");
    let e = infer_matmul(&NovaType::Int, &float_tensor(TensorShape::Rank(2)), 0, 0).unwrap_err();
    assert_eq!(e.message, "expected Tensor type, found Int\n  hint: @ operator requires both operands to be Tensor types");
}

// ── environments and errors ──────────────────────────────────────────────────

#[test]
fn env_scopes_shadow_and_unshadow() {
    let mut env = TypeEnv::new();
    env.bind("x", NovaType::Int);
    env.push_scope();
    env.bind("x", NovaType::Float);
    assert_eq!(env.lookup("x").unwrap().body, NovaType::Float);
    env.pop_scope();
    assert_eq!(env.lookup("x").unwrap().body, NovaType::Int);
    env.pop_scope();
    assert_eq!(env.lookup("x").unwrap().body, NovaType::Int);
    assert!(env.lookup("y").is_none());
}

#[test]
fn instantiate_renames_quantified_variables() {
    let env = TypeEnv::new();
    let scheme = TypeScheme {
        quantified: vec![TypeVar(0)],
        body: NovaType::Function(FunctionType {
            params: vec![NovaType::Var(TypeVar(0))],
            ret: Box::new(NovaType::Var(TypeVar(1))),
            parallel: false,
        }),
    };
    let mut counter = 10u32;
    let t = env.instantiate(&scheme, &mut counter);
    assert_eq!(counter, 11);
    assert_eq!(t.to_text(), "(τ10) -> τ1");
}

#[test]
fn instantiate_renames_inside_tensors_and_rows() {
    let env = TypeEnv::new();
    let scheme = TypeScheme {
        quantified: vec![TypeVar(0)],
        body: NovaType::Tuple(vec![
            NovaType::Tensor { elem: Box::new(NovaType::Var(TypeVar(0))), shape: TensorShape::Rank(2) },
            NovaType::Row { fields: vec![("x".to_string(), NovaType::Var(TypeVar(0)))] },
        ]),
    };
    let mut counter = 5u32;
    let t = env.instantiate(&scheme, &mut counter);
    assert_eq!(counter, 6);
    assert_eq!(
        t,
        NovaType::Tuple(vec![
            NovaType::Tensor { elem: Box::new(NovaType::Var(TypeVar(5))), shape: TensorShape::Rank(2) },
            NovaType::Row { fields: vec![("x".to_string(), NovaType::Var(TypeVar(5)))] },
        ])
    );
    assert!(!t.free_vars().contains(&TypeVar(0)));
}

#[test]
fn unify_arrays_binds_the_element() {
    let mut s = subst();
    let a = NovaType::Array(Box::new(NovaType::Var(TypeVar(3))));
    let b = NovaType::Array(Box::new(NovaType::Int));
    assert!(unify(&a, &b, &mut s, 0, 0).is_ok());
    assert_eq!(s.len(), 1);
    assert_eq!(s.apply(&a), b);
}

#[test]
fn type_error_messages() {
    let e = TypeError::UndefinedVariable { name: "v".into(), line: 3, col: 1 };
    assert_eq!(e.message(), "undefined variable 'v'");
    assert_eq!(e.line(), 3);
    let e = TypeError::Unification(UnifyError::at("bad", 9, 2));
    assert_eq!(e.message(), "bad");
    assert_eq!(e.line(), 9);
    assert_ne!(BinOp::Add, BinOp::Sub);
}

#[test]
fn unify_plain_types_equal_despite_unrelated_unit_binding() {
    let mut s = subst();
    s.bind(TypeVar(9), NovaType::UnitFloat { dim: Dim::length(), unit_str: "m".to_string() });
    let a = NovaType::Tuple(vec![NovaType::Var(TypeVar(1)), NovaType::Int]);
    let b = NovaType::Tuple(vec![NovaType::Bool, NovaType::Var(TypeVar(2))]);
    unify(&a, &b, &mut s, 0, 0).unwrap();
    assert_eq!(s.apply(&a), s.apply(&b));
    assert_eq!(s.apply(&a), NovaType::Tuple(vec![NovaType::Bool, NovaType::Int]));
}

#[test]
fn env_lookup_follows_open_binds() {
    let mut env = TypeEnv::new();
    env.bind("x", NovaType::Int);
    env.push_scope();
    env.bind("x", NovaType::Float);
    env.bind("y", NovaType::Bool);
    assert_eq!(env.lookup("x").unwrap().body, NovaType::Float);
    env.push_scope();
    env.pop_scope();
    assert_eq!(env.lookup("y").unwrap().body, NovaType::Bool);
    env.pop_scope();
    assert_eq!(env.lookup("x").unwrap().body, NovaType::Int);
    assert!(env.lookup("y").is_none());
    env.pop_scope();
    assert_eq!(env.lookup("x").unwrap().body, NovaType::Int);
}
