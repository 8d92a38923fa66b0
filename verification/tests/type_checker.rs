use nova::typechecker::checker::TypeChecker;
use nova::typechecker::infer::{BinOp, TypeError};
use nova::typechecker::traits::TraitBound;
use nova::typechecker::types::{NovaType, TypeVar};
use nova::unit_resolver::dimension::Dim;

fn tc() -> TypeChecker {
    TypeChecker::new()
}

// ── Literal inference ────────────────────────────────────────────────────────

#[test]
fn infer_int_lit() {
    assert_eq!(tc().infer_int_lit(), NovaType::Int);
}

#[test]
fn infer_float_lit() {
    assert_eq!(tc().infer_float_lit(), NovaType::Float);
}

#[test]
fn infer_unit_lit_kg() {
    let mut t = tc();
    let ty = t.infer_unit_lit("kg", 0, 0);
    assert!(!t.had_errors(), "unexpected errors: {:?}", t.errors);
    match ty {
        NovaType::UnitFloat { dim, .. } => assert_eq!(dim, Dim::mass()),
        other => panic!("expected UnitFloat, got {:?}", other),
    }
}

#[test]
fn infer_unit_lit_m_per_s() {
    let mut t = tc();
    let ty = t.infer_unit_lit("m/s", 0, 0);
    assert!(!t.had_errors());
    match ty {
        NovaType::UnitFloat { dim, .. } => assert_eq!(dim, Dim::velocity()),
        _ => panic!("expected UnitFloat[m/s]"),
    }
}

#[test]
fn infer_unit_lit_unknown_errors() {
    let mut t = tc();
    t.infer_unit_lit("foobar", 5, 3);
    assert!(t.had_errors());
    let msg = t.errors[0].message();
    assert!(msg.contains("foobar"));
    assert_eq!(t.errors[0].line(), 5);
}

// ── Arithmetic type rules ────────────────────────────────────────────────────

#[test]
fn add_same_unit_ok() {
    let mut t = tc();
    let kg = NovaType::UnitFloat { dim: Dim::mass(), unit_str: "kg".into() };
    let result = t.infer_binop_arith(BinOp::Add, &kg.clone(), &kg, 0, 0);
    assert!(!t.had_errors());
    assert!(matches!(result, NovaType::UnitFloat { .. }));
}

#[test]
fn add_different_units_fails() {
    let mut t = tc();
    let kg = NovaType::UnitFloat { dim: Dim::mass(), unit_str: "kg".into() };
    let m = NovaType::UnitFloat { dim: Dim::length(), unit_str: "m".into() };
    t.infer_binop_arith(BinOp::Add, &kg, &m, 12, 3);
    assert!(t.had_errors());
    let msg = t.errors[0].message();
    assert!(msg.contains("unit dimension mismatch"));
    assert!(msg.contains("hint"));
}

#[test]
fn mul_units_combines_dims() {
    let mut t = tc();
    let kg = NovaType::UnitFloat { dim: Dim::mass(), unit_str: "kg".into() };
    let acc = NovaType::UnitFloat { dim: Dim::acceleration(), unit_str: "m/s".into() };
    let result = t.infer_binop_arith(BinOp::Mul, &kg, &acc, 0, 0);
    assert!(!t.had_errors());
    match result {
        NovaType::UnitFloat { dim, .. } => assert_eq!(dim, Dim::force()),
        _ => panic!("expected UnitFloat"),
    }
}

#[test]
fn div_units_subtracts_dims() {
    let mut t = tc();
    let m = NovaType::UnitFloat { dim: Dim::length(), unit_str: "m".into() };
    let s = NovaType::UnitFloat { dim: Dim::time(), unit_str: "s".into() };
    let result = t.infer_binop_arith(BinOp::Div, &m, &s, 0, 0);
    assert!(!t.had_errors());
    match result {
        NovaType::UnitFloat { dim, .. } => assert_eq!(dim, Dim::velocity()),
        _ => panic!("expected UnitFloat[m/s]"),
    }
}

#[test]
fn comparison_returns_bool() {
    let mut t = tc();
    let f = NovaType::Float;
    let result = t.infer_binop_arith(BinOp::Lt, &f, &f, 0, 0);
    assert_eq!(result, NovaType::Bool);
}

// ── Variable lookup ──────────────────────────────────────────────────────────

#[test]
fn lookup_defined_var() {
    let mut t = tc();
    t.env.bind("mass", NovaType::UnitFloat { dim: Dim::mass(), unit_str: "kg".into() });
    let ty = t.infer_ident("mass", 0, 0);
    assert!(!t.had_errors());
    assert!(matches!(ty, NovaType::UnitFloat { .. }));
}

#[test]
fn lookup_undefined_var_errors() {
    let mut t = tc();
    t.infer_ident("undefined_var", 7, 2);
    assert!(t.had_errors());
    assert!(t.errors[0].message().contains("undefined_var"));
}

// ── Call inference ───────────────────────────────────────────────────────────

#[test]
fn call_transmit_ok() {
    let mut t = tc();
    let callee = t.infer_ident("transmit", 0, 0);
    let ret = t.infer_call(&callee, &[NovaType::Str], 0, 0);
    assert!(!t.had_errors());
    assert_eq!(ret, NovaType::Void);
}

#[test]
fn call_wrong_arity_errors() {
    let mut t = tc();
    let callee = t.infer_ident("ln", 0, 0);
    t.infer_call(&callee, &[NovaType::Float, NovaType::Float], 5, 1);
    assert!(t.had_errors());
    assert!(t.errors[0].message().contains("wrong number"));
}

// ── Return type checking ─────────────────────────────────────────────────────

#[test]
fn return_type_mismatch_errors() {
    let mut t = tc();
    let actual = NovaType::UnitFloat { dim: Dim::velocity(), unit_str: "m/s".into() };
    let expected = NovaType::UnitFloat { dim: Dim::mass(), unit_str: "kg".into() };
    t.check_return(&actual, &expected, 10, 4);
    assert!(t.had_errors());
    assert!(t.errors[0].message().contains("unit dimension mismatch"));
}

// ── delta_v end-to-end type inference ────────────────────────────────────────

#[test]
fn delta_v_type_chain() {
    let mut t = tc();
    let isp_ty = NovaType::UnitFloat { dim: Dim::time(), unit_str: "s".into() };
    let g0_ty = NovaType::UnitFloat { dim: Dim::acceleration(), unit_str: "accel".into() };
    let result = t.infer_binop_arith(BinOp::Mul, &isp_ty, &g0_ty, 0, 0);
    assert!(!t.had_errors(), "unexpected errors: {:?}", t.errors);
    match result {
        NovaType::UnitFloat { dim, .. } => assert_eq!(dim, Dim::velocity()),
        _ => panic!("expected UnitFloat[velocity], got {:?}", result),
    }
}

// ── Scope management ─────────────────────────────────────────────────────────

#[test]
fn inner_scope_shadows_outer() {
    let mut t = tc();
    t.env.bind("x", NovaType::Int);
    t.env.push_scope();
    t.env.bind("x", NovaType::Float);
    let ty = t.infer_ident("x", 0, 0);
    assert_eq!(t.apply(&ty), NovaType::Float);
    t.env.pop_scope();
    let ty2 = t.infer_ident("x", 0, 0);
    assert_eq!(t.apply(&ty2), NovaType::Int);
}

// ── More of the rules ────────────────────────────────────────────────────────

#[test]
fn unit_display_text_of_products_and_powers() {
    let mut t = tc();
    let m = NovaType::UnitFloat { dim: Dim::length(), unit_str: "m".into() };
    let s = NovaType::UnitFloat { dim: Dim::time(), unit_str: "s".into() };
    let v = t.infer_binop_arith(BinOp::Div, &m, &s, 0, 0);
    assert_eq!(v, NovaType::UnitFloat { dim: Dim::velocity(), unit_str: "m/s".into() });
    let a = t.infer_binop_arith(BinOp::Mul, &m, &m, 0, 0);
    assert_eq!(a, NovaType::UnitFloat { dim: Dim::area(), unit_str: "m*m".into() });
    let sq = t.infer_binop_arith(BinOp::Pow, &s, &NovaType::Int, 0, 0);
    assert_eq!(sq, NovaType::UnitFloat { dim: Dim::new(0, 0, 2, 0, 0, 0, 0), unit_str: "s^2".into() });
    assert_eq!(t.infer_binop_arith(BinOp::Mul, &m, &NovaType::Float, 0, 0), m);
    assert_eq!(t.infer_binop_arith(BinOp::Mul, &NovaType::Float, &s, 0, 0), s);
    assert_eq!(t.infer_binop_arith(BinOp::Div, &NovaType::Float, &NovaType::Float, 0, 0), NovaType::Float);
    assert!(!t.had_errors());
}

#[test]
fn logic_operators_need_booleans() {
    let mut t = tc();
    assert_eq!(t.infer_binop_arith(BinOp::And, &NovaType::Bool, &NovaType::Bool, 0, 0), NovaType::Bool);
    assert!(!t.had_errors());
    t.infer_binop_arith(BinOp::Or, &NovaType::Int, &NovaType::Str, 3, 4);
    assert_eq!(t.errors.len(), 2);
    assert_eq!(t.errors[1].line(), 3);
}

#[test]
fn matmul_gives_a_fresh_variable_and_unknown_callee_is_unified() {
    let mut t = tc();
    let first = t.next_var;
    assert_eq!(t.infer_binop_arith(BinOp::Matmul, &NovaType::Float, &NovaType::Float, 0, 0), NovaType::Var(TypeVar(first)));
    let f = NovaType::Var(TypeVar(100));
    let ret = t.infer_call(&f, &[NovaType::Int], 0, 0);
    assert_eq!(ret, NovaType::Var(TypeVar(first + 1)));
    assert!(!t.had_errors());
    match t.apply(&f) {
        NovaType::Function(ft) => assert_eq!(ft.params, vec![NovaType::Int]),
        other => panic!("expected a function type, got {:?}", other),
    }
}

#[test]
fn calling_a_non_function_is_an_error() {
    let mut t = tc();
    t.infer_call(&NovaType::Int, &[], 2, 8);
    assert_eq!(t.errors[0].message(), "type Int is not callable");
    let callee = t.infer_ident("sqrt", 0, 0);
    t.infer_call(&callee, &[], 1, 1);
    assert_eq!(t.errors[1].message(), "wrong number of arguments: expected 1, got 0");
}

#[test]
fn undefined_variable_error_fields() {
    let mut t = tc();
    t.infer_ident("nope", 4, 9);
    match &t.errors[0] {
        TypeError::UndefinedVariable { name, line, col } => {
            assert_eq!(name, "nope");
            assert_eq!((*line, *col), (4, 9));
        }
        other => panic!("unexpected {:?}", other),
    }
}

#[test]
fn trait_bounds_through_checker() {
    let mut t = tc();
    t.check_bounds(&NovaType::Int, &[TraitBound::new("Display")], 0, 0);
    assert!(!t.had_errors());
    t.check_bounds(&NovaType::Void, &[TraitBound::new("Numeric")], 1, 2);
    assert!(matches!(t.errors[0], TypeError::TraitBound(_)));
}

#[test]
fn call_of_unknown_callee_binds_it_to_a_function() {
    let mut t = tc();
    let callee = NovaType::Var(TypeVar(100));
    let ret = t.infer_call(&callee, &[NovaType::Int, NovaType::Bool], 3, 4);
    assert!(!t.had_errors());
    assert_eq!(ret, NovaType::Var(TypeVar(2)));
    let bound = t.apply(&callee);
    assert_eq!(bound.to_text(), "(Int, Bool) -> τ2");
}

#[test]
fn call_of_unknown_callee_occurs_check_leaves_it_unbound() {
    let mut t = tc();
    let callee = NovaType::Var(TypeVar(100));
    t.infer_call(&callee, &[NovaType::Var(TypeVar(100))], 3, 4);
    assert!(!t.had_errors());
    assert_eq!(t.apply(&callee), NovaType::Var(TypeVar(100)));
}
