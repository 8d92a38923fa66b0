use nova::autodiff::ComputationGraph;
use nova::toolchain::diagnostics::DiagnosticsEngine;
use nova::typechecker::checker::TypeChecker;
use nova::typechecker::infer::TypeError;
use nova::typechecker::unify::UnifyError;
use nova::unit_resolver::resolver::UnitResolver;

#[test]
fn default_graph_is_empty() {
    let g = ComputationGraph::default();
    assert_eq!(g.node_count(), 0);
    assert!(g.get_reverse_order().is_empty());
}

#[test]
fn default_checker_has_no_errors() {
    let tc = TypeChecker::default();
    assert!(!tc.had_errors());
    assert_eq!(tc.next_var, 2);
}

#[test]
fn default_resolver_knows_si_units() {
    let r = UnitResolver::default();
    assert!(r.try_resolve_unit_str("m/s").unwrap().is_ok());
}

#[test]
fn default_diagnostics_are_empty() {
    let d = DiagnosticsEngine::default();
    assert!(d.get_all().is_empty());
}

#[test]
fn unify_error_becomes_type_error() {
    let e = TypeError::from(UnifyError { message: "boom".to_string(), line: 7, col: 2 });
    assert_eq!(e.line(), 7);
    assert_eq!(e.message(), "boom");
    assert!(matches!(e, TypeError::Unification(_)));
}
