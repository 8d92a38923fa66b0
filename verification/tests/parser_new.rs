use nova::frontend::ast::{BinOp, Expr, Pattern, Program, Statement, TopLevelItem, TypeExpr};
use nova::frontend::error::Error;
use nova::frontend::lexer::Lexer;
use nova::frontend::parser_new::Parser;

fn parse(code: &str) -> Result<Program, Error> {
    let mut lexer = Lexer::new(code, 0);
    let tokens = lexer.tokenize().expect("Lexer failed");
    let mut parser = Parser::new(tokens);
    parser.parse_program()
}

fn body_of(program: &Program) -> &Vec<Statement> {
    match &program.items[0] {
        TopLevelItem::MissionDecl(m) => &m.body,
        other => panic!("Expected mission declaration, got {:?}", other),
    }
}

fn let_value(program: &Program) -> &Expr {
    match &body_of(program)[0] {
        Statement::LetBind { value, .. } => value,
        other => panic!("Expected let binding, got {:?}", other),
    }
}

#[test]
fn alt_simple_mission() {
    let program = parse("mission hello() → Void { transmit(\"hi\") }").expect("Parser failed");
    assert_eq!(program.items.len(), 1);
    match &program.items[0] {
        TopLevelItem::MissionDecl(m) => {
            assert_eq!(m.name, "hello");
            assert!(matches!(m.return_type, Some(TypeExpr::Named(ref n)) if n == "Void"));
            assert_eq!(m.body.len(), 1);
        }
        _ => panic!("Expected mission declaration"),
    }
}

#[test]
fn alt_lambda() {
    let program = parse("mission f() { let g = x => x + 1 }").expect("Parser failed");
    match let_value(&program) {
        Expr::Lambda { param, body, .. } => {
            assert_eq!(param, "x");
            assert!(matches!(**body, Expr::BinaryOp { op: BinOp::Add, .. }));
        }
        other => panic!("unexpected {:?}", other),
    }
}

#[test]
fn alt_named_call_arguments() {
    let program = parse("mission f() { let v = g(a: 1, 2) }").expect("Parser failed");
    match let_value(&program) {
        Expr::Call { args, .. } => {
            assert_eq!(args.len(), 2);
            assert_eq!(args[0].0.as_deref(), Some("a"));
            assert!(matches!(args[0].1, Expr::Integer(1)));
            assert!(args[1].0.is_none());
            assert!(matches!(args[1].1, Expr::Integer(2)));
        }
        other => panic!("unexpected {:?}", other),
    }
}

#[test]
fn alt_matmul_binds_tighter_than_multiplication() {
    let program = parse("mission f() { let v = a * b @ c }").expect("Parser failed");
    match let_value(&program) {
        Expr::BinaryOp { op: BinOp::Multiply, right, .. } => {
            assert!(matches!(**right, Expr::BinaryOp { op: BinOp::MatMul, .. }));
        }
        other => panic!("unexpected {:?}", other),
    }
}

#[test]
fn alt_struct_and_tensor_literals() {
    let program = parse("mission f() { let p = {x: 1, y: 2} let t = [1, 2, 3] }").expect("Parser failed");
    let body = body_of(&program);
    match &body[0] {
        Statement::LetBind { value: Expr::StructLiteral { ty_name, fields, .. }, .. } => {
            assert!(ty_name.is_none());
            assert_eq!(fields.len(), 2);
            assert_eq!(fields[0].0, "x");
            assert_eq!(fields[1].0, "y");
        }
        other => panic!("unexpected {:?}", other),
    }
    match &body[1] {
        Statement::LetBind { value: Expr::TensorLiteral { elements, .. }, .. } => assert_eq!(elements.len(), 3),
        other => panic!("unexpected {:?}", other),
    }
}

#[test]
fn alt_if_expression_branches_stand_as_true() {
    let program = parse("mission f() { let v = if c { 1 } else { 2 } }").expect("Parser failed");
    match let_value(&program) {
        Expr::If { condition, then_expr, else_expr, .. } => {
            assert!(matches!(**condition, Expr::Ident(ref n) if n == "c"));
            assert!(matches!(**then_expr, Expr::Bool(true)));
            assert!(matches!(else_expr.as_deref(), Some(Expr::Bool(true))));
        }
        other => panic!("unexpected {:?}", other),
    }
}

#[test]
fn alt_match_expression() {
    let program = parse("mission f() { let v = match x { a => 1, b => 2 } }").expect("Parser failed");
    match let_value(&program) {
        Expr::Match { arms, .. } => {
            assert_eq!(arms.len(), 2);
            assert!(matches!(arms[0].pattern, Pattern::Ident(ref n) if n == "a"));
            assert!(arms[0].guard.is_none());
            assert!(matches!(arms[1].body, Expr::Integer(2)));
        }
        other => panic!("unexpected {:?}", other),
    }
}

#[test]
fn alt_gradient_pipeline_autodiff() {
    let program = parse(
        "mission f() { let g = gradient(loss, wrt w, b) let p = pipeline[f, g] let a = autodiff(loss) { return 1 } }",
    )
    .expect("Parser failed");
    let body = body_of(&program);
    match &body[0] {
        Statement::LetBind { value: Expr::Gradient { wrt, .. }, .. } => assert_eq!(wrt, &vec!["w".to_string(), "b".to_string()]),
        other => panic!("unexpected {:?}", other),
    }
    match &body[1] {
        Statement::LetBind { value: Expr::Pipeline { source, stages, .. }, .. } => {
            assert!(matches!(**source, Expr::Ident(ref n) if n == "_"));
            assert_eq!(stages.len(), 2);
        }
        other => panic!("unexpected {:?}", other),
    }
    match &body[2] {
        Statement::LetBind { value: Expr::Autodiff { body, .. }, .. } => assert_eq!(body.len(), 1),
        other => panic!("unexpected {:?}", other),
    }
}

#[test]
fn alt_tensor_type() {
    let program = parse("mission f(w: Tensor[Float, 3, 4]) {}").expect("Parser failed");
    match &program.items[0] {
        TopLevelItem::MissionDecl(m) => match &m.params[0].type_annotation {
            TypeExpr::Tensor { element_type, shape } => {
                assert!(matches!(**element_type, TypeExpr::Float(None)));
                assert_eq!(shape, &vec![3usize, 4]);
            }
            other => panic!("unexpected {:?}", other),
        },
        _ => panic!("Expected mission declaration"),
    }
}

#[test]
fn alt_tensor_type_needs_integer_dimensions() {
    let err = parse("mission f(w: Tensor[Float, n]) {}").unwrap_err();
    assert_eq!(err.message, "Expected dimension in tensor type");
}

#[test]
fn alt_model_layers_with_repeat() {
    let program = parse("model M { layer dense(units = 10) repeat(3); layer relu() }").expect("Parser failed");
    match &program.items[0] {
        TopLevelItem::ModelDecl(m) => {
            assert_eq!(m.name, "M");
            assert_eq!(m.layers.len(), 2);
            assert_eq!(m.layers[0].kind, "dense");
            assert_eq!(m.layers[0].args[0].0, "units");
            assert!(matches!(m.layers[0].args[0].1, Expr::Integer(10)));
            assert_eq!(m.layers[0].repeat, Some(3));
            assert_eq!(m.layers[1].repeat, None);
        }
        _ => panic!("Expected model declaration"),
    }
}

#[test]
fn alt_test_mission_takes_the_name_directly() {
    let program = parse("test check() { assert(true) }").expect("Parser failed");
    assert!(matches!(&program.items[0], TopLevelItem::TestMission(m) if m.name == "check"));
    let err = parse("test mission check() {}").unwrap_err();
    assert_eq!(err.message, "Expected Ident(\"\"), got Mission");
}

#[test]
fn alt_return_type_after_any_identifier() {
    let program = parse("mission f() returns Int { return 1 }").expect("Parser failed");
    match &program.items[0] {
        TopLevelItem::MissionDecl(m) => assert!(matches!(m.return_type, Some(TypeExpr::Int))),
        _ => panic!("Expected mission declaration"),
    }
}

#[test]
fn alt_struct_fields_need_commas() {
    let program = parse("struct P { x: Int, y: Int }").expect("Parser failed");
    assert!(matches!(&program.items[0], TopLevelItem::StructDecl(s) if s.fields.len() == 2));
    let err = parse("struct P { x: Int y: Int }").unwrap_err();
    assert_eq!(err.message, "Expected RBrace, got Ident(\"y\")");
}

#[test]
fn alt_enum_and_unit() {
    let program = parse("enum E { A, B, C } unit pc = parsec;").expect("Parser failed");
    assert!(matches!(&program.items[0], TopLevelItem::EnumDecl(e) if e.variants.len() == 3));
    assert!(matches!(&program.items[1], TopLevelItem::UnitDecl(u) if u.definition.0 == "parsec"));
}

#[test]
fn alt_constellation() {
    let program = parse("constellation C { export run; mission run() {} }").expect("Parser failed");
    assert!(matches!(&program.items[0], TopLevelItem::ConstellationDecl(c) if c.items.len() == 2));
    let err = parse("constellation C { let x = 1 }").unwrap_err();
    assert_eq!(err.message, "Expected mission or export in constellation");
}

#[test]
fn alt_top_level_error() {
    let err = parse("let x = 1").unwrap_err();
    assert_eq!(err.message, "Expected top-level declaration, got Let");
}

#[test]
fn alt_else_if_statement_is_rejected() {
    assert!(parse("mission f() { if a { x } else if b { y } else { z } }").is_err());
}

#[test]
fn alt_statements() {
    let program = parse("mission f() { var i = 0; while i < 3 { i } for k in xs { break } return }")
        .expect("Parser failed");
    let body = body_of(&program);
    assert_eq!(body.len(), 4);
    assert!(matches!(body[0], Statement::LetBind { mutable: true, .. }));
    assert!(matches!(body[1], Statement::While { .. }));
    assert!(matches!(body[2], Statement::For { .. }));
    assert!(matches!(body[3], Statement::Return(None)));
}

#[test]
fn alt_empty_input() {
    assert!(parse("").expect("Parser failed").items.is_empty());
}
