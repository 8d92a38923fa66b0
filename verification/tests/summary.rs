use nova::frontend::ast::{TopLevelItem, TypeExpr, UnitExpr};
use nova::frontend::lexer::Lexer;
use nova::frontend::parser::Parser;
use nova::frontend::summary::{item_summary, push_type_debug};

fn debug_of(t: &TypeExpr) -> String {
    let mut s = String::new();
    push_type_debug(&mut s, t);
    s
}

#[test]
fn type_debug_matches_derive() {
    let samples = vec![
        TypeExpr::Named("Void".to_string()),
        TypeExpr::Float(None),
        TypeExpr::Float(Some(UnitExpr("m/s".to_string()))),
        TypeExpr::Int,
        TypeExpr::Bool,
        TypeExpr::String,
        TypeExpr::Tensor { element_type: Box::new(TypeExpr::Float(None)), shape: vec![3, 4] },
        TypeExpr::Tensor { element_type: Box::new(TypeExpr::Int), shape: vec![] },
        TypeExpr::Array(Box::new(TypeExpr::Named("a\"b".to_string()))),
        TypeExpr::Option(Box::new(TypeExpr::Int)),
        TypeExpr::Result(Box::new(TypeExpr::Int), Box::new(TypeExpr::String)),
        TypeExpr::Wave(Box::new(TypeExpr::Bool)),
        TypeExpr::Function { params: vec![TypeExpr::Int, TypeExpr::Bool], return_type: Box::new(TypeExpr::String) },
        TypeExpr::Function { params: vec![], return_type: Box::new(TypeExpr::Int) },
    ];
    for t in &samples {
        assert_eq!(debug_of(t), format!("{:?}", t));
    }
}

#[test]
fn summary_lines_of_a_program() {
    let code = "mission hello() → Void { }\nmodel M { layer a(1) layer b(2) }\nstruct P { x: Int }\nenum E { A B C }\nunit pc = parsec\n";
    let mut lexer = Lexer::new(code, 0);
    let tokens = lexer.tokenize().expect("Lexer failed");
    let program = Parser::new(tokens).parse_program().expect("Parser failed");
    let lines: Vec<String> = program.items.iter().enumerate().map(|(i, item)| item_summary(i, item)).collect();
    assert_eq!(
        lines,
        vec![
            "  [0] mission hello : Some(Named(\"Void\"))".to_string(),
            "  [1] model M (2 layers)".to_string(),
            "  [2] struct P (1 fields)".to_string(),
            "  [3] enum E (3 variants)".to_string(),
            "  [4] unit pc".to_string(),
        ]
    );
    assert!(matches!(program.items[0], TopLevelItem::MissionDecl(_)));
}
