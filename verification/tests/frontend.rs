use nova::frontend::ast::{BinOp, TypeExpr, UnOp, UnitExpr};
use nova::frontend::error::{Error, ErrorKind};
use nova::frontend::loc::SourceLoc;

#[test]
fn source_locations() {
    let l = SourceLoc::new(1, 2, 3);
    assert_eq!(l.to_text(), "1:2:3");
    assert_eq!(SourceLoc::builtin(), SourceLoc::new(0, 0, 0));
}

#[test]
fn error_text() {
    let e = Error::parse("unexpected token", SourceLoc::new(0, 4, 9));
    assert_eq!(e.kind, ErrorKind::ParseError);
    assert_eq!(e.to_text(), "ParseError  [0:4:9]\n  unexpected token");
    assert_eq!(Error::lex("x", SourceLoc::builtin()).kind, ErrorKind::LexError);
    assert_eq!(Error::type_error("x", SourceLoc::builtin()).kind, ErrorKind::TypeError);
}

#[test]
fn type_expression_text() {
    let t = TypeExpr::Function {
        params: vec![TypeExpr::Int, TypeExpr::Float(Some(UnitExpr("m/s".to_string())))],
        return_type: Box::new(TypeExpr::Tensor { element_type: Box::new(TypeExpr::Float(None)), shape: vec![3, 4] }),
    };
    assert_eq!(t.to_text(), "(Int, Float[[m/s]]) → Tensor[Float,3,4]");
    let r = TypeExpr::Result(Box::new(TypeExpr::String), Box::new(TypeExpr::Named("E".to_string())));
    assert_eq!(r.to_text(), "Result[String,E]");
    assert_eq!(BinOp::MatMul.to_text(), "@");
    assert_eq!(UnOp::Not.to_text(), "!");
}
