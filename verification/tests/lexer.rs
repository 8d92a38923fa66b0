use nova::frontend::error::ErrorKind;
use nova::frontend::lexer::{Lexer, Token, TokenKind};
use nova::frontend::loc::SourceLoc;

fn lex(code: &str) -> Vec<Token> {
    let mut lexer = Lexer::new(code, 0);
    lexer.tokenize().expect("Lexer failed")
}

fn kinds(code: &str) -> Vec<TokenKind> {
    lex(code).into_iter().map(|t| t.kind).collect()
}

#[test]
fn lexer_test_simple_mission() {
    let mut lexer = Lexer::new("mission foo() → Void {}", 0);
    let tokens = lexer.tokenize().unwrap();
    assert!(matches!(tokens[0].kind, TokenKind::Mission));
    assert!(matches!(tokens[1].kind, TokenKind::Ident(ref s) if s == "foo"));
    assert!(matches!(tokens[2].kind, TokenKind::LParen));
}

#[test]
fn test_unit_annotation() {
    let mut lexer = Lexer::new("let x = 3.0[m/s²]", 0);
    let tokens = lexer.tokenize().unwrap();
    assert!(matches!(tokens[0].kind, TokenKind::Let));
    // `let`, `x`, `=`, then the annotated literal as one token, then `Eof`
    assert_eq!(tokens.len(), 5);
    match &tokens[3].kind {
        TokenKind::UnitAnnotatedFloat { value, unit } => {
            assert_eq!(value.parse::<f64>().unwrap(), 3.0);
            assert!(unit.contains("m/s"));
        }
        _ => panic!("Expected unit annotated float"),
    }
}

#[test]
fn test_lexer_token_count() {
    let code = r#"
        mission main() → Void {
            transmit("Hello")
            let x = 42
        }
    "#;
    let tokens = lex(code);
    assert!(tokens.len() >= 15);
}

#[test]
fn test_lexer_preserves_string_literals() {
    let code = r#"transmit("Hello, Universe!")"#;
    let tokens = lex(code);
    assert!(tokens.len() >= 2);
}

#[test]
fn test_lexer_preserves_numbers() {
    let code = r#"let x = 42; let y = 3.14; let z = 1_000_000"#;
    let tokens = lex(code);
    assert!(tokens.len() >= 10);
}

#[test]
fn operators_and_punctuation() {
    let ks = kinds("( ) { } [ ] , : ; ? ^ @ % + * / → -> |> => .. . == = != ! <= < >= > && & || -");
    let expected = vec![
        TokenKind::LParen,
        TokenKind::RParen,
        TokenKind::LBrace,
        TokenKind::RBrace,
        TokenKind::LBracket,
        TokenKind::RBracket,
        TokenKind::Comma,
        TokenKind::Colon,
        TokenKind::Semicolon,
        TokenKind::Question,
        TokenKind::Caret,
        TokenKind::At,
        TokenKind::Percent,
        TokenKind::Plus,
        TokenKind::Star,
        TokenKind::Slash,
        TokenKind::Arrow,
        TokenKind::Arrow,
        TokenKind::Pipe,
        TokenKind::FatArrow,
        TokenKind::Dotdot,
        TokenKind::Dot,
        TokenKind::EqEq,
        TokenKind::Equals,
        TokenKind::NotEq,
        TokenKind::Not,
        TokenKind::LessEq,
        TokenKind::Less,
        TokenKind::GreaterEq,
        TokenKind::Greater,
        TokenKind::And,
        TokenKind::Ampersand,
        TokenKind::Or,
        TokenKind::Minus,
        TokenKind::Eof,
    ];
    assert_eq!(ks, expected);
}

#[test]
fn keywords_booleans_and_identifiers() {
    let ks = kinds("mission parallel constellation absorb let var model layer repeat autodiff gradient wrt for in while match return export transmit if else break pipeline struct enum unit wave on device from test true false missions _x x1");
    assert_eq!(ks[0], TokenKind::Mission);
    assert_eq!(ks[30], TokenKind::Test);
    assert_eq!(ks[31], TokenKind::Bool(true));
    assert_eq!(ks[32], TokenKind::Bool(false));
    assert_eq!(ks[33], TokenKind::Ident("missions".to_string()));
    assert_eq!(ks[34], TokenKind::Ident("_x".to_string()));
    assert_eq!(ks[35], TokenKind::Ident("x1".to_string()));
    assert_eq!(ks[36], TokenKind::Eof);
    assert_eq!(ks.len(), 37);
}

#[test]
fn numbers() {
    assert_eq!(kinds("42")[0], TokenKind::Integer(42));
    assert_eq!(kinds("-7")[0], TokenKind::Integer(-7));
    assert_eq!(kinds("3.14")[0], TokenKind::Float("3.14".to_string()));
    assert_eq!(kinds(".5")[0], TokenKind::Float(".5".to_string()));
    assert_eq!(kinds("1e5")[0], TokenKind::Float("1e5".to_string()));
    assert_eq!(kinds("6.674e-11")[0], TokenKind::Float("6.674e-11".to_string()));
    assert_eq!(kinds("-2.5")[0], TokenKind::Float("-2.5".to_string()));
    assert_eq!(kinds("9223372036854775807")[0], TokenKind::Integer(i64::MAX));
    // `1_000` is the number 1 followed by the identifier `_000`
    assert_eq!(kinds("1_000"), vec![TokenKind::Integer(1), TokenKind::Ident("_000".to_string()), TokenKind::Eof]);
    // `1.x` is an integer, a dot and an identifier
    assert_eq!(kinds("1.x")[1], TokenKind::Dot);
    assert_eq!(
        kinds("9.8[m/s^2]")[0],
        TokenKind::UnitAnnotatedFloat { value: "9.8".to_string(), unit: "m/s^2".to_string() }
    );
    assert_eq!(
        kinds("-5[kg]")[0],
        TokenKind::UnitAnnotatedFloat { value: "-5".to_string(), unit: "kg".to_string() }
    );
    assert_eq!(
        kinds("2[a[b]c]")[0],
        TokenKind::UnitAnnotatedFloat { value: "2".to_string(), unit: "a[b]c".to_string() }
    );
}

#[test]
fn number_errors() {
    let e = Lexer::new("9223372036854775808", 0).tokenize().unwrap_err();
    assert_eq!(e.kind, ErrorKind::LexError);
    assert_eq!(e.message, "Invalid integer literal");
    let e = Lexer::new("x = 1e", 0).tokenize().unwrap_err();
    assert_eq!(e.message, "Invalid float literal");
    assert_eq!(e.location, SourceLoc::new(0, 1, 5));
    let e = Lexer::new("1e5e3", 0).tokenize().unwrap_err();
    assert_eq!(e.message, "Invalid float literal");
    let e = Lexer::new("3[m/s", 0).tokenize().unwrap_err();
    assert_eq!(e.message, "Unterminated unit annotation");
    assert_eq!(e.location, SourceLoc::new(0, 1, 2));
}

#[test]
fn strings_and_escapes() {
    assert_eq!(kinds(r#""a\nb\t\"q\" \x""#)[0], TokenKind::String("a\nb\t\"q\" x".to_string()));
    assert_eq!(kinds("'it''s'")[0], TokenKind::String("it".to_string()));
    assert_eq!(kinds("\"it's\"")[0], TokenKind::String("it's".to_string()));
    let e = Lexer::new("\"open", 0).tokenize().unwrap_err();
    assert_eq!(e.message, "Unterminated string");
    let e = Lexer::new("  \"open\\", 0).tokenize().unwrap_err();
    assert_eq!(e.message, "Unterminated string escape");
    assert_eq!(e.location, SourceLoc::new(0, 1, 3));
}

#[test]
fn comments_lines_and_columns() {
    let tokens = lex("-- a comment\n  let x -- trailing\n\n y");
    assert_eq!(tokens[0].kind, TokenKind::Let);
    assert_eq!(tokens[0].location, SourceLoc::new(0, 2, 3));
    assert_eq!(tokens[1].location, SourceLoc::new(0, 2, 7));
    assert_eq!(tokens[2].kind, TokenKind::Ident("y".to_string()));
    assert_eq!(tokens[2].location, SourceLoc::new(0, 4, 2));
    assert_eq!(tokens[3].kind, TokenKind::Eof);
    assert_eq!(tokens[3].location, SourceLoc::new(0, 4, 3));
    assert_eq!(kinds(""), vec![TokenKind::Eof]);
}

#[test]
fn unexpected_characters() {
    let e = Lexer::new("a # b", 3).tokenize().unwrap_err();
    assert_eq!(e.message, "Unexpected character: '#'");
    assert_eq!(e.location, SourceLoc::new(3, 1, 3));
    let e = Lexer::new("a | b", 0).tokenize().unwrap_err();
    assert_eq!(e.message, "Unexpected '|' — did you mean '|>' (pipe)?");
}
