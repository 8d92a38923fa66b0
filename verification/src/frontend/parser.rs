//! The NOVA parser: a recursive-descent parser from tokens to a program.
//!
//! The grammar is stated over the token sequence by the spec functions below,
//! each giving the syntax it parses (as a plain value) and the position after
//! it, or the parse error; the parser's functions are proved to compute them.
//! The token list must end with `Eof`, as the lexer's does: the parser never
//! moves past its last token.

use vstd::prelude::*;
use crate::frontend::ast::{
    BinOp, ConstItemM, citems_view, fields_view, layer_args_view, layers_view, names_view, ConstellationDecl, ConstellationItem, Expr, ExprM, ItemM, LayerDecl, LayerM,
    MissionDecl, MissionM, ModelDecl, ParamM, Parameter, Program, Statement, StmtM, StructDecl,
    EnumDecl, TopLevelItem, TypeExpr, TypeM, UnOp, UnitDecl, UnitExpr, args_view, binop_symbol, expr_view,
    exprs_view, item_view, layer_view, mission_view, params_view, program_view,
    stmt_view, stmts_view, type_view,
};
use crate::frontend::error::{Error, ErrorKind};
use crate::frontend::lexer::{Lexeme, Token, TokenKind, step};
use crate::frontend::loc::SourceLoc;
use crate::text::{push_char, push_signed, push_str, signed_decimal, str_to_string};

verus! {

// ── Token kinds ─────────────────────────────────────────────────────────────

/// A string as its debug text shows it: quoted, with quotes, backslashes and
/// the common control characters escaped.
pub open spec fn debug_str(s: Seq<char>) -> Seq<char> {
    seq!['"'] + escaped_text(s) + seq!['"']
}

/// The escape of one character in debug text.
pub open spec fn escape_of(c: char) -> Seq<char> {
    if c == '"' {
        seq!['\\', '"']
    } else if c == '\\' {
        seq!['\\', '\\']
    } else if c == '\n' {
        seq!['\\', 'n']
    } else if c == '\r' {
        seq!['\\', 'r']
    } else if c == '\t' {
        seq!['\\', 't']
    } else if c == '\0' {
        seq!['\\', '0']
    } else if (c as u32) < 0x20 || c as u32 == 0x7f {
        seq!['\\', 'u', '{'] + hex_small(c as u32 as nat) + seq!['}']
    } else {
        seq![c]
    }
}

/// A lowercase hexadecimal digit.
pub open spec fn hex_digit(d: nat) -> char {
    if d < 10 { ((d + 48) as u8) as char } else { ((d + 87) as u8) as char }
}

/// A number below 256 in lowercase hexadecimal, without leading zeros.
pub open spec fn hex_small(n: nat) -> Seq<char> {
    if n < 16 { seq![hex_digit(n)] } else { seq![hex_digit(n / 16), hex_digit(n % 16)] }
}

/// Appends a lowercase hexadecimal digit.
fn push_hex_digit(s: &mut String, d: u32)
    requires
        d < 16,
    ensures
        final(s)@ == old(s)@.push(hex_digit(d as nat)),
{
    let c: char = if d < 10 { ((d + 48) as u8) as char } else { ((d + 87) as u8) as char };
    push_char(s, c);
}

/// The characters of `s`, each escaped.
pub open spec fn escaped_text(s: Seq<char>) -> Seq<char>
    decreases s.len(),
{
    if s.len() == 0 {
        Seq::empty()
    } else {
        escaped_text(s.drop_last()) + escape_of(s.last())
    }
}

/// Appends the debug text of a string.
pub(crate) fn push_debug_str(s: &mut String, t: &String)
    ensures
        final(s)@ == old(s)@ + debug_str(t@),
{
    let ghost s0 = s@;
    push_char(s, '"');
    let chars = crate::text::chars_of(t.as_str());
    let mut i: usize = 0;
    while i < chars.len()
        invariant
            i <= chars@.len(),
            chars@ == t@,
            s@ == s0 + seq!['"'] + escaped_text(t@.take(i as int)),
        decreases chars@.len() - i,
    {
        let c = chars[i];
        let ghost before = s@;
        if c == '"' {
            push_char(s, '\\');
            push_char(s, '"');
        } else if c == '\\' {
            push_char(s, '\\');
            push_char(s, '\\');
        } else if c == '\n' {
            push_char(s, '\\');
            push_char(s, 'n');
        } else if c == '\r' {
            push_char(s, '\\');
            push_char(s, 'r');
        } else if c == '\t' {
            push_char(s, '\\');
            push_char(s, 't');
        } else if c == '\0' {
            push_char(s, '\\');
            push_char(s, '0');
        } else if (c as u32) < 0x20 || c as u32 == 0x7f {
            let n = c as u32;
            push_char(s, '\\');
            push_char(s, 'u');
            push_char(s, '{');
            if n >= 16 {
                push_hex_digit(s, n / 16);
            }
            push_hex_digit(s, n % 16);
            push_char(s, '}');
        } else {
            push_char(s, c);
        }
        assert(t@.take(i + 1).drop_last() =~= t@.take(i as int));
        assert(s@ =~= before + escape_of(c));
        i = i + 1;
    }
    push_char(s, '"');
    assert(t@.take(t@.len() as int) =~= t@);
    assert(s@ =~= s0 + debug_str(t@));
}

/// The position of a token kind in the list of kinds: kinds with the same
/// position differ at most in their payload.
pub open spec fn kind_tag(k: TokenKind) -> int {
    match k {
        TokenKind::Integer(..) => 0,
        TokenKind::Float(..) => 1,
        TokenKind::UnitAnnotatedFloat { .. } => 2,
        TokenKind::String(..) => 3,
        TokenKind::Bool(..) => 4,
        TokenKind::Mission => 5,
        TokenKind::Parallel => 6,
        TokenKind::Constellation => 7,
        TokenKind::Absorb => 8,
        TokenKind::Let => 9,
        TokenKind::Var => 10,
        TokenKind::Model => 11,
        TokenKind::Layer => 12,
        TokenKind::Repeat => 13,
        TokenKind::Autodiff => 14,
        TokenKind::Gradient => 15,
        TokenKind::Wrt => 16,
        TokenKind::For => 17,
        TokenKind::In => 18,
        TokenKind::While => 19,
        TokenKind::Match => 20,
        TokenKind::Return => 21,
        TokenKind::Export => 22,
        TokenKind::Transmit => 23,
        TokenKind::If => 24,
        TokenKind::Else => 25,
        TokenKind::Break => 26,
        TokenKind::Pipeline => 27,
        TokenKind::Struct => 28,
        TokenKind::Enum => 29,
        TokenKind::Unit => 30,
        TokenKind::Wave => 31,
        TokenKind::On => 32,
        TokenKind::Device => 33,
        TokenKind::From => 34,
        TokenKind::Test => 35,
        TokenKind::Arrow => 36,
        TokenKind::Pipe => 37,
        TokenKind::At => 38,
        TokenKind::Caret => 39,
        TokenKind::FatArrow => 40,
        TokenKind::Dotdot => 41,
        TokenKind::Question => 42,
        TokenKind::Plus => 43,
        TokenKind::Minus => 44,
        TokenKind::Star => 45,
        TokenKind::Slash => 46,
        TokenKind::Percent => 47,
        TokenKind::Equals => 48,
        TokenKind::EqEq => 49,
        TokenKind::NotEq => 50,
        TokenKind::Less => 51,
        TokenKind::Greater => 52,
        TokenKind::LessEq => 53,
        TokenKind::GreaterEq => 54,
        TokenKind::And => 55,
        TokenKind::Or => 56,
        TokenKind::Not => 57,
        TokenKind::Ampersand => 58,
        TokenKind::Dot => 59,
        TokenKind::Comma => 60,
        TokenKind::Colon => 61,
        TokenKind::Semicolon => 62,
        TokenKind::LParen => 63,
        TokenKind::RParen => 64,
        TokenKind::LBrace => 65,
        TokenKind::RBrace => 66,
        TokenKind::LBracket => 67,
        TokenKind::RBracket => 68,
        TokenKind::Ident(..) => 69,
        TokenKind::Eof => 70,
    }
}

pub(crate) fn tag_of(k: &TokenKind) -> (r: u8)
    ensures
        r as int == kind_tag(*k),
{
    match k {
        TokenKind::Integer(..) => 0,
        TokenKind::Float(..) => 1,
        TokenKind::UnitAnnotatedFloat { .. } => 2,
        TokenKind::String(..) => 3,
        TokenKind::Bool(..) => 4,
        TokenKind::Mission => 5,
        TokenKind::Parallel => 6,
        TokenKind::Constellation => 7,
        TokenKind::Absorb => 8,
        TokenKind::Let => 9,
        TokenKind::Var => 10,
        TokenKind::Model => 11,
        TokenKind::Layer => 12,
        TokenKind::Repeat => 13,
        TokenKind::Autodiff => 14,
        TokenKind::Gradient => 15,
        TokenKind::Wrt => 16,
        TokenKind::For => 17,
        TokenKind::In => 18,
        TokenKind::While => 19,
        TokenKind::Match => 20,
        TokenKind::Return => 21,
        TokenKind::Export => 22,
        TokenKind::Transmit => 23,
        TokenKind::If => 24,
        TokenKind::Else => 25,
        TokenKind::Break => 26,
        TokenKind::Pipeline => 27,
        TokenKind::Struct => 28,
        TokenKind::Enum => 29,
        TokenKind::Unit => 30,
        TokenKind::Wave => 31,
        TokenKind::On => 32,
        TokenKind::Device => 33,
        TokenKind::From => 34,
        TokenKind::Test => 35,
        TokenKind::Arrow => 36,
        TokenKind::Pipe => 37,
        TokenKind::At => 38,
        TokenKind::Caret => 39,
        TokenKind::FatArrow => 40,
        TokenKind::Dotdot => 41,
        TokenKind::Question => 42,
        TokenKind::Plus => 43,
        TokenKind::Minus => 44,
        TokenKind::Star => 45,
        TokenKind::Slash => 46,
        TokenKind::Percent => 47,
        TokenKind::Equals => 48,
        TokenKind::EqEq => 49,
        TokenKind::NotEq => 50,
        TokenKind::Less => 51,
        TokenKind::Greater => 52,
        TokenKind::LessEq => 53,
        TokenKind::GreaterEq => 54,
        TokenKind::And => 55,
        TokenKind::Or => 56,
        TokenKind::Not => 57,
        TokenKind::Ampersand => 58,
        TokenKind::Dot => 59,
        TokenKind::Comma => 60,
        TokenKind::Colon => 61,
        TokenKind::Semicolon => 62,
        TokenKind::LParen => 63,
        TokenKind::RParen => 64,
        TokenKind::LBrace => 65,
        TokenKind::RBrace => 66,
        TokenKind::LBracket => 67,
        TokenKind::RBracket => 68,
        TokenKind::Ident(..) => 69,
        TokenKind::Eof => 70,
    }
}

/// The debug text of a token kind: its variant, with its payload.
pub open spec fn kind_debug(k: TokenKind) -> Seq<char> {
    match k {
        TokenKind::Integer(n) => "Integer("@ + signed_decimal(n as int) + ")"@,
        TokenKind::Float(t) => "Float("@ + t@ + ")"@,
        TokenKind::UnitAnnotatedFloat { value, unit } => "UnitAnnotatedFloat { value: "@ + value@ + ", unit: "@ + debug_str(unit@) + " }"@,
        TokenKind::String(t) => "String("@ + debug_str(t@) + ")"@,
        TokenKind::Bool(b) => if b { "Bool(true)"@ } else { "Bool(false)"@ },
        TokenKind::Mission => "Mission"@,
        TokenKind::Parallel => "Parallel"@,
        TokenKind::Constellation => "Constellation"@,
        TokenKind::Absorb => "Absorb"@,
        TokenKind::Let => "Let"@,
        TokenKind::Var => "Var"@,
        TokenKind::Model => "Model"@,
        TokenKind::Layer => "Layer"@,
        TokenKind::Repeat => "Repeat"@,
        TokenKind::Autodiff => "Autodiff"@,
        TokenKind::Gradient => "Gradient"@,
        TokenKind::Wrt => "Wrt"@,
        TokenKind::For => "For"@,
        TokenKind::In => "In"@,
        TokenKind::While => "While"@,
        TokenKind::Match => "Match"@,
        TokenKind::Return => "Return"@,
        TokenKind::Export => "Export"@,
        TokenKind::Transmit => "Transmit"@,
        TokenKind::If => "If"@,
        TokenKind::Else => "Else"@,
        TokenKind::Break => "Break"@,
        TokenKind::Pipeline => "Pipeline"@,
        TokenKind::Struct => "Struct"@,
        TokenKind::Enum => "Enum"@,
        TokenKind::Unit => "Unit"@,
        TokenKind::Wave => "Wave"@,
        TokenKind::On => "On"@,
        TokenKind::Device => "Device"@,
        TokenKind::From => "From"@,
        TokenKind::Test => "Test"@,
        TokenKind::Arrow => "Arrow"@,
        TokenKind::Pipe => "Pipe"@,
        TokenKind::At => "At"@,
        TokenKind::Caret => "Caret"@,
        TokenKind::FatArrow => "FatArrow"@,
        TokenKind::Dotdot => "Dotdot"@,
        TokenKind::Question => "Question"@,
        TokenKind::Plus => "Plus"@,
        TokenKind::Minus => "Minus"@,
        TokenKind::Star => "Star"@,
        TokenKind::Slash => "Slash"@,
        TokenKind::Percent => "Percent"@,
        TokenKind::Equals => "Equals"@,
        TokenKind::EqEq => "EqEq"@,
        TokenKind::NotEq => "NotEq"@,
        TokenKind::Less => "Less"@,
        TokenKind::Greater => "Greater"@,
        TokenKind::LessEq => "LessEq"@,
        TokenKind::GreaterEq => "GreaterEq"@,
        TokenKind::And => "And"@,
        TokenKind::Or => "Or"@,
        TokenKind::Not => "Not"@,
        TokenKind::Ampersand => "Ampersand"@,
        TokenKind::Dot => "Dot"@,
        TokenKind::Comma => "Comma"@,
        TokenKind::Colon => "Colon"@,
        TokenKind::Semicolon => "Semicolon"@,
        TokenKind::LParen => "LParen"@,
        TokenKind::RParen => "RParen"@,
        TokenKind::LBrace => "LBrace"@,
        TokenKind::RBrace => "RBrace"@,
        TokenKind::LBracket => "LBracket"@,
        TokenKind::RBracket => "RBracket"@,
        TokenKind::Ident(t) => "Ident("@ + debug_str(t@) + ")"@,
        TokenKind::Eof => "Eof"@,
    }
}

/// Appends the debug text of a token kind.
pub(crate) fn push_kind_debug(s: &mut String, k: &TokenKind)
    ensures
        final(s)@ == old(s)@ + kind_debug(*k),
{
    let ghost s0 = s@;
    match k {
        TokenKind::Integer(n) => {
            push_str(s, "Integer(");
            push_signed(s, *n);
            push_str(s, ")");
        },
        TokenKind::Float(t) => {
            push_str(s, "Float(");
            push_str(s, t.as_str());
            push_str(s, ")");
        },
        TokenKind::UnitAnnotatedFloat { value, unit } => {
            push_str(s, "UnitAnnotatedFloat { value: ");
            push_str(s, value.as_str());
            push_str(s, ", unit: ");
            push_debug_str(s, unit);
            push_str(s, " }");
        },
        TokenKind::String(t) => {
            push_str(s, "String(");
            push_debug_str(s, t);
            push_str(s, ")");
        },
        TokenKind::Bool(b) => {
            if *b {
                push_str(s, "Bool(true)");
            } else {
                push_str(s, "Bool(false)");
            }
        },
        TokenKind::Mission => push_str(s, "Mission"),
        TokenKind::Parallel => push_str(s, "Parallel"),
        TokenKind::Constellation => push_str(s, "Constellation"),
        TokenKind::Absorb => push_str(s, "Absorb"),
        TokenKind::Let => push_str(s, "Let"),
        TokenKind::Var => push_str(s, "Var"),
        TokenKind::Model => push_str(s, "Model"),
        TokenKind::Layer => push_str(s, "Layer"),
        TokenKind::Repeat => push_str(s, "Repeat"),
        TokenKind::Autodiff => push_str(s, "Autodiff"),
        TokenKind::Gradient => push_str(s, "Gradient"),
        TokenKind::Wrt => push_str(s, "Wrt"),
        TokenKind::For => push_str(s, "For"),
        TokenKind::In => push_str(s, "In"),
        TokenKind::While => push_str(s, "While"),
        TokenKind::Match => push_str(s, "Match"),
        TokenKind::Return => push_str(s, "Return"),
        TokenKind::Export => push_str(s, "Export"),
        TokenKind::Transmit => push_str(s, "Transmit"),
        TokenKind::If => push_str(s, "If"),
        TokenKind::Else => push_str(s, "Else"),
        TokenKind::Break => push_str(s, "Break"),
        TokenKind::Pipeline => push_str(s, "Pipeline"),
        TokenKind::Struct => push_str(s, "Struct"),
        TokenKind::Enum => push_str(s, "Enum"),
        TokenKind::Unit => push_str(s, "Unit"),
        TokenKind::Wave => push_str(s, "Wave"),
        TokenKind::On => push_str(s, "On"),
        TokenKind::Device => push_str(s, "Device"),
        TokenKind::From => push_str(s, "From"),
        TokenKind::Test => push_str(s, "Test"),
        TokenKind::Arrow => push_str(s, "Arrow"),
        TokenKind::Pipe => push_str(s, "Pipe"),
        TokenKind::At => push_str(s, "At"),
        TokenKind::Caret => push_str(s, "Caret"),
        TokenKind::FatArrow => push_str(s, "FatArrow"),
        TokenKind::Dotdot => push_str(s, "Dotdot"),
        TokenKind::Question => push_str(s, "Question"),
        TokenKind::Plus => push_str(s, "Plus"),
        TokenKind::Minus => push_str(s, "Minus"),
        TokenKind::Star => push_str(s, "Star"),
        TokenKind::Slash => push_str(s, "Slash"),
        TokenKind::Percent => push_str(s, "Percent"),
        TokenKind::Equals => push_str(s, "Equals"),
        TokenKind::EqEq => push_str(s, "EqEq"),
        TokenKind::NotEq => push_str(s, "NotEq"),
        TokenKind::Less => push_str(s, "Less"),
        TokenKind::Greater => push_str(s, "Greater"),
        TokenKind::LessEq => push_str(s, "LessEq"),
        TokenKind::GreaterEq => push_str(s, "GreaterEq"),
        TokenKind::And => push_str(s, "And"),
        TokenKind::Or => push_str(s, "Or"),
        TokenKind::Not => push_str(s, "Not"),
        TokenKind::Ampersand => push_str(s, "Ampersand"),
        TokenKind::Dot => push_str(s, "Dot"),
        TokenKind::Comma => push_str(s, "Comma"),
        TokenKind::Colon => push_str(s, "Colon"),
        TokenKind::Semicolon => push_str(s, "Semicolon"),
        TokenKind::LParen => push_str(s, "LParen"),
        TokenKind::RParen => push_str(s, "RParen"),
        TokenKind::LBrace => push_str(s, "LBrace"),
        TokenKind::RBrace => push_str(s, "RBrace"),
        TokenKind::LBracket => push_str(s, "LBracket"),
        TokenKind::RBracket => push_str(s, "RBracket"),
        TokenKind::Ident(t) => {
            push_str(s, "Ident(");
            push_debug_str(s, t);
            push_str(s, ")");
        },
        TokenKind::Eof => push_str(s, "Eof"),
    }
    assert(s@ =~= s0 + kind_debug(*k));
}

// ── Positions in the token list ─────────────────────────────────────────────

/// A parse error over plain values: message and location.
pub type PErr = (Seq<char>, SourceLoc);

/// The error of a branch that positions moving forward never reach.
pub open spec fn stuck() -> PErr {
    (Seq::empty(), SourceLoc { file: 0, line: 0, column: 0 })
}

/// The token at `p`; past the end, the last token.
pub open spec fn kind_at(ts: Seq<Token>, p: int) -> TokenKind {
    if 0 <= p < ts.len() {
        ts[p].kind
    } else {
        ts.last().kind
    }
}

/// The location of the token at `p`; past the end, of the last token.
pub open spec fn loc_of(ts: Seq<Token>, p: int) -> SourceLoc {
    if 0 <= p < ts.len() {
        ts[p].location
    } else {
        ts.last().location
    }
}

/// The position after consuming the token at `p`; the parser never moves
/// past the end.
pub open spec fn next_pos(ts: Seq<Token>, p: int) -> int {
    if 0 <= p < ts.len() {
        p + 1
    } else {
        p
    }
}

/// Whether the token at `p` is of the kind of `k`, whatever its payload.
pub open spec fn is_kind(ts: Seq<Token>, p: int, k: TokenKind) -> bool {
    kind_tag(kind_at(ts, p)) == kind_tag(k)
}

/// Consuming a token of kind `k` at `p`, or the error naming both kinds.
pub open spec fn expect_at(ts: Seq<Token>, p: int, k: TokenKind) -> Result<int, PErr> {
    if is_kind(ts, p, k) {
        Ok(next_pos(ts, p))
    } else {
        Err(("Expected "@ + kind_debug(k) + ", got "@ + kind_debug(kind_at(ts, p)), loc_of(ts, p)))
    }
}

/// The position after a token of kind `k` at `p`, if there is one.
pub open spec fn skip_if(ts: Seq<Token>, p: int, k: TokenKind) -> int {
    if is_kind(ts, p, k) {
        next_pos(ts, p)
    } else {
        p
    }
}

/// An identifier at `p`.
pub open spec fn ident_at(ts: Seq<Token>, p: int) -> Result<(Seq<char>, int), PErr> {
    match kind_at(ts, p) {
        TokenKind::Ident(n) => Ok((n@, next_pos(ts, p))),
        k => Err(("Expected identifier"@ + ", got "@ + kind_debug(k), loc_of(ts, p))),
    }
}

/// The name of a type at `p`.
pub open spec fn type_name_at(ts: Seq<Token>, p: int) -> Result<(Seq<char>, int), PErr> {
    match kind_at(ts, p) {
        TokenKind::Ident(n) => Ok((n@, next_pos(ts, p))),
        k => Err(("Expected type"@ + ", got "@ + kind_debug(k), loc_of(ts, p))),
    }
}

// ── Types ───────────────────────────────────────────────────────────────────

/// The `/ ident` and `* ident` parts of a unit from `p` on, appended to `acc`.
pub open spec fn unit_rest(ts: Seq<Token>, p: int, acc: Seq<char>) -> Result<(Seq<char>, int), PErr>
    decreases ts.len() - p,
{
    if 0 <= p < ts.len() && (kind_at(ts, p) is Slash || kind_at(ts, p) is Star) {
        let sep = if kind_at(ts, p) is Slash { '/' } else { '*' };
        match ident_at(ts, p + 1) {
            Ok((n, q)) => if p < q <= ts.len() { unit_rest(ts, q, acc.push(sep) + n) } else { Err(stuck()) },
            Err(e) => Err(e),
        }
    } else {
        Ok((acc, p))
    }
}

/// A unit in a type, such as `m/s`.
pub open spec fn unit_expr_at(ts: Seq<Token>, p: int) -> Result<(Seq<char>, int), PErr> {
    match ident_at(ts, p) {
        Ok((n, q)) => unit_rest(ts, q, n),
        Err(e) => Err(e),
    }
}

/// A type at `p`: a name, `Float` with an optional unit, or `Array[T]`.
pub open spec fn type_at(ts: Seq<Token>, p: int) -> Result<(TypeM, int), PErr>
    decreases ts.len() - p,
{
    match type_name_at(ts, p) {
        Err(e) => Err(e),
        Ok((name, q)) => if name == "Float"@ {
            if is_kind(ts, q, TokenKind::LBracket) {
                match unit_expr_at(ts, next_pos(ts, q)) {
                    Ok((u, r)) => match expect_at(ts, r, TokenKind::RBracket) {
                        Ok(r2) => Ok((TypeM::Float(Some(u)), r2)),
                        Err(e) => Err(e),
                    },
                    Err(e) => Err(e),
                }
            } else {
                Ok((TypeM::Float(None), q))
            }
        } else if name == "Int"@ {
            Ok((TypeM::Int, q))
        } else if name == "Bool"@ {
            Ok((TypeM::Bool, q))
        } else if name == "String"@ {
            Ok((TypeM::Str, q))
        } else if name == "Void"@ {
            Ok((TypeM::Named("Void"@), q))
        } else if name == "Array"@ {
            match expect_at(ts, q, TokenKind::LBracket) {
                Ok(q2) => if p < q2 <= ts.len() {
                    match type_at(ts, q2) {
                        Ok((t, q3)) => match expect_at(ts, q3, TokenKind::RBracket) {
                            Ok(q4) => Ok((TypeM::Array(Box::new(t)), q4)),
                            Err(e) => Err(e),
                        },
                        Err(e) => Err(e),
                    }
                } else {
                    Err(stuck())
                },
                Err(e) => Err(e),
            }
        } else {
            Ok((TypeM::Named(name), q))
        },
    }
}

// ── Expressions ─────────────────────────────────────────────────────────────

/// An expression at `p`.
pub open spec fn expr_at(ts: Seq<Token>, p: int) -> Result<(ExprM, int), PErr>
    decreases ts.len() - p, 11int, 0int,
{
    pipe_at(ts, p)
}

/// The pipe level at `p`: operands of the next level joined from the left.
pub open spec fn pipe_at(ts: Seq<Token>, p: int) -> Result<(ExprM, int), PErr>
    decreases ts.len() - p, 10int, 1int,
{
    match or_at(ts, p) {
        Ok((e, q)) => if p < q <= ts.len() { pipe_rest(ts, q, e) } else { Err(stuck()) },
        Err(e) => Err(e),
    }
}

/// The operators of the pipe level from `q` on, folded into `lhs`.
pub open spec fn pipe_rest(ts: Seq<Token>, q: int, lhs: ExprM) -> Result<(ExprM, int), PErr>
    decreases ts.len() - q, 10int, 0int,
{
    if 0 <= q < ts.len() && kind_at(ts, q) is Pipe {
        let loc = loc_of(ts, q + 1);
        match or_at(ts, q + 1) {
            Ok((r, q2)) => if q < q2 <= ts.len() { pipe_rest(ts, q2, ExprM::Pipe(Box::new(lhs), Box::new(r), loc)) } else { Err(stuck()) },
            Err(e) => Err(e),
        }
    } else {
        Ok((lhs, q))
    }
}

/// The operator of the or level that token kind `k` is, if any.
pub open spec fn or_op(k: TokenKind) -> Option<BinOp> {
    match k {
        TokenKind::Or => Some(BinOp::Or),
        _ => None,
    }
}

/// The or level at `p`: operands of the next level joined from the left.
pub open spec fn or_at(ts: Seq<Token>, p: int) -> Result<(ExprM, int), PErr>
    decreases ts.len() - p, 9int, 1int,
{
    match and_at(ts, p) {
        Ok((e, q)) => if p < q <= ts.len() { or_rest(ts, q, e) } else { Err(stuck()) },
        Err(e) => Err(e),
    }
}

/// The operators of the or level from `q` on, folded into `lhs`.
pub open spec fn or_rest(ts: Seq<Token>, q: int, lhs: ExprM) -> Result<(ExprM, int), PErr>
    decreases ts.len() - q, 9int, 0int,
{
    if 0 <= q < ts.len() && or_op(kind_at(ts, q)) is Some {
        let loc = loc_of(ts, q + 1);
        match and_at(ts, q + 1) {
            Ok((r, q2)) => if q < q2 <= ts.len() { or_rest(ts, q2, ExprM::Binary(Box::new(lhs), or_op(kind_at(ts, q))->0, Box::new(r), loc)) } else { Err(stuck()) },
            Err(e) => Err(e),
        }
    } else {
        Ok((lhs, q))
    }
}

/// The operator of the and level that token kind `k` is, if any.
pub open spec fn and_op(k: TokenKind) -> Option<BinOp> {
    match k {
        TokenKind::And => Some(BinOp::And),
        _ => None,
    }
}

/// The and level at `p`: operands of the next level joined from the left.
pub open spec fn and_at(ts: Seq<Token>, p: int) -> Result<(ExprM, int), PErr>
    decreases ts.len() - p, 8int, 1int,
{
    match comparison_at(ts, p) {
        Ok((e, q)) => if p < q <= ts.len() { and_rest(ts, q, e) } else { Err(stuck()) },
        Err(e) => Err(e),
    }
}

/// The operators of the and level from `q` on, folded into `lhs`.
pub open spec fn and_rest(ts: Seq<Token>, q: int, lhs: ExprM) -> Result<(ExprM, int), PErr>
    decreases ts.len() - q, 8int, 0int,
{
    if 0 <= q < ts.len() && and_op(kind_at(ts, q)) is Some {
        let loc = loc_of(ts, q + 1);
        match comparison_at(ts, q + 1) {
            Ok((r, q2)) => if q < q2 <= ts.len() { and_rest(ts, q2, ExprM::Binary(Box::new(lhs), and_op(kind_at(ts, q))->0, Box::new(r), loc)) } else { Err(stuck()) },
            Err(e) => Err(e),
        }
    } else {
        Ok((lhs, q))
    }
}

/// The operator of the comparison level that token kind `k` is, if any.
pub open spec fn comparison_op(k: TokenKind) -> Option<BinOp> {
    match k {
        TokenKind::EqEq => Some(BinOp::Equal),
        TokenKind::NotEq => Some(BinOp::NotEqual),
        TokenKind::Less => Some(BinOp::Less),
        TokenKind::Greater => Some(BinOp::Greater),
        TokenKind::LessEq => Some(BinOp::LessEqual),
        TokenKind::GreaterEq => Some(BinOp::GreaterEqual),
        _ => None,
    }
}

/// `text`, lexed on its own, is exactly the one token `k`.
pub open spec fn lexes_to(text: Seq<char>, k: TokenKind) -> bool {
    &&& text.len() > 0
    &&& step(text, 0) matches Ok((lx, e)) && lx == Lexeme::Fixed(k) && e == text.len()
}

/// The operator in the tree is the one written: for every token that a
/// binary level of the parser turns into an operator, the operator's symbol,
/// lexed on its own, is that very token. So `<=` gives `LessEqual` (not
/// `Less`), and distinct tokens give distinct operators.
pub proof fn lemma_operators_as_written(k: TokenKind)
    ensures
        or_op(k) matches Some(op) ==> lexes_to(binop_symbol(op), k),
        and_op(k) matches Some(op) ==> lexes_to(binop_symbol(op), k),
        comparison_op(k) matches Some(op) ==> lexes_to(binop_symbol(op), k),
        additive_op(k) matches Some(op) ==> lexes_to(binop_symbol(op), k),
        multiplicative_op(k) matches Some(op) ==> lexes_to(binop_symbol(op), k),
        power_op(k) matches Some(op) ==> lexes_to(binop_symbol(op), k),
{
    reveal_strlit("||");
    reveal_strlit("&&");
    reveal_strlit("==");
    reveal_strlit("!=");
    reveal_strlit("<");
    reveal_strlit(">");
    reveal_strlit("<=");
    reveal_strlit(">=");
    reveal_strlit("+");
    reveal_strlit("-");
    reveal_strlit("*");
    reveal_strlit("/");
    reveal_strlit("%");
    reveal_strlit("@");
    reveal_strlit("^");
}

/// Distinct operator tokens of one level give distinct operators.
pub proof fn lemma_operators_distinct(k1: TokenKind, k2: TokenKind)
    requires
        k1 != k2,
    ensures
        comparison_op(k1) is Some ==> comparison_op(k1) != comparison_op(k2),
        additive_op(k1) is Some ==> additive_op(k1) != additive_op(k2),
        multiplicative_op(k1) is Some ==> multiplicative_op(k1) != multiplicative_op(k2),
{
    lemma_operators_as_written(k1);
    lemma_operators_as_written(k2);
}

/// The comparison level at `p`: operands of the next level joined from the left.
pub open spec fn comparison_at(ts: Seq<Token>, p: int) -> Result<(ExprM, int), PErr>
    decreases ts.len() - p, 7int, 1int,
{
    match additive_at(ts, p) {
        Ok((e, q)) => if p < q <= ts.len() { comparison_rest(ts, q, e) } else { Err(stuck()) },
        Err(e) => Err(e),
    }
}

/// The operators of the comparison level from `q` on, folded into `lhs`.
pub open spec fn comparison_rest(ts: Seq<Token>, q: int, lhs: ExprM) -> Result<(ExprM, int), PErr>
    decreases ts.len() - q, 7int, 0int,
{
    if 0 <= q < ts.len() && comparison_op(kind_at(ts, q)) is Some {
        let loc = loc_of(ts, q);
        match additive_at(ts, q + 1) {
            Ok((r, q2)) => if q < q2 <= ts.len() { comparison_rest(ts, q2, ExprM::Binary(Box::new(lhs), comparison_op(kind_at(ts, q))->0, Box::new(r), loc)) } else { Err(stuck()) },
            Err(e) => Err(e),
        }
    } else {
        Ok((lhs, q))
    }
}

/// The operator of the additive level that token kind `k` is, if any.
pub open spec fn additive_op(k: TokenKind) -> Option<BinOp> {
    match k {
        TokenKind::Plus => Some(BinOp::Add),
        TokenKind::Minus => Some(BinOp::Subtract),
        _ => None,
    }
}

/// The additive level at `p`: operands of the next level joined from the left.
pub open spec fn additive_at(ts: Seq<Token>, p: int) -> Result<(ExprM, int), PErr>
    decreases ts.len() - p, 6int, 1int,
{
    match multiplicative_at(ts, p) {
        Ok((e, q)) => if p < q <= ts.len() { additive_rest(ts, q, e) } else { Err(stuck()) },
        Err(e) => Err(e),
    }
}

/// The operators of the additive level from `q` on, folded into `lhs`.
pub open spec fn additive_rest(ts: Seq<Token>, q: int, lhs: ExprM) -> Result<(ExprM, int), PErr>
    decreases ts.len() - q, 6int, 0int,
{
    if 0 <= q < ts.len() && additive_op(kind_at(ts, q)) is Some {
        let loc = loc_of(ts, q);
        match multiplicative_at(ts, q + 1) {
            Ok((r, q2)) => if q < q2 <= ts.len() { additive_rest(ts, q2, ExprM::Binary(Box::new(lhs), additive_op(kind_at(ts, q))->0, Box::new(r), loc)) } else { Err(stuck()) },
            Err(e) => Err(e),
        }
    } else {
        Ok((lhs, q))
    }
}

/// The operator of the multiplicative level that token kind `k` is, if any.
pub open spec fn multiplicative_op(k: TokenKind) -> Option<BinOp> {
    match k {
        TokenKind::Star => Some(BinOp::Multiply),
        TokenKind::Slash => Some(BinOp::Divide),
        TokenKind::Percent => Some(BinOp::Modulo),
        TokenKind::At => Some(BinOp::MatMul),
        _ => None,
    }
}

/// The multiplicative level at `p`: operands of the next level joined from the left.
pub open spec fn multiplicative_at(ts: Seq<Token>, p: int) -> Result<(ExprM, int), PErr>
    decreases ts.len() - p, 5int, 1int,
{
    match power_at(ts, p) {
        Ok((e, q)) => if p < q <= ts.len() { multiplicative_rest(ts, q, e) } else { Err(stuck()) },
        Err(e) => Err(e),
    }
}

/// The operators of the multiplicative level from `q` on, folded into `lhs`.
pub open spec fn multiplicative_rest(ts: Seq<Token>, q: int, lhs: ExprM) -> Result<(ExprM, int), PErr>
    decreases ts.len() - q, 5int, 0int,
{
    if 0 <= q < ts.len() && multiplicative_op(kind_at(ts, q)) is Some {
        let loc = loc_of(ts, q);
        match power_at(ts, q + 1) {
            Ok((r, q2)) => if q < q2 <= ts.len() { multiplicative_rest(ts, q2, ExprM::Binary(Box::new(lhs), multiplicative_op(kind_at(ts, q))->0, Box::new(r), loc)) } else { Err(stuck()) },
            Err(e) => Err(e),
        }
    } else {
        Ok((lhs, q))
    }
}

/// The operator of the power level that token kind `k` is, if any.
pub open spec fn power_op(k: TokenKind) -> Option<BinOp> {
    match k {
        TokenKind::Caret => Some(BinOp::Power),
        _ => None,
    }
}

/// The power level at `p`: operands of the next level joined from the left.
pub open spec fn power_at(ts: Seq<Token>, p: int) -> Result<(ExprM, int), PErr>
    decreases ts.len() - p, 4int, 1int,
{
    match unary_at(ts, p) {
        Ok((e, q)) => if p < q <= ts.len() { power_rest(ts, q, e) } else { Err(stuck()) },
        Err(e) => Err(e),
    }
}

/// The operators of the power level from `q` on, folded into `lhs`.
pub open spec fn power_rest(ts: Seq<Token>, q: int, lhs: ExprM) -> Result<(ExprM, int), PErr>
    decreases ts.len() - q, 4int, 0int,
{
    if 0 <= q < ts.len() && power_op(kind_at(ts, q)) is Some {
        let loc = loc_of(ts, q + 1);
        match unary_at(ts, q + 1) {
            Ok((r, q2)) => if q < q2 <= ts.len() { power_rest(ts, q2, ExprM::Binary(Box::new(lhs), power_op(kind_at(ts, q))->0, Box::new(r), loc)) } else { Err(stuck()) },
            Err(e) => Err(e),
        }
    } else {
        Ok((lhs, q))
    }
}

/// A unary expression at `p`: `-` or `!` before a unary expression, or a
/// postfix expression.
pub open spec fn unary_at(ts: Seq<Token>, p: int) -> Result<(ExprM, int), PErr>
    decreases ts.len() - p, 3int, 0int,
{
    if 0 <= p < ts.len() && (kind_at(ts, p) is Minus || kind_at(ts, p) is Not) {
        let op = if kind_at(ts, p) is Minus { UnOp::Negate } else { UnOp::Not };
        match unary_at(ts, p + 1) {
            Ok((e, q)) => Ok((ExprM::Unary(op, Box::new(e), loc_of(ts, p)), q)),
            Err(e) => Err(e),
        }
    } else {
        postfix_at(ts, p)
    }
}

/// A postfix expression at `p`: a primary followed by calls, fields and
/// indexes.
pub open spec fn postfix_at(ts: Seq<Token>, p: int) -> Result<(ExprM, int), PErr>
    decreases ts.len() - p, 2int, 1int,
{
    match primary_at(ts, p) {
        Ok((e, q)) => if p < q <= ts.len() { postfix_rest(ts, q, e) } else { Err(stuck()) },
        Err(e) => Err(e),
    }
}

/// The calls, fields and indexes from `q` on, applied to `lhs`.
pub open spec fn postfix_rest(ts: Seq<Token>, q: int, lhs: ExprM) -> Result<(ExprM, int), PErr>
    decreases ts.len() - q, 2int, 0int,
{
    let loc = loc_of(ts, q);
    if 0 <= q < ts.len() && kind_at(ts, q) is LParen {
        match call_args(ts, q + 1, Seq::empty()) {
            Ok((args, r)) => match expect_at(ts, r, TokenKind::RParen) {
                Ok(r2) => if q < r2 <= ts.len() {
                    postfix_rest(ts, r2, ExprM::Call(Box::new(lhs), args, loc))
                } else {
                    Err(stuck())
                },
                Err(e) => Err(e),
            },
            Err(e) => Err(e),
        }
    } else if 0 <= q < ts.len() && kind_at(ts, q) is Dot {
        match ident_at(ts, q + 1) {
            Ok((f, r)) => if q < r <= ts.len() {
                postfix_rest(ts, r, ExprM::Field(Box::new(lhs), f, loc))
            } else {
                Err(stuck())
            },
            Err(e) => Err(e),
        }
    } else if 0 <= q < ts.len() && kind_at(ts, q) is LBracket {
        match expr_at(ts, q + 1) {
            Ok((i, r)) => match expect_at(ts, r, TokenKind::RBracket) {
                Ok(r2) => if q < r2 <= ts.len() {
                    postfix_rest(ts, r2, ExprM::Index(Box::new(lhs), Box::new(i), loc))
                } else {
                    Err(stuck())
                },
                Err(e) => Err(e),
            },
            Err(e) => Err(e),
        }
    } else {
        Ok((lhs, q))
    }
}

/// The arguments of a call from `q` on, after those in `acc`: expressions
/// separated by commas, up to `)`.
pub open spec fn call_args(ts: Seq<Token>, q: int, acc: Seq<(Option<Seq<char>>, ExprM)>) -> Result<
    (Seq<(Option<Seq<char>>, ExprM)>, int),
    PErr,
>
    decreases ts.len() - q, 12int, 0int,
{
    if is_kind(ts, q, TokenKind::RParen) {
        Ok((acc, q))
    } else {
        match expr_at(ts, q) {
            Ok((e, r)) => {
                let acc2 = acc.push((None, e));
                if is_kind(ts, r, TokenKind::Comma) {
                    if q < next_pos(ts, r) <= ts.len() {
                        call_args(ts, next_pos(ts, r), acc2)
                    } else {
                        Err(stuck())
                    }
                } else {
                    Ok((acc2, r))
                }
            },
            Err(e) => Err(e),
        }
    }
}

/// The arguments of `transmit` from `q` on, after those in `acc`.
pub open spec fn transmit_args(ts: Seq<Token>, q: int, acc: Seq<ExprM>) -> Result<(Seq<ExprM>, int), PErr>
    decreases ts.len() - q, 12int, 0int,
{
    if is_kind(ts, q, TokenKind::RParen) {
        Ok((acc, q))
    } else {
        match expr_at(ts, q) {
            Ok((e, r)) => {
                let acc2 = acc.push(e);
                if is_kind(ts, r, TokenKind::Comma) {
                    if q < next_pos(ts, r) <= ts.len() {
                        transmit_args(ts, next_pos(ts, r), acc2)
                    } else {
                        Err(stuck())
                    }
                } else {
                    Ok((acc2, r))
                }
            },
            Err(e) => Err(e),
        }
    }
}

/// A primary expression at `p`: a literal, a name, a parenthesized
/// expression or `transmit(...)`.
pub open spec fn primary_at(ts: Seq<Token>, p: int) -> Result<(ExprM, int), PErr>
    decreases ts.len() - p, 1int, 0int,
{
    let loc = loc_of(ts, p);
    match kind_at(ts, p) {
        TokenKind::Integer(n) => Ok((ExprM::Integer(n), next_pos(ts, p))),
        TokenKind::Float(t) => Ok((ExprM::Float(t@), next_pos(ts, p))),
        TokenKind::UnitAnnotatedFloat { value, unit } => Ok((ExprM::UnitFloat(value@, unit@), next_pos(ts, p))),
        TokenKind::String(t) => Ok((ExprM::Str(t@), next_pos(ts, p))),
        TokenKind::Bool(b) => Ok((ExprM::Bool(b), next_pos(ts, p))),
        TokenKind::Ident(n) => Ok((ExprM::Ident(n@), next_pos(ts, p))),
        TokenKind::LParen => if 0 <= p < ts.len() {
            match expr_at(ts, p + 1) {
                Ok((e, q)) => match expect_at(ts, q, TokenKind::RParen) {
                    Ok(q2) => Ok((e, q2)),
                    Err(e) => Err(e),
                },
                Err(e) => Err(e),
            }
        } else {
            Err(stuck())
        },
        TokenKind::Transmit => match expect_at(ts, next_pos(ts, p), TokenKind::LParen) {
            Ok(q) => if p < q <= ts.len() {
                match transmit_args(ts, q, Seq::empty()) {
                    Ok((args, r)) => match expect_at(ts, r, TokenKind::RParen) {
                        Ok(r2) => Ok((ExprM::Transmit(args, loc), r2)),
                        Err(e) => Err(e),
                    },
                    Err(e) => Err(e),
                }
            } else {
                Err(stuck())
            },
            Err(e) => Err(e),
        },
        k => Err(("Unexpected token in expression: "@ + kind_debug(k), loc)),
    }
}



// ── Statements ──────────────────────────────────────────────────────────────

/// The statements of a block from `q` on, after those in `acc`: up to `}`
/// or the end.
pub open spec fn block_items(ts: Seq<Token>, q: int, acc: Seq<StmtM>) -> Result<(Seq<StmtM>, int), PErr>
    decreases ts.len() - q, 15int,
{
    if is_kind(ts, q, TokenKind::RBrace) || is_kind(ts, q, TokenKind::Eof) {
        Ok((acc, q))
    } else {
        match statement_at(ts, q) {
            Ok((s, r)) => if q < r <= ts.len() { block_items(ts, r, acc.push(s)) } else { Err(stuck()) },
            Err(e) => Err(e),
        }
    }
}

/// A block `{ ... }` whose `{` is at `p`.
pub open spec fn braced_block(ts: Seq<Token>, p: int) -> Result<(Seq<StmtM>, int), PErr>
    decreases ts.len() - p, 16int,
{
    match expect_at(ts, p, TokenKind::LBrace) {
        Ok(q) => if p < q <= ts.len() {
            match block_items(ts, q, Seq::empty()) {
                Ok((b, r)) => match expect_at(ts, r, TokenKind::RBrace) {
                    Ok(r2) => Ok((b, r2)),
                    Err(e) => Err(e),
                },
                Err(e) => Err(e),
            }
        } else {
            Err(stuck())
        },
        Err(e) => Err(e),
    }
}

/// A statement at `p`.
pub open spec fn statement_at(ts: Seq<Token>, p: int) -> Result<(StmtM, int), PErr>
    decreases ts.len() - p, 14int,
{
    let loc = loc_of(ts, p);
    let k = kind_at(ts, p);
    if 0 <= p < ts.len() && (k is Let || k is Var) {
        let_binding(ts, p + 1, k is Var, loc)
    } else if 0 <= p < ts.len() && k is If {
        if_stmt(ts, p + 1, loc)
    } else if 0 <= p < ts.len() && k is For {
        for_stmt(ts, p + 1, loc)
    } else if 0 <= p < ts.len() && k is While {
        while_stmt(ts, p + 1, loc)
    } else if 0 <= p < ts.len() && k is Autodiff {
        match braced_block(ts, p + 1) {
            Ok((_, r)) => Ok((StmtM::ExprStmt(ExprM::Ident("autodiff"@)), r)),
            Err(e) => Err(e),
        }
    } else if 0 <= p < ts.len() && k is Return {
        return_rest(ts, p + 1)
    } else if 0 <= p < ts.len() && k is Break {
        Ok((StmtM::Break, skip_if(ts, p + 1, TokenKind::Semicolon)))
    } else {
        expr_or_assign(ts, p, loc)
    }
}

/// The rest of `return` from `q`: an optional value, then an optional `;`.
pub open spec fn return_rest(ts: Seq<Token>, q: int) -> Result<(StmtM, int), PErr> {
    if !is_kind(ts, q, TokenKind::RBrace) && !is_kind(ts, q, TokenKind::Semicolon) {
        match expr_at(ts, q) {
            Ok((e, r)) => Ok((StmtM::Return(Some(e)), skip_if(ts, r, TokenKind::Semicolon))),
            Err(e) => Err(e),
        }
    } else {
        Ok((StmtM::Return(None), skip_if(ts, q, TokenKind::Semicolon)))
    }
}

/// An expression statement at `p`, or an assignment `name = value`, which
/// binds the name as a mutable variable.
pub open spec fn expr_or_assign(ts: Seq<Token>, p: int, loc: SourceLoc) -> Result<(StmtM, int), PErr> {
    match expr_at(ts, p) {
        Ok((e, q)) => if is_kind(ts, q, TokenKind::Equals) {
            match expr_at(ts, next_pos(ts, q)) {
                Ok((v, r)) => {
                    let r2 = skip_if(ts, r, TokenKind::Semicolon);
                    match e {
                        ExprM::Ident(n) => Ok((StmtM::Let(n, true, None, v, loc), r2)),
                        _ => Err(("Invalid assignment target"@, loc)),
                    }
                },
                Err(e) => Err(e),
            }
        } else {
            Ok((StmtM::ExprStmt(e), skip_if(ts, q, TokenKind::Semicolon)))
        },
        Err(e) => Err(e),
    }
}

/// The rest of `let` or `var` from the name at `p`: an optional type, `=`
/// and the value.
pub open spec fn let_binding(ts: Seq<Token>, p: int, mutable: bool, loc: SourceLoc) -> Result<(StmtM, int), PErr>
    decreases ts.len() - p, 13int,
{
    match ident_at(ts, p) {
        Ok((name, q)) => {
            let ty = if is_kind(ts, q, TokenKind::Colon) {
                match type_at(ts, next_pos(ts, q)) {
                    Ok((t, r)) => Ok((Some(t), r)),
                    Err(e) => Err(e),
                }
            } else {
                Ok((None::<TypeM>, q))
            };
            match ty {
                Ok((t, q2)) => match expect_at(ts, q2, TokenKind::Equals) {
                    Ok(q3) => if p <= q3 <= ts.len() {
                        match expr_at(ts, q3) {
                            Ok((v, r)) => Ok((StmtM::Let(name, mutable, t, v, loc), skip_if(ts, r, TokenKind::Semicolon))),
                            Err(e) => Err(e),
                        }
                    } else {
                        Err(stuck())
                    },
                    Err(e) => Err(e),
                },
                Err(e) => Err(e),
            }
        },
        Err(e) => Err(e),
    }
}

/// The rest of `if` from the condition at `p`: the block, and an `else`
/// block or `else if`.
pub open spec fn if_stmt(ts: Seq<Token>, p: int, loc: SourceLoc) -> Result<(StmtM, int), PErr>
    decreases ts.len() - p, 13int,
{
    match expr_at(ts, p) {
        Ok((c, q)) => if p < q <= ts.len() {
            match braced_block(ts, q) {
                Ok((then_b, r)) => if 0 <= r < ts.len() && is_kind(ts, r, TokenKind::Else) {
                    let r3 = r + 1;
                    if !(p < r3 <= ts.len()) {
                        Err(stuck())
                    } else if is_kind(ts, r3, TokenKind::If) {
                        match if_stmt(ts, r3, loc_of(ts, r3)) {
                            Ok((s, r4)) => Ok((StmtM::If(c, then_b, Some(seq![s]), loc), r4)),
                            Err(e) => Err(e),
                        }
                    } else {
                        match braced_block(ts, r3) {
                            Ok((eb, r4)) => Ok((
                                StmtM::If(c, then_b, if eb.len() == 0 { None } else { Some(eb) }, loc),
                                r4,
                            )),
                            Err(e) => Err(e),
                        }
                    }
                } else {
                    Ok((StmtM::If(c, then_b, None, loc), r))
                },
                Err(e) => Err(e),
            }
        } else {
            Err(stuck())
        },
        Err(e) => Err(e),
    }
}

/// The rest of `for` from the variable at `p`: `in start..end` and the block.
pub open spec fn for_stmt(ts: Seq<Token>, p: int, loc: SourceLoc) -> Result<(StmtM, int), PErr>
    decreases ts.len() - p, 13int,
{
    match ident_at(ts, p) {
        Ok((v, q)) => match expect_at(ts, q, TokenKind::In) {
            Ok(q2) => match additive_at(ts, q2) {
                Ok((start, q3)) => match expect_at(ts, q3, TokenKind::Dotdot) {
                    Ok(q4) => match additive_at(ts, q4) {
                        Ok((end, q5)) => if p < q5 <= ts.len() {
                            match braced_block(ts, q5) {
                                Ok((body, r)) => Ok((
                                    StmtM::For(
                                        v,
                                        ExprM::Binary(Box::new(start), BinOp::Range, Box::new(end), loc),
                                        body,
                                        loc,
                                    ),
                                    r,
                                )),
                                Err(e) => Err(e),
                            }
                        } else {
                            Err(stuck())
                        },
                        Err(e) => Err(e),
                    },
                    Err(e) => Err(e),
                },
                Err(e) => Err(e),
            },
            Err(e) => Err(e),
        },
        Err(e) => Err(e),
    }
}

/// The rest of `while` from the condition at `p`: the block.
pub open spec fn while_stmt(ts: Seq<Token>, p: int, loc: SourceLoc) -> Result<(StmtM, int), PErr>
    decreases ts.len() - p, 13int,
{
    match expr_at(ts, p) {
        Ok((c, q)) => if p < q <= ts.len() {
            match braced_block(ts, q) {
                Ok((body, r)) => Ok((StmtM::While(c, body, loc), r)),
                Err(e) => Err(e),
            }
        } else {
            Err(stuck())
        },
        Err(e) => Err(e),
    }
}

// ── Declarations ────────────────────────────────────────────────────────────

/// The parameters of a mission from `q` on, after those in `acc`.
pub open spec fn params_at(ts: Seq<Token>, q: int, acc: Seq<ParamM>) -> Result<(Seq<ParamM>, int), PErr>
    decreases ts.len() - q,
{
    if is_kind(ts, q, TokenKind::RParen) {
        Ok((acc, q))
    } else {
        let loc = loc_of(ts, q);
        match ident_at(ts, q) {
            Ok((name, q1)) => match expect_at(ts, q1, TokenKind::Colon) {
                Ok(q2) => match type_at(ts, q2) {
                    Ok((t, r)) => {
                        let acc2 = acc.push((name, t, loc));
                        if is_kind(ts, r, TokenKind::Comma) {
                            if q < next_pos(ts, r) <= ts.len() {
                                params_at(ts, next_pos(ts, r), acc2)
                            } else {
                                Err(stuck())
                            }
                        } else {
                            Ok((acc2, r))
                        }
                    },
                    Err(e) => Err(e),
                },
                Err(e) => Err(e),
            },
            Err(e) => Err(e),
        }
    }
}

/// A mission from its name at `p`: parameters, optional return type, body.
pub open spec fn mission_at(ts: Seq<Token>, p: int) -> Result<(MissionM, int), PErr> {
    let loc = loc_of(ts, p);
    match ident_at(ts, p) {
        Ok((name, q)) => match expect_at(ts, q, TokenKind::LParen) {
            Ok(q2) => match params_at(ts, q2, Seq::empty()) {
                Ok((params, q3)) => match expect_at(ts, q3, TokenKind::RParen) {
                    Ok(q4) => {
                        let ret = if is_kind(ts, q4, TokenKind::Arrow) {
                            match type_at(ts, next_pos(ts, q4)) {
                                Ok((t, r)) => Ok((Some(t), r)),
                                Err(e) => Err(e),
                            }
                        } else {
                            Ok((None::<TypeM>, q4))
                        };
                        match ret {
                            Ok((rt, q5)) => match braced_block(ts, q5) {
                                Ok((body, r)) => Ok(((name, params, rt, body, loc), r)),
                                Err(e) => Err(e),
                            },
                            Err(e) => Err(e),
                        }
                    },
                    Err(e) => Err(e),
                },
                Err(e) => Err(e),
            },
            Err(e) => Err(e),
        },
        Err(e) => Err(e),
    }
}

/// The items of a constellation from `q` on, after those in `acc`.
pub open spec fn const_items(ts: Seq<Token>, q: int, acc: Seq<ConstItemM>, loc: SourceLoc) -> Result<(Seq<ConstItemM>, int), PErr>
    decreases ts.len() - q,
{
    if is_kind(ts, q, TokenKind::RBrace) {
        Ok((acc, q))
    } else if 0 <= q < ts.len() && kind_at(ts, q) is Export {
        match ident_at(ts, q + 1) {
            Ok((n, r)) => {
                let r2 = skip_if(ts, r, TokenKind::Semicolon);
                if q < r2 <= ts.len() {
                    const_items(ts, r2, acc.push(ConstItemM::Export(n)), loc)
                } else {
                    Err(stuck())
                }
            },
            Err(e) => Err(e),
        }
    } else if 0 <= q < ts.len() && kind_at(ts, q) is Mission {
        match mission_at(ts, q + 1) {
            Ok((m, r)) => if q < r <= ts.len() {
                const_items(ts, r, acc.push(ConstItemM::Mission(m)), loc)
            } else {
                Err(stuck())
            },
            Err(e) => Err(e),
        }
    } else {
        Err(("Expected mission or export"@, loc))
    }
}

/// The arguments of a layer from `q` on, after those in `acc`; each is
/// named `arg`.
pub open spec fn layer_args(ts: Seq<Token>, q: int, acc: Seq<(Seq<char>, ExprM)>) -> Result<(Seq<(Seq<char>, ExprM)>, int), PErr>
    decreases ts.len() - q,
{
    if is_kind(ts, q, TokenKind::RParen) || is_kind(ts, q, TokenKind::Eof) {
        Ok((acc, q))
    } else {
        match expr_at(ts, q) {
            Ok((e, r)) => {
                let acc2 = acc.push(("arg"@, e));
                if is_kind(ts, r, TokenKind::Comma) {
                    if q < next_pos(ts, r) <= ts.len() {
                        layer_args(ts, next_pos(ts, r), acc2)
                    } else {
                        Err(stuck())
                    }
                } else {
                    Ok((acc2, r))
                }
            },
            Err(e) => Err(e),
        }
    }
}

/// The layers of a model from `q` on, after those in `acc`; each carries
/// the model's location.
pub open spec fn layers_at(ts: Seq<Token>, q: int, acc: Seq<LayerM>, loc: SourceLoc) -> Result<(Seq<LayerM>, int), PErr>
    decreases ts.len() - q,
{
    if is_kind(ts, q, TokenKind::RBrace) || is_kind(ts, q, TokenKind::Eof) {
        Ok((acc, q))
    } else {
        match expect_at(ts, q, TokenKind::Layer) {
            Ok(q1) => match ident_at(ts, q1) {
                Ok((kind, q2)) => match expect_at(ts, q2, TokenKind::LParen) {
                    Ok(q3) => match layer_args(ts, q3, Seq::empty()) {
                        Ok((args, q4)) => match expect_at(ts, q4, TokenKind::RParen) {
                            Ok(q5) => {
                                let r = skip_if(ts, q5, TokenKind::Semicolon);
                                if q < r <= ts.len() {
                                    layers_at(ts, r, acc.push((kind, args, None, 0, loc)), loc)
                                } else {
                                    Err(stuck())
                                }
                            },
                            Err(e) => Err(e),
                        },
                        Err(e) => Err(e),
                    },
                    Err(e) => Err(e),
                },
                Err(e) => Err(e),
            },
            Err(e) => Err(e),
        }
    }
}

/// The fields of a struct from `q` on, after those in `acc`; commas between
/// them are optional.
pub open spec fn fields_at(ts: Seq<Token>, q: int, acc: Seq<(Seq<char>, TypeM)>) -> Result<(Seq<(Seq<char>, TypeM)>, int), PErr>
    decreases ts.len() - q,
{
    if is_kind(ts, q, TokenKind::RBrace) || is_kind(ts, q, TokenKind::Eof) {
        Ok((acc, q))
    } else {
        match ident_at(ts, q) {
            Ok((name, q1)) => match expect_at(ts, q1, TokenKind::Colon) {
                Ok(q2) => match type_at(ts, q2) {
                    Ok((t, r)) => {
                        let acc2 = acc.push((name, t));
                        if is_kind(ts, r, TokenKind::RBrace) {
                            Ok((acc2, r))
                        } else {
                            let r2 = skip_if(ts, r, TokenKind::Comma);
                            if q < r2 <= ts.len() {
                                fields_at(ts, r2, acc2)
                            } else {
                                Err(stuck())
                            }
                        }
                    },
                    Err(e) => Err(e),
                },
                Err(e) => Err(e),
            },
            Err(e) => Err(e),
        }
    }
}

/// The variants of an enum from `q` on, after those in `acc`.
pub open spec fn variants_at(ts: Seq<Token>, q: int, acc: Seq<Seq<char>>) -> Result<(Seq<Seq<char>>, int), PErr>
    decreases ts.len() - q,
{
    if is_kind(ts, q, TokenKind::RBrace) || is_kind(ts, q, TokenKind::Eof) {
        Ok((acc, q))
    } else {
        match ident_at(ts, q) {
            Ok((name, r)) => {
                let acc2 = acc.push(name);
                if is_kind(ts, r, TokenKind::RBrace) {
                    Ok((acc2, r))
                } else {
                    let r2 = skip_if(ts, r, TokenKind::Comma);
                    if q < r2 <= ts.len() {
                        variants_at(ts, r2, acc2)
                    } else {
                        Err(stuck())
                    }
                }
            },
            Err(e) => Err(e),
        }
    }
}

/// A name, `{`, the contents, `}`: the shape of constellations, models,
/// structs and enums. Gives the name, the position after `{`.
pub open spec fn named_open(ts: Seq<Token>, p: int) -> Result<(Seq<char>, int), PErr> {
    match ident_at(ts, p) {
        Ok((name, q)) => match expect_at(ts, q, TokenKind::LBrace) {
            Ok(q2) => Ok((name, q2)),
            Err(e) => Err(e),
        },
        Err(e) => Err(e),
    }
}

/// A constellation from its name at `p`.
pub open spec fn constellation_at(ts: Seq<Token>, p: int) -> Result<(ItemM, int), PErr> {
    let loc = loc_of(ts, p);
    match named_open(ts, p) {
        Ok((name, q)) => match const_items(ts, q, Seq::empty(), loc) {
            Ok((items, r)) => match expect_at(ts, r, TokenKind::RBrace) {
                Ok(r2) => Ok((ItemM::Constellation(name, items, loc), r2)),
                Err(e) => Err(e),
            },
            Err(e) => Err(e),
        },
        Err(e) => Err(e),
    }
}

/// A model from its name at `p`.
pub open spec fn model_at(ts: Seq<Token>, p: int) -> Result<(ItemM, int), PErr> {
    let loc = loc_of(ts, p);
    match named_open(ts, p) {
        Ok((name, q)) => match layers_at(ts, q, Seq::empty(), loc) {
            Ok((layers, r)) => match expect_at(ts, r, TokenKind::RBrace) {
                Ok(r2) => Ok((ItemM::Model(name, layers, loc), r2)),
                Err(e) => Err(e),
            },
            Err(e) => Err(e),
        },
        Err(e) => Err(e),
    }
}

/// A struct from its name at `p`.
pub open spec fn struct_at(ts: Seq<Token>, p: int) -> Result<(ItemM, int), PErr> {
    let loc = loc_of(ts, p);
    match named_open(ts, p) {
        Ok((name, q)) => match fields_at(ts, q, Seq::empty()) {
            Ok((fields, r)) => match expect_at(ts, r, TokenKind::RBrace) {
                Ok(r2) => Ok((ItemM::Struct(name, fields, loc), r2)),
                Err(e) => Err(e),
            },
            Err(e) => Err(e),
        },
        Err(e) => Err(e),
    }
}

/// An enum from its name at `p`.
pub open spec fn enum_at(ts: Seq<Token>, p: int) -> Result<(ItemM, int), PErr> {
    let loc = loc_of(ts, p);
    match named_open(ts, p) {
        Ok((name, q)) => match variants_at(ts, q, Seq::empty()) {
            Ok((vs, r)) => match expect_at(ts, r, TokenKind::RBrace) {
                Ok(r2) => Ok((ItemM::Enum(name, vs, loc), r2)),
                Err(e) => Err(e),
            },
            Err(e) => Err(e),
        },
        Err(e) => Err(e),
    }
}

/// A unit declaration from its name at `p`: `name = definition`.
pub open spec fn unit_at(ts: Seq<Token>, p: int) -> Result<(ItemM, int), PErr> {
    let loc = loc_of(ts, p);
    match ident_at(ts, p) {
        Ok((name, q)) => match expect_at(ts, q, TokenKind::Equals) {
            Ok(q2) => match ident_at(ts, q2) {
                Ok((def, r)) => Ok((ItemM::Unit(name, def, loc), skip_if(ts, r, TokenKind::Semicolon))),
                Err(e) => Err(e),
            },
            Err(e) => Err(e),
        },
        Err(e) => Err(e),
    }
}

/// A top-level declaration at `p`.
pub open spec fn top_level_at(ts: Seq<Token>, p: int) -> Result<(ItemM, int), PErr> {
    let k = kind_at(ts, p);
    if 0 <= p < ts.len() && k is Test {
        match expect_at(ts, p + 1, TokenKind::Mission) {
            Ok(q) => match mission_at(ts, q) {
                Ok((m, r)) => Ok((ItemM::Test(m), r)),
                Err(e) => Err(e),
            },
            Err(e) => Err(e),
        }
    } else if 0 <= p < ts.len() && k is Mission {
        match mission_at(ts, p + 1) {
            Ok((m, r)) => Ok((ItemM::Mission(m), r)),
            Err(e) => Err(e),
        }
    } else if 0 <= p < ts.len() && k is Parallel {
        match expect_at(ts, p + 1, TokenKind::Mission) {
            Ok(q) => match mission_at(ts, q) {
                Ok((m, r)) => Ok((ItemM::Parallel(m), r)),
                Err(e) => Err(e),
            },
            Err(e) => Err(e),
        }
    } else if 0 <= p < ts.len() && k is Constellation {
        constellation_at(ts, p + 1)
    } else if 0 <= p < ts.len() && k is Model {
        model_at(ts, p + 1)
    } else if 0 <= p < ts.len() && k is Struct {
        struct_at(ts, p + 1)
    } else if 0 <= p < ts.len() && k is Enum {
        enum_at(ts, p + 1)
    } else if 0 <= p < ts.len() && k is Unit {
        unit_at(ts, p + 1)
    } else {
        Err(("Unexpected top-level: "@ + kind_debug(k), loc_of(ts, p)))
    }
}

/// The declarations from `q` on, after those in `acc`, up to `Eof`.
pub open spec fn items_at(ts: Seq<Token>, q: int, acc: Seq<ItemM>) -> Result<Seq<ItemM>, PErr>
    decreases ts.len() - q,
{
    if is_kind(ts, q, TokenKind::Eof) {
        Ok(acc)
    } else {
        match top_level_at(ts, q) {
            Ok((item, r)) => if q < r <= ts.len() { items_at(ts, r, acc.push(item)) } else { Err(stuck()) },
            Err(e) => Err(e),
        }
    }
}

/// The program the tokens spell, or the first parse error.
pub open spec fn program_of(ts: Seq<Token>) -> Result<Seq<ItemM>, PErr> {
    items_at(ts, 0, Seq::empty())
}



// ── The parser ──────────────────────────────────────────────────────────────

/// The token list is not empty and ends with `Eof`.
pub open spec fn ends_with_eof(ts: Seq<Token>) -> bool {
    ts.len() > 0 && ts.last().kind is Eof
}

/// The error `err` is the parse error `e`.
pub open spec fn perr_is(err: Error, e: PErr) -> bool {
    err.kind == ErrorKind::ParseError && err.message@ == e.0 && err.location == e.1
}

/// A recursive-descent parser over a token list.
pub struct Parser {
    tokens: Vec<Token>,
    pos: usize,
}

impl Parser {
    /// The tokens being parsed.
    pub closed spec fn tokens(&self) -> Seq<Token> {
        self.tokens@
    }

    /// The position reached.
    pub closed spec fn position(&self) -> int {
        self.pos as int
    }

    /// A parser at the start of `tokens`.
    pub fn new(tokens: Vec<Token>) -> (r: Self)
        ensures
            r.tokens() == tokens@,
            r.position() == 0,
    {
        Parser { tokens, pos: 0 }
    }

    spec fn ok(&self) -> bool {
        ends_with_eof(self.tokens@) && self.pos <= self.tokens@.len()
    }

    fn current(&self) -> (r: &Token)
        requires
            self.ok(),
        ensures
            r.kind == kind_at(self.tokens@, self.pos as int),
            r.location == loc_of(self.tokens@, self.pos as int),
    {
        if self.pos < self.tokens.len() {
            &self.tokens[self.pos]
        } else {
            &self.tokens[self.tokens.len() - 1]
        }
    }

    fn advance(&mut self)
        requires
            old(self).ok(),
        ensures
            final(self).ok(),
            final(self).tokens == old(self).tokens,
            final(self).pos == next_pos(old(self).tokens@, old(self).pos as int),
    {
        if self.pos < self.tokens.len() {
            self.pos = self.pos + 1;
        }
    }

    /// Whether the current token is of the kind of `k`.
    fn check(&self, k: &TokenKind) -> (r: bool)
        requires
            self.ok(),
        ensures
            r == is_kind(self.tokens@, self.pos as int, *k),
    {
        tag_of(&self.current().kind) == tag_of(k)
    }

    fn consume_if(&mut self, k: &TokenKind) -> (r: bool)
        requires
            old(self).ok(),
        ensures
            final(self).ok(),
            final(self).tokens == old(self).tokens,
            final(self).pos == skip_if(old(self).tokens@, old(self).pos as int, *k),
            r == is_kind(old(self).tokens@, old(self).pos as int, *k),
    {
        if self.check(k) {
            self.advance();
            true
        } else {
            false
        }
    }

    fn expect(&mut self, k: TokenKind) -> (r: Result<(), Error>)
        requires
            old(self).ok(),
            !(k is Eof),
        ensures
            final(self).ok(),
            final(self).tokens == old(self).tokens,
            match expect_at(old(self).tokens@, old(self).pos as int, k) {
                Ok(q) => r is Ok && final(self).pos == q && old(self).pos < q,
                Err(e) => r matches Err(err) && perr_is(err, e),
            },
    {
        if self.check(&k) {
            self.advance();
            Ok(())
        } else {
            let cur = self.current();
            let mut message = str_to_string("Expected ");
            push_kind_debug(&mut message, &k);
            push_str(&mut message, ", got ");
            push_kind_debug(&mut message, &cur.kind);
            assert(message@ =~= "Expected "@ + kind_debug(k) + ", got "@ + kind_debug(kind_at(self.tokens@, self.pos as int)));
            Err(Error { message, location: cur.location, kind: ErrorKind::ParseError })
        }
    }

    fn is_at_end(&self) -> (r: bool)
        requires
            self.ok(),
        ensures
            r == (kind_at(self.tokens@, self.pos as int) is Eof),
    {
        matches!(self.current().kind, TokenKind::Eof)
    }

    /// An identifier, or the error `<what>, got <token>`.
    fn name_token(&mut self, what: &str) -> (r: Result<String, Error>)
        requires
            old(self).ok(),
        ensures
            final(self).ok(),
            final(self).tokens == old(self).tokens,
            match kind_at(old(self).tokens@, old(self).pos as int) {
                TokenKind::Ident(n) => r matches Ok(x) && x@ == n@ && final(self).pos == next_pos(
                    old(self).tokens@,
                    old(self).pos as int,
                ) && old(self).pos < final(self).pos,
                k => r matches Err(err) && perr_is(
                    err,
                    (what@ + ", got "@ + kind_debug(k), loc_of(old(self).tokens@, old(self).pos as int)),
                ),
            },
    {
        let cur = self.current();
        match &cur.kind {
            TokenKind::Ident(n) => {
                let name = n.clone();
                self.advance();
                Ok(name)
            },
            k => {
                let mut message = str_to_string(what);
                push_str(&mut message, ", got ");
                push_kind_debug(&mut message, k);
                assert(message@ =~= what@ + ", got "@ + kind_debug(*k));
                Err(Error { message, location: cur.location, kind: ErrorKind::ParseError })
            },
        }
    }

    fn lex_ident(&mut self) -> (r: Result<String, Error>)
        requires
            old(self).ok(),
        ensures
            final(self).ok(),
            final(self).tokens == old(self).tokens,
            match ident_at(old(self).tokens@, old(self).pos as int) {
                Ok((n, q)) => r matches Ok(x) && x@ == n && final(self).pos == q && old(self).pos < q,
                Err(e) => r matches Err(err) && perr_is(err, e),
            },
    {
        self.name_token("Expected identifier")
    }

    fn lex_ident_or_keyword(&mut self) -> (r: Result<String, Error>)
        requires
            old(self).ok(),
        ensures
            final(self).ok(),
            final(self).tokens == old(self).tokens,
            match type_name_at(old(self).tokens@, old(self).pos as int) {
                Ok((n, q)) => r matches Ok(x) && x@ == n && final(self).pos == q && old(self).pos < q,
                Err(e) => r matches Err(err) && perr_is(err, e),
            },
    {
        self.name_token("Expected type")
    }
}



/// Whether `s` spells `lit`.
pub(crate) fn is_text(s: &String, lit: &str) -> (r: bool)
    ensures
        r == (s@ == lit@),
{
    *s == str_to_string(lit)
}

impl Parser {
    fn parse_unit_expr(&mut self) -> (r: Result<UnitExpr, Error>)
        requires
            old(self).ok(),
        ensures
            final(self).ok(),
            final(self).tokens == old(self).tokens,
            match unit_expr_at(old(self).tokens@, old(self).pos as int) {
                Ok((u, q)) => r matches Ok(x) && x.0@ == u && final(self).pos == q && old(self).pos < q,
                Err(e) => r matches Err(err) && perr_is(err, e),
            },
    {
        let ghost ts = self.tokens@;
        let ghost p0 = self.pos as int;
        let mut unit = match self.lex_ident() {
            Ok(n) => n,
            Err(e) => {
                return Err(e);
            },
        };
        loop
            invariant
                self.ok(),
                self.tokens@ == ts,
                self.tokens == old(self).tokens,
                ts == old(self).tokens@,
                p0 == old(self).pos,
                p0 < self.pos,
                unit_expr_at(ts, p0) == unit_rest(ts, self.pos as int, unit@),
            decreases ts.len() - self.pos,
        {
            let is_slash = matches!(self.current().kind, TokenKind::Slash);
            let is_star = matches!(self.current().kind, TokenKind::Star);
            if !is_slash && !is_star {
                return Ok(UnitExpr(unit));
            }
            let ghost q = self.pos as int;
            assert(q < ts.len()) by {
                if q >= ts.len() {
                    assert(kind_at(ts, q) == ts.last().kind);
                }
            }
            if is_slash {
                push_char(&mut unit, '/');
            } else {
                push_char(&mut unit, '*');
            }
            self.advance();
            match self.lex_ident() {
                Ok(n) => {
                    push_str(&mut unit, n.as_str());
                },
                Err(e) => {
                    return Err(e);
                },
            }
        }
    }

    fn parse_type(&mut self) -> (r: Result<TypeExpr, Error>)
        requires
            old(self).ok(),
        ensures
            final(self).ok(),
            final(self).tokens == old(self).tokens,
            match type_at(old(self).tokens@, old(self).pos as int) {
                Ok((t, q)) => r matches Ok(x) && type_view(x) == t && final(self).pos == q && old(self).pos < q,
                Err(e) => r matches Err(err) && perr_is(err, e),
            },
        decreases old(self).tokens@.len() - old(self).pos,
    {
        let ghost ts = self.tokens@;
        let ghost p0 = self.pos as int;
        let name = match self.lex_ident_or_keyword() {
            Ok(n) => n,
            Err(e) => {
                return Err(e);
            },
        };
        if is_text(&name, "Float") {
            if self.check(&TokenKind::LBracket) {
                self.advance();
                let unit = match self.parse_unit_expr() {
                    Ok(u) => u,
                    Err(e) => {
                        return Err(e);
                    },
                };
                match self.expect(TokenKind::RBracket) {
                    Ok(()) => Ok(TypeExpr::Float(Some(unit))),
                    Err(e) => Err(e),
                }
            } else {
                Ok(TypeExpr::Float(None))
            }
        } else if is_text(&name, "Int") {
            Ok(TypeExpr::Int)
        } else if is_text(&name, "Bool") {
            Ok(TypeExpr::Bool)
        } else if is_text(&name, "String") {
            Ok(TypeExpr::String)
        } else if is_text(&name, "Void") {
            Ok(TypeExpr::Named(str_to_string("Void")))
        } else if is_text(&name, "Array") {
            match self.expect(TokenKind::LBracket) {
                Ok(()) => {},
                Err(e) => {
                    return Err(e);
                },
            }
            let elem = match self.parse_type() {
                Ok(t) => t,
                Err(e) => {
                    return Err(e);
                },
            };
            match self.expect(TokenKind::RBracket) {
                Ok(()) => Ok(TypeExpr::Array(Box::new(elem))),
                Err(e) => Err(e),
            }
        } else {
            Ok(TypeExpr::Named(name))
        }
    }
}


pub(crate) fn or_op_of(k: &TokenKind) -> (r: Option<BinOp>)
    ensures
        r == or_op(*k),
{
    match k {
        TokenKind::Or => Some(BinOp::Or),
        _ => None,
    }
}

pub(crate) fn and_op_of(k: &TokenKind) -> (r: Option<BinOp>)
    ensures
        r == and_op(*k),
{
    match k {
        TokenKind::And => Some(BinOp::And),
        _ => None,
    }
}

pub(crate) fn comparison_op_of(k: &TokenKind) -> (r: Option<BinOp>)
    ensures
        r == comparison_op(*k),
{
    match k {
        TokenKind::EqEq => Some(BinOp::Equal),
        TokenKind::NotEq => Some(BinOp::NotEqual),
        TokenKind::Less => Some(BinOp::Less),
        TokenKind::Greater => Some(BinOp::Greater),
        TokenKind::LessEq => Some(BinOp::LessEqual),
        TokenKind::GreaterEq => Some(BinOp::GreaterEqual),
        _ => None,
    }
}

pub(crate) fn additive_op_of(k: &TokenKind) -> (r: Option<BinOp>)
    ensures
        r == additive_op(*k),
{
    match k {
        TokenKind::Plus => Some(BinOp::Add),
        TokenKind::Minus => Some(BinOp::Subtract),
        _ => None,
    }
}

fn multiplicative_op_of(k: &TokenKind) -> (r: Option<BinOp>)
    ensures
        r == multiplicative_op(*k),
{
    match k {
        TokenKind::Star => Some(BinOp::Multiply),
        TokenKind::Slash => Some(BinOp::Divide),
        TokenKind::Percent => Some(BinOp::Modulo),
        TokenKind::At => Some(BinOp::MatMul),
        _ => None,
    }
}

pub(crate) fn power_op_of(k: &TokenKind) -> (r: Option<BinOp>)
    ensures
        r == power_op(*k),
{
    match k {
        TokenKind::Caret => Some(BinOp::Power),
        _ => None,
    }
}

impl Parser {
    #[verifier::rlimit(30)]
    fn parse_pipe(&mut self) -> (r: Result<Expr, Error>)
        requires
            old(self).ok(),
        ensures
            final(self).ok(),
            final(self).tokens == old(self).tokens,
            match pipe_at(old(self).tokens@, old(self).pos as int) {
                Ok((e, q)) => r matches Ok(x) && expr_view(x) == e && final(self).pos == q && old(self).pos < q,
                Err(e) => r matches Err(err) && perr_is(err, e),
            },
        decreases old(self).tokens@.len() - old(self).pos, 10int, 1int,
    {
        let ghost ts = self.tokens@;
        let ghost p0 = self.pos as int;
        let mut expr = match self.parse_or() {
            Ok(e) => e,
            Err(e) => {
                return Err(e);
            },
        };
        loop
            invariant
                self.ok(),
                self.tokens == old(self).tokens,
                ts == old(self).tokens@,
                p0 == old(self).pos,
                p0 < self.pos,
                pipe_at(ts, p0) == pipe_rest(ts, self.pos as int, expr_view(expr)),
            decreases ts.len() - self.pos,
        {
            let ghost q = self.pos as int;
            if !matches!(self.current().kind, TokenKind::Pipe) {
                return Ok(expr);
            }
            assert(q < ts.len()) by {
                if q >= ts.len() {
                    assert(kind_at(ts, q) == ts.last().kind);
                }
            }
            self.advance();
            let loc = self.current().location;
            let right = match self.parse_or() {
                Ok(e) => e,
                Err(e) => {
                    return Err(e);
                },
            };
            expr = Expr::Pipe { left: Box::new(expr), right: Box::new(right), location: loc };
        }
    }

    fn parse_or(&mut self) -> (r: Result<Expr, Error>)
        requires
            old(self).ok(),
        ensures
            final(self).ok(),
            final(self).tokens == old(self).tokens,
            match or_at(old(self).tokens@, old(self).pos as int) {
                Ok((e, q)) => r matches Ok(x) && expr_view(x) == e && final(self).pos == q && old(self).pos < q,
                Err(e) => r matches Err(err) && perr_is(err, e),
            },
        decreases old(self).tokens@.len() - old(self).pos, 9int, 1int,
    {
        let ghost ts = self.tokens@;
        let ghost p0 = self.pos as int;
        let mut expr = match self.parse_and() {
            Ok(e) => e,
            Err(e) => {
                return Err(e);
            },
        };
        loop
            invariant
                self.ok(),
                self.tokens == old(self).tokens,
                ts == old(self).tokens@,
                p0 == old(self).pos,
                p0 < self.pos,
                or_at(ts, p0) == or_rest(ts, self.pos as int, expr_view(expr)),
            decreases ts.len() - self.pos,
        {
            let ghost q = self.pos as int;
            let op = match or_op_of(&self.current().kind) {
                Some(op) => op,
                None => {
                    return Ok(expr);
                },
            };
            assert(q < ts.len()) by {
                if q >= ts.len() {
                    assert(kind_at(ts, q) == ts.last().kind);
                }
            }
            self.advance();
            let loc = self.current().location;
            let right = match self.parse_and() {
                Ok(e) => e,
                Err(e) => {
                    return Err(e);
                },
            };
            expr = Expr::BinaryOp { left: Box::new(expr), op, right: Box::new(right), location: loc };
        }
    }

    fn parse_and(&mut self) -> (r: Result<Expr, Error>)
        requires
            old(self).ok(),
        ensures
            final(self).ok(),
            final(self).tokens == old(self).tokens,
            match and_at(old(self).tokens@, old(self).pos as int) {
                Ok((e, q)) => r matches Ok(x) && expr_view(x) == e && final(self).pos == q && old(self).pos < q,
                Err(e) => r matches Err(err) && perr_is(err, e),
            },
        decreases old(self).tokens@.len() - old(self).pos, 8int, 1int,
    {
        let ghost ts = self.tokens@;
        let ghost p0 = self.pos as int;
        let mut expr = match self.parse_comparison() {
            Ok(e) => e,
            Err(e) => {
                return Err(e);
            },
        };
        loop
            invariant
                self.ok(),
                self.tokens == old(self).tokens,
                ts == old(self).tokens@,
                p0 == old(self).pos,
                p0 < self.pos,
                and_at(ts, p0) == and_rest(ts, self.pos as int, expr_view(expr)),
            decreases ts.len() - self.pos,
        {
            let ghost q = self.pos as int;
            let op = match and_op_of(&self.current().kind) {
                Some(op) => op,
                None => {
                    return Ok(expr);
                },
            };
            assert(q < ts.len()) by {
                if q >= ts.len() {
                    assert(kind_at(ts, q) == ts.last().kind);
                }
            }
            self.advance();
            let loc = self.current().location;
            let right = match self.parse_comparison() {
                Ok(e) => e,
                Err(e) => {
                    return Err(e);
                },
            };
            expr = Expr::BinaryOp { left: Box::new(expr), op, right: Box::new(right), location: loc };
        }
    }

    fn parse_comparison(&mut self) -> (r: Result<Expr, Error>)
        requires
            old(self).ok(),
        ensures
            final(self).ok(),
            final(self).tokens == old(self).tokens,
            match comparison_at(old(self).tokens@, old(self).pos as int) {
                Ok((e, q)) => r matches Ok(x) && expr_view(x) == e && final(self).pos == q && old(self).pos < q,
                Err(e) => r matches Err(err) && perr_is(err, e),
            },
        decreases old(self).tokens@.len() - old(self).pos, 7int, 1int,
    {
        let ghost ts = self.tokens@;
        let ghost p0 = self.pos as int;
        let mut expr = match self.parse_additive() {
            Ok(e) => e,
            Err(e) => {
                return Err(e);
            },
        };
        loop
            invariant
                self.ok(),
                self.tokens == old(self).tokens,
                ts == old(self).tokens@,
                p0 == old(self).pos,
                p0 < self.pos,
                comparison_at(ts, p0) == comparison_rest(ts, self.pos as int, expr_view(expr)),
            decreases ts.len() - self.pos,
        {
            let ghost q = self.pos as int;
            let loc_at_op = self.current().location;
            let op = match comparison_op_of(&self.current().kind) {
                Some(op) => op,
                None => {
                    return Ok(expr);
                },
            };
            assert(q < ts.len()) by {
                if q >= ts.len() {
                    assert(kind_at(ts, q) == ts.last().kind);
                }
            }
            self.advance();
            let loc = loc_at_op;
            let right = match self.parse_additive() {
                Ok(e) => e,
                Err(e) => {
                    return Err(e);
                },
            };
            expr = Expr::BinaryOp { left: Box::new(expr), op, right: Box::new(right), location: loc };
        }
    }

    fn parse_additive(&mut self) -> (r: Result<Expr, Error>)
        requires
            old(self).ok(),
        ensures
            final(self).ok(),
            final(self).tokens == old(self).tokens,
            match additive_at(old(self).tokens@, old(self).pos as int) {
                Ok((e, q)) => r matches Ok(x) && expr_view(x) == e && final(self).pos == q && old(self).pos < q,
                Err(e) => r matches Err(err) && perr_is(err, e),
            },
        decreases old(self).tokens@.len() - old(self).pos, 6int, 1int,
    {
        let ghost ts = self.tokens@;
        let ghost p0 = self.pos as int;
        let mut expr = match self.parse_multiplicative() {
            Ok(e) => e,
            Err(e) => {
                return Err(e);
            },
        };
        loop
            invariant
                self.ok(),
                self.tokens == old(self).tokens,
                ts == old(self).tokens@,
                p0 == old(self).pos,
                p0 < self.pos,
                additive_at(ts, p0) == additive_rest(ts, self.pos as int, expr_view(expr)),
            decreases ts.len() - self.pos,
        {
            let ghost q = self.pos as int;
            let loc_at_op = self.current().location;
            let op = match additive_op_of(&self.current().kind) {
                Some(op) => op,
                None => {
                    return Ok(expr);
                },
            };
            assert(q < ts.len()) by {
                if q >= ts.len() {
                    assert(kind_at(ts, q) == ts.last().kind);
                }
            }
            self.advance();
            let loc = loc_at_op;
            let right = match self.parse_multiplicative() {
                Ok(e) => e,
                Err(e) => {
                    return Err(e);
                },
            };
            expr = Expr::BinaryOp { left: Box::new(expr), op, right: Box::new(right), location: loc };
        }
    }

    fn parse_multiplicative(&mut self) -> (r: Result<Expr, Error>)
        requires
            old(self).ok(),
        ensures
            final(self).ok(),
            final(self).tokens == old(self).tokens,
            match multiplicative_at(old(self).tokens@, old(self).pos as int) {
                Ok((e, q)) => r matches Ok(x) && expr_view(x) == e && final(self).pos == q && old(self).pos < q,
                Err(e) => r matches Err(err) && perr_is(err, e),
            },
        decreases old(self).tokens@.len() - old(self).pos, 5int, 1int,
    {
        let ghost ts = self.tokens@;
        let ghost p0 = self.pos as int;
        let mut expr = match self.parse_power() {
            Ok(e) => e,
            Err(e) => {
                return Err(e);
            },
        };
        loop
            invariant
                self.ok(),
                self.tokens == old(self).tokens,
                ts == old(self).tokens@,
                p0 == old(self).pos,
                p0 < self.pos,
                multiplicative_at(ts, p0) == multiplicative_rest(ts, self.pos as int, expr_view(expr)),
            decreases ts.len() - self.pos,
        {
            let ghost q = self.pos as int;
            let loc_at_op = self.current().location;
            let op = match multiplicative_op_of(&self.current().kind) {
                Some(op) => op,
                None => {
                    return Ok(expr);
                },
            };
            assert(q < ts.len()) by {
                if q >= ts.len() {
                    assert(kind_at(ts, q) == ts.last().kind);
                }
            }
            self.advance();
            let loc = loc_at_op;
            let right = match self.parse_power() {
                Ok(e) => e,
                Err(e) => {
                    return Err(e);
                },
            };
            expr = Expr::BinaryOp { left: Box::new(expr), op, right: Box::new(right), location: loc };
        }
    }

    fn parse_power(&mut self) -> (r: Result<Expr, Error>)
        requires
            old(self).ok(),
        ensures
            final(self).ok(),
            final(self).tokens == old(self).tokens,
            match power_at(old(self).tokens@, old(self).pos as int) {
                Ok((e, q)) => r matches Ok(x) && expr_view(x) == e && final(self).pos == q && old(self).pos < q,
                Err(e) => r matches Err(err) && perr_is(err, e),
            },
        decreases old(self).tokens@.len() - old(self).pos, 4int, 1int,
    {
        let ghost ts = self.tokens@;
        let ghost p0 = self.pos as int;
        let mut expr = match self.parse_unary() {
            Ok(e) => e,
            Err(e) => {
                return Err(e);
            },
        };
        loop
            invariant
                self.ok(),
                self.tokens == old(self).tokens,
                ts == old(self).tokens@,
                p0 == old(self).pos,
                p0 < self.pos,
                power_at(ts, p0) == power_rest(ts, self.pos as int, expr_view(expr)),
            decreases ts.len() - self.pos,
        {
            let ghost q = self.pos as int;
            let op = match power_op_of(&self.current().kind) {
                Some(op) => op,
                None => {
                    return Ok(expr);
                },
            };
            assert(q < ts.len()) by {
                if q >= ts.len() {
                    assert(kind_at(ts, q) == ts.last().kind);
                }
            }
            self.advance();
            let loc = self.current().location;
            let right = match self.parse_unary() {
                Ok(e) => e,
                Err(e) => {
                    return Err(e);
                },
            };
            expr = Expr::BinaryOp { left: Box::new(expr), op, right: Box::new(right), location: loc };
        }
    }

}

/// A copy of a token kind, payload included.
pub(crate) fn copy_kind(k: &TokenKind) -> (r: TokenKind)
    ensures
        r == *k,
{
    match k {
        TokenKind::Integer(n) => TokenKind::Integer(*n),
        TokenKind::Float(t) => TokenKind::Float(t.clone()),
        TokenKind::UnitAnnotatedFloat { value, unit } => TokenKind::UnitAnnotatedFloat { value: value.clone(), unit: unit.clone() },
        TokenKind::String(t) => TokenKind::String(t.clone()),
        TokenKind::Bool(b) => TokenKind::Bool(*b),
        TokenKind::Mission => TokenKind::Mission,
        TokenKind::Parallel => TokenKind::Parallel,
        TokenKind::Constellation => TokenKind::Constellation,
        TokenKind::Absorb => TokenKind::Absorb,
        TokenKind::Let => TokenKind::Let,
        TokenKind::Var => TokenKind::Var,
        TokenKind::Model => TokenKind::Model,
        TokenKind::Layer => TokenKind::Layer,
        TokenKind::Repeat => TokenKind::Repeat,
        TokenKind::Autodiff => TokenKind::Autodiff,
        TokenKind::Gradient => TokenKind::Gradient,
        TokenKind::Wrt => TokenKind::Wrt,
        TokenKind::For => TokenKind::For,
        TokenKind::In => TokenKind::In,
        TokenKind::While => TokenKind::While,
        TokenKind::Match => TokenKind::Match,
        TokenKind::Return => TokenKind::Return,
        TokenKind::Export => TokenKind::Export,
        TokenKind::Transmit => TokenKind::Transmit,
        TokenKind::If => TokenKind::If,
        TokenKind::Else => TokenKind::Else,
        TokenKind::Break => TokenKind::Break,
        TokenKind::Pipeline => TokenKind::Pipeline,
        TokenKind::Struct => TokenKind::Struct,
        TokenKind::Enum => TokenKind::Enum,
        TokenKind::Unit => TokenKind::Unit,
        TokenKind::Wave => TokenKind::Wave,
        TokenKind::On => TokenKind::On,
        TokenKind::Device => TokenKind::Device,
        TokenKind::From => TokenKind::From,
        TokenKind::Test => TokenKind::Test,
        TokenKind::Arrow => TokenKind::Arrow,
        TokenKind::Pipe => TokenKind::Pipe,
        TokenKind::At => TokenKind::At,
        TokenKind::Caret => TokenKind::Caret,
        TokenKind::FatArrow => TokenKind::FatArrow,
        TokenKind::Dotdot => TokenKind::Dotdot,
        TokenKind::Question => TokenKind::Question,
        TokenKind::Plus => TokenKind::Plus,
        TokenKind::Minus => TokenKind::Minus,
        TokenKind::Star => TokenKind::Star,
        TokenKind::Slash => TokenKind::Slash,
        TokenKind::Percent => TokenKind::Percent,
        TokenKind::Equals => TokenKind::Equals,
        TokenKind::EqEq => TokenKind::EqEq,
        TokenKind::NotEq => TokenKind::NotEq,
        TokenKind::Less => TokenKind::Less,
        TokenKind::Greater => TokenKind::Greater,
        TokenKind::LessEq => TokenKind::LessEq,
        TokenKind::GreaterEq => TokenKind::GreaterEq,
        TokenKind::And => TokenKind::And,
        TokenKind::Or => TokenKind::Or,
        TokenKind::Not => TokenKind::Not,
        TokenKind::Ampersand => TokenKind::Ampersand,
        TokenKind::Dot => TokenKind::Dot,
        TokenKind::Comma => TokenKind::Comma,
        TokenKind::Colon => TokenKind::Colon,
        TokenKind::Semicolon => TokenKind::Semicolon,
        TokenKind::LParen => TokenKind::LParen,
        TokenKind::RParen => TokenKind::RParen,
        TokenKind::LBrace => TokenKind::LBrace,
        TokenKind::RBrace => TokenKind::RBrace,
        TokenKind::LBracket => TokenKind::LBracket,
        TokenKind::RBracket => TokenKind::RBracket,
        TokenKind::Ident(t) => TokenKind::Ident(t.clone()),
        TokenKind::Eof => TokenKind::Eof,
    }
}

impl Parser {
    fn parse_expr(&mut self) -> (r: Result<Expr, Error>)
        requires
            old(self).ok(),
        ensures
            final(self).ok(),
            final(self).tokens == old(self).tokens,
            match expr_at(old(self).tokens@, old(self).pos as int) {
                Ok((e, q)) => r matches Ok(x) && expr_view(x) == e && final(self).pos == q && old(self).pos < q,
                Err(e) => r matches Err(err) && perr_is(err, e),
            },
        decreases old(self).tokens@.len() - old(self).pos, 11int, 0int,
    {
        self.parse_pipe()
    }

    fn parse_unary(&mut self) -> (r: Result<Expr, Error>)
        requires
            old(self).ok(),
        ensures
            final(self).ok(),
            final(self).tokens == old(self).tokens,
            match unary_at(old(self).tokens@, old(self).pos as int) {
                Ok((e, q)) => r matches Ok(x) && expr_view(x) == e && final(self).pos == q && old(self).pos < q,
                Err(e) => r matches Err(err) && perr_is(err, e),
            },
        decreases old(self).tokens@.len() - old(self).pos, 3int, 0int,
    {
        let ghost ts = self.tokens@;
        let ghost p0 = self.pos as int;
        let loc = self.current().location;
        let is_neg = matches!(self.current().kind, TokenKind::Minus);
        let is_not = matches!(self.current().kind, TokenKind::Not);
        if is_neg || is_not {
            assert(p0 < ts.len()) by {
                if p0 >= ts.len() {
                    assert(kind_at(ts, p0) == ts.last().kind);
                }
            }
            self.advance();
            let operand = match self.parse_unary() {
                Ok(e) => e,
                Err(e) => {
                    return Err(e);
                },
            };
            let op = if is_neg { UnOp::Negate } else { UnOp::Not };
            Ok(Expr::UnaryOp { op, operand: Box::new(operand), location: loc })
        } else {
            self.parse_postfix()
        }
    }

    #[verifier::rlimit(30)]
    fn parse_postfix(&mut self) -> (r: Result<Expr, Error>)
        requires
            old(self).ok(),
        ensures
            final(self).ok(),
            final(self).tokens == old(self).tokens,
            match postfix_at(old(self).tokens@, old(self).pos as int) {
                Ok((e, q)) => r matches Ok(x) && expr_view(x) == e && final(self).pos == q && old(self).pos < q,
                Err(e) => r matches Err(err) && perr_is(err, e),
            },
        decreases old(self).tokens@.len() - old(self).pos, 2int, 1int,
    {
        let ghost ts = self.tokens@;
        let ghost p0 = self.pos as int;
        let mut expr = match self.parse_primary() {
            Ok(e) => e,
            Err(e) => {
                return Err(e);
            },
        };
        loop
            invariant
                self.ok(),
                self.tokens == old(self).tokens,
                ts == old(self).tokens@,
                p0 == old(self).pos,
                p0 < self.pos,
                postfix_at(ts, p0) == postfix_rest(ts, self.pos as int, expr_view(expr)),
            decreases ts.len() - self.pos,
        {
            let ghost q = self.pos as int;
            let loc = self.current().location;
            let is_call = matches!(self.current().kind, TokenKind::LParen);
            let is_field = matches!(self.current().kind, TokenKind::Dot);
            let is_index = matches!(self.current().kind, TokenKind::LBracket);
            if !is_call && !is_field && !is_index {
                return Ok(expr);
            }
            assert(q < ts.len()) by {
                if q >= ts.len() {
                    assert(kind_at(ts, q) == ts.last().kind);
                }
            }
            self.advance();
            if is_call {
                let args = match self.parse_call_args() {
                    Ok(a) => a,
                    Err(e) => {
                        return Err(e);
                    },
                };
                match self.expect(TokenKind::RParen) {
                    Ok(()) => {},
                    Err(e) => {
                        return Err(e);
                    },
                }
                expr = Expr::Call { func: Box::new(expr), args, location: loc };
            } else if is_field {
                let field = match self.lex_ident() {
                    Ok(f) => f,
                    Err(e) => {
                        return Err(e);
                    },
                };
                expr = Expr::FieldAccess { object: Box::new(expr), field, location: loc };
            } else {
                let index = match self.parse_expr() {
                    Ok(e) => e,
                    Err(e) => {
                        return Err(e);
                    },
                };
                match self.expect(TokenKind::RBracket) {
                    Ok(()) => {},
                    Err(e) => {
                        return Err(e);
                    },
                }
                expr = Expr::Index { object: Box::new(expr), index: Box::new(index), location: loc };
            }
        }
    }

    fn parse_call_args(&mut self) -> (r: Result<Vec<(Option<String>, Expr)>, Error>)
        requires
            old(self).ok(),
        ensures
            final(self).ok(),
            final(self).tokens == old(self).tokens,
            match call_args(old(self).tokens@, old(self).pos as int, Seq::empty()) {
                Ok((a, q)) => r matches Ok(x) && args_view(x@) == a && final(self).pos == q && old(self).pos <= q,
                Err(e) => r matches Err(err) && perr_is(err, e),
            },
        decreases old(self).tokens@.len() - old(self).pos, 12int, 0int,
    {
        let ghost ts = self.tokens@;
        let ghost p0 = self.pos as int;
        let mut args: Vec<(Option<String>, Expr)> = Vec::new();
        loop
            invariant
                self.ok(),
                self.tokens == old(self).tokens,
                ts == old(self).tokens@,
                p0 == old(self).pos,
                p0 <= self.pos,
                call_args(ts, p0, Seq::empty()) == call_args(ts, self.pos as int, args_view(args@)),
            decreases ts.len() - self.pos,
        {
            if self.check(&TokenKind::RParen) {
                return Ok(args);
            }
            let e = match self.parse_expr() {
                Ok(e) => e,
                Err(e) => {
                    return Err(e);
                },
            };
            let ghost before = args@;
            args.push((None, e));
            assert(args@.drop_last() =~= before);
            if !self.consume_if(&TokenKind::Comma) {
                return Ok(args);
            }
        }
    }

    fn parse_transmit_args(&mut self) -> (r: Result<Vec<Expr>, Error>)
        requires
            old(self).ok(),
        ensures
            final(self).ok(),
            final(self).tokens == old(self).tokens,
            match transmit_args(old(self).tokens@, old(self).pos as int, Seq::empty()) {
                Ok((a, q)) => r matches Ok(x) && exprs_view(x@) == a && final(self).pos == q && old(self).pos <= q,
                Err(e) => r matches Err(err) && perr_is(err, e),
            },
        decreases old(self).tokens@.len() - old(self).pos, 12int, 0int,
    {
        let ghost ts = self.tokens@;
        let ghost p0 = self.pos as int;
        let mut args: Vec<Expr> = Vec::new();
        loop
            invariant
                self.ok(),
                self.tokens == old(self).tokens,
                ts == old(self).tokens@,
                p0 == old(self).pos,
                p0 <= self.pos,
                transmit_args(ts, p0, Seq::empty()) == transmit_args(ts, self.pos as int, exprs_view(args@)),
            decreases ts.len() - self.pos,
        {
            if self.check(&TokenKind::RParen) {
                return Ok(args);
            }
            let e = match self.parse_expr() {
                Ok(e) => e,
                Err(e) => {
                    return Err(e);
                },
            };
            let ghost before = args@;
            args.push(e);
            assert(args@.drop_last() =~= before);
            if !self.consume_if(&TokenKind::Comma) {
                return Ok(args);
            }
        }
    }

    #[verifier::rlimit(30)]
    fn parse_primary(&mut self) -> (r: Result<Expr, Error>)
        requires
            old(self).ok(),
        ensures
            final(self).ok(),
            final(self).tokens == old(self).tokens,
            match primary_at(old(self).tokens@, old(self).pos as int) {
                Ok((e, q)) => r matches Ok(x) && expr_view(x) == e && final(self).pos == q && old(self).pos < q,
                Err(e) => r matches Err(err) && perr_is(err, e),
            },
        decreases old(self).tokens@.len() - old(self).pos, 1int, 0int,
    {
        let ghost ts = self.tokens@;
        let ghost p0 = self.pos as int;
        let loc = self.current().location;
        let kind = copy_kind(&self.current().kind);
        assert(p0 < ts.len() || kind is Eof) by {
            if p0 >= ts.len() {
                assert(kind_at(ts, p0) == ts.last().kind);
            }
        }
        match kind {
            TokenKind::Integer(n) => {
                self.advance();
                Ok(Expr::Integer(n))
            },
            TokenKind::Float(t) => {
                self.advance();
                Ok(Expr::Float(t))
            },
            TokenKind::UnitAnnotatedFloat { value, unit } => {
                self.advance();
                Ok(Expr::UnitAnnotatedFloat { value, unit: UnitExpr(unit) })
            },
            TokenKind::String(t) => {
                self.advance();
                Ok(Expr::String(t))
            },
            TokenKind::Bool(b) => {
                self.advance();
                Ok(Expr::Bool(b))
            },
            TokenKind::Ident(n) => {
                self.advance();
                Ok(Expr::Ident(n))
            },
            TokenKind::LParen => {
                self.advance();
                let e = match self.parse_expr() {
                    Ok(e) => e,
                    Err(e) => {
                        return Err(e);
                    },
                };
                match self.expect(TokenKind::RParen) {
                    Ok(()) => Ok(e),
                    Err(err) => Err(err),
                }
            },
            TokenKind::Transmit => {
                self.advance();
                match self.expect(TokenKind::LParen) {
                    Ok(()) => {},
                    Err(e) => {
                        return Err(e);
                    },
                }
                let args = match self.parse_transmit_args() {
                    Ok(a) => a,
                    Err(e) => {
                        return Err(e);
                    },
                };
                match self.expect(TokenKind::RParen) {
                    Ok(()) => Ok(Expr::Transmit { args, location: loc }),
                    Err(e) => Err(e),
                }
            },
            k => {
                let mut message = str_to_string("Unexpected token in expression: ");
                push_kind_debug(&mut message, &k);
                assert(message@ =~= "Unexpected token in expression: "@ + kind_debug(k));
                Err(Error { message, location: loc, kind: ErrorKind::ParseError })
            },
        }
    }
}


impl Parser {
    fn parse_block(&mut self) -> (r: Result<Vec<Statement>, Error>)
        requires
            old(self).ok(),
        ensures
            final(self).ok(),
            final(self).tokens == old(self).tokens,
            match block_items(old(self).tokens@, old(self).pos as int, Seq::empty()) {
                Ok((b, q)) => r matches Ok(x) && stmts_view(x@) == b && final(self).pos == q && old(self).pos <= q,
                Err(e) => r matches Err(err) && perr_is(err, e),
            },
        decreases old(self).tokens@.len() - old(self).pos, 15int,
    {
        let ghost ts = self.tokens@;
        let ghost p0 = self.pos as int;
        let mut statements: Vec<Statement> = Vec::new();
        loop
            invariant
                self.ok(),
                self.tokens == old(self).tokens,
                ts == old(self).tokens@,
                p0 == old(self).pos,
                p0 <= self.pos,
                block_items(ts, p0, Seq::empty()) == block_items(ts, self.pos as int, stmts_view(statements@)),
            decreases ts.len() - self.pos,
        {
            if self.check(&TokenKind::RBrace) || self.check(&TokenKind::Eof) {
                return Ok(statements);
            }
            let s = match self.parse_statement() {
                Ok(s) => s,
                Err(e) => {
                    return Err(e);
                },
            };
            let ghost before = statements@;
            statements.push(s);
            assert(statements@.drop_last() =~= before);
        }
    }

    /// A block in braces.
    fn parse_braced_block(&mut self) -> (r: Result<Vec<Statement>, Error>)
        requires
            old(self).ok(),
        ensures
            final(self).ok(),
            final(self).tokens == old(self).tokens,
            match braced_block(old(self).tokens@, old(self).pos as int) {
                Ok((b, q)) => r matches Ok(x) && stmts_view(x@) == b && final(self).pos == q && old(self).pos < q,
                Err(e) => r matches Err(err) && perr_is(err, e),
            },
        decreases old(self).tokens@.len() - old(self).pos, 16int,
    {
        match self.expect(TokenKind::LBrace) {
            Ok(()) => {},
            Err(e) => {
                return Err(e);
            },
        }
        let body = match self.parse_block() {
            Ok(b) => b,
            Err(e) => {
                return Err(e);
            },
        };
        match self.expect(TokenKind::RBrace) {
            Ok(()) => Ok(body),
            Err(e) => Err(e),
        }
    }

    #[verifier::rlimit(30)]
    fn parse_statement(&mut self) -> (r: Result<Statement, Error>)
        requires
            old(self).ok(),
        ensures
            final(self).ok(),
            final(self).tokens == old(self).tokens,
            match statement_at(old(self).tokens@, old(self).pos as int) {
                Ok((s, q)) => r matches Ok(x) && stmt_view(x) == s && final(self).pos == q && old(self).pos < q,
                Err(e) => r matches Err(err) && perr_is(err, e),
            },
        decreases old(self).tokens@.len() - old(self).pos, 14int,
    {
        let ghost ts = self.tokens@;
        let ghost p0 = self.pos as int;
        let loc = self.current().location;
        let is_let = matches!(self.current().kind, TokenKind::Let);
        let is_var = matches!(self.current().kind, TokenKind::Var);
        let is_if = matches!(self.current().kind, TokenKind::If);
        let is_for = matches!(self.current().kind, TokenKind::For);
        let is_while = matches!(self.current().kind, TokenKind::While);
        let is_autodiff = matches!(self.current().kind, TokenKind::Autodiff);
        let is_return = matches!(self.current().kind, TokenKind::Return);
        let is_break = matches!(self.current().kind, TokenKind::Break);
        if is_let || is_var || is_if || is_for || is_while || is_autodiff || is_return || is_break {
            assert(p0 < ts.len()) by {
                if p0 >= ts.len() {
                    assert(kind_at(ts, p0) == ts.last().kind);
                }
            }
            self.advance();
        }
        if is_let || is_var {
            self.parse_let_binding(is_var, loc)
        } else if is_if {
            self.parse_if_statement(loc)
        } else if is_for {
            self.parse_for_statement(loc)
        } else if is_while {
            self.parse_while_statement(loc)
        } else if is_autodiff {
            match self.parse_braced_block() {
                Ok(_) => Ok(Statement::ExprStmt(Expr::Ident(str_to_string("autodiff")))),
                Err(e) => Err(e),
            }
        } else if is_return {
            self.parse_return_rest()
        } else if is_break {
            self.consume_if(&TokenKind::Semicolon);
            Ok(Statement::Break)
        } else {
            self.parse_expr_or_assign(loc)
        }
    }

    fn parse_return_rest(&mut self) -> (r: Result<Statement, Error>)
        requires
            old(self).ok(),
        ensures
            final(self).ok(),
            final(self).tokens == old(self).tokens,
            match return_rest(old(self).tokens@, old(self).pos as int) {
                Ok((s, q)) => r matches Ok(x) && stmt_view(x) == s && final(self).pos == q && old(self).pos <= q,
                Err(e) => r matches Err(err) && perr_is(err, e),
            },
    {
        if !self.check(&TokenKind::RBrace) && !self.check(&TokenKind::Semicolon) {
            let e = match self.parse_expr() {
                Ok(e) => e,
                Err(e) => {
                    return Err(e);
                },
            };
            self.consume_if(&TokenKind::Semicolon);
            Ok(Statement::Return(Some(e)))
        } else {
            self.consume_if(&TokenKind::Semicolon);
            Ok(Statement::Return(None))
        }
    }

    fn parse_expr_or_assign(&mut self, loc: SourceLoc) -> (r: Result<Statement, Error>)
        requires
            old(self).ok(),
        ensures
            final(self).ok(),
            final(self).tokens == old(self).tokens,
            match expr_or_assign(old(self).tokens@, old(self).pos as int, loc) {
                Ok((s, q)) => r matches Ok(x) && stmt_view(x) == s && final(self).pos == q && old(self).pos < q,
                Err(e) => r matches Err(err) && perr_is(err, e),
            },
    {
        let expr = match self.parse_expr() {
            Ok(e) => e,
            Err(e) => {
                return Err(e);
            },
        };
        if self.check(&TokenKind::Equals) {
            self.advance();
            let value = match self.parse_expr() {
                Ok(e) => e,
                Err(e) => {
                    return Err(e);
                },
            };
            self.consume_if(&TokenKind::Semicolon);
            match expr {
                Expr::Ident(name) => Ok(Statement::LetBind {
                    name,
                    mutable: true,
                    type_annotation: None,
                    value,
                    location: loc,
                }),
                _ => Err(Error::parse("Invalid assignment target", loc)),
            }
        } else {
            self.consume_if(&TokenKind::Semicolon);
            Ok(Statement::ExprStmt(expr))
        }
    }

    fn parse_let_binding(&mut self, mutable: bool, loc: SourceLoc) -> (r: Result<Statement, Error>)
        requires
            old(self).ok(),
        ensures
            final(self).ok(),
            final(self).tokens == old(self).tokens,
            match let_binding(old(self).tokens@, old(self).pos as int, mutable, loc) {
                Ok((s, q)) => r matches Ok(x) && stmt_view(x) == s && final(self).pos == q && old(self).pos < q,
                Err(e) => r matches Err(err) && perr_is(err, e),
            },
        decreases old(self).tokens@.len() - old(self).pos, 13int,
    {
        let name = match self.lex_ident() {
            Ok(n) => n,
            Err(e) => {
                return Err(e);
            },
        };
        let type_annotation = if self.check(&TokenKind::Colon) {
            self.advance();
            match self.parse_type() {
                Ok(t) => Some(t),
                Err(e) => {
                    return Err(e);
                },
            }
        } else {
            None
        };
        match self.expect(TokenKind::Equals) {
            Ok(()) => {},
            Err(e) => {
                return Err(e);
            },
        }
        let value = match self.parse_expr() {
            Ok(e) => e,
            Err(e) => {
                return Err(e);
            },
        };
        self.consume_if(&TokenKind::Semicolon);
        Ok(Statement::LetBind { name, mutable, type_annotation, value, location: loc })
    }

    #[verifier::rlimit(30)]
    fn parse_if_statement(&mut self, loc: SourceLoc) -> (r: Result<Statement, Error>)
        requires
            old(self).ok(),
        ensures
            final(self).ok(),
            final(self).tokens == old(self).tokens,
            match if_stmt(old(self).tokens@, old(self).pos as int, loc) {
                Ok((s, q)) => r matches Ok(x) && stmt_view(x) == s && final(self).pos == q && old(self).pos < q,
                Err(e) => r matches Err(err) && perr_is(err, e),
            },
        decreases old(self).tokens@.len() - old(self).pos, 13int,
    {
        let ghost ts = self.tokens@;
        let condition = match self.parse_expr() {
            Ok(e) => e,
            Err(e) => {
                return Err(e);
            },
        };
        let then_body = match self.parse_braced_block() {
            Ok(b) => b,
            Err(e) => {
                return Err(e);
            },
        };
        let ghost r = self.pos as int;
        let mut else_body: Vec<Statement> = Vec::new();
        if self.check(&TokenKind::Else) {
            assert(r < ts.len()) by {
                if r >= ts.len() {
                    assert(kind_at(ts, r) == ts.last().kind);
                }
            }
            self.advance();
            if self.check(&TokenKind::If) {
                let at = self.current().location;
                let s = match self.parse_if_statement(at) {
                    Ok(s) => s,
                    Err(e) => {
                        return Err(e);
                    },
                };
                else_body.push(s);
                assert(stmts_view(else_body@) =~= seq![stmt_view(s)]) by {
                    assert(else_body@.drop_last() =~= Seq::<Statement>::empty());
                }
            } else {
                else_body = match self.parse_braced_block() {
                    Ok(b) => b,
                    Err(e) => {
                        return Err(e);
                    },
                };
            }
        } else {
            assert(stmts_view(else_body@) =~= Seq::<StmtM>::empty());
        }
        let else_body = if else_body.len() == 0 {
            None
        } else {
            Some(else_body)
        };
        Ok(Statement::If { condition, then_body, else_body, location: loc })
    }

    fn parse_for_statement(&mut self, loc: SourceLoc) -> (r: Result<Statement, Error>)
        requires
            old(self).ok(),
        ensures
            final(self).ok(),
            final(self).tokens == old(self).tokens,
            match for_stmt(old(self).tokens@, old(self).pos as int, loc) {
                Ok((s, q)) => r matches Ok(x) && stmt_view(x) == s && final(self).pos == q && old(self).pos < q,
                Err(e) => r matches Err(err) && perr_is(err, e),
            },
        decreases old(self).tokens@.len() - old(self).pos, 13int,
    {
        let var = match self.lex_ident() {
            Ok(n) => n,
            Err(e) => {
                return Err(e);
            },
        };
        match self.expect(TokenKind::In) {
            Ok(()) => {},
            Err(e) => {
                return Err(e);
            },
        }
        let start = match self.parse_additive() {
            Ok(e) => e,
            Err(e) => {
                return Err(e);
            },
        };
        match self.expect(TokenKind::Dotdot) {
            Ok(()) => {},
            Err(e) => {
                return Err(e);
            },
        }
        let end = match self.parse_additive() {
            Ok(e) => e,
            Err(e) => {
                return Err(e);
            },
        };
        let iter = Expr::BinaryOp { left: Box::new(start), op: BinOp::Range, right: Box::new(end), location: loc };
        let body = match self.parse_braced_block() {
            Ok(b) => b,
            Err(e) => {
                return Err(e);
            },
        };
        Ok(Statement::For { var, iter, body, location: loc })
    }

    fn parse_while_statement(&mut self, loc: SourceLoc) -> (r: Result<Statement, Error>)
        requires
            old(self).ok(),
        ensures
            final(self).ok(),
            final(self).tokens == old(self).tokens,
            match while_stmt(old(self).tokens@, old(self).pos as int, loc) {
                Ok((s, q)) => r matches Ok(x) && stmt_view(x) == s && final(self).pos == q && old(self).pos < q,
                Err(e) => r matches Err(err) && perr_is(err, e),
            },
        decreases old(self).tokens@.len() - old(self).pos, 13int,
    {
        let condition = match self.parse_expr() {
            Ok(e) => e,
            Err(e) => {
                return Err(e);
            },
        };
        let body = match self.parse_braced_block() {
            Ok(b) => b,
            Err(e) => {
                return Err(e);
            },
        };
        Ok(Statement::While { condition, body, location: loc })
    }
}


impl Parser {
    fn parse_parameters(&mut self) -> (r: Result<Vec<Parameter>, Error>)
        requires
            old(self).ok(),
        ensures
            final(self).ok(),
            final(self).tokens == old(self).tokens,
            match params_at(old(self).tokens@, old(self).pos as int, Seq::empty()) {
                Ok((m, q)) => r matches Ok(x) && params_view(x@) == m && final(self).pos == q && old(self).pos <= q,
                Err(e) => r matches Err(err) && perr_is(err, e),
            },
    {
        let ghost ts = self.tokens@;
        let ghost p0 = self.pos as int;
        let mut params: Vec<Parameter> = Vec::new();
        assert(params_view(params@) =~= Seq::<ParamM>::empty());
        loop
            invariant
                self.ok(),
                self.tokens == old(self).tokens,
                ts == old(self).tokens@,
                p0 == old(self).pos,
                p0 <= self.pos,
                params_at(ts, p0, Seq::empty()) == params_at(ts, self.pos as int, params_view(params@)),
            decreases ts.len() - self.pos,
        {
            if self.check(&TokenKind::RParen) {
                return Ok(params);
            }
            let loc = self.current().location;
            let name = match self.lex_ident() {
            Ok(v) => v,
            Err(e) => {
                return Err(e);
            },
        };
            match self.expect(TokenKind::Colon) {
            Ok(()) => {},
            Err(e) => {
                return Err(e);
            },
        }
            let type_annotation = match self.parse_type() {
            Ok(v) => v,
            Err(e) => {
                return Err(e);
            },
        };
            let ghost before = params@;
            params.push(Parameter { name, type_annotation, location: loc });
            assert(params_view(params@) =~= params_view(before).push((params@.last().name@, type_view(params@.last().type_annotation), loc)));
            if !self.consume_if(&TokenKind::Comma) {
                return Ok(params);
            }
        }
    }

    fn parse_mission_def(&mut self) -> (r: Result<MissionDecl, Error>)
        requires
            old(self).ok(),
        ensures
            final(self).ok(),
            final(self).tokens == old(self).tokens,
            match mission_at(old(self).tokens@, old(self).pos as int) {
                Ok((m, q)) => r matches Ok(x) && mission_view(x) == m && final(self).pos == q && old(self).pos < q,
                Err(e) => r matches Err(err) && perr_is(err, e),
            },
    {
        let loc = self.current().location;
        let name = match self.lex_ident() {
            Ok(v) => v,
            Err(e) => {
                return Err(e);
            },
        };
        match self.expect(TokenKind::LParen) {
            Ok(()) => {},
            Err(e) => {
                return Err(e);
            },
        }
        let params = match self.parse_parameters() {
            Ok(v) => v,
            Err(e) => {
                return Err(e);
            },
        };
        match self.expect(TokenKind::RParen) {
            Ok(()) => {},
            Err(e) => {
                return Err(e);
            },
        }
        let return_type = if self.check(&TokenKind::Arrow) {
            self.advance();
            Some(match self.parse_type() {
            Ok(v) => v,
            Err(e) => {
                return Err(e);
            },
        })
        } else {
            None
        };
        let body = match self.parse_braced_block() {
            Ok(v) => v,
            Err(e) => {
                return Err(e);
            },
        };
        Ok(MissionDecl { name, params, return_type, body, location: loc })
    }

    #[verifier::rlimit(30)]
    fn parse_constellation_def(&mut self) -> (r: Result<TopLevelItem, Error>)
        requires
            old(self).ok(),
        ensures
            final(self).ok(),
            final(self).tokens == old(self).tokens,
            match constellation_at(old(self).tokens@, old(self).pos as int) {
                Ok((m, q)) => r matches Ok(x) && item_view(x) == m && final(self).pos == q && old(self).pos < q,
                Err(e) => r matches Err(err) && perr_is(err, e),
            },
    {
        let ghost ts = self.tokens@;
        let loc = self.current().location;
        let name = match self.lex_ident() {
            Ok(v) => v,
            Err(e) => {
                return Err(e);
            },
        };
        match self.expect(TokenKind::LBrace) {
            Ok(()) => {},
            Err(e) => {
                return Err(e);
            },
        }
        let ghost p1 = self.pos as int;
        let mut items: Vec<ConstellationItem> = Vec::new();
        assert(citems_view(items@) =~= Seq::<ConstItemM>::empty());
        loop
            invariant
                self.ok(),
                self.tokens == old(self).tokens,
                ts == old(self).tokens@,
                old(self).pos < p1 <= self.pos,
                loc == loc_of(ts, old(self).pos as int),
                named_open(ts, old(self).pos as int) == Ok::<(Seq<char>, int), PErr>((name@, p1)),
                const_items(ts, p1, Seq::empty(), loc) == const_items(ts, self.pos as int, citems_view(items@), loc),
            ensures
                self.ok(),
                self.tokens == old(self).tokens,
                const_items(ts, p1, Seq::empty(), loc) == Ok::<(Seq<ConstItemM>, int), PErr>((citems_view(items@), self.pos as int)),
            decreases ts.len() - self.pos,
        {
            if self.check(&TokenKind::RBrace) {
                break;
            }
            let ghost q0 = self.pos as int;
            let is_export = matches!(self.current().kind, TokenKind::Export);
            let is_mission = matches!(self.current().kind, TokenKind::Mission);
            if !is_export && !is_mission {
                return Err(Error::parse("Expected mission or export", loc));
            }
            assert(q0 < ts.len()) by {
                if q0 >= ts.len() {
                    assert(kind_at(ts, q0) == ts.last().kind);
                }
            }
            self.advance();
            let ghost before = items@;
            if is_export {
                let export_name = match self.lex_ident() {
            Ok(v) => v,
            Err(e) => {
                return Err(e);
            },
        };
                self.consume_if(&TokenKind::Semicolon);
                items.push(ConstellationItem::Export(export_name));
            } else {
                let mission = match self.parse_mission_def() {
            Ok(v) => v,
            Err(e) => {
                return Err(e);
            },
        };
                items.push(ConstellationItem::MissionDecl(mission));
            }
            assert(citems_view(items@) =~= citems_view(before).push(citems_view(items@).last()));
        }
        match self.expect(TokenKind::RBrace) {
            Ok(()) => {},
            Err(e) => {
                return Err(e);
            },
        }
        Ok(TopLevelItem::ConstellationDecl(ConstellationDecl { name, items, location: loc }))
    }

    fn parse_layer_args(&mut self) -> (r: Result<Vec<(String, Expr)>, Error>)
        requires
            old(self).ok(),
        ensures
            final(self).ok(),
            final(self).tokens == old(self).tokens,
            match layer_args(old(self).tokens@, old(self).pos as int, Seq::empty()) {
                Ok((m, q)) => r matches Ok(x) && layer_args_view(x@) == m && final(self).pos == q && old(self).pos <= q,
                Err(e) => r matches Err(err) && perr_is(err, e),
            },
    {
        let ghost ts = self.tokens@;
        let ghost p0 = self.pos as int;
        let mut args: Vec<(String, Expr)> = Vec::new();
        assert(layer_args_view(args@) =~= Seq::<(Seq<char>, ExprM)>::empty());
        loop
            invariant
                self.ok(),
                self.tokens == old(self).tokens,
                ts == old(self).tokens@,
                p0 == old(self).pos,
                p0 <= self.pos,
                layer_args(ts, p0, Seq::empty()) == layer_args(ts, self.pos as int, layer_args_view(args@)),
            decreases ts.len() - self.pos,
        {
            if self.check(&TokenKind::RParen) || self.check(&TokenKind::Eof) {
                return Ok(args);
            }
            let expr = match self.parse_expr() {
            Ok(v) => v,
            Err(e) => {
                return Err(e);
            },
        };
            let ghost before = args@;
            args.push((str_to_string("arg"), expr));
            assert(layer_args_view(args@) =~= layer_args_view(before).push(("arg"@, expr_view(args@.last().1))));
            if !self.consume_if(&TokenKind::Comma) {
                return Ok(args);
            }
        }
    }

    #[verifier::rlimit(30)]
    fn parse_model_def(&mut self) -> (r: Result<TopLevelItem, Error>)
        requires
            old(self).ok(),
        ensures
            final(self).ok(),
            final(self).tokens == old(self).tokens,
            match model_at(old(self).tokens@, old(self).pos as int) {
                Ok((m, q)) => r matches Ok(x) && item_view(x) == m && final(self).pos == q && old(self).pos < q,
                Err(e) => r matches Err(err) && perr_is(err, e),
            },
    {
        let ghost ts = self.tokens@;
        let loc = self.current().location;
        let name = match self.lex_ident() {
            Ok(v) => v,
            Err(e) => {
                return Err(e);
            },
        };
        match self.expect(TokenKind::LBrace) {
            Ok(()) => {},
            Err(e) => {
                return Err(e);
            },
        }
        let ghost p1 = self.pos as int;
        let mut layers: Vec<LayerDecl> = Vec::new();
        assert(layers_view(layers@) =~= Seq::<LayerM>::empty());
        loop
            invariant
                self.ok(),
                self.tokens == old(self).tokens,
                ts == old(self).tokens@,
                old(self).pos < p1 <= self.pos,
                loc == loc_of(ts, old(self).pos as int),
                named_open(ts, old(self).pos as int) == Ok::<(Seq<char>, int), PErr>((name@, p1)),
                layers_at(ts, p1, Seq::empty(), loc) == layers_at(ts, self.pos as int, layers_view(layers@), loc),
            ensures
                self.ok(),
                self.tokens == old(self).tokens,
                layers_at(ts, p1, Seq::empty(), loc) == Ok::<(Seq<LayerM>, int), PErr>((layers_view(layers@), self.pos as int)),
            decreases ts.len() - self.pos,
        {
            if self.check(&TokenKind::RBrace) || self.check(&TokenKind::Eof) {
                break;
            }
            match self.expect(TokenKind::Layer) {
            Ok(()) => {},
            Err(e) => {
                return Err(e);
            },
        }
            let kind = match self.lex_ident() {
            Ok(v) => v,
            Err(e) => {
                return Err(e);
            },
        };
            match self.expect(TokenKind::LParen) {
            Ok(()) => {},
            Err(e) => {
                return Err(e);
            },
        }
            let args = match self.parse_layer_args() {
            Ok(v) => v,
            Err(e) => {
                return Err(e);
            },
        };
            match self.expect(TokenKind::RParen) {
            Ok(()) => {},
            Err(e) => {
                return Err(e);
            },
        }
            self.consume_if(&TokenKind::Semicolon);
            let ghost before = layers@;
            layers.push(LayerDecl { kind, args, repeat: None, nested: Vec::new(), location: loc });
            assert(layers_view(layers@) =~= layers_view(before).push(layer_view(layers@.last())));
        }
        match self.expect(TokenKind::RBrace) {
            Ok(()) => {},
            Err(e) => {
                return Err(e);
            },
        }
        Ok(TopLevelItem::ModelDecl(ModelDecl { name, layers, location: loc }))
    }

    #[verifier::rlimit(30)]
    fn parse_struct_def(&mut self) -> (r: Result<TopLevelItem, Error>)
        requires
            old(self).ok(),
        ensures
            final(self).ok(),
            final(self).tokens == old(self).tokens,
            match struct_at(old(self).tokens@, old(self).pos as int) {
                Ok((m, q)) => r matches Ok(x) && item_view(x) == m && final(self).pos == q && old(self).pos < q,
                Err(e) => r matches Err(err) && perr_is(err, e),
            },
    {
        let ghost ts = self.tokens@;
        let loc = self.current().location;
        let name = match self.lex_ident() {
            Ok(v) => v,
            Err(e) => {
                return Err(e);
            },
        };
        match self.expect(TokenKind::LBrace) {
            Ok(()) => {},
            Err(e) => {
                return Err(e);
            },
        }
        let ghost p1 = self.pos as int;
        let mut fields: Vec<(String, TypeExpr)> = Vec::new();
        assert(fields_view(fields@) =~= Seq::<(Seq<char>, TypeM)>::empty());
        loop
            invariant
                self.ok(),
                self.tokens == old(self).tokens,
                ts == old(self).tokens@,
                old(self).pos < p1 <= self.pos,
                named_open(ts, old(self).pos as int) == Ok::<(Seq<char>, int), PErr>((name@, p1)),
                fields_at(ts, p1, Seq::empty()) == fields_at(ts, self.pos as int, fields_view(fields@)),
            ensures
                self.ok(),
                self.tokens == old(self).tokens,
                fields_at(ts, p1, Seq::empty()) == Ok::<(Seq<(Seq<char>, TypeM)>, int), PErr>((fields_view(fields@), self.pos as int)),
            decreases ts.len() - self.pos,
        {
            if self.check(&TokenKind::RBrace) || self.check(&TokenKind::Eof) {
                break;
            }
            let field_name = match self.lex_ident() {
            Ok(v) => v,
            Err(e) => {
                return Err(e);
            },
        };
            match self.expect(TokenKind::Colon) {
            Ok(()) => {},
            Err(e) => {
                return Err(e);
            },
        }
            let field_type = match self.parse_type() {
            Ok(v) => v,
            Err(e) => {
                return Err(e);
            },
        };
            let ghost before = fields@;
            fields.push((field_name, field_type));
            assert(fields_view(fields@) =~= fields_view(before).push((fields@.last().0@, type_view(fields@.last().1))));
            if self.check(&TokenKind::RBrace) {
                break;
            }
            self.consume_if(&TokenKind::Comma);
        }
        match self.expect(TokenKind::RBrace) {
            Ok(()) => {},
            Err(e) => {
                return Err(e);
            },
        }
        Ok(TopLevelItem::StructDecl(StructDecl { name, fields, location: loc }))
    }

    #[verifier::rlimit(30)]
    fn parse_enum_def(&mut self) -> (r: Result<TopLevelItem, Error>)
        requires
            old(self).ok(),
        ensures
            final(self).ok(),
            final(self).tokens == old(self).tokens,
            match enum_at(old(self).tokens@, old(self).pos as int) {
                Ok((m, q)) => r matches Ok(x) && item_view(x) == m && final(self).pos == q && old(self).pos < q,
                Err(e) => r matches Err(err) && perr_is(err, e),
            },
    {
        let ghost ts = self.tokens@;
        let loc = self.current().location;
        let name = match self.lex_ident() {
            Ok(v) => v,
            Err(e) => {
                return Err(e);
            },
        };
        match self.expect(TokenKind::LBrace) {
            Ok(()) => {},
            Err(e) => {
                return Err(e);
            },
        }
        let ghost p1 = self.pos as int;
        let mut variants: Vec<String> = Vec::new();
        assert(names_view(variants@) =~= Seq::<Seq<char>>::empty());
        loop
            invariant
                self.ok(),
                self.tokens == old(self).tokens,
                ts == old(self).tokens@,
                old(self).pos < p1 <= self.pos,
                named_open(ts, old(self).pos as int) == Ok::<(Seq<char>, int), PErr>((name@, p1)),
                variants_at(ts, p1, Seq::empty()) == variants_at(ts, self.pos as int, names_view(variants@)),
            ensures
                self.ok(),
                self.tokens == old(self).tokens,
                variants_at(ts, p1, Seq::empty()) == Ok::<(Seq<Seq<char>>, int), PErr>((names_view(variants@), self.pos as int)),
            decreases ts.len() - self.pos,
        {
            if self.check(&TokenKind::RBrace) || self.check(&TokenKind::Eof) {
                break;
            }
            let v = match self.lex_ident() {
            Ok(v) => v,
            Err(e) => {
                return Err(e);
            },
        };
            let ghost before = variants@;
            variants.push(v);
            assert(names_view(variants@) =~= names_view(before).push(variants@.last()@));
            if self.check(&TokenKind::RBrace) {
                break;
            }
            self.consume_if(&TokenKind::Comma);
        }
        match self.expect(TokenKind::RBrace) {
            Ok(()) => {},
            Err(e) => {
                return Err(e);
            },
        }
        Ok(TopLevelItem::EnumDecl(EnumDecl { name, variants, location: loc }))
    }

    fn parse_unit_def(&mut self) -> (r: Result<TopLevelItem, Error>)
        requires
            old(self).ok(),
        ensures
            final(self).ok(),
            final(self).tokens == old(self).tokens,
            match unit_at(old(self).tokens@, old(self).pos as int) {
                Ok((m, q)) => r matches Ok(x) && item_view(x) == m && final(self).pos == q && old(self).pos < q,
                Err(e) => r matches Err(err) && perr_is(err, e),
            },
    {
        let loc = self.current().location;
        let name = match self.lex_ident() {
            Ok(v) => v,
            Err(e) => {
                return Err(e);
            },
        };
        match self.expect(TokenKind::Equals) {
            Ok(()) => {},
            Err(e) => {
                return Err(e);
            },
        }
        let definition = UnitExpr(match self.lex_ident() {
            Ok(v) => v,
            Err(e) => {
                return Err(e);
            },
        });
        self.consume_if(&TokenKind::Semicolon);
        Ok(TopLevelItem::UnitDecl(UnitDecl { name, definition, location: loc }))
    }

    #[verifier::rlimit(30)]
    fn parse_top_level(&mut self) -> (r: Result<TopLevelItem, Error>)
        requires
            old(self).ok(),
        ensures
            final(self).ok(),
            final(self).tokens == old(self).tokens,
            match top_level_at(old(self).tokens@, old(self).pos as int) {
                Ok((m, q)) => r matches Ok(x) && item_view(x) == m && final(self).pos == q && old(self).pos < q,
                Err(e) => r matches Err(err) && perr_is(err, e),
            },
    {
        let ghost ts = self.tokens@;
        let ghost p0 = self.pos as int;
        let loc = self.current().location;
        let kind = copy_kind(&self.current().kind);
        assert(p0 < ts.len() || kind is Eof) by {
            if p0 >= ts.len() {
                assert(kind_at(ts, p0) == ts.last().kind);
            }
        }
        match kind {
            TokenKind::Test => {
                self.advance();
                match self.expect(TokenKind::Mission) {
            Ok(()) => {},
            Err(e) => {
                return Err(e);
            },
        }
                let mission = match self.parse_mission_def() {
            Ok(v) => v,
            Err(e) => {
                return Err(e);
            },
        };
                Ok(TopLevelItem::TestMission(mission))
            },
            TokenKind::Mission => {
                self.advance();
                let mission = match self.parse_mission_def() {
            Ok(v) => v,
            Err(e) => {
                return Err(e);
            },
        };
                Ok(TopLevelItem::MissionDecl(mission))
            },
            TokenKind::Parallel => {
                self.advance();
                match self.expect(TokenKind::Mission) {
            Ok(()) => {},
            Err(e) => {
                return Err(e);
            },
        }
                let mission = match self.parse_mission_def() {
            Ok(v) => v,
            Err(e) => {
                return Err(e);
            },
        };
                Ok(TopLevelItem::ParallelMissionDecl(mission))
            },
            TokenKind::Constellation => {
                self.advance();
                self.parse_constellation_def()
            },
            TokenKind::Model => {
                self.advance();
                self.parse_model_def()
            },
            TokenKind::Struct => {
                self.advance();
                self.parse_struct_def()
            },
            TokenKind::Enum => {
                self.advance();
                self.parse_enum_def()
            },
            TokenKind::Unit => {
                self.advance();
                self.parse_unit_def()
            },
            k => {
                let mut message = str_to_string("Unexpected top-level: ");
                push_kind_debug(&mut message, &k);
                assert(message@ =~= "Unexpected top-level: "@ + kind_debug(k));
                Err(Error { message, location: loc, kind: ErrorKind::ParseError })
            },
        }
    }

    /// Parses the whole token list into a program, or gives the first
    /// parse error. The tokens must end with `Eof`, as the lexer's do.
    #[verifier::rlimit(30)]
    pub fn parse_program(&mut self) -> (r: Result<Program, Error>)
        requires
            ends_with_eof(old(self).tokens()),
            old(self).position() == 0,
        ensures
            final(self).tokens() == old(self).tokens(),
            match program_of(old(self).tokens()) {
                Ok(items) => r matches Ok(p) && program_view(p) == items,
                Err(e) => r matches Err(err) && perr_is(err, e),
            },
    {
        let ghost ts = self.tokens@;
        let mut items: Vec<TopLevelItem> = Vec::new();
        assert(Seq::new(items@.len(), |i: int| item_view(items@[i])) =~= Seq::<ItemM>::empty());
        loop
            invariant
                self.ok(),
                self.tokens == old(self).tokens,
                ts == old(self).tokens@,
                program_of(ts) == items_at(ts, self.pos as int, Seq::new(items@.len(), |i: int| item_view(items@[i]))),
            decreases ts.len() - self.pos,
        {
            if self.check(&TokenKind::Eof) {
                let p = Program { items };
                assert(program_view(p) =~= Seq::new(p.items@.len(), |i: int| item_view(p.items@[i])));
                return Ok(p);
            }
            let item = match self.parse_top_level() {
            Ok(v) => v,
            Err(e) => {
                return Err(e);
            },
        };
            let ghost before = items@;
            items.push(item);
            assert(Seq::new(items@.len(), |i: int| item_view(items@[i])) =~= Seq::new(before.len(), |i: int| item_view(before[i])).push(item_view(items@.last())));
        }
    }
}

} // verus!
