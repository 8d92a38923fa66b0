//! The NOVA lexer: turns source text into tokens.
//!
//! The token grammar is stated over the characters of the source by the spec
//! functions below; `Lexer::tokenize` is proved to produce exactly the tokens
//! (or the first error) that `lex_from` describes.

use vstd::prelude::*;
use crate::frontend::loc::SourceLoc;
use crate::frontend::error::{Error, ErrorKind};
use crate::strings::{is_ws, is_space, string_of};
use crate::text::{push_char, push_str, str_to_string};

verus! {

// ── Characters ──────────────────────────────────────────────────────────────

/// Whether `char::is_alphabetic` holds of `c` (the Unicode `Alphabetic` property).
pub uninterp spec fn alphabetic(c: char) -> bool;

/// Whether `char::is_alphanumeric` holds of `c`.
pub uninterp spec fn alphanumeric(c: char) -> bool;

/// `char::is_alphabetic`: its result is named `alphabetic(c)`; the ASCII
/// letters have the `Alphabetic` property.
#[verifier::external_body]
fn is_alphabetic(c: char) -> (r: bool)
    ensures
        r == alphabetic(c),
        ('a' <= c <= 'z' || 'A' <= c <= 'Z') ==> r,
{
    c.is_alphabetic()
}

/// `char::is_alphanumeric`: its result is named `alphanumeric(c)`; std documents
/// it as `is_alphabetic() || is_numeric()`, so it holds of every alphabetic
/// char, of the ASCII letters and of the ASCII digits.
#[verifier::external_body]
fn is_alphanumeric(c: char) -> (r: bool)
    ensures
        r == alphanumeric(c),
        alphabetic(c) ==> r,
        ('a' <= c <= 'z' || 'A' <= c <= 'Z' || '0' <= c <= '9') ==> r,
{
    c.is_alphanumeric()
}

/// An ASCII decimal digit.
pub open spec fn is_digit(c: char) -> bool {
    '0' <= c && c <= '9'
}

/// Whether `s[i]` exists and is `c`.
pub open spec fn at(s: Seq<char>, i: int, c: char) -> bool {
    0 <= i < s.len() && s[i] == c
}

/// Whether `s[i]` exists and is an ASCII digit.
pub open spec fn digit_at(s: Seq<char>, i: int) -> bool {
    0 <= i < s.len() && is_digit(s[i])
}

// ── Tokens ──────────────────────────────────────────────────────────────────

/// The kinds of token. A numeric literal that carries a fraction or an
/// exponent keeps its source text (`Float`, and the `value` of
/// `UnitAnnotatedFloat`), with a leading `-` when it was written negative.
#[derive(Debug, Clone, PartialEq)]
pub enum TokenKind {
    // Literals
    Integer(i64),
    Float(String),
    UnitAnnotatedFloat { value: String, unit: String },
    String(String),
    Bool(bool),
    // Keywords
    Mission,
    Parallel,
    Constellation,
    Absorb,
    Let,
    Var,
    Model,
    Layer,
    Repeat,
    Autodiff,
    Gradient,
    Wrt,
    For,
    In,
    While,
    Match,
    Return,
    Export,
    Transmit,
    If,
    Else,
    Break,
    Pipeline,
    Struct,
    Enum,
    Unit,
    Wave,
    On,
    Device,
    From,
    Test,
    // Operators
    Arrow,
    Pipe,
    At,
    Caret,
    FatArrow,
    Dotdot,
    Question,
    Plus,
    Minus,
    Star,
    Slash,
    Percent,
    Equals,
    EqEq,
    NotEq,
    Less,
    Greater,
    LessEq,
    GreaterEq,
    And,
    Or,
    Not,
    Ampersand,
    Dot,
    Comma,
    Colon,
    Semicolon,
    // Punctuation
    LParen,
    RParen,
    LBrace,
    RBrace,
    LBracket,
    RBracket,
    // Special
    Ident(String),
    Eof,
}

/// A token and where it starts.
#[derive(Debug, Clone)]
pub struct Token {
    pub kind: TokenKind,
    pub location: SourceLoc,
}

impl Token {
    /// A token of the given kind at `location`.
    pub fn new(kind: TokenKind, location: SourceLoc) -> (r: Self)
        ensures
            r.kind == kind,
            r.location == location,
    {
        Token { kind, location }
    }
}

/// What a token is, over plain values: a kind without text, an integer, or
/// the text of a float, unit-annotated number, string or identifier.
pub enum Lexeme {
    Fixed(TokenKind),
    Int(int),
    Float(Seq<char>),
    UnitFloat(Seq<char>, Seq<char>),
    Str(Seq<char>),
    Word(Seq<char>),
}

/// Whether the token kind `k` is the lexeme `lx`.
pub open spec fn kind_matches(k: TokenKind, lx: Lexeme) -> bool {
    match lx {
        Lexeme::Fixed(f) => k == f,
        Lexeme::Int(v) => k matches TokenKind::Integer(n) && n == v,
        Lexeme::Float(t) => k matches TokenKind::Float(x) && x@ == t,
        Lexeme::UnitFloat(t, u) => k matches TokenKind::UnitAnnotatedFloat { value, unit }
            && value@ == t && unit@ == u,
        Lexeme::Str(t) => k matches TokenKind::String(x) && x@ == t,
        Lexeme::Word(t) => k matches TokenKind::Ident(x) && x@ == t,
    }
}

// ── Locations ───────────────────────────────────────────────────────────────

/// The 1-based line of position `p`: one more than the newlines before it.
pub open spec fn line_at(s: Seq<char>, p: int) -> int
    decreases p,
{
    if p <= 0 {
        1
    } else {
        line_at(s, p - 1) + if s[p - 1] == '\n' { 1int } else { 0int }
    }
}

/// The 1-based column of position `p`: one more than the characters since the
/// last newline before it.
pub open spec fn column_at(s: Seq<char>, p: int) -> int
    decreases p,
{
    if p <= 0 {
        1
    } else if s[p - 1] == '\n' {
        1
    } else {
        column_at(s, p - 1) + 1
    }
}

/// The source location of position `p` in file `file`.
pub open spec fn loc_at(s: Seq<char>, p: int, file: usize) -> SourceLoc {
    SourceLoc { file, line: line_at(s, p) as usize, column: column_at(s, p) as usize }
}

proof fn lemma_loc_bounds(s: Seq<char>, p: int)
    requires
        0 <= p,
    ensures
        1 <= line_at(s, p) <= p + 1,
        1 <= column_at(s, p) <= p + 1,
    decreases p,
{
    if p > 0 {
        lemma_loc_bounds(s, p - 1);
    }
}

// ── The token grammar ───────────────────────────────────────────────────────

/// Where the white space and `--` comments starting at `i` end.
pub open spec fn trivia_end(s: Seq<char>, i: int) -> int
    decreases s.len() - i, 1int,
{
    if 0 <= i < s.len() && is_ws(s[i]) {
        trivia_end(s, i + 1)
    } else if 0 <= i && at(s, i, '-') && at(s, i + 1, '-') {
        comment_end(s, i)
    } else {
        i
    }
}

/// Where the trivia that follows a comment running from `i` ends.
pub open spec fn comment_end(s: Seq<char>, i: int) -> int
    decreases s.len() - i, 0int,
{
    if 0 <= i < s.len() {
        if s[i] == '\n' {
            trivia_end(s, i + 1)
        } else {
            comment_end(s, i + 1)
        }
    } else {
        i
    }
}

/// The one-character tokens that never start a longer one.
pub open spec fn single_kind(c: char) -> Option<TokenKind> {
    if c == '(' {
        Some(TokenKind::LParen)
    } else if c == ')' {
        Some(TokenKind::RParen)
    } else if c == '{' {
        Some(TokenKind::LBrace)
    } else if c == '}' {
        Some(TokenKind::RBrace)
    } else if c == '[' {
        Some(TokenKind::LBracket)
    } else if c == ']' {
        Some(TokenKind::RBracket)
    } else if c == ',' {
        Some(TokenKind::Comma)
    } else if c == ':' {
        Some(TokenKind::Colon)
    } else if c == ';' {
        Some(TokenKind::Semicolon)
    } else if c == '?' {
        Some(TokenKind::Question)
    } else if c == '^' {
        Some(TokenKind::Caret)
    } else if c == '@' {
        Some(TokenKind::At)
    } else if c == '%' {
        Some(TokenKind::Percent)
    } else if c == '+' {
        Some(TokenKind::Plus)
    } else if c == '*' {
        Some(TokenKind::Star)
    } else if c == '/' {
        Some(TokenKind::Slash)
    } else if c == '\u{2192}' {
        Some(TokenKind::Arrow)
    } else {
        None
    }
}

/// The two-character operators: `c` followed by `d`.
pub open spec fn pair_kind(c: char, d: char) -> Option<TokenKind> {
    if c == '=' && d == '=' {
        Some(TokenKind::EqEq)
    } else if c == '=' && d == '>' {
        Some(TokenKind::FatArrow)
    } else if c == '!' && d == '=' {
        Some(TokenKind::NotEq)
    } else if c == '<' && d == '=' {
        Some(TokenKind::LessEq)
    } else if c == '>' && d == '=' {
        Some(TokenKind::GreaterEq)
    } else if c == '&' && d == '&' {
        Some(TokenKind::And)
    } else {
        None
    }
}

/// The one-character operators that may start a two-character one.
pub open spec fn lone_kind(c: char) -> Option<TokenKind> {
    if c == '=' {
        Some(TokenKind::Equals)
    } else if c == '!' {
        Some(TokenKind::Not)
    } else if c == '<' {
        Some(TokenKind::Less)
    } else if c == '>' {
        Some(TokenKind::Greater)
    } else if c == '&' {
        Some(TokenKind::Ampersand)
    } else {
        None
    }
}

/// Where the characters of a number starting at `i` end, and whether it has
/// a fraction or an exponent (`f` says whether one was seen already).
pub open spec fn num_scan(s: Seq<char>, i: int, f: bool) -> (int, bool)
    decreases s.len() - i,
{
    if 0 <= i < s.len() {
        if is_digit(s[i]) {
            num_scan(s, i + 1, f)
        } else if s[i] == '.' && !f && digit_at(s, i + 1) {
            num_scan(s, i + 1, true)
        } else if s[i] == 'e' || s[i] == 'E' {
            if at(s, i + 1, '+') || at(s, i + 1, '-') {
                num_scan(s, i + 2, true)
            } else {
                num_scan(s, i + 1, true)
            }
        } else {
            (i, f)
        }
    } else {
        (i, f)
    }
}

/// Whether every character of `t` is an ASCII digit.
pub open spec fn all_digits(t: Seq<char>) -> bool {
    forall|i: int| 0 <= i < t.len() ==> is_digit(#[trigger] t[i])
}

/// The value of a string of decimal digits.
pub open spec fn digits_value(t: Seq<char>) -> int
    decreases t.len(),
{
    if t.len() == 0 {
        0
    } else {
        digits_value(t.drop_last()) * 10 + (t.last() as int - '0' as int)
    }
}

/// The mantissa of a float literal: digits with at most one `.`, and at least
/// one digit.
pub open spec fn mantissa_ok(m: Seq<char>) -> bool {
    ||| m.len() > 0 && all_digits(m)
    ||| exists|d: int|
        0 <= d < m.len() && #[trigger] m[d] == '.' && m.len() > 1 && all_digits(m.take(d))
            && all_digits(m.skip(d + 1))
}

/// The part of a float literal after its `e`: an optional sign and at least
/// one digit.
pub open spec fn exponent_ok(x: Seq<char>) -> bool {
    ||| x.len() > 0 && all_digits(x)
    ||| x.len() > 1 && (x[0] == '+' || x[0] == '-') && all_digits(x.skip(1))
}

/// The syntax of a float as std's `f64::from_str` documents it, for text
/// without sign, `inf` or `nan`: a mantissa, then optionally `e` or `E` and an
/// exponent.
pub open spec fn float_syntax(t: Seq<char>) -> bool {
    ||| mantissa_ok(t)
    ||| exists|k: int|
        0 <= k < t.len() && (#[trigger] t[k] == 'e' || t[k] == 'E') && mantissa_ok(t.take(k))
            && exponent_ok(t.skip(k + 1))
}

/// Whether the text of a number is a valid literal of its kind.
pub open spec fn number_ok(t: Seq<char>, is_float: bool) -> bool {
    if is_float {
        float_syntax(t)
    } else {
        digits_value(t) <= i64::MAX
    }
}

/// The error for a number text that is not a valid literal.
pub open spec fn number_error(is_float: bool) -> Seq<char> {
    if is_float {
        "Invalid float literal"@
    } else {
        "Invalid integer literal"@
    }
}

/// The position of the `]` that closes a unit annotation, scanning from `i`
/// with `depth` brackets open.
pub open spec fn unit_close(s: Seq<char>, i: int, depth: int) -> Option<int>
    decreases s.len() - i,
{
    if 0 <= i < s.len() {
        if s[i] == '[' {
            unit_close(s, i + 1, depth + 1)
        } else if s[i] == ']' {
            if depth <= 1 {
                Some(i)
            } else {
                unit_close(s, i + 1, depth - 1)
            }
        } else {
            unit_close(s, i + 1, depth)
        }
    } else {
        None
    }
}

/// The number starting at `j`: its lexeme and end, or an error and where it is.
pub open spec fn number_at(s: Seq<char>, j: int) -> Result<(Lexeme, int), (Seq<char>, int)> {
    let (e, f) = num_scan(s, j, false);
    let t = s.subrange(j, e);
    if at(s, e, '[') {
        match unit_close(s, e + 1, 1) {
            None => Err(("Unterminated unit annotation"@, e)),
            Some(c) => if number_ok(t, f) {
                Ok((Lexeme::UnitFloat(t, s.subrange(e + 1, c)), c + 1))
            } else {
                Err((number_error(f), j))
            },
        }
    } else if number_ok(t, f) {
        if f {
            Ok((Lexeme::Float(t), e))
        } else {
            Ok((Lexeme::Int(digits_value(t)), e))
        }
    } else {
        Err((number_error(f), j))
    }
}

/// A number lexeme written with a leading `-`.
pub open spec fn negated(lx: Lexeme) -> Lexeme {
    match lx {
        Lexeme::Int(v) => Lexeme::Int(-v),
        Lexeme::Float(t) => Lexeme::Float(seq!['-'] + t),
        Lexeme::UnitFloat(t, u) => Lexeme::UnitFloat(seq!['-'] + t, u),
        _ => lx,
    }
}

/// The character a backslash escape stands for.
pub open spec fn escaped(c: char) -> char {
    if c == 'n' {
        '\n'
    } else if c == 't' {
        '\t'
    } else if c == 'r' {
        '\r'
    } else {
        c
    }
}

/// The contents of a string literal whose opening quote `q` is just before
/// `i`, and the position after its closing quote; or the error message.
pub open spec fn string_scan(s: Seq<char>, i: int, q: char) -> Result<(Seq<char>, int), Seq<char>>
    decreases s.len() - i,
{
    if 0 <= i < s.len() {
        if s[i] == q {
            Ok((Seq::empty(), i + 1))
        } else if s[i] == '\\' {
            if i + 1 < s.len() {
                match string_scan(s, i + 2, q) {
                    Ok((t, k)) => Ok((seq![escaped(s[i + 1])] + t, k)),
                    Err(m) => Err(m),
                }
            } else {
                Err("Unterminated string escape"@)
            }
        } else {
            match string_scan(s, i + 1, q) {
                Ok((t, k)) => Ok((seq![s[i]] + t, k)),
                Err(m) => Err(m),
            }
        }
    } else {
        Err("Unterminated string"@)
    }
}

/// Where the identifier characters starting at `i` end.
pub open spec fn ident_end(s: Seq<char>, i: int) -> int
    decreases s.len() - i,
{
    if 0 <= i < s.len() && (alphanumeric(s[i]) || s[i] == '_') {
        ident_end(s, i + 1)
    } else {
        i
    }
}

/// The keyword (or boolean literal) spelled `w`, if it is one.
pub open spec fn keyword_of(w: Seq<char>) -> Option<TokenKind> {
    if w == "mission"@ {
        Some(TokenKind::Mission)
    } else if w == "parallel"@ {
        Some(TokenKind::Parallel)
    } else if w == "constellation"@ {
        Some(TokenKind::Constellation)
    } else if w == "absorb"@ {
        Some(TokenKind::Absorb)
    } else if w == "let"@ {
        Some(TokenKind::Let)
    } else if w == "var"@ {
        Some(TokenKind::Var)
    } else if w == "model"@ {
        Some(TokenKind::Model)
    } else if w == "layer"@ {
        Some(TokenKind::Layer)
    } else if w == "repeat"@ {
        Some(TokenKind::Repeat)
    } else if w == "autodiff"@ {
        Some(TokenKind::Autodiff)
    } else if w == "gradient"@ {
        Some(TokenKind::Gradient)
    } else if w == "wrt"@ {
        Some(TokenKind::Wrt)
    } else if w == "for"@ {
        Some(TokenKind::For)
    } else if w == "in"@ {
        Some(TokenKind::In)
    } else if w == "while"@ {
        Some(TokenKind::While)
    } else if w == "match"@ {
        Some(TokenKind::Match)
    } else if w == "return"@ {
        Some(TokenKind::Return)
    } else if w == "export"@ {
        Some(TokenKind::Export)
    } else if w == "transmit"@ {
        Some(TokenKind::Transmit)
    } else if w == "if"@ {
        Some(TokenKind::If)
    } else if w == "else"@ {
        Some(TokenKind::Else)
    } else if w == "break"@ {
        Some(TokenKind::Break)
    } else if w == "pipeline"@ {
        Some(TokenKind::Pipeline)
    } else if w == "struct"@ {
        Some(TokenKind::Struct)
    } else if w == "enum"@ {
        Some(TokenKind::Enum)
    } else if w == "unit"@ {
        Some(TokenKind::Unit)
    } else if w == "wave"@ {
        Some(TokenKind::Wave)
    } else if w == "on"@ {
        Some(TokenKind::On)
    } else if w == "device"@ {
        Some(TokenKind::Device)
    } else if w == "from"@ {
        Some(TokenKind::From)
    } else if w == "test"@ {
        Some(TokenKind::Test)
    } else if w == "true"@ {
        Some(TokenKind::Bool(true))
    } else if w == "false"@ {
        Some(TokenKind::Bool(false))
    } else {
        None
    }
}

/// The reserved words of NOVA with the token each one is.
pub open spec fn reserved_words() -> Seq<(Seq<char>, TokenKind)> {
    seq![
        ("mission"@, TokenKind::Mission),
        ("parallel"@, TokenKind::Parallel),
        ("constellation"@, TokenKind::Constellation),
        ("absorb"@, TokenKind::Absorb),
        ("let"@, TokenKind::Let),
        ("var"@, TokenKind::Var),
        ("model"@, TokenKind::Model),
        ("layer"@, TokenKind::Layer),
        ("repeat"@, TokenKind::Repeat),
        ("autodiff"@, TokenKind::Autodiff),
        ("gradient"@, TokenKind::Gradient),
        ("wrt"@, TokenKind::Wrt),
        ("for"@, TokenKind::For),
        ("in"@, TokenKind::In),
        ("while"@, TokenKind::While),
        ("match"@, TokenKind::Match),
        ("return"@, TokenKind::Return),
        ("export"@, TokenKind::Export),
        ("transmit"@, TokenKind::Transmit),
        ("if"@, TokenKind::If),
        ("else"@, TokenKind::Else),
        ("break"@, TokenKind::Break),
        ("pipeline"@, TokenKind::Pipeline),
        ("struct"@, TokenKind::Struct),
        ("enum"@, TokenKind::Enum),
        ("unit"@, TokenKind::Unit),
        ("wave"@, TokenKind::Wave),
        ("on"@, TokenKind::On),
        ("device"@, TokenKind::Device),
        ("from"@, TokenKind::From),
        ("test"@, TokenKind::Test),
        ("true"@, TokenKind::Bool(true)),
        ("false"@, TokenKind::Bool(false)),
    ]
}

/// Every reserved word is its keyword, never an identifier: wherever the
/// lexer reads a word (a letter, then letters, digits and `_`) that is a
/// reserved word, the token is the word's keyword.
pub proof fn lemma_reserved_words_are_keywords(s: Seq<char>, j: int, i: int)
    requires
        0 <= i < reserved_words().len(),
    ensures
        keyword_of(reserved_words()[i].0) == Some(reserved_words()[i].1),
        (0 <= j < s.len() && alphabetic(s[j]) && s.subrange(j, ident_end(s, j + 1)) == reserved_words()[i].0)
            ==> step(s, j) == Ok::<(Lexeme, int), (Seq<char>, int)>(
                (Lexeme::Fixed(reserved_words()[i].1), ident_end(s, j + 1))),
{
    reveal_strlit("mission");
    reveal_strlit("parallel");
    reveal_strlit("constellation");
    reveal_strlit("absorb");
    reveal_strlit("let");
    reveal_strlit("var");
    reveal_strlit("model");
    reveal_strlit("layer");
    reveal_strlit("repeat");
    reveal_strlit("autodiff");
    reveal_strlit("gradient");
    reveal_strlit("wrt");
    reveal_strlit("for");
    reveal_strlit("in");
    reveal_strlit("while");
    reveal_strlit("match");
    reveal_strlit("return");
    reveal_strlit("export");
    reveal_strlit("transmit");
    reveal_strlit("if");
    reveal_strlit("else");
    reveal_strlit("break");
    reveal_strlit("pipeline");
    reveal_strlit("struct");
    reveal_strlit("enum");
    reveal_strlit("unit");
    reveal_strlit("wave");
    reveal_strlit("on");
    reveal_strlit("device");
    reveal_strlit("from");
    reveal_strlit("test");
    reveal_strlit("true");
    reveal_strlit("false");
    assert("mission"@ =~= seq!['m', 'i', 's', 's', 'i', 'o', 'n']);
    assert("parallel"@ =~= seq!['p', 'a', 'r', 'a', 'l', 'l', 'e', 'l']);
    assert("constellation"@ =~= seq!['c', 'o', 'n', 's', 't', 'e', 'l', 'l', 'a', 't', 'i', 'o', 'n']);
    assert("absorb"@ =~= seq!['a', 'b', 's', 'o', 'r', 'b']);
    assert("let"@ =~= seq!['l', 'e', 't']);
    assert("var"@ =~= seq!['v', 'a', 'r']);
    assert("model"@ =~= seq!['m', 'o', 'd', 'e', 'l']);
    assert("layer"@ =~= seq!['l', 'a', 'y', 'e', 'r']);
    assert("repeat"@ =~= seq!['r', 'e', 'p', 'e', 'a', 't']);
    assert("autodiff"@ =~= seq!['a', 'u', 't', 'o', 'd', 'i', 'f', 'f']);
    assert("gradient"@ =~= seq!['g', 'r', 'a', 'd', 'i', 'e', 'n', 't']);
    assert("wrt"@ =~= seq!['w', 'r', 't']);
    assert("for"@ =~= seq!['f', 'o', 'r']);
    assert("in"@ =~= seq!['i', 'n']);
    assert("while"@ =~= seq!['w', 'h', 'i', 'l', 'e']);
    assert("match"@ =~= seq!['m', 'a', 't', 'c', 'h']);
    assert("return"@ =~= seq!['r', 'e', 't', 'u', 'r', 'n']);
    assert("export"@ =~= seq!['e', 'x', 'p', 'o', 'r', 't']);
    assert("transmit"@ =~= seq!['t', 'r', 'a', 'n', 's', 'm', 'i', 't']);
    assert("if"@ =~= seq!['i', 'f']);
    assert("else"@ =~= seq!['e', 'l', 's', 'e']);
    assert("break"@ =~= seq!['b', 'r', 'e', 'a', 'k']);
    assert("pipeline"@ =~= seq!['p', 'i', 'p', 'e', 'l', 'i', 'n', 'e']);
    assert("struct"@ =~= seq!['s', 't', 'r', 'u', 'c', 't']);
    assert("enum"@ =~= seq!['e', 'n', 'u', 'm']);
    assert("unit"@ =~= seq!['u', 'n', 'i', 't']);
    assert("wave"@ =~= seq!['w', 'a', 'v', 'e']);
    assert("on"@ =~= seq!['o', 'n']);
    assert("device"@ =~= seq!['d', 'e', 'v', 'i', 'c', 'e']);
    assert("from"@ =~= seq!['f', 'r', 'o', 'm']);
    assert("test"@ =~= seq!['t', 'e', 's', 't']);
    assert("true"@ =~= seq!['t', 'r', 'u', 'e']);
    assert("false"@ =~= seq!['f', 'a', 'l', 's', 'e']);
    let rw = reserved_words();
    let w = rw[i].0;
    if i == 0 { assert(keyword_of(rw[0].0) == Some(rw[0].1)); }
    else if i == 1 { assert(keyword_of(rw[1].0) == Some(rw[1].1)); }
    else if i == 2 { assert(keyword_of(rw[2].0) == Some(rw[2].1)); }
    else if i == 3 { assert(keyword_of(rw[3].0) == Some(rw[3].1)); }
    else if i == 4 { assert(keyword_of(rw[4].0) == Some(rw[4].1)); }
    else if i == 5 { assert(keyword_of(rw[5].0) == Some(rw[5].1)); }
    else if i == 6 { assert(keyword_of(rw[6].0) == Some(rw[6].1)); }
    else if i == 7 { assert(keyword_of(rw[7].0) == Some(rw[7].1)); }
    else if i == 8 { assert(keyword_of(rw[8].0) == Some(rw[8].1)); }
    else if i == 9 { assert(keyword_of(rw[9].0) == Some(rw[9].1)); }
    else if i == 10 { assert(keyword_of(rw[10].0) == Some(rw[10].1)); }
    else if i == 11 { assert(keyword_of(rw[11].0) == Some(rw[11].1)); }
    else if i == 12 { assert(keyword_of(rw[12].0) == Some(rw[12].1)); }
    else if i == 13 { assert(keyword_of(rw[13].0) == Some(rw[13].1)); }
    else if i == 14 { assert(keyword_of(rw[14].0) == Some(rw[14].1)); }
    else if i == 15 { assert(keyword_of(rw[15].0) == Some(rw[15].1)); }
    else if i == 16 { assert(keyword_of(rw[16].0) == Some(rw[16].1)); }
    else if i == 17 { assert(keyword_of(rw[17].0) == Some(rw[17].1)); }
    else if i == 18 { assert(keyword_of(rw[18].0) == Some(rw[18].1)); }
    else if i == 19 { assert(keyword_of(rw[19].0) == Some(rw[19].1)); }
    else if i == 20 { assert(keyword_of(rw[20].0) == Some(rw[20].1)); }
    else if i == 21 { assert(keyword_of(rw[21].0) == Some(rw[21].1)); }
    else if i == 22 { assert(keyword_of(rw[22].0) == Some(rw[22].1)); }
    else if i == 23 { assert(keyword_of(rw[23].0) == Some(rw[23].1)); }
    else if i == 24 { assert(keyword_of(rw[24].0) == Some(rw[24].1)); }
    else if i == 25 { assert(keyword_of(rw[25].0) == Some(rw[25].1)); }
    else if i == 26 { assert(keyword_of(rw[26].0) == Some(rw[26].1)); }
    else if i == 27 { assert(keyword_of(rw[27].0) == Some(rw[27].1)); }
    else if i == 28 { assert(keyword_of(rw[28].0) == Some(rw[28].1)); }
    else if i == 29 { assert(keyword_of(rw[29].0) == Some(rw[29].1)); }
    else if i == 30 { assert(keyword_of(rw[30].0) == Some(rw[30].1)); }
    else if i == 31 { assert(keyword_of(rw[31].0) == Some(rw[31].1)); }
    else if i == 32 { assert(keyword_of(rw[32].0) == Some(rw[32].1)); }
    assert(keyword_of(w) == Some(rw[i].1));
    assert(w.len() > 0 && 'a' <= w[0] <= 'z');
    if 0 <= j < s.len() && alphabetic(s[j]) && s.subrange(j, ident_end(s, j + 1)) == w {
        lemma_ident_end_bounds(s, j + 1);
        assert(s.subrange(j, ident_end(s, j + 1))[0] == s[j]);
        assert(s[j] == w[0]);
    }
}

/// The message for a character that starts no token.
pub open spec fn unexpected_message(c: char) -> Seq<char> {
    "Unexpected character: '"@ + seq![c] + "'"@
}

/// The message for a `|` that is not followed by `>` or `|`.
pub open spec fn lone_bar_message() -> Seq<char> {
    "Unexpected '|' \u{2014} did you mean '|>' (pipe)?"@
}

/// The token that starts at `j` (a position before the end, after trivia):
/// its lexeme and where it ends, or an error message and its position.
pub open spec fn step(s: Seq<char>, j: int) -> Result<(Lexeme, int), (Seq<char>, int)> {
    let c = s[j];
    if single_kind(c) is Some {
        Ok((Lexeme::Fixed(single_kind(c)->0), j + 1))
    } else if c == '.' {
        if at(s, j + 1, '.') {
            Ok((Lexeme::Fixed(TokenKind::Dotdot), j + 2))
        } else if digit_at(s, j + 1) {
            number_at(s, j)
        } else {
            Ok((Lexeme::Fixed(TokenKind::Dot), j + 1))
        }
    } else if c == '-' {
        if at(s, j + 1, '>') {
            Ok((Lexeme::Fixed(TokenKind::Arrow), j + 2))
        } else if digit_at(s, j + 1) {
            match number_at(s, j + 1) {
                Ok((lx, k)) => Ok((negated(lx), k)),
                Err(e) => Err(e),
            }
        } else {
            Ok((Lexeme::Fixed(TokenKind::Minus), j + 1))
        }
    } else if lone_kind(c) is Some {
        if j + 1 < s.len() && pair_kind(c, s[j + 1]) is Some {
            Ok((Lexeme::Fixed(pair_kind(c, s[j + 1])->0), j + 2))
        } else {
            Ok((Lexeme::Fixed(lone_kind(c)->0), j + 1))
        }
    } else if c == '|' {
        if at(s, j + 1, '>') {
            Ok((Lexeme::Fixed(TokenKind::Pipe), j + 2))
        } else if at(s, j + 1, '|') {
            Ok((Lexeme::Fixed(TokenKind::Or), j + 2))
        } else {
            Err((lone_bar_message(), j))
        }
    } else if c == '"' || c == '\'' {
        match string_scan(s, j + 1, c) {
            Ok((t, k)) => Ok((Lexeme::Str(t), k)),
            Err(m) => Err((m, j)),
        }
    } else if is_digit(c) {
        number_at(s, j)
    } else if alphabetic(c) || c == '_' {
        let k = ident_end(s, j + 1);
        let w = s.subrange(j, k);
        match keyword_of(w) {
            Some(kw) => Ok((Lexeme::Fixed(kw), k)),
            None => Ok((Lexeme::Word(w), k)),
        }
    } else {
        Err((unexpected_message(c), j))
    }
}

/// The next token after the trivia that starts at `i`: its lexeme, start and
/// end (`Eof` at the end of the text), or an error message and its position.
pub open spec fn next_token(s: Seq<char>, i: int) -> Result<(Lexeme, int, int), (Seq<char>, int)> {
    let j = trivia_end(s, i);
    if j >= s.len() {
        Ok((Lexeme::Fixed(TokenKind::Eof), j, j))
    } else {
        match step(s, j) {
            Ok((lx, k)) => Ok((lx, j, k)),
            Err(e) => Err(e),
        }
    }
}

/// The tokens of `s` from position `i` on, each with its start, ending with
/// `Eof`; or the first error.
pub open spec fn lex_from(s: Seq<char>, i: int) -> Result<Seq<(Lexeme, int)>, (Seq<char>, int)>
    decreases s.len() - i,
    when 0 <= i <= s.len()
{
    match next_token(s, i) {
        Err(e) => Err(e),
        Ok((lx, j, k)) => if lx == Lexeme::Fixed(TokenKind::Eof) {
            Ok(seq![(lx, j)])
        } else {
            proof {
                lemma_next_token_progress(s, i);
            }
            match lex_from(s, k) {
                Ok(rest) => Ok(seq![(lx, j)] + rest),
                Err(e) => Err(e),
            }
        },
    }
}

proof fn lemma_trivia_bounds(s: Seq<char>, i: int)
    requires
        0 <= i <= s.len(),
    ensures
        i <= trivia_end(s, i) <= s.len(),
        i <= comment_end(s, i) <= s.len(),
    decreases s.len() - i,
{
    if i < s.len() {
        lemma_trivia_bounds(s, i + 1);
        assert(i <= comment_end(s, i) <= s.len());
    }
}

proof fn lemma_num_scan_bounds(s: Seq<char>, i: int, f: bool)
    requires
        0 <= i <= s.len(),
    ensures
        i <= num_scan(s, i, f).0 <= s.len(),
        f ==> num_scan(s, i, f).1,
    decreases s.len() - i,
{
    if i < s.len() {
        if is_digit(s[i]) {
            lemma_num_scan_bounds(s, i + 1, f);
        } else if s[i] == '.' && !f && digit_at(s, i + 1) {
            lemma_num_scan_bounds(s, i + 1, true);
        } else if s[i] == 'e' || s[i] == 'E' {
            if at(s, i + 1, '+') || at(s, i + 1, '-') {
                lemma_num_scan_bounds(s, i + 2, true);
            } else {
                lemma_num_scan_bounds(s, i + 1, true);
            }
        }
    }
}

proof fn lemma_unit_close_bounds(s: Seq<char>, i: int, depth: int)
    requires
        0 <= i <= s.len(),
    ensures
        unit_close(s, i, depth) matches Some(c) ==> i <= c < s.len(),
    decreases s.len() - i,
{
    if i < s.len() {
        if s[i] == '[' {
            lemma_unit_close_bounds(s, i + 1, depth + 1);
        } else if s[i] == ']' {
            if depth > 1 {
                lemma_unit_close_bounds(s, i + 1, depth - 1);
            }
        } else {
            lemma_unit_close_bounds(s, i + 1, depth);
        }
    }
}

proof fn lemma_string_scan_bounds(s: Seq<char>, i: int, q: char)
    requires
        0 <= i <= s.len(),
    ensures
        string_scan(s, i, q) matches Ok((t, k)) ==> i < k <= s.len(),
    decreases s.len() - i,
{
    if i < s.len() && s[i] != q {
        if s[i] == '\\' {
            if i + 1 < s.len() {
                lemma_string_scan_bounds(s, i + 2, q);
            }
        } else {
            lemma_string_scan_bounds(s, i + 1, q);
        }
    }
}

proof fn lemma_ident_end_bounds(s: Seq<char>, i: int)
    requires
        0 <= i <= s.len(),
    ensures
        i <= ident_end(s, i) <= s.len(),
    decreases s.len() - i,
{
    if i < s.len() && (alphanumeric(s[i]) || s[i] == '_') {
        lemma_ident_end_bounds(s, i + 1);
    }
}

proof fn lemma_number_progress(s: Seq<char>, j: int)
    requires
        0 <= j < s.len(),
        is_digit(s[j]) || (s[j] == '.' && digit_at(s, j + 1)),
    ensures
        number_at(s, j) matches Ok((lx, k)) ==> j < k <= s.len(),
{
    lemma_num_scan_bounds(s, j, false);
    let (e, f) = num_scan(s, j, false);
    if s[j] == '.' {
        lemma_num_scan_bounds(s, j + 1, true);
    } else {
        lemma_num_scan_bounds(s, j + 1, false);
    }
    if at(s, e, '[') {
        lemma_unit_close_bounds(s, e + 1, 1);
    }
}

proof fn lemma_step_progress(s: Seq<char>, j: int)
    requires
        0 <= j < s.len(),
    ensures
        step(s, j) matches Ok((lx, k)) ==> j < k <= s.len(),
{
    let c = s[j];
    if c == '.' && digit_at(s, j + 1) {
        lemma_number_progress(s, j);
    } else if c == '-' && digit_at(s, j + 1) {
        lemma_number_progress(s, j + 1);
    } else if c == '"' || c == '\'' {
        lemma_string_scan_bounds(s, j + 1, c);
    } else if is_digit(c) {
        lemma_number_progress(s, j);
    } else if alphabetic(c) || c == '_' {
        lemma_ident_end_bounds(s, j + 1);
    }
}

/// Each token but `Eof` ends after the position its search started from.
pub proof fn lemma_next_token_progress(s: Seq<char>, i: int)
    requires
        0 <= i <= s.len(),
    ensures
        next_token(s, i) matches Ok((lx, j, k)) ==> i <= j <= k <= s.len() && (lx
            != Lexeme::Fixed(TokenKind::Eof) ==> i < k),
{
    lemma_trivia_bounds(s, i);
    let j = trivia_end(s, i);
    if j < s.len() {
        lemma_step_progress(s, j);
    }
}


// ── Helpers on plain values ─────────────────────────────────────────────────

fn is_digit_char(c: char) -> (r: bool)
    ensures
        r == is_digit(c),
{
    '0' <= c && c <= '9'
}

fn single_token(c: char) -> (r: Option<TokenKind>)
    ensures
        r == single_kind(c),
{
    if c == '(' {
        Some(TokenKind::LParen)
    } else if c == ')' {
        Some(TokenKind::RParen)
    } else if c == '{' {
        Some(TokenKind::LBrace)
    } else if c == '}' {
        Some(TokenKind::RBrace)
    } else if c == '[' {
        Some(TokenKind::LBracket)
    } else if c == ']' {
        Some(TokenKind::RBracket)
    } else if c == ',' {
        Some(TokenKind::Comma)
    } else if c == ':' {
        Some(TokenKind::Colon)
    } else if c == ';' {
        Some(TokenKind::Semicolon)
    } else if c == '?' {
        Some(TokenKind::Question)
    } else if c == '^' {
        Some(TokenKind::Caret)
    } else if c == '@' {
        Some(TokenKind::At)
    } else if c == '%' {
        Some(TokenKind::Percent)
    } else if c == '+' {
        Some(TokenKind::Plus)
    } else if c == '*' {
        Some(TokenKind::Star)
    } else if c == '/' {
        Some(TokenKind::Slash)
    } else if c == '\u{2192}' {
        Some(TokenKind::Arrow)
    } else {
        None
    }
}

fn pair_token(c: char, d: char) -> (r: Option<TokenKind>)
    ensures
        r == pair_kind(c, d),
{
    if c == '=' && d == '=' {
        Some(TokenKind::EqEq)
    } else if c == '=' && d == '>' {
        Some(TokenKind::FatArrow)
    } else if c == '!' && d == '=' {
        Some(TokenKind::NotEq)
    } else if c == '<' && d == '=' {
        Some(TokenKind::LessEq)
    } else if c == '>' && d == '=' {
        Some(TokenKind::GreaterEq)
    } else if c == '&' && d == '&' {
        Some(TokenKind::And)
    } else {
        None
    }
}

fn lone_token(c: char) -> (r: Option<TokenKind>)
    ensures
        r == lone_kind(c),
{
    if c == '=' {
        Some(TokenKind::Equals)
    } else if c == '!' {
        Some(TokenKind::Not)
    } else if c == '<' {
        Some(TokenKind::Less)
    } else if c == '>' {
        Some(TokenKind::Greater)
    } else if c == '&' {
        Some(TokenKind::Ampersand)
    } else {
        None
    }
}

fn escape_char(c: char) -> (r: char)
    ensures
        r == escaped(c),
{
    if c == 'n' {
        '\n'
    } else if c == 't' {
        '\t'
    } else if c == 'r' {
        '\r'
    } else {
        c
    }
}

/// Whether `v[lo..hi]` spells `w`.
fn is_word(v: &Vec<char>, lo: usize, hi: usize, w: &str) -> (r: bool)
    requires
        lo <= hi <= v@.len(),
    ensures
        r == (v@.subrange(lo as int, hi as int) == w@),
{
    let n = w.unicode_len();
    if hi - lo != n {
        assert(v@.subrange(lo as int, hi as int).len() != w@.len());
        return false;
    }
    let mut i: usize = 0;
    while i < n
        invariant
            lo <= hi <= v@.len(),
            hi - lo == n,
            n == w@.len(),
            i <= n,
            forall|k: int| 0 <= k < i ==> v@[lo + k] == w@[k],
        decreases n - i,
    {
        if v[lo + i] != w.get_char(i) {
            assert(v@.subrange(lo as int, hi as int)[i as int] != w@[i as int]);
            return false;
        }
        i = i + 1;
    }
    assert(v@.subrange(lo as int, hi as int) =~= w@);
    true
}

/// The keyword spelled by `v[lo..hi]`, if it is one.
fn keyword(v: &Vec<char>, lo: usize, hi: usize) -> (r: Option<TokenKind>)
    requires
        lo <= hi <= v@.len(),
    ensures
        r == keyword_of(v@.subrange(lo as int, hi as int)),
{
    if is_word(v, lo, hi, "mission") {
        Some(TokenKind::Mission)
    } else if is_word(v, lo, hi, "parallel") {
        Some(TokenKind::Parallel)
    } else if is_word(v, lo, hi, "constellation") {
        Some(TokenKind::Constellation)
    } else if is_word(v, lo, hi, "absorb") {
        Some(TokenKind::Absorb)
    } else if is_word(v, lo, hi, "let") {
        Some(TokenKind::Let)
    } else if is_word(v, lo, hi, "var") {
        Some(TokenKind::Var)
    } else if is_word(v, lo, hi, "model") {
        Some(TokenKind::Model)
    } else if is_word(v, lo, hi, "layer") {
        Some(TokenKind::Layer)
    } else if is_word(v, lo, hi, "repeat") {
        Some(TokenKind::Repeat)
    } else if is_word(v, lo, hi, "autodiff") {
        Some(TokenKind::Autodiff)
    } else if is_word(v, lo, hi, "gradient") {
        Some(TokenKind::Gradient)
    } else if is_word(v, lo, hi, "wrt") {
        Some(TokenKind::Wrt)
    } else if is_word(v, lo, hi, "for") {
        Some(TokenKind::For)
    } else if is_word(v, lo, hi, "in") {
        Some(TokenKind::In)
    } else if is_word(v, lo, hi, "while") {
        Some(TokenKind::While)
    } else if is_word(v, lo, hi, "match") {
        Some(TokenKind::Match)
    } else if is_word(v, lo, hi, "return") {
        Some(TokenKind::Return)
    } else if is_word(v, lo, hi, "export") {
        Some(TokenKind::Export)
    } else if is_word(v, lo, hi, "transmit") {
        Some(TokenKind::Transmit)
    } else if is_word(v, lo, hi, "if") {
        Some(TokenKind::If)
    } else if is_word(v, lo, hi, "else") {
        Some(TokenKind::Else)
    } else if is_word(v, lo, hi, "break") {
        Some(TokenKind::Break)
    } else if is_word(v, lo, hi, "pipeline") {
        Some(TokenKind::Pipeline)
    } else if is_word(v, lo, hi, "struct") {
        Some(TokenKind::Struct)
    } else if is_word(v, lo, hi, "enum") {
        Some(TokenKind::Enum)
    } else if is_word(v, lo, hi, "unit") {
        Some(TokenKind::Unit)
    } else if is_word(v, lo, hi, "wave") {
        Some(TokenKind::Wave)
    } else if is_word(v, lo, hi, "on") {
        Some(TokenKind::On)
    } else if is_word(v, lo, hi, "device") {
        Some(TokenKind::Device)
    } else if is_word(v, lo, hi, "from") {
        Some(TokenKind::From)
    } else if is_word(v, lo, hi, "test") {
        Some(TokenKind::Test)
    } else if is_word(v, lo, hi, "true") {
        Some(TokenKind::Bool(true))
    } else if is_word(v, lo, hi, "false") {
        Some(TokenKind::Bool(false))
    } else {
        None
    }
}


// ── Checking number literals ────────────────────────────────────────────────

pub proof fn lemma_digits_value_nonneg(t: Seq<char>)
    requires
        all_digits(t),
    ensures
        digits_value(t) >= 0,
    decreases t.len(),
{
    if t.len() > 0 {
        assert(is_digit(t[t.len() - 1]));
        assert(all_digits(t.drop_last()));
        lemma_digits_value_nonneg(t.drop_last());
    }
}

pub proof fn lemma_digits_value_prefix(t: Seq<char>, n: int)
    requires
        all_digits(t),
        0 <= n <= t.len(),
    ensures
        digits_value(t.take(n)) <= digits_value(t),
    decreases t.len() - n,
{
    if n < t.len() {
        let u = t.drop_last();
        assert(all_digits(u));
        assert(is_digit(t[t.len() - 1]));
        lemma_digits_value_prefix(u, n);
        assert(u.take(n) =~= t.take(n));
        lemma_digits_value_nonneg(u);
    } else {
        assert(t.take(n) =~= t);
    }
}

/// Whether `v[lo..hi]` is all ASCII digits.
fn all_digits_in(v: &Vec<char>, lo: usize, hi: usize) -> (r: bool)
    requires
        lo <= hi <= v@.len(),
    ensures
        r == all_digits(v@.subrange(lo as int, hi as int)),
{
    let mut i = lo;
    while i < hi
        invariant
            lo <= i <= hi <= v@.len(),
            all_digits(v@.subrange(lo as int, i as int)),
        decreases hi - i,
    {
        if !is_digit_char(v[i]) {
            assert(!is_digit(v@.subrange(lo as int, hi as int)[i - lo]));
            return false;
        }
        i = i + 1;
        assert forall|k: int| 0 <= k < i - lo implies is_digit(
            #[trigger] v@.subrange(lo as int, i as int)[k],
        ) by {
            if k < i - 1 - lo {
                assert(v@.subrange(lo as int, i as int)[k] == v@.subrange(lo as int, i - 1)[k]);
            }
        }
    }
    true
}

/// Whether `v[lo..hi]` is the mantissa of a float literal.
fn mantissa_check(v: &Vec<char>, lo: usize, hi: usize) -> (r: bool)
    requires
        lo <= hi <= v@.len(),
    ensures
        r == mantissa_ok(v@.subrange(lo as int, hi as int)),
{
    let ghost m = v@.subrange(lo as int, hi as int);
    let mut i = lo;
    let mut dot: Option<usize> = None;
    while i < hi
        invariant
            lo <= i <= hi <= v@.len(),
            m == v@.subrange(lo as int, hi as int),
            match dot {
                None => all_digits(m.take(i - lo)),
                Some(d) => lo <= d < i && m[d - lo] == '.' && all_digits(m.take(d - lo))
                    && all_digits(m.subrange(d - lo + 1, i - lo)),
            },
        decreases hi - i,
    {
        let c = v[i];
        assert(m[i - lo] == c);
        if is_digit_char(c) {
            match dot {
                None => {
                    assert forall|k: int| 0 <= k < i + 1 - lo implies is_digit(
                        #[trigger] m.take(i + 1 - lo)[k],
                    ) by {
                        if k < i - lo {
                            assert(m.take(i + 1 - lo)[k] == m.take(i - lo)[k]);
                        }
                    }
                },
                Some(d) => {
                    assert forall|k: int| 0 <= k < i + 1 - (d + 1) implies is_digit(
                        #[trigger] m.subrange(d - lo + 1, i + 1 - lo)[k],
                    ) by {
                        if k < i - (d + 1) {
                            assert(m.subrange(d - lo + 1, i + 1 - lo)[k] == m.subrange(
                                d - lo + 1,
                                i - lo,
                            )[k]);
                        }
                    }
                },
            }
        } else if c == '.' {
            match dot {
                None => {
                    dot = Some(i);
                    assert(m.subrange(i - lo + 1, i + 1 - lo) =~= Seq::<char>::empty());
                },
                Some(d) => {
                    // a second `.`: it lies after the first one
                    assert forall|e: int|
                        0 <= e < m.len() && #[trigger] m[e] == '.' && m.len() > 1 && all_digits(
                            m.take(e),
                        ) implies !all_digits(m.skip(e + 1)) by {
                        if e < d - lo {
                            assert(m.take(d - lo)[e] == m[e]);
                        } else if e == d - lo {
                            assert(m.skip(e + 1)[i - lo - e - 1] == '.');
                        } else if e < i - lo {
                            assert(m.subrange(d - lo + 1, i - lo)[e - (d - lo + 1)] == m[e]);
                        } else if e == i - lo {
                            assert(m.take(e)[d - lo] == '.');
                        } else {
                            assert(m.take(e)[d - lo] == '.');
                        }
                    }
                    assert(!is_digit(m[d - lo]));
                    return false;
                },
            }
        } else {
            assert forall|e: int|
                0 <= e < m.len() && #[trigger] m[e] == '.' && m.len() > 1 && all_digits(m.take(e))
                    implies !all_digits(m.skip(e + 1)) by {
                if e > i - lo {
                    assert(m.take(e)[i - lo] == c);
                } else if e < i - lo {
                    assert(m.skip(e + 1)[i - lo - e - 1] == c);
                }
            }
            assert(!is_digit(m[i - lo]));
            return false;
        }
        i = i + 1;
    }
    match dot {
        None => {
            assert(m.take(hi - lo) =~= m);
            if hi > lo {
                true
            } else {
                false
            }
        },
        Some(d) => {
            assert(m.subrange(d - lo + 1, hi - lo) =~= m.skip(d - lo + 1));
            assert(!is_digit(m[d - lo]));
            if hi - lo > 1 {
                true
            } else {
                false
            }
        },
    }
}

/// Whether `v[lo..hi]` is the exponent part of a float literal (after `e`).
fn exponent_check(v: &Vec<char>, lo: usize, hi: usize) -> (r: bool)
    requires
        lo <= hi <= v@.len(),
    ensures
        r == exponent_ok(v@.subrange(lo as int, hi as int)),
{
    let ghost x = v@.subrange(lo as int, hi as int);
    if lo == hi {
        return false;
    }
    assert(x[0] == v@[lo as int]);
    if v[lo] == '+' || v[lo] == '-' {
        assert(x.skip(1) =~= v@.subrange(lo + 1, hi as int));
        assert(!is_digit(x[0]));
        hi - lo > 1 && all_digits_in(v, lo + 1, hi)
    } else {
        all_digits_in(v, lo, hi)
    }
}

/// Whether `v[lo..hi]` has the syntax of a float literal.
fn float_text_ok(v: &Vec<char>, lo: usize, hi: usize) -> (r: bool)
    requires
        lo <= hi <= v@.len(),
    ensures
        r == float_syntax(v@.subrange(lo as int, hi as int)),
{
    let ghost t = v@.subrange(lo as int, hi as int);
    let mut k = lo;
    while k < hi && v[k] != 'e' && v[k] != 'E'
        invariant
            lo <= k <= hi <= v@.len(),
            t == v@.subrange(lo as int, hi as int),
            forall|i: int| 0 <= i < k - lo ==> t[i] != 'e' && t[i] != 'E',
        decreases hi - k,
    {
        k = k + 1;
    }
    let m_ok = mantissa_check(v, lo, k);
    assert(v@.subrange(lo as int, k as int) =~= t.take(k - lo));
    if k == hi {
        assert(t.take(k - lo) =~= t);
        m_ok
    } else {
        let e_ok = exponent_check(v, k + 1, hi);
        assert(v@.subrange(k + 1, hi as int) =~= t.skip(k - lo + 1));
        proof {
            lemma_float_syntax_at_first_e(t, k - lo);
        }
        m_ok && e_ok
    }
}

/// With its first `e` at `k`, a text is a float literal just when the part
/// before is a mantissa and the part after an exponent.
proof fn lemma_float_syntax_at_first_e(t: Seq<char>, k: int)
    requires
        0 <= k < t.len(),
        t[k] == 'e' || t[k] == 'E',
        forall|i: int| 0 <= i < k ==> t[i] != 'e' && t[i] != 'E',
    ensures
        float_syntax(t) == (mantissa_ok(t.take(k)) && exponent_ok(t.skip(k + 1))),
{
    if mantissa_ok(t) {
        lemma_mantissa_chars(t);
        assert(!is_digit(t[k]));
    }
    assert forall|j: int|
        0 <= j < t.len() && (#[trigger] t[j] == 'e' || t[j] == 'E') && mantissa_ok(t.take(j))
            implies j == k by {
        lemma_mantissa_chars(t.take(j));
        if j > k {
            assert(t.take(j)[k] == t[k]);
            assert(!is_digit(t[k]));
        }
    }
}

/// Every character of a mantissa is a digit or `.`.
proof fn lemma_mantissa_chars(m: Seq<char>)
    requires
        mantissa_ok(m),
    ensures
        forall|i: int| 0 <= i < m.len() ==> is_digit(#[trigger] m[i]) || m[i] == '.',
{
    if !all_digits(m) {
        let d = choose|d: int|
            0 <= d < m.len() && #[trigger] m[d] == '.' && m.len() > 1 && all_digits(m.take(d))
                && all_digits(m.skip(d + 1));
        assert forall|i: int| 0 <= i < m.len() implies is_digit(#[trigger] m[i]) || m[i] == '.' by {
            if i < d {
                assert(m.take(d)[i] == m[i]);
            } else if i > d {
                assert(m.skip(d + 1)[i - d - 1] == m[i]);
            }
        }
    }
}

/// The value of the digits `v[lo..hi]`, if it fits in an `i64`.
fn digits_i64(v: &Vec<char>, lo: usize, hi: usize) -> (r: Option<i64>)
    requires
        lo <= hi <= v@.len(),
        all_digits(v@.subrange(lo as int, hi as int)),
    ensures
        r == (if digits_value(v@.subrange(lo as int, hi as int)) <= i64::MAX {
            Some(digits_value(v@.subrange(lo as int, hi as int)) as i64)
        } else {
            None
        }),
{
    let ghost t = v@.subrange(lo as int, hi as int);
    let mut acc: i64 = 0;
    let mut i = lo;
    while i < hi
        invariant
            lo <= i <= hi <= v@.len(),
            t == v@.subrange(lo as int, hi as int),
            all_digits(t),
            acc as int == digits_value(t.take(i - lo)),
            0 <= acc,
        decreases hi - i,
    {
        let c = v[i];
        assert(t[i - lo] == c);
        assert(is_digit(c));
        let d: i64 = (c as u32 - '0' as u32) as i64;
        assert(t.take(i + 1 - lo).drop_last() =~= t.take(i - lo));
        if acc > (i64::MAX - d) / 10 {
            assert(acc * 10 + d > i64::MAX);
            proof {
                lemma_digits_value_prefix(t, i + 1 - lo);
            }
            return None;
        }
        acc = acc * 10 + d;
        i = i + 1;
    }
    assert(t.take(hi - lo) =~= t);
    Some(acc)
}


// ── The lexer ───────────────────────────────────────────────────────────────

/// A lexer over one source text: the position reached, with its line and
/// column.
pub struct Lexer {
    input: Vec<char>,
    pos: usize,
    line: usize,
    column: usize,
    file_id: usize,
}

impl Lexer {
    /// The characters of the source.
    pub closed spec fn source(&self) -> Seq<char> {
        self.input@
    }

    /// The position the lexer has reached.
    pub closed spec fn position(&self) -> int {
        self.pos as int
    }

    /// The id of the file being lexed.
    pub closed spec fn file(&self) -> usize {
        self.file_id
    }

    /// The position is within the source and its line and column are those
    /// of the position.
    pub closed spec fn wf(&self) -> bool {
        &&& self.pos <= self.input@.len() < usize::MAX
        &&& self.line as int == line_at(self.input@, self.pos as int)
        &&& self.column as int == column_at(self.input@, self.pos as int)
    }

    /// A lexer at the start of `input`.
    pub fn new(input: &str, file_id: usize) -> (r: Self)
        requires
            input@.len() < usize::MAX,
        ensures
            r.wf(),
            r.source() == input@,
            r.position() == 0,
            r.file() == file_id,
    {
        Lexer { input: crate::text::chars_of(input), pos: 0, line: 1, column: 1, file_id }
    }

    fn current_loc(&self) -> (r: SourceLoc)
        requires
            self.wf(),
        ensures
            r == loc_at(self.input@, self.pos as int, self.file_id),
    {
        SourceLoc::new(self.file_id, self.line, self.column)
    }

    fn current(&self) -> (r: Option<char>)
        ensures
            r == (if self.pos < self.input@.len() {
                Some(self.input@[self.pos as int])
            } else {
                None::<char>
            }),
    {
        if self.pos < self.input.len() {
            Some(self.input[self.pos])
        } else {
            None
        }
    }

    /// Whether the character `offset` places ahead is `c`.
    fn at_char(&self, offset: usize, c: char) -> (r: bool)
        requires
            self.wf(),
            offset <= 1,
        ensures
            r == at(self.input@, self.pos + offset, c),
    {
        let p = self.pos + offset;
        p < self.input.len() && self.input[p] == c
    }

    /// Whether the character `offset` places ahead is an ASCII digit.
    fn digit_ahead(&self, offset: usize) -> (r: bool)
        requires
            self.wf(),
            offset <= 1,
        ensures
            r == digit_at(self.input@, self.pos + offset),
    {
        let p = self.pos + offset;
        p < self.input.len() && is_digit_char(self.input[p])
    }

    fn advance(&mut self) -> (r: Option<char>)
        requires
            old(self).wf(),
        ensures
            final(self).wf(),
            final(self).input@ == old(self).input@,
            final(self).file_id == old(self).file_id,
            old(self).pos < old(self).input@.len() ==> final(self).pos == old(self).pos + 1 && r
                == Some(old(self).input@[old(self).pos as int]),
            old(self).pos >= old(self).input@.len() ==> final(self).pos == old(self).pos
                && r is None,
    {
        if self.pos < self.input.len() {
            let ch = self.input[self.pos];
            proof {
                lemma_loc_bounds(self.input@, self.pos + 1);
            }
            self.pos = self.pos + 1;
            if ch == '\n' {
                self.line = self.line + 1;
                self.column = 1;
            } else {
                self.column = self.column + 1;
            }
            Some(ch)
        } else {
            None
        }
    }

    /// Skips white space; the trivia still ahead end where they did.
    fn skip_whitespace(&mut self)
        requires
            old(self).wf(),
        ensures
            final(self).wf(),
            final(self).input@ == old(self).input@,
            final(self).file_id == old(self).file_id,
            old(self).pos <= final(self).pos,
            trivia_end(final(self).input@, final(self).pos as int) == trivia_end(
                old(self).input@,
                old(self).pos as int,
            ),
            final(self).pos < final(self).input@.len() ==> !is_ws(
                final(self).input@[final(self).pos as int],
            ),
    {
        let ghost t = trivia_end(self.input@, self.pos as int);
        let ghost p0 = self.pos;
        while self.pos < self.input.len() && is_space(self.input[self.pos])
            invariant
                self.wf(),
                self.input@ == old(self).input@,
                self.file_id == old(self).file_id,
                p0 == old(self).pos,
                p0 <= self.pos,
                t == trivia_end(old(self).input@, p0 as int),
                trivia_end(self.input@, self.pos as int) == t,
            decreases self.input@.len() - self.pos,
        {
            self.advance();
        }
    }

    /// Skips a `--` comment up to the end of its line.
    fn skip_comment(&mut self)
        requires
            old(self).wf(),
            at(old(self).input@, old(self).pos as int, '-'),
            at(old(self).input@, old(self).pos + 1, '-'),
        ensures
            final(self).wf(),
            final(self).input@ == old(self).input@,
            final(self).file_id == old(self).file_id,
            old(self).pos + 2 <= final(self).pos,
            trivia_end(final(self).input@, final(self).pos as int) == trivia_end(
                old(self).input@,
                old(self).pos as int,
            ),
    {
        let ghost t = trivia_end(self.input@, self.pos as int);
        let ghost p0 = self.pos;
        assert(t == comment_end(self.input@, self.pos as int));
        while self.pos < self.input.len() && self.input[self.pos] != '\n'
            invariant
                self.wf(),
                self.input@ == old(self).input@,
                self.file_id == old(self).file_id,
                p0 == old(self).pos,
                p0 <= self.pos,
                self.pos < p0 + 2 ==> at(self.input@, self.pos as int, '-'),
                at(self.input@, p0 + 1, '-'),
                t == trivia_end(old(self).input@, p0 as int),
                comment_end(self.input@, self.pos as int) == t,
            decreases self.input@.len() - self.pos,
        {
            self.advance();
        }
        assert(trivia_end(self.input@, self.pos as int) == t);
    }
}


/// A scan result with `acc` put in front of the text it found.
pub open spec fn after(acc: Seq<char>, r: Result<(Seq<char>, int), Seq<char>>) -> Result<
    (Seq<char>, int),
    Seq<char>,
> {
    match r {
        Ok((t, k)) => Ok((acc + t, k)),
        Err(m) => Err(m),
    }
}

/// The error that an error result `(message, position)` stands for.
pub open spec fn error_is(e: Error, m: Seq<char>, p: int, s: Seq<char>, file: usize) -> bool {
    &&& e.kind == ErrorKind::LexError
    &&& e.message@ == m
    &&& e.location == loc_at(s, p, file)
}

impl Lexer {
    /// Lexes a string literal opened by the quote `quote` under the cursor.
    fn lex_string(&mut self, quote: char) -> (r: Result<String, Error>)
        requires
            old(self).wf(),
            at(old(self).input@, old(self).pos as int, quote),
        ensures
            final(self).wf(),
            final(self).input@ == old(self).input@,
            final(self).file_id == old(self).file_id,
            match string_scan(old(self).input@, old(self).pos + 1, quote) {
                Ok((t, k)) => r matches Ok(x) && x@ == t && final(self).pos == k,
                Err(m) => r matches Err(e) && error_is(
                    e,
                    m,
                    old(self).pos as int,
                    old(self).input@,
                    old(self).file_id,
                ),
            },
    {
        let ghost s = self.input@;
        let ghost p0 = self.pos;
        let start_loc = self.current_loc();
        self.advance();
        let mut result = String::new();
        assert(after(result@, string_scan(s, self.pos as int, quote)) == string_scan(
            s,
            p0 + 1,
            quote,
        )) by {
            assert(Seq::<char>::empty() + Seq::<char>::empty() =~= Seq::<char>::empty());
            match string_scan(s, p0 + 1, quote) {
                Ok((t, k)) => assert(Seq::<char>::empty() + t =~= t),
                Err(m) => {},
            }
        }
        loop
            invariant
                self.wf(),
                self.input@ == s,
                s == old(self).input@,
                self.file_id == old(self).file_id,
                p0 == old(self).pos,
                p0 < self.pos,
                start_loc == loc_at(s, p0 as int, self.file_id),
                after(result@, string_scan(s, self.pos as int, quote)) == string_scan(
                    s,
                    p0 + 1,
                    quote,
                ),
            decreases s.len() - self.pos,
        {
            match self.current() {
                None => {
                    return Err(Error::lex("Unterminated string", start_loc));
                },
                Some(ch) => {
                    if ch == quote {
                        self.advance();
                        assert(result@ + Seq::<char>::empty() =~= result@);
                        return Ok(result);
                    } else if ch == '\\' {
                        self.advance();
                        match self.current() {
                            None => {
                                return Err(Error::lex("Unterminated string escape", start_loc));
                            },
                            Some(e) => {
                                let ghost before = result@;
                                push_char(&mut result, escape_char(e));
                                self.advance();
                                proof {
                                    match string_scan(s, self.pos as int, quote) {
                                        Ok((t, k)) => {
                                            assert(before + (seq![escaped(e)] + t) =~= result@ + t);
                                        },
                                        Err(m) => {},
                                    }
                                }
                            },
                        }
                    } else {
                        let ghost before = result@;
                        push_char(&mut result, ch);
                        self.advance();
                        proof {
                            match string_scan(s, self.pos as int, quote) {
                                Ok((t, k)) => {
                                    assert(before + (seq![ch] + t) =~= result@ + t);
                                },
                                Err(m) => {},
                            }
                        }
                    }
                },
            }
        }
    }

    /// Lexes a unit annotation `[...]` under the cursor; its text is what
    /// lies between the brackets that open and close it.
    fn lex_unit(&mut self) -> (r: Result<String, Error>)
        requires
            old(self).wf(),
            at(old(self).input@, old(self).pos as int, '['),
        ensures
            final(self).wf(),
            final(self).input@ == old(self).input@,
            final(self).file_id == old(self).file_id,
            match unit_close(old(self).input@, old(self).pos + 1, 1) {
                Some(c) => r matches Ok(u) && u@ == old(self).input@.subrange(
                    old(self).pos + 1,
                    c,
                ) && final(self).pos == c + 1,
                None => r matches Err(e) && error_is(
                    e,
                    "Unterminated unit annotation"@,
                    old(self).pos as int,
                    old(self).input@,
                    old(self).file_id,
                ),
            },
    {
        let ghost s = self.input@;
        let p0 = self.pos;
        let start_loc = self.current_loc();
        self.advance();
        let mut depth: usize = 1;
        loop
            invariant
                self.wf(),
                self.input@ == s,
                s == old(self).input@,
                self.file_id == old(self).file_id,
                p0 == old(self).pos,
                p0 < self.pos,
                1 <= depth <= self.pos - p0,
                start_loc == loc_at(s, p0 as int, self.file_id),
                unit_close(s, self.pos as int, depth as int) == unit_close(s, p0 + 1, 1),
            decreases s.len() - self.pos,
        {
            match self.current() {
                None => {
                    return Err(Error::lex("Unterminated unit annotation", start_loc));
                },
                Some(ch) => {
                    if ch == '[' {
                        depth = depth + 1;
                        self.advance();
                    } else if ch == ']' {
                        if depth == 1 {
                            let close = self.pos;
                            self.advance();
                            return Ok(string_of(&self.input, p0 + 1, close));
                        }
                        depth = depth - 1;
                        self.advance();
                    } else {
                        self.advance();
                    }
                },
            }
        }
    }

    /// Lexes an identifier under the cursor, whose first character is
    /// alphabetic or `_`.
    fn lex_ident(&mut self) -> (r: String)
        requires
            old(self).wf(),
            old(self).pos < old(self).input@.len(),
            alphabetic(old(self).input@[old(self).pos as int]) || old(self).input@[old(
                self,
            ).pos as int] == '_',
        ensures
            final(self).wf(),
            final(self).input@ == old(self).input@,
            final(self).file_id == old(self).file_id,
            final(self).pos == ident_end(old(self).input@, old(self).pos + 1),
            r@ == old(self).input@.subrange(old(self).pos as int, final(self).pos as int),
    {
        let ghost s = self.input@;
        let start = self.pos;
        let mut scanning = true;
        while scanning && self.pos < self.input.len()
            invariant
                self.wf(),
                self.input@ == s,
                s == old(self).input@,
                self.file_id == old(self).file_id,
                start == old(self).pos,
                start <= self.pos,
                start < s.len(),
                alphabetic(s[start as int]) || s[start as int] == '_',
                self.pos == start ==> scanning,
                self.pos > start ==> ident_end(s, self.pos as int) == ident_end(s, start + 1),
                !scanning ==> self.pos > start && self.pos < s.len() && !(alphanumeric(
                    s[self.pos as int],
                ) || s[self.pos as int] == '_'),
            decreases s.len() - self.pos, if scanning { 1int } else { 0int },
        {
            let ch = self.input[self.pos];
            if is_alphanumeric(ch) || ch == '_' {
                self.advance();
            } else {
                scanning = false;
            }
        }
        string_of(&self.input, start, self.pos)
    }
}


fn number_error_text(is_float: bool) -> (r: &'static str)
    ensures
        r@ == number_error(is_float),
{
    if is_float {
        "Invalid float literal"
    } else {
        "Invalid integer literal"
    }
}

/// `t` with a `-` in front.
fn minus_prefixed(t: &String) -> (r: String)
    ensures
        r@ == seq!['-'] + t@,
{
    let mut m = String::new();
    push_char(&mut m, '-');
    push_str(&mut m, t.as_str());
    assert(m@ =~= seq!['-'] + t@);
    m
}

/// A number token written with a leading `-`.
fn negate(kind: TokenKind) -> (r: TokenKind)
    requires
        kind matches TokenKind::Integer(n) ==> n >= 0,
    ensures
        match kind {
            TokenKind::Integer(n) => r matches TokenKind::Integer(m) && m == -n,
            TokenKind::Float(t) => r matches TokenKind::Float(x) && x@ == seq!['-'] + t@,
            TokenKind::UnitAnnotatedFloat { value, unit } => r matches TokenKind::UnitAnnotatedFloat {
                value: v,
                unit: u,
            } && v@ == seq!['-'] + value@ && u@ == unit@,
            _ => r == kind,
        },
{
    match kind {
        TokenKind::Integer(n) => TokenKind::Integer(-n),
        TokenKind::Float(t) => TokenKind::Float(minus_prefixed(&t)),
        TokenKind::UnitAnnotatedFloat { value, unit } => TokenKind::UnitAnnotatedFloat {
            value: minus_prefixed(&value),
            unit,
        },
        other => other,
    }
}

/// The tokens `toks` are the lexemes `ls` at their positions in `s`.
pub open spec fn tokens_match(toks: Seq<Token>, ls: Seq<(Lexeme, int)>, s: Seq<char>, file: usize) -> bool {
    &&& toks.len() == ls.len()
    &&& forall|i: int|
        0 <= i < toks.len() ==> kind_matches(#[trigger] toks[i].kind, ls[i].0) && toks[i].location
            == loc_at(s, ls[i].1, file)
}

/// A successful lexing from position `i` gives a non-empty list of lexemes
/// whose last one is `Eof`.
pub proof fn lemma_lexemes_end_with_eof(s: Seq<char>, i: int, ls: Seq<(Lexeme, int)>)
    requires
        0 <= i <= s.len(),
        lex_from(s, i) == Ok::<Seq<(Lexeme, int)>, (Seq<char>, int)>(ls),
    ensures
        ls.len() > 0,
        ls.last().0 == Lexeme::Fixed(TokenKind::Eof),
    decreases s.len() - i,
{
    lemma_next_token_progress(s, i);
    match next_token(s, i) {
        Ok((lx, j, k)) => {
            if lx != Lexeme::Fixed(TokenKind::Eof) {
                match lex_from(s, k) {
                    Ok(rest) => {
                        lemma_lexemes_end_with_eof(s, k, rest);
                        assert(ls == seq![(lx, j)] + rest);
                        assert(ls.last() == rest.last());
                    },
                    Err(_) => {},
                }
            }
        },
        Err(_) => {},
    }
}

/// The lexer's tokens always meet the parsers' precondition: whenever
/// `tokenize` succeeds on a source, the tokens it gives (those that match
/// the lexemes of the source) are not empty and the last one is `Eof`.
pub proof fn lemma_lexed_tokens_end_with_eof(s: Seq<char>, toks: Seq<Token>, ls: Seq<(Lexeme, int)>, file: usize)
    requires
        lex_from(s, 0) == Ok::<Seq<(Lexeme, int)>, (Seq<char>, int)>(ls),
        tokens_match(toks, ls, s, file),
    ensures
        toks.len() > 0,
        toks.last().kind is Eof,
{
    lemma_lexemes_end_with_eof(s, 0, ls);
    assert(kind_matches(toks[toks.len() - 1].kind, ls[ls.len() - 1].0));
}

/// A token-list result with `done` put in front of the tokens.
pub open spec fn prefixed(done: Seq<(Lexeme, int)>, r: Result<Seq<(Lexeme, int)>, (Seq<char>, int)>) -> Result<
    Seq<(Lexeme, int)>,
    (Seq<char>, int),
> {
    match r {
        Ok(rest) => Ok(done + rest),
        Err(e) => Err(e),
    }
}

impl Lexer {
    /// Lexes a number under the cursor (a digit, or `.` before a digit),
    /// with the unit annotation that may follow it.
    fn lex_number(&mut self) -> (r: Result<TokenKind, Error>)
        requires
            old(self).wf(),
            old(self).pos < old(self).input@.len(),
            is_digit(old(self).input@[old(self).pos as int]) || (old(self).input@[old(
                self,
            ).pos as int] == '.' && digit_at(old(self).input@, old(self).pos + 1)),
        ensures
            final(self).wf(),
            final(self).input@ == old(self).input@,
            final(self).file_id == old(self).file_id,
            match number_at(old(self).input@, old(self).pos as int) {
                Ok((lx, k)) => r matches Ok(kind) && kind_matches(kind, lx) && final(self).pos == k
                    && (kind matches TokenKind::Integer(n) ==> n >= 0),
                Err((m, p)) => r matches Err(e) && error_is(
                    e,
                    m,
                    p,
                    old(self).input@,
                    old(self).file_id,
                ),
            },
    {
        let ghost s = self.input@;
        let start = self.pos;
        let start_loc = self.current_loc();
        let mut is_float = false;
        let mut scanning = true;
        while scanning && self.pos < self.input.len()
            invariant
                self.wf(),
                self.input@ == s,
                s == old(self).input@,
                self.file_id == old(self).file_id,
                start == old(self).pos,
                start <= self.pos,
                start < s.len(),
                is_digit(s[start as int]) || (s[start as int] == '.' && digit_at(s, start + 1)),
                self.pos == start ==> scanning && !is_float,
                num_scan(s, self.pos as int, is_float) == num_scan(s, start as int, false),
                !is_float ==> all_digits(s.subrange(start as int, self.pos as int)),
                !scanning ==> self.pos < s.len() && num_scan(s, self.pos as int, is_float) == (
                    self.pos as int,
                    is_float,
                ),
            decreases s.len() - self.pos, if scanning { 1int } else { 0int },
        {
            let ch = self.input[self.pos];
            if is_digit_char(ch) {
                self.advance();
                proof {
                    if !is_float {
                        assert forall|k: int| 0 <= k < self.pos - start implies is_digit(
                            #[trigger] s.subrange(start as int, self.pos as int)[k],
                        ) by {
                            if k < self.pos - 1 - start {
                                assert(s.subrange(start as int, self.pos as int)[k] == s.subrange(
                                    start as int,
                                    self.pos - 1,
                                )[k]);
                            } else {
                                assert(s.subrange(start as int, self.pos as int)[k] == ch);
                            }
                        }
                    }
                }
            } else if ch == '.' && !is_float && self.digit_ahead(1) {
                is_float = true;
                self.advance();
            } else if ch == 'e' || ch == 'E' {
                is_float = true;
                self.advance();
                if self.at_char(0, '+') || self.at_char(0, '-') {
                    self.advance();
                }
            } else {
                scanning = false;
            }
        }
        let end = self.pos;
        assert(num_scan(s, start as int, false) == (end as int, is_float));
        let value: Option<i64> = if is_float {
            None
        } else {
            digits_i64(&self.input, start, end)
        };
        let valid = if is_float {
            float_text_ok(&self.input, start, end)
        } else {
            value.is_some()
        };
        proof {
            if !is_float {
                lemma_digits_value_nonneg(s.subrange(start as int, end as int));
            }
        }
        if self.at_char(0, '[') {
            let unit = match self.lex_unit() {
                Ok(u) => u,
                Err(e) => {
                    return Err(e);
                },
            };
            if !valid {
                return Err(Error::lex(number_error_text(is_float), start_loc));
            }
            return Ok(
                TokenKind::UnitAnnotatedFloat { value: string_of(&self.input, start, end), unit },
            );
        }
        if !valid {
            return Err(Error::lex(number_error_text(is_float), start_loc));
        }
        if is_float {
            Ok(TokenKind::Float(string_of(&self.input, start, end)))
        } else {
            match value {
                Some(v) => Ok(TokenKind::Integer(v)),
                None => Err(Error::lex(number_error_text(is_float), start_loc)),
            }
        }
    }
}


impl Lexer {
    /// Lexes the token that starts with `c`, the character under the cursor.
    #[verifier::rlimit(40)]
    fn lex_token(&mut self, c: char, loc: SourceLoc) -> (r: Result<Option<Token>, Error>)
        requires
            old(self).wf(),
            old(self).pos < old(self).input@.len(),
            c == old(self).input@[old(self).pos as int],
            loc == loc_at(old(self).input@, old(self).pos as int, old(self).file_id),
        ensures
            final(self).wf(),
            final(self).input@ == old(self).input@,
            final(self).file_id == old(self).file_id,
            match step(old(self).input@, old(self).pos as int) {
                Ok((lx, k)) => r matches Ok(Some(t)) && kind_matches(t.kind, lx) && t.location
                    == loc && final(self).pos == k,
                Err((m, p)) => r matches Err(e) && error_is(
                    e,
                    m,
                    p,
                    old(self).input@,
                    old(self).file_id,
                ),
            },
    {
        if let Some(kind) = single_token(c) {
            self.advance();
            return Ok(Some(Token::new(kind, loc)));
        }
        if c == '.' {
            if self.at_char(1, '.') {
                self.advance();
                self.advance();
                return Ok(Some(Token::new(TokenKind::Dotdot, loc)));
            } else if self.digit_ahead(1) {
                return match self.lex_number() {
                    Ok(kind) => Ok(Some(Token::new(kind, loc))),
                    Err(e) => Err(e),
                };
            } else {
                self.advance();
                return Ok(Some(Token::new(TokenKind::Dot, loc)));
            }
        }
        if c == '-' {
            self.advance();
            if self.at_char(0, '>') {
                self.advance();
                return Ok(Some(Token::new(TokenKind::Arrow, loc)));
            } else if self.digit_ahead(0) {
                return match self.lex_number() {
                    Ok(kind) => Ok(Some(Token::new(negate(kind), loc))),
                    Err(e) => Err(e),
                };
            } else {
                return Ok(Some(Token::new(TokenKind::Minus, loc)));
            }
        }
        if let Some(lone) = lone_token(c) {
            self.advance();
            if let Some(d) = self.current() {
                if let Some(pair) = pair_token(c, d) {
                    self.advance();
                    return Ok(Some(Token::new(pair, loc)));
                }
            }
            return Ok(Some(Token::new(lone, loc)));
        }
        if c == '|' {
            self.advance();
            if self.at_char(0, '>') {
                self.advance();
                return Ok(Some(Token::new(TokenKind::Pipe, loc)));
            } else if self.at_char(0, '|') {
                self.advance();
                return Ok(Some(Token::new(TokenKind::Or, loc)));
            } else {
                return Err(Error::lex("Unexpected '|' \u{2014} did you mean '|>' (pipe)?", loc));
            }
        }
        if c == '"' || c == '\'' {
            return match self.lex_string(c) {
                Ok(text) => Ok(Some(Token::new(TokenKind::String(text), loc))),
                Err(e) => Err(e),
            };
        }
        if is_digit_char(c) {
            return match self.lex_number() {
                Ok(kind) => Ok(Some(Token::new(kind, loc))),
                Err(e) => Err(e),
            };
        }
        if is_alphabetic(c) || c == '_' {
            let start = self.pos;
            proof {
                lemma_ident_end_bounds(self.input@, start + 1);
            }
            let word = self.lex_ident();
            return match keyword(&self.input, start, self.pos) {
                Some(kind) => Ok(Some(Token::new(kind, loc))),
                None => Ok(Some(Token::new(TokenKind::Ident(word), loc))),
            };
        }
        let mut message = str_to_string("Unexpected character: '");
        push_char(&mut message, c);
        push_str(&mut message, "'");
        assert(message@ =~= unexpected_message(c));
        Err(Error { message, location: loc, kind: ErrorKind::LexError })
    }

    /// Skips trivia and lexes the next token (`Eof` at the end).
    fn lex_one(&mut self) -> (r: Result<Option<Token>, Error>)
        requires
            old(self).wf(),
        ensures
            final(self).wf(),
            final(self).input@ == old(self).input@,
            final(self).file_id == old(self).file_id,
            match next_token(old(self).input@, old(self).pos as int) {
                Ok((lx, j, k)) => r matches Ok(Some(t)) && kind_matches(t.kind, lx) && t.location
                    == loc_at(old(self).input@, j, old(self).file_id) && final(self).pos == k,
                Err((m, p)) => r matches Err(e) && error_is(
                    e,
                    m,
                    p,
                    old(self).input@,
                    old(self).file_id,
                ),
            },
    {
        let ghost s = self.input@;
        let ghost p0 = self.pos;
        self.skip_whitespace();
        while self.at_char(0, '-') && self.at_char(1, '-')
            invariant
                self.wf(),
                self.input@ == s,
                s == old(self).input@,
                self.file_id == old(self).file_id,
                p0 == old(self).pos,
                p0 <= self.pos,
                trivia_end(s, self.pos as int) == trivia_end(s, p0 as int),
                self.pos < s.len() ==> !is_ws(s[self.pos as int]),
            decreases s.len() - self.pos,
        {
            self.skip_comment();
            self.skip_whitespace();
        }
        assert(trivia_end(s, self.pos as int) == self.pos);
        let loc = self.current_loc();
        match self.current() {
            None => Ok(Some(Token::new(TokenKind::Eof, loc))),
            Some(c) => self.lex_token(c, loc),
        }
    }

    /// The tokens of the source from the lexer's position on, ending with
    /// `Eof`; or the first error.
    pub fn tokenize(&mut self) -> (r: Result<Vec<Token>, Error>)
        requires
            old(self).wf(),
        ensures
            final(self).wf(),
            final(self).source() == old(self).source(),
            final(self).file() == old(self).file(),
            match lex_from(old(self).source(), old(self).position()) {
                Ok(ls) => r matches Ok(toks) && tokens_match(
                    toks@,
                    ls,
                    old(self).source(),
                    old(self).file(),
                ),
                Err((m, p)) => r matches Err(e) && error_is(
                    e,
                    m,
                    p,
                    old(self).source(),
                    old(self).file(),
                ),
            },
    {
        let ghost s = self.input@;
        let ghost p0 = self.pos as int;
        let ghost file = self.file_id;
        let mut tokens: Vec<Token> = Vec::new();
        let ghost mut done: Seq<(Lexeme, int)> = Seq::empty();
        assert(prefixed(done, lex_from(s, p0)) == lex_from(s, p0)) by {
            match lex_from(s, p0) {
                Ok(rest) => assert(done + rest =~= rest),
                Err(e) => {},
            }
        }
        loop
            invariant
                self.wf(),
                self.input@ == s,
                s == old(self).input@,
                self.file_id == file,
                file == old(self).file_id,
                p0 == old(self).pos,
                p0 <= self.pos,
                tokens_match(tokens@, done, s, file),
                lex_from(s, p0) == prefixed(done, lex_from(s, self.pos as int)),
            decreases s.len() - self.pos,
        {
            let ghost before = self.pos as int;
            proof {
                lemma_next_token_progress(s, before);
            }
            match self.lex_one() {
                Err(e) => {
                    return Err(e);
                },
                Ok(None) => {
                    assert(false);
                },
                Ok(Some(token)) => {
                    let is_eof = matches!(token.kind, TokenKind::Eof);
                    let ghost lx = next_token(s, before)->Ok_0.0;
                    let ghost j = next_token(s, before)->Ok_0.1;
                    let ghost old_done = done;
                    proof {
                        done = done.push((lx, j));
                    }
                    let ghost old_tokens = tokens@;
                    tokens.push(token);
                    assert(tokens_match(tokens@, done, s, file)) by {
                        assert forall|i: int| 0 <= i < tokens@.len() implies kind_matches(
                            #[trigger] tokens@[i].kind,
                            done[i].0,
                        ) && tokens@[i].location == loc_at(s, done[i].1, file) by {
                            if i < tokens@.len() - 1 {
                                assert(tokens@[i] == old_tokens[i]);
                            }
                        }
                    }
                    if is_eof {
                        assert(lx == Lexeme::Fixed(TokenKind::Eof));
                        assert(old_done + seq![(lx, j)] =~= done);
                        return Ok(tokens);
                    }
                    assert(lx != Lexeme::Fixed(TokenKind::Eof));
                    proof {
                        match lex_from(s, self.pos as int) {
                            Ok(rest) => {
                                assert(old_done + (seq![(lx, j)] + rest) =~= done + rest);
                            },
                            Err(e) => {},
                        }
                    }
                },
            }
        }
    }
}


} // verus!
