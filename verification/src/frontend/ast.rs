//! The syntax of NOVA types, unit expressions, declarations and operators.

use vstd::prelude::*;
use crate::frontend::loc::SourceLoc;
use crate::text::{decimal, push_char, push_decimal, push_str, str_to_string};

verus! {

/// A unit expression as written, such as `m/s²`.
#[derive(Debug, Clone, PartialEq, Eq)]
pub struct UnitExpr(pub String);

/// A type as written in source.
#[derive(Debug)]
pub enum TypeExpr {
    Named(String),
    Float(Option<UnitExpr>),
    Int,
    Bool,
    String,
    Tensor { element_type: Box<TypeExpr>, shape: Vec<usize> },
    Array(Box<TypeExpr>),
    Option(Box<TypeExpr>),
    Result(Box<TypeExpr>, Box<TypeExpr>),
    Wave(Box<TypeExpr>),
    Function { params: Vec<TypeExpr>, return_type: Box<TypeExpr> },
}

/// The text of a unit expression: `[<unit>]`.
pub open spec fn unit_expr_text(u: UnitExpr) -> Seq<char> {
    seq!['['] + u.0@ + seq![']']
}

/// `,d` for each size of a shape.
pub open spec fn shape_suffix(shape: Seq<usize>) -> Seq<char>
    decreases shape.len(),
{
    if shape.len() == 0 {
        Seq::empty()
    } else {
        shape_suffix(shape.drop_last()) + seq![','] + decimal(shape.last() as nat)
    }
}

/// The text of a type expression.
pub open spec fn type_expr_text(t: TypeExpr) -> Seq<char>
    decreases t,
{
    match t {
        TypeExpr::Named(n) => n@,
        TypeExpr::Float(None) => "Float"@,
        TypeExpr::Float(Some(u)) => "Float["@ + unit_expr_text(u) + "]"@,
        TypeExpr::Int => "Int"@,
        TypeExpr::Bool => "Bool"@,
        TypeExpr::String => "String"@,
        TypeExpr::Tensor { element_type, shape } =>
            "Tensor["@ + type_expr_text(*element_type) + shape_suffix(shape@) + "]"@,
        TypeExpr::Array(inner) => "Array["@ + type_expr_text(*inner) + "]"@,
        TypeExpr::Option(inner) => "Option["@ + type_expr_text(*inner) + "]"@,
        TypeExpr::Result(ok, err) => "Result["@ + type_expr_text(*ok) + ","@ + type_expr_text(*err) + "]"@,
        TypeExpr::Wave(inner) => "Wave["@ + type_expr_text(*inner) + "]"@,
        TypeExpr::Function { params, return_type } => {
            proof { broadcast use vstd::std_specs::vec::axiom_vec_decreases_to_view; }
            "("@ + params_text(params@) + ") → "@ + type_expr_text(*return_type)
        },
    }
}

/// The texts of parameter types, separated by `", "`.
pub open spec fn params_text(ps: Seq<TypeExpr>) -> Seq<char>
    decreases ps,
{
    if ps.len() == 0 {
        Seq::empty()
    } else if ps.len() == 1 {
        type_expr_text(ps[0])
    } else {
        params_text(ps.drop_last()) + ", "@ + type_expr_text(ps.last())
    }
}

impl UnitExpr {
    /// The unit as printed: `[<unit>]`.
    pub fn to_text(&self) -> (r: String)
        ensures
            r@ == unit_expr_text(*self),
    {
        let mut s = String::new();
        push_char(&mut s, '[');
        push_str(&mut s, self.0.as_str());
        push_char(&mut s, ']');
        assert(s@ =~= unit_expr_text(*self));
        s
    }
}

impl TypeExpr {
    /// Appends the text of this type.
    pub fn push_text(&self, s: &mut String)
        ensures
            final(s)@ == old(s)@ + type_expr_text(*self),
        decreases self,
    {
        match self {
            TypeExpr::Named(n) => push_str(s, n.as_str()),
            TypeExpr::Float(None) => push_str(s, "Float"),
            TypeExpr::Float(Some(u)) => {
                push_str(s, "Float[");
                let t = u.to_text();
                push_str(s, t.as_str());
                push_str(s, "]");
            }
            TypeExpr::Int => push_str(s, "Int"),
            TypeExpr::Bool => push_str(s, "Bool"),
            TypeExpr::String => push_str(s, "String"),
            TypeExpr::Tensor { element_type, shape } => {
                push_str(s, "Tensor[");
                (**element_type).push_text(s);
                let ghost mid = s@;
                let mut i: usize = 0;
                while i < shape.len()
                    invariant
                        i <= shape@.len(),
                        s@ == mid + shape_suffix(shape@.take(i as int)),
                    decreases shape@.len() - i,
                {
                    push_char(s, ',');
                    push_decimal(s, shape[i] as u64);
                    proof {
                        assert(shape@.take(i + 1).drop_last() =~= shape@.take(i as int));
                    }
                    i = i + 1;
                    assert(s@ =~= mid + shape_suffix(shape@.take(i as int)));
                }
                assert(shape@.take(shape@.len() as int) =~= shape@);
                push_str(s, "]");
            }
            TypeExpr::Array(inner) => {
                push_str(s, "Array[");
                (**inner).push_text(s);
                push_str(s, "]");
            }
            TypeExpr::Option(inner) => {
                push_str(s, "Option[");
                (**inner).push_text(s);
                push_str(s, "]");
            }
            TypeExpr::Result(ok, err) => {
                push_str(s, "Result[");
                (**ok).push_text(s);
                push_str(s, ",");
                (**err).push_text(s);
                push_str(s, "]");
            }
            TypeExpr::Wave(inner) => {
                push_str(s, "Wave[");
                (**inner).push_text(s);
                push_str(s, "]");
            }
            TypeExpr::Function { params, return_type } => {
                push_str(s, "(");
                push_params(s, params);
                push_str(s, ") → ");
                (**return_type).push_text(s);
            }
        }
        assert(s@ =~= old(s)@ + type_expr_text(*self));
    }

    /// The type as printed, such as `Tensor[Float,3,4]` or `(Int, Int) → Bool`.
    pub fn to_text(&self) -> (r: String)
        ensures
            r@ == type_expr_text(*self),
    {
        let mut s = String::new();
        self.push_text(&mut s);
        assert(s@ =~= type_expr_text(*self));
        s
    }
}

/// Appends the texts of parameter types, separated by `", "`.
fn push_params(s: &mut String, params: &Vec<TypeExpr>)
    ensures
        final(s)@ == old(s)@ + params_text(params@),
    decreases params,
{
    let mut i: usize = 0;
    while i < params.len()
        invariant
            i <= params@.len(),
            s@ == old(s)@ + params_text(params@.take(i as int)),
        decreases params@.len() - i,
    {
        proof { broadcast use vstd::std_specs::vec::axiom_vec_decreases_to_view; }
        if i > 0 {
            push_str(s, ", ");
        }
        params[i].push_text(s);
        proof {
            assert(params@.take(i + 1).drop_last() =~= params@.take(i as int));
            assert(params@.take(i + 1).last() == params@[i as int]);
            if i == 0 {
                assert(params@.take(1)[0] == params@[0]);
            }
        }
        i = i + 1;
        assert(s@ =~= old(s)@ + params_text(params@.take(i as int)));
    }
    assert(params@.take(params@.len() as int) =~= params@);
}

/// A parameter of a mission: its name and type.
#[derive(Debug)]
pub struct Parameter {
    pub name: String,
    pub type_annotation: TypeExpr,
    pub location: SourceLoc,
}

/// A struct declaration: its fields and their types.
#[derive(Debug)]
pub struct StructDecl {
    pub name: String,
    pub fields: Vec<(String, TypeExpr)>,
    pub location: SourceLoc,
}

/// An enum declaration: its variants.
#[derive(Debug, Clone)]
pub struct EnumDecl {
    pub name: String,
    pub variants: Vec<String>,
    pub location: SourceLoc,
}

/// A unit declaration: `unit name = definition`.
#[derive(Debug)]
pub struct UnitDecl {
    pub name: String,
    pub definition: UnitExpr,
    pub location: SourceLoc,
}

/// The binary operators of NOVA expressions.
#[derive(Debug, Clone, Copy, PartialEq, Eq, Structural)]
pub enum BinOp {
    Add,
    Subtract,
    Multiply,
    Divide,
    Modulo,
    Power,
    Equal,
    NotEqual,
    Less,
    Greater,
    LessEqual,
    GreaterEqual,
    And,
    Or,
    MatMul,
    Range,
}

/// The symbol of a binary operator.
pub open spec fn binop_symbol(op: BinOp) -> Seq<char> {
    match op {
        BinOp::Add => "+"@,
        BinOp::Subtract => "-"@,
        BinOp::Multiply => "*"@,
        BinOp::Divide => "/"@,
        BinOp::Modulo => "%"@,
        BinOp::Power => "^"@,
        BinOp::Equal => "=="@,
        BinOp::NotEqual => "!="@,
        BinOp::Less => "<"@,
        BinOp::Greater => ">"@,
        BinOp::LessEqual => "<="@,
        BinOp::GreaterEqual => ">="@,
        BinOp::And => "&&"@,
        BinOp::Or => "||"@,
        BinOp::MatMul => "@"@,
        BinOp::Range => ".."@,
    }
}

impl BinOp {
    /// The symbol of the operator, such as `+` or `@`.
    pub fn to_text(&self) -> (r: String)
        ensures
            r@ == binop_symbol(*self),
    {
        match self {
            BinOp::Add => str_to_string("+"),
            BinOp::Subtract => str_to_string("-"),
            BinOp::Multiply => str_to_string("*"),
            BinOp::Divide => str_to_string("/"),
            BinOp::Modulo => str_to_string("%"),
            BinOp::Power => str_to_string("^"),
            BinOp::Equal => str_to_string("=="),
            BinOp::NotEqual => str_to_string("!="),
            BinOp::Less => str_to_string("<"),
            BinOp::Greater => str_to_string(">"),
            BinOp::LessEqual => str_to_string("<="),
            BinOp::GreaterEqual => str_to_string(">="),
            BinOp::And => str_to_string("&&"),
            BinOp::Or => str_to_string("||"),
            BinOp::MatMul => str_to_string("@"),
            BinOp::Range => str_to_string(".."),
        }
    }
}

/// The unary operators of NOVA expressions.
#[derive(Debug, Clone, Copy, PartialEq, Eq, Structural)]
pub enum UnOp {
    Negate,
    Not,
    Deref,
}

/// The symbol of a unary operator.
pub open spec fn unop_symbol(op: UnOp) -> Seq<char> {
    match op {
        UnOp::Negate => "-"@,
        UnOp::Not => "!"@,
        UnOp::Deref => "*"@,
    }
}

impl UnOp {
    /// The symbol of the operator.
    pub fn to_text(&self) -> (r: String)
        ensures
            r@ == unop_symbol(*self),
    {
        match self {
            UnOp::Negate => str_to_string("-"),
            UnOp::Not => str_to_string("!"),
            UnOp::Deref => str_to_string("*"),
        }
    }
}


// ── Programs, statements and expressions ────────────────────────────────────

/// A complete NOVA program.
#[derive(Debug)]
pub struct Program {
    pub items: Vec<TopLevelItem>,
}

/// Top-level declarations.
#[derive(Debug)]
pub enum TopLevelItem {
    MissionDecl(MissionDecl),
    ParallelMissionDecl(MissionDecl),
    ConstellationDecl(ConstellationDecl),
    ModelDecl(ModelDecl),
    StructDecl(StructDecl),
    EnumDecl(EnumDecl),
    UnitDecl(UnitDecl),
    TestMission(MissionDecl),
}

/// A mission: its parameters, return type and body.
#[derive(Debug)]
pub struct MissionDecl {
    pub name: String,
    pub params: Vec<Parameter>,
    pub return_type: Option<TypeExpr>,
    pub body: Vec<Statement>,
    pub location: SourceLoc,
}

/// A constellation (module): its missions and exports.
#[derive(Debug)]
pub struct ConstellationDecl {
    pub name: String,
    pub items: Vec<ConstellationItem>,
    pub location: SourceLoc,
}

/// An item of a constellation.
#[derive(Debug)]
pub enum ConstellationItem {
    MissionDecl(MissionDecl),
    Export(String),
}

/// A model: its layers.
#[derive(Debug)]
pub struct ModelDecl {
    pub name: String,
    pub layers: Vec<LayerDecl>,
    pub location: SourceLoc,
}

/// A layer of a model.
#[derive(Debug)]
pub struct LayerDecl {
    pub kind: String,
    pub args: Vec<(String, Expr)>,
    pub repeat: Option<u32>,
    pub nested: Vec<LayerDecl>,
    pub location: SourceLoc,
}

/// Statements of a mission body.
#[derive(Debug)]
pub enum Statement {
    LetBind { name: String, mutable: bool, type_annotation: Option<TypeExpr>, value: Expr, location: SourceLoc },
    ExprStmt(Expr),
    Return(Option<Expr>),
    If { condition: Expr, then_body: Vec<Statement>, else_body: Option<Vec<Statement>>, location: SourceLoc },
    For { var: String, iter: Expr, body: Vec<Statement>, location: SourceLoc },
    While { condition: Expr, body: Vec<Statement>, location: SourceLoc },
    Break,
}

/// Expressions. A float literal keeps its source text.
#[derive(Debug)]
pub enum Expr {
    Integer(i64),
    Float(String),
    UnitAnnotatedFloat { value: String, unit: UnitExpr },
    String(String),
    Bool(bool),
    Ident(String),
    BinaryOp { left: Box<Expr>, op: BinOp, right: Box<Expr>, location: SourceLoc },
    UnaryOp { op: UnOp, operand: Box<Expr>, location: SourceLoc },
    Call { func: Box<Expr>, args: Vec<(Option<String>, Expr)>, location: SourceLoc },
    FieldAccess { object: Box<Expr>, field: String, location: SourceLoc },
    Index { object: Box<Expr>, index: Box<Expr>, location: SourceLoc },
    Pipe { left: Box<Expr>, right: Box<Expr>, location: SourceLoc },
    Pipeline { source: Box<Expr>, stages: Vec<Expr>, location: SourceLoc },
    Lambda { param: String, body: Box<Expr>, location: SourceLoc },
    Match { subject: Box<Expr>, arms: Vec<MatchArm>, location: SourceLoc },
    If { condition: Box<Expr>, then_expr: Box<Expr>, else_expr: Option<Box<Expr>>, location: SourceLoc },
    Transmit { args: Vec<Expr>, location: SourceLoc },
    Autodiff { target: Box<Expr>, body: Vec<Statement>, location: SourceLoc },
    Gradient { expr: Box<Expr>, wrt: Vec<String>, location: SourceLoc },
    TensorLiteral { elements: Vec<Expr>, location: SourceLoc },
    StructLiteral { ty_name: Option<String>, fields: Vec<(String, Expr)>, location: SourceLoc },
    Range { start: Box<Expr>, end: Box<Expr>, inclusive: bool, location: SourceLoc },
    StringInterpolation { parts: Vec<InterpolationPart>, location: SourceLoc },
}

/// A part of an interpolated string.
#[derive(Debug)]
pub enum InterpolationPart {
    Literal(String),
    Expr { expr: Expr, format: Option<String> },
}

/// An arm of a match expression.
#[derive(Debug)]
pub struct MatchArm {
    pub pattern: Pattern,
    pub guard: Option<Expr>,
    pub body: Expr,
}

/// Patterns of match arms.
#[derive(Debug)]
pub enum Pattern {
    Ident(String),
    Literal(Literal),
    OptionSome(Box<Pattern>),
    OptionNone,
    Constructor(String, Vec<Pattern>),
}

/// Literal patterns. A float keeps its source text.
#[derive(Debug)]
pub enum Literal {
    Int(i64),
    Float(String),
    Bool(bool),
    String(String),
}

// ── Plain values of syntax ──────────────────────────────────────────────────

/// A type as written, over plain values; types the parser never builds are
/// `Other`.
pub enum TypeM {
    Named(Seq<char>),
    Float(Option<Seq<char>>),
    Int,
    Bool,
    Str,
    Array(Box<TypeM>),
    Tensor(Box<TypeM>, Seq<usize>),
    Other,
}

/// The plain value of a type expression.
pub open spec fn type_view(t: TypeExpr) -> TypeM
    decreases t,
{
    match t {
        TypeExpr::Named(n) => TypeM::Named(n@),
        TypeExpr::Float(u) => TypeM::Float(
            match u {
                Some(x) => Some(x.0@),
                None => None,
            },
        ),
        TypeExpr::Int => TypeM::Int,
        TypeExpr::Bool => TypeM::Bool,
        TypeExpr::String => TypeM::Str,
        TypeExpr::Array(b) => TypeM::Array(Box::new(type_view(*b))),
        TypeExpr::Tensor { element_type, shape } => TypeM::Tensor(Box::new(type_view(*element_type)), shape@),
        _ => TypeM::Other,
    }
}

/// An expression over plain values; expressions the parser never builds are
/// `Other`.
pub enum ExprM {
    Integer(i64),
    Float(Seq<char>),
    UnitFloat(Seq<char>, Seq<char>),
    Str(Seq<char>),
    Bool(bool),
    Ident(Seq<char>),
    Binary(Box<ExprM>, BinOp, Box<ExprM>, SourceLoc),
    Unary(UnOp, Box<ExprM>, SourceLoc),
    Call(Box<ExprM>, Seq<(Option<Seq<char>>, ExprM)>, SourceLoc),
    Field(Box<ExprM>, Seq<char>, SourceLoc),
    Index(Box<ExprM>, Box<ExprM>, SourceLoc),
    Pipe(Box<ExprM>, Box<ExprM>, SourceLoc),
    Transmit(Seq<ExprM>, SourceLoc),
    Lambda(Seq<char>, Box<ExprM>, SourceLoc),
    StructLit(Option<Seq<char>>, Seq<(Seq<char>, ExprM)>, SourceLoc),
    TensorLit(Seq<ExprM>, SourceLoc),
    IfExpr(Box<ExprM>, Box<ExprM>, Option<Box<ExprM>>, SourceLoc),
    MatchExpr(Box<ExprM>, Seq<ArmM>, SourceLoc),
    Pipeline(Box<ExprM>, Seq<ExprM>, SourceLoc),
    Autodiff(Box<ExprM>, Seq<StmtM>, SourceLoc),
    Gradient(Box<ExprM>, Seq<Seq<char>>, SourceLoc),
    Other,
}

/// A pattern over plain values; patterns the parsers never build are `Other`.
pub enum PatM {
    Ident(Seq<char>),
    Other,
}

/// The plain value of a pattern.
pub open spec fn pat_view(p: Pattern) -> PatM {
    match p {
        Pattern::Ident(n) => PatM::Ident(n@),
        _ => PatM::Other,
    }
}

/// A match arm over plain values: pattern, guard, body.
pub type ArmM = (PatM, Option<ExprM>, ExprM);

/// The plain value of an optional name.
pub open spec fn name_view(n: Option<String>) -> Option<Seq<char>> {
    match n {
        Some(x) => Some(x@),
        None => None,
    }
}

/// The plain value of an expression.
pub open spec fn expr_view(e: Expr) -> ExprM
    decreases e,
{
    match e {
        Expr::Integer(n) => ExprM::Integer(n),
        Expr::Float(t) => ExprM::Float(t@),
        Expr::UnitAnnotatedFloat { value, unit } => ExprM::UnitFloat(value@, unit.0@),
        Expr::String(t) => ExprM::Str(t@),
        Expr::Bool(b) => ExprM::Bool(b),
        Expr::Ident(n) => ExprM::Ident(n@),
        Expr::BinaryOp { left, op, right, location } => ExprM::Binary(
            Box::new(expr_view(*left)),
            op,
            Box::new(expr_view(*right)),
            location,
        ),
        Expr::UnaryOp { op, operand, location } => ExprM::Unary(op, Box::new(expr_view(*operand)), location),
        Expr::Call { func, args, location } => ExprM::Call(
            Box::new(expr_view(*func)),
            args_view(args@),
            location,
        ),
        Expr::FieldAccess { object, field, location } => ExprM::Field(Box::new(expr_view(*object)), field@, location),
        Expr::Index { object, index, location } => ExprM::Index(
            Box::new(expr_view(*object)),
            Box::new(expr_view(*index)),
            location,
        ),
        Expr::Pipe { left, right, location } => ExprM::Pipe(
            Box::new(expr_view(*left)),
            Box::new(expr_view(*right)),
            location,
        ),
        Expr::Transmit { args, location } => ExprM::Transmit(
            exprs_view(args@),
            location,
        ),
        Expr::Lambda { param, body, location } => ExprM::Lambda(param@, Box::new(expr_view(*body)), location),
        Expr::StructLiteral { ty_name, fields, location } => ExprM::StructLit(
            name_view(ty_name),
            named_exprs_view(fields@),
            location,
        ),
        Expr::TensorLiteral { elements, location } => ExprM::TensorLit(exprs_view(elements@), location),
        Expr::If { condition, then_expr, else_expr, location } => ExprM::IfExpr(
            Box::new(expr_view(*condition)),
            Box::new(expr_view(*then_expr)),
            match else_expr {
                Some(b) => Some(Box::new(expr_view(*b))),
                None => None,
            },
            location,
        ),
        Expr::Match { subject, arms, location } => ExprM::MatchExpr(
            Box::new(expr_view(*subject)),
            arms_view(arms@),
            location,
        ),
        Expr::Pipeline { source, stages, location } => ExprM::Pipeline(
            Box::new(expr_view(*source)),
            exprs_view(stages@),
            location,
        ),
        Expr::Autodiff { target, body, location } => ExprM::Autodiff(
            Box::new(expr_view(*target)),
            stmts_view(body@),
            location,
        ),
        Expr::Gradient { expr, wrt, location } => ExprM::Gradient(
            Box::new(expr_view(*expr)),
            Seq::new(wrt@.len(), |i: int| wrt@[i]@),
            location,
        ),
        _ => ExprM::Other,
    }
}

/// The plain values of named expressions, such as struct literal fields.
pub open spec fn named_exprs_view(s: Seq<(String, Expr)>) -> Seq<(Seq<char>, ExprM)>
    decreases s,
{
    if s.len() == 0 {
        Seq::empty()
    } else {
        named_exprs_view(s.drop_last()).push((s.last().0@, expr_view(s.last().1)))
    }
}

/// The plain values of match arms.
pub open spec fn arms_view(s: Seq<MatchArm>) -> Seq<ArmM>
    decreases s,
{
    if s.len() == 0 {
        Seq::empty()
    } else {
        arms_view(s.drop_last()).push((
            pat_view(s.last().pattern),
            match s.last().guard {
                Some(g) => Some(expr_view(g)),
                None => None,
            },
            expr_view(s.last().body),
        ))
    }
}

/// The plain values of a list of expressions.
pub open spec fn exprs_view(s: Seq<Expr>) -> Seq<ExprM>
    decreases s,
{
    if s.len() == 0 {
        Seq::empty()
    } else {
        exprs_view(s.drop_last()).push(expr_view(s.last()))
    }
}

/// The plain values of a list of call arguments.
pub open spec fn args_view(s: Seq<(Option<String>, Expr)>) -> Seq<(Option<Seq<char>>, ExprM)>
    decreases s,
{
    if s.len() == 0 {
        Seq::empty()
    } else {
        args_view(s.drop_last()).push((name_view(s.last().0), expr_view(s.last().1)))
    }
}

/// The plain value of an optional type.
pub open spec fn opt_type_view(t: Option<TypeExpr>) -> Option<TypeM> {
    match t {
        Some(x) => Some(type_view(x)),
        None => None,
    }
}

/// A statement over plain values.
pub enum StmtM {
    Let(Seq<char>, bool, Option<TypeM>, ExprM, SourceLoc),
    ExprStmt(ExprM),
    Return(Option<ExprM>),
    If(ExprM, Seq<StmtM>, Option<Seq<StmtM>>, SourceLoc),
    For(Seq<char>, ExprM, Seq<StmtM>, SourceLoc),
    While(ExprM, Seq<StmtM>, SourceLoc),
    Break,
}

/// The plain value of a statement.
pub open spec fn stmt_view(s: Statement) -> StmtM
    decreases s,
{
    match s {
        Statement::LetBind { name, mutable, type_annotation, value, location } => StmtM::Let(
            name@,
            mutable,
            opt_type_view(type_annotation),
            expr_view(value),
            location,
        ),
        Statement::ExprStmt(e) => StmtM::ExprStmt(expr_view(e)),
        Statement::Return(e) => StmtM::Return(
            match e {
                Some(x) => Some(expr_view(x)),
                None => None,
            },
        ),
        Statement::If { condition, then_body, else_body, location } => StmtM::If(
            expr_view(condition),
            stmts_view(then_body@),
            match else_body {
                Some(b) => Some(stmts_view(b@)),
                None => None,
            },
            location,
        ),
        Statement::For { var, iter, body, location } => StmtM::For(var@, expr_view(iter), stmts_view(body@), location),
        Statement::While { condition, body, location } => StmtM::While(expr_view(condition), stmts_view(body@), location),
        Statement::Break => StmtM::Break,
    }
}

/// The plain values of a list of statements.
pub open spec fn stmts_view(s: Seq<Statement>) -> Seq<StmtM>
    decreases s,
{
    if s.len() == 0 {
        Seq::empty()
    } else {
        stmts_view(s.drop_last()).push(stmt_view(s.last()))
    }
}

/// A parameter over plain values: name, type, location.
pub type ParamM = (Seq<char>, TypeM, SourceLoc);

/// The plain values of parameters.
pub open spec fn params_view(s: Seq<Parameter>) -> Seq<ParamM> {
    Seq::new(s.len(), |i: int| (s[i].name@, type_view(s[i].type_annotation), s[i].location))
}

/// A mission over plain values: name, parameters, return type, body, location.
pub type MissionM = (Seq<char>, Seq<ParamM>, Option<TypeM>, Seq<StmtM>, SourceLoc);

/// The plain value of a mission.
pub open spec fn mission_view(m: MissionDecl) -> MissionM {
    (m.name@, params_view(m.params@), opt_type_view(m.return_type), stmts_view(m.body@), m.location)
}

/// An item of a constellation over plain values.
pub enum ConstItemM {
    Mission(MissionM),
    Export(Seq<char>),
}

/// A layer over plain values: kind, arguments, repeat count, number of nested
/// layers, location.
pub type LayerM = (Seq<char>, Seq<(Seq<char>, ExprM)>, Option<u32>, nat, SourceLoc);

/// The plain values of the arguments of a layer.
pub open spec fn layer_args_view(s: Seq<(String, Expr)>) -> Seq<(Seq<char>, ExprM)> {
    Seq::new(s.len(), |i: int| (s[i].0@, expr_view(s[i].1)))
}

/// The plain value of a layer.
pub open spec fn layer_view(l: LayerDecl) -> LayerM {
    (l.kind@, layer_args_view(l.args@), l.repeat, l.nested@.len(), l.location)
}

/// A top-level item over plain values.
pub enum ItemM {
    Mission(MissionM),
    Parallel(MissionM),
    Constellation(Seq<char>, Seq<ConstItemM>, SourceLoc),
    Model(Seq<char>, Seq<LayerM>, SourceLoc),
    Struct(Seq<char>, Seq<(Seq<char>, TypeM)>, SourceLoc),
    Enum(Seq<char>, Seq<Seq<char>>, SourceLoc),
    Unit(Seq<char>, Seq<char>, SourceLoc),
    Test(MissionM),
}

/// The plain values of the items of a constellation.
pub open spec fn citems_view(s: Seq<ConstellationItem>) -> Seq<ConstItemM> {
    Seq::new(s.len(), |i: int| match s[i] {
        ConstellationItem::MissionDecl(m) => ConstItemM::Mission(mission_view(m)),
        ConstellationItem::Export(n) => ConstItemM::Export(n@),
    })
}

/// The plain values of layers.
pub open spec fn layers_view(s: Seq<LayerDecl>) -> Seq<LayerM> {
    Seq::new(s.len(), |i: int| layer_view(s[i]))
}

/// The plain values of struct fields.
pub open spec fn fields_view(s: Seq<(String, TypeExpr)>) -> Seq<(Seq<char>, TypeM)> {
    Seq::new(s.len(), |i: int| (s[i].0@, type_view(s[i].1)))
}

/// The plain values of names.
pub open spec fn names_view(s: Seq<String>) -> Seq<Seq<char>> {
    Seq::new(s.len(), |i: int| s[i]@)
}

/// The plain value of a top-level item.
pub open spec fn item_view(it: TopLevelItem) -> ItemM {
    match it {
        TopLevelItem::MissionDecl(m) => ItemM::Mission(mission_view(m)),
        TopLevelItem::ParallelMissionDecl(m) => ItemM::Parallel(mission_view(m)),
        TopLevelItem::ConstellationDecl(c) => ItemM::Constellation(c.name@, citems_view(c.items@), c.location),
        TopLevelItem::ModelDecl(m) => ItemM::Model(m.name@, layers_view(m.layers@), m.location),
        TopLevelItem::StructDecl(d) => ItemM::Struct(d.name@, fields_view(d.fields@), d.location),
        TopLevelItem::EnumDecl(d) => ItemM::Enum(d.name@, names_view(d.variants@), d.location),
        TopLevelItem::UnitDecl(d) => ItemM::Unit(d.name@, d.definition.0@, d.location),
        TopLevelItem::TestMission(m) => ItemM::Test(mission_view(m)),
    }
}

/// The plain values of the items of a program.
pub open spec fn program_view(p: Program) -> Seq<ItemM> {
    Seq::new(p.items@.len(), |i: int| item_view(p.items@[i]))
}

} // verus!
