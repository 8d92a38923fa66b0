//! A second recursive-descent parser with a richer expression grammar:
//! lambdas (`x => e`), struct and tensor literals, `if` and `match`
//! expressions, pipelines, `autodiff` and `gradient` expressions, named
//! call arguments, `@` as its own precedence level, tensor types and layer
//! repeat counts.
//!
//! As in [`crate::frontend::parser`], the grammar is stated over the token
//! sequence by spec functions, each giving the syntax it parses (as a plain
//! value) and the position after it, or the parse error; the parser's
//! functions are proved to compute them. The token list must end with `Eof`.

use vstd::prelude::*;
use crate::frontend::ast::{
    ArmM, BinOp, ConstItemM, ConstellationDecl, ConstellationItem, EnumDecl, Expr, ExprM, ItemM,
    LayerDecl, LayerM, MatchArm, MissionDecl, MissionM, ModelDecl, ParamM, Parameter, Pattern, PatM,
    Program, Statement, StmtM, StructDecl, TopLevelItem, TypeExpr, TypeM, UnOp, UnitDecl, UnitExpr,
    args_view, arms_view, citems_view, expr_view, exprs_view, fields_view, item_view,
    layer_args_view, layer_view, layers_view, mission_view, named_exprs_view, names_view, pat_view,
    params_view, program_view, stmt_view, stmts_view, type_view, binop_symbol, unop_symbol,
};
use crate::frontend::error::{Error, ErrorKind};
use crate::frontend::lexer::{Token, TokenKind};
use crate::frontend::loc::SourceLoc;
use crate::frontend::parser::{
    PErr, additive_op, additive_op_of, and_op, and_op_of, comparison_op, comparison_op_of,
    copy_kind, ends_with_eof, expect_at, is_kind, kind_at, kind_debug, loc_of,
    next_pos, or_op, or_op_of, perr_is, power_op, power_op_of, push_kind_debug, skip_if, stuck,
    tag_of, is_text, lexes_to,
};
use crate::text::{push_str, str_to_string};

verus! {

// ── Tokens ──────────────────────────────────────────────────────────────────

/// Whether `q` is a step forward from `p` that stays within the tokens.
pub open spec fn fwd(ts: Seq<Token>, p: int, q: int) -> bool {
    p < q <= ts.len()
}

/// An identifier at `p`, or the error of expecting one.
pub open spec fn name_at(ts: Seq<Token>, p: int) -> Result<(Seq<char>, int), PErr> {
    match kind_at(ts, p) {
        TokenKind::Ident(n) => Ok((n@, next_pos(ts, p))),
        k => Err(("Expected Ident(\"\")"@ + ", got "@ + kind_debug(k), loc_of(ts, p))),
    }
}

/// The text of an identifier token; empty for other kinds.
pub open spec fn ident_text(k: TokenKind) -> Seq<char> {
    match k {
        TokenKind::Ident(n) => n@,
        _ => Seq::empty(),
    }
}

/// The first branch of an `if` statement; empty for other statements.
pub open spec fn then_branch(s: StmtM) -> Seq<StmtM> {
    match s {
        StmtM::If(_, b, _, _) => b,
        _ => Seq::empty(),
    }
}

// ── Types ───────────────────────────────────────────────────────────────────

/// The `, n` dimensions of a tensor type from `q` on, after those in `acc`;
/// `loc` is where the type starts.
pub open spec fn dims_at(ts: Seq<Token>, q: int, acc: Seq<usize>, loc: SourceLoc) -> Result<(Seq<usize>, int), PErr>
    decreases ts.len() - q,
{
    if is_kind(ts, q, TokenKind::Comma) {
        let q1 = next_pos(ts, q);
        match kind_at(ts, q1) {
            TokenKind::Integer(n) => {
                let q2 = next_pos(ts, q1);
                if fwd(ts, q, q2) {
                    dims_at(ts, q2, acc.push(n as usize), loc)
                } else {
                    Err(stuck())
                }
            },
            _ => Err(("Expected dimension in tensor type"@, loc)),
        }
    } else {
        Ok((acc, q))
    }
}

/// A type at `p`: `Float` with an optional `[unit]`, `Int`, `Bool`,
/// `String`, `Void` or `None`, `Array[T]`, `Tensor[T, n, ...]`, or a name.
pub open spec fn type_at(ts: Seq<Token>, p: int) -> Result<(TypeM, int), PErr>
    decreases ts.len() - p,
{
    let loc = loc_of(ts, p);
    let q = next_pos(ts, p);
    match kind_at(ts, p) {
        TokenKind::Ident(n) => if n@ == "Float"@ {
            if is_kind(ts, q, TokenKind::LBracket) {
                match name_at(ts, next_pos(ts, q)) {
                    Ok((u, r)) => match expect_at(ts, r, TokenKind::RBracket) {
                        Ok(r2) => Ok((TypeM::Float(Some(u)), r2)),
                        Err(e) => Err(e),
                    },
                    Err(e) => Err(e),
                }
            } else {
                Ok((TypeM::Float(None), q))
            }
        } else if n@ == "Int"@ {
            Ok((TypeM::Int, q))
        } else if n@ == "Bool"@ {
            Ok((TypeM::Bool, q))
        } else if n@ == "String"@ {
            Ok((TypeM::Str, q))
        } else if n@ == "Void"@ || n@ == "None"@ {
            Ok((TypeM::Named("Void"@), q))
        } else if n@ == "Array"@ {
            match expect_at(ts, q, TokenKind::LBracket) {
                Ok(q2) => if fwd(ts, p, q2) {
                    match type_at(ts, q2) {
                        Ok((t, q3)) => match expect_at(ts, q3, TokenKind::RBracket) {
                            Ok(q4) => Ok((TypeM::Array(Box::new(t)), q4)),
                            Err(e) => Err(e),
                        },
                        Err(e) => Err(e),
                    }
                } else {
                    Err(stuck())
                },
                Err(e) => Err(e),
            }
        } else if n@ == "Tensor"@ {
            match expect_at(ts, q, TokenKind::LBracket) {
                Ok(q2) => if fwd(ts, p, q2) {
                    match type_at(ts, q2) {
                        Ok((t, q3)) => match dims_at(ts, q3, Seq::empty(), loc) {
                            Ok((dims, q4)) => match expect_at(ts, q4, TokenKind::RBracket) {
                                Ok(q5) => Ok((TypeM::Tensor(Box::new(t), dims), q5)),
                                Err(e) => Err(e),
                            },
                            Err(e) => Err(e),
                        },
                        Err(e) => Err(e),
                    }
                } else {
                    Err(stuck())
                },
                Err(e) => Err(e),
            }
        } else {
            Ok((TypeM::Named(n@), q))
        },
        k => Err(("Expected type expression, got "@ + kind_debug(k), loc)),
    }
}

// ── Expressions ─────────────────────────────────────────────────────────────

/// The operator of the multiplicative level that token kind `k` is, if any;
/// `@` has a level of its own here.
pub open spec fn mul_op(k: TokenKind) -> Option<BinOp> {
    match k {
        TokenKind::Star => Some(BinOp::Multiply),
        TokenKind::Slash => Some(BinOp::Divide),
        TokenKind::Percent => Some(BinOp::Modulo),
        _ => None,
    }
}

/// The multiplicative and unary operators in the tree are the ones written:
/// the operator's symbol, lexed on its own, is the token it was read from.
/// (`?` reads as `Deref`, whose symbol the tree prints as `*`, so it is left
/// out of the unary part.)
pub proof fn lemma_new_operators_as_written(k: TokenKind)
    ensures
        mul_op(k) matches Some(op) ==> lexes_to(binop_symbol(op), k),
        k is At ==> lexes_to(binop_symbol(BinOp::MatMul), k),
        unary_op(k) == Some(UnOp::Negate) ==> lexes_to(unop_symbol(UnOp::Negate), k),
        unary_op(k) == Some(UnOp::Not) ==> lexes_to(unop_symbol(UnOp::Not), k),
        unary_op(k) == Some(UnOp::Deref) ==> k is Question,
{
    reveal_strlit("*");
    reveal_strlit("/");
    reveal_strlit("%");
    reveal_strlit("@");
    reveal_strlit("-");
    reveal_strlit("!");
}

/// An expression at `p`.
pub open spec fn expr_at(ts: Seq<Token>, p: int) -> Result<(ExprM, int), PErr>
    decreases ts.len() - p, 22int,
{
    pipe_at(ts, p)
}

/// The pipe level at `p`: lambdas joined by `|>` from the left.
pub open spec fn pipe_at(ts: Seq<Token>, p: int) -> Result<(ExprM, int), PErr>
    decreases ts.len() - p, 21int,
{
    match lambda_at(ts, p) {
        Ok((e, q)) => if fwd(ts, p, q) { pipe_rest(ts, q, e) } else { Err(stuck()) },
        Err(e) => Err(e),
    }
}

/// The `|>` operators from `q` on, folded into `lhs`.
pub open spec fn pipe_rest(ts: Seq<Token>, q: int, lhs: ExprM) -> Result<(ExprM, int), PErr>
    decreases ts.len() - q, 20int,
{
    if 0 <= q < ts.len() && kind_at(ts, q) is Pipe {
        let loc = loc_of(ts, q + 1);
        match lambda_at(ts, q + 1) {
            Ok((r, q2)) => if fwd(ts, q, q2) { pipe_rest(ts, q2, ExprM::Pipe(Box::new(lhs), Box::new(r), loc)) } else { Err(stuck()) },
            Err(e) => Err(e),
        }
    } else {
        Ok((lhs, q))
    }
}

/// A lambda `x => body` at `p`, or an expression of the or level.
pub open spec fn lambda_at(ts: Seq<Token>, p: int) -> Result<(ExprM, int), PErr>
    decreases ts.len() - p, 19int,
{
    if 0 <= p < ts.len() && kind_at(ts, p) is Ident && kind_at(ts, p + 1) is FatArrow {
        let q = next_pos(ts, p + 1);
        if fwd(ts, p, q) {
            match lambda_at(ts, q) {
                Ok((body, r)) => Ok((ExprM::Lambda(ident_text(kind_at(ts, p)), Box::new(body), loc_of(ts, p)), r)),
                Err(e) => Err(e),
            }
        } else {
            Err(stuck())
        }
    } else {
        or_at(ts, p)
    }
}

/// The or level at `p`.
pub open spec fn or_at(ts: Seq<Token>, p: int) -> Result<(ExprM, int), PErr>
    decreases ts.len() - p, 18int,
{
    match and_at(ts, p) {
        Ok((e, q)) => if fwd(ts, p, q) { or_rest(ts, q, e) } else { Err(stuck()) },
        Err(e) => Err(e),
    }
}

/// The `||` operators from `q` on, folded into `lhs`.
pub open spec fn or_rest(ts: Seq<Token>, q: int, lhs: ExprM) -> Result<(ExprM, int), PErr>
    decreases ts.len() - q, 17int,
{
    if 0 <= q < ts.len() && or_op(kind_at(ts, q)) is Some {
        let loc = loc_of(ts, q + 1);
        match and_at(ts, q + 1) {
            Ok((r, q2)) => if fwd(ts, q, q2) { or_rest(ts, q2, ExprM::Binary(Box::new(lhs), BinOp::Or, Box::new(r), loc)) } else { Err(stuck()) },
            Err(e) => Err(e),
        }
    } else {
        Ok((lhs, q))
    }
}

/// The and level at `p`.
pub open spec fn and_at(ts: Seq<Token>, p: int) -> Result<(ExprM, int), PErr>
    decreases ts.len() - p, 16int,
{
    match comparison_at(ts, p) {
        Ok((e, q)) => if fwd(ts, p, q) { and_rest(ts, q, e) } else { Err(stuck()) },
        Err(e) => Err(e),
    }
}

/// The `&&` operators from `q` on, folded into `lhs`.
pub open spec fn and_rest(ts: Seq<Token>, q: int, lhs: ExprM) -> Result<(ExprM, int), PErr>
    decreases ts.len() - q, 15int,
{
    if 0 <= q < ts.len() && and_op(kind_at(ts, q)) is Some {
        let loc = loc_of(ts, q + 1);
        match comparison_at(ts, q + 1) {
            Ok((r, q2)) => if fwd(ts, q, q2) { and_rest(ts, q2, ExprM::Binary(Box::new(lhs), BinOp::And, Box::new(r), loc)) } else { Err(stuck()) },
            Err(e) => Err(e),
        }
    } else {
        Ok((lhs, q))
    }
}

/// The comparison level at `p`.
pub open spec fn comparison_at(ts: Seq<Token>, p: int) -> Result<(ExprM, int), PErr>
    decreases ts.len() - p, 14int,
{
    match additive_at(ts, p) {
        Ok((e, q)) => if fwd(ts, p, q) { comparison_rest(ts, q, e) } else { Err(stuck()) },
        Err(e) => Err(e),
    }
}

/// The comparison operators from `q` on, folded into `lhs`.
pub open spec fn comparison_rest(ts: Seq<Token>, q: int, lhs: ExprM) -> Result<(ExprM, int), PErr>
    decreases ts.len() - q, 13int,
{
    if 0 <= q < ts.len() && comparison_op(kind_at(ts, q)) is Some {
        let loc = loc_of(ts, q);
        match additive_at(ts, q + 1) {
            Ok((r, q2)) => if fwd(ts, q, q2) { comparison_rest(ts, q2, ExprM::Binary(Box::new(lhs), comparison_op(kind_at(ts, q))->0, Box::new(r), loc)) } else { Err(stuck()) },
            Err(e) => Err(e),
        }
    } else {
        Ok((lhs, q))
    }
}

/// The additive level at `p`.
pub open spec fn additive_at(ts: Seq<Token>, p: int) -> Result<(ExprM, int), PErr>
    decreases ts.len() - p, 12int,
{
    match multiplicative_at(ts, p) {
        Ok((e, q)) => if fwd(ts, p, q) { additive_rest(ts, q, e) } else { Err(stuck()) },
        Err(e) => Err(e),
    }
}

/// The `+` and `-` operators from `q` on, folded into `lhs`.
pub open spec fn additive_rest(ts: Seq<Token>, q: int, lhs: ExprM) -> Result<(ExprM, int), PErr>
    decreases ts.len() - q, 11int,
{
    if 0 <= q < ts.len() && additive_op(kind_at(ts, q)) is Some {
        let loc = loc_of(ts, q);
        match multiplicative_at(ts, q + 1) {
            Ok((r, q2)) => if fwd(ts, q, q2) { additive_rest(ts, q2, ExprM::Binary(Box::new(lhs), additive_op(kind_at(ts, q))->0, Box::new(r), loc)) } else { Err(stuck()) },
            Err(e) => Err(e),
        }
    } else {
        Ok((lhs, q))
    }
}

/// The multiplicative level at `p`.
pub open spec fn multiplicative_at(ts: Seq<Token>, p: int) -> Result<(ExprM, int), PErr>
    decreases ts.len() - p, 10int,
{
    match matmul_at(ts, p) {
        Ok((e, q)) => if fwd(ts, p, q) { multiplicative_rest(ts, q, e) } else { Err(stuck()) },
        Err(e) => Err(e),
    }
}

/// The `*`, `/` and `%` operators from `q` on, folded into `lhs`.
pub open spec fn multiplicative_rest(ts: Seq<Token>, q: int, lhs: ExprM) -> Result<(ExprM, int), PErr>
    decreases ts.len() - q, 9int,
{
    if 0 <= q < ts.len() && mul_op(kind_at(ts, q)) is Some {
        let loc = loc_of(ts, q);
        match matmul_at(ts, q + 1) {
            Ok((r, q2)) => if fwd(ts, q, q2) { multiplicative_rest(ts, q2, ExprM::Binary(Box::new(lhs), mul_op(kind_at(ts, q))->0, Box::new(r), loc)) } else { Err(stuck()) },
            Err(e) => Err(e),
        }
    } else {
        Ok((lhs, q))
    }
}

/// The matrix-product level at `p`.
pub open spec fn matmul_at(ts: Seq<Token>, p: int) -> Result<(ExprM, int), PErr>
    decreases ts.len() - p, 8int,
{
    match power_at(ts, p) {
        Ok((e, q)) => if fwd(ts, p, q) { matmul_rest(ts, q, e) } else { Err(stuck()) },
        Err(e) => Err(e),
    }
}

/// The `@` operators from `q` on, folded into `lhs`.
pub open spec fn matmul_rest(ts: Seq<Token>, q: int, lhs: ExprM) -> Result<(ExprM, int), PErr>
    decreases ts.len() - q, 7int,
{
    if 0 <= q < ts.len() && kind_at(ts, q) is At {
        let loc = loc_of(ts, q + 1);
        match power_at(ts, q + 1) {
            Ok((r, q2)) => if fwd(ts, q, q2) { matmul_rest(ts, q2, ExprM::Binary(Box::new(lhs), BinOp::MatMul, Box::new(r), loc)) } else { Err(stuck()) },
            Err(e) => Err(e),
        }
    } else {
        Ok((lhs, q))
    }
}

/// The power level at `p`.
pub open spec fn power_at(ts: Seq<Token>, p: int) -> Result<(ExprM, int), PErr>
    decreases ts.len() - p, 6int,
{
    match unary_at(ts, p) {
        Ok((e, q)) => if fwd(ts, p, q) { power_rest(ts, q, e) } else { Err(stuck()) },
        Err(e) => Err(e),
    }
}

/// The `^` operators from `q` on, folded into `lhs`.
pub open spec fn power_rest(ts: Seq<Token>, q: int, lhs: ExprM) -> Result<(ExprM, int), PErr>
    decreases ts.len() - q, 5int,
{
    if 0 <= q < ts.len() && power_op(kind_at(ts, q)) is Some {
        let loc = loc_of(ts, q + 1);
        match unary_at(ts, q + 1) {
            Ok((r, q2)) => if fwd(ts, q, q2) { power_rest(ts, q2, ExprM::Binary(Box::new(lhs), BinOp::Power, Box::new(r), loc)) } else { Err(stuck()) },
            Err(e) => Err(e),
        }
    } else {
        Ok((lhs, q))
    }
}

/// The unary operator that token kind `k` is, if any.
pub open spec fn unary_op(k: TokenKind) -> Option<UnOp> {
    match k {
        TokenKind::Minus => Some(UnOp::Negate),
        TokenKind::Not => Some(UnOp::Not),
        TokenKind::Question => Some(UnOp::Deref),
        _ => None,
    }
}

/// A unary expression at `p`: `-`, `!` or `?` before a unary expression, or
/// a postfix expression.
pub open spec fn unary_at(ts: Seq<Token>, p: int) -> Result<(ExprM, int), PErr>
    decreases ts.len() - p, 4int,
{
    if 0 <= p < ts.len() && unary_op(kind_at(ts, p)) is Some {
        match unary_at(ts, p + 1) {
            Ok((e, q)) => Ok((ExprM::Unary(unary_op(kind_at(ts, p))->0, Box::new(e), loc_of(ts, p)), q)),
            Err(e) => Err(e),
        }
    } else {
        postfix_at(ts, p)
    }
}

/// A postfix expression at `p`: a primary followed by calls, fields and
/// indexes.
pub open spec fn postfix_at(ts: Seq<Token>, p: int) -> Result<(ExprM, int), PErr>
    decreases ts.len() - p, 3int,
{
    match primary_at(ts, p) {
        Ok((e, q)) => if fwd(ts, p, q) { postfix_rest(ts, q, e) } else { Err(stuck()) },
        Err(e) => Err(e),
    }
}

/// The calls, fields and indexes from `q` on, applied to `lhs`.
pub open spec fn postfix_rest(ts: Seq<Token>, q: int, lhs: ExprM) -> Result<(ExprM, int), PErr>
    decreases ts.len() - q, 2int,
{
    let loc = loc_of(ts, q);
    if 0 <= q < ts.len() && kind_at(ts, q) is LParen {
        match call_args(ts, q + 1, Seq::empty()) {
            Ok((args, r)) => match expect_at(ts, r, TokenKind::RParen) {
                Ok(r2) => if fwd(ts, q, r2) {
                    postfix_rest(ts, r2, ExprM::Call(Box::new(lhs), args, loc))
                } else {
                    Err(stuck())
                },
                Err(e) => Err(e),
            },
            Err(e) => Err(e),
        }
    } else if 0 <= q < ts.len() && kind_at(ts, q) is Dot {
        match name_at(ts, q + 1) {
            Ok((f, r)) => if fwd(ts, q, r) {
                postfix_rest(ts, r, ExprM::Field(Box::new(lhs), f, loc))
            } else {
                Err(stuck())
            },
            Err(e) => Err(e),
        }
    } else if 0 <= q < ts.len() && kind_at(ts, q) is LBracket {
        match expr_at(ts, q + 1) {
            Ok((i, r)) => match expect_at(ts, r, TokenKind::RBracket) {
                Ok(r2) => if fwd(ts, q, r2) {
                    postfix_rest(ts, r2, ExprM::Index(Box::new(lhs), Box::new(i), loc))
                } else {
                    Err(stuck())
                },
                Err(e) => Err(e),
            },
            Err(e) => Err(e),
        }
    } else {
        Ok((lhs, q))
    }
}

/// The arguments of a call from `q` on, after those in `acc`: `name: e` or
/// `e`, each a lambda-level expression, separated by commas, up to `)`.
pub open spec fn call_args(ts: Seq<Token>, q: int, acc: Seq<(Option<Seq<char>>, ExprM)>) -> Result<
    (Seq<(Option<Seq<char>>, ExprM)>, int),
    PErr,
>
    decreases ts.len() - q, 23int,
{
    if is_kind(ts, q, TokenKind::RParen) {
        Ok((acc, q))
    } else {
        let named = 0 <= q < ts.len() && kind_at(ts, q) is Ident && kind_at(ts, q + 1) is Colon;
        let start = if named { next_pos(ts, q + 1) } else { q };
        let label = if named { Some(ident_text(kind_at(ts, q))) } else { None };
        if q <= start <= ts.len() {
            match lambda_at(ts, start) {
                Ok((e, r)) => {
                    let acc2 = acc.push((label, e));
                    if is_kind(ts, r, TokenKind::Comma) {
                        if fwd(ts, q, next_pos(ts, r)) {
                            call_args(ts, next_pos(ts, r), acc2)
                        } else {
                            Err(stuck())
                        }
                    } else {
                        Ok((acc2, r))
                    }
                },
                Err(e) => Err(e),
            }
        } else {
            Err(stuck())
        }
    }
}

/// Expressions separated by commas from `q` on, after those in `acc`, up to
/// a token of kind `close`.
pub open spec fn expr_list(ts: Seq<Token>, q: int, acc: Seq<ExprM>, close: TokenKind) -> Result<(Seq<ExprM>, int), PErr>
    decreases ts.len() - q, 23int,
{
    if is_kind(ts, q, close) {
        Ok((acc, q))
    } else {
        match expr_at(ts, q) {
            Ok((e, r)) => {
                let acc2 = acc.push(e);
                if is_kind(ts, r, TokenKind::Comma) {
                    if fwd(ts, q, next_pos(ts, r)) {
                        expr_list(ts, next_pos(ts, r), acc2, close)
                    } else {
                        Err(stuck())
                    }
                } else {
                    Ok((acc2, r))
                }
            },
            Err(e) => Err(e),
        }
    }
}

/// The fields `name: e` of a struct literal from `q` on, after those in
/// `acc`, separated by commas, up to `}`.
pub open spec fn field_inits(ts: Seq<Token>, q: int, acc: Seq<(Seq<char>, ExprM)>) -> Result<(Seq<(Seq<char>, ExprM)>, int), PErr>
    decreases ts.len() - q, 23int,
{
    if is_kind(ts, q, TokenKind::RBrace) {
        Ok((acc, q))
    } else {
        match name_at(ts, q) {
            Ok((n, q1)) => match expect_at(ts, q1, TokenKind::Colon) {
                Ok(q2) => if fwd(ts, q, q2) {
                    match expr_at(ts, q2) {
                        Ok((e, r)) => {
                            let acc2 = acc.push((n, e));
                            if is_kind(ts, r, TokenKind::Comma) {
                                if fwd(ts, q, next_pos(ts, r)) {
                                    field_inits(ts, next_pos(ts, r), acc2)
                                } else {
                                    Err(stuck())
                                }
                            } else {
                                Ok((acc2, r))
                            }
                        },
                        Err(e) => Err(e),
                    }
                } else {
                    Err(stuck())
                },
                Err(e) => Err(e),
            },
            Err(e) => Err(e),
        }
    }
}

/// A match arm at `p`: a name, `=>`, an expression, an optional comma.
pub open spec fn arm_at(ts: Seq<Token>, p: int) -> Result<(ArmM, int), PErr>
    decreases ts.len() - p, 23int,
{
    match kind_at(ts, p) {
        TokenKind::Ident(n) => match expect_at(ts, next_pos(ts, p), TokenKind::FatArrow) {
            Ok(q) => if fwd(ts, p, q) {
                match expr_at(ts, q) {
                    Ok((body, r)) => Ok(((PatM::Ident(n@), None, body), skip_if(ts, r, TokenKind::Comma))),
                    Err(e) => Err(e),
                }
            } else {
                Err(stuck())
            },
            Err(e) => Err(e),
        },
        _ => Err(("Expected pattern"@, loc_of(ts, p))),
    }
}

/// The arms of a match from `q` on, after those in `acc`, up to `}`.
pub open spec fn arms_at(ts: Seq<Token>, q: int, acc: Seq<ArmM>) -> Result<(Seq<ArmM>, int), PErr>
    decreases ts.len() - q, 24int,
{
    if is_kind(ts, q, TokenKind::RBrace) {
        Ok((acc, q))
    } else {
        match arm_at(ts, q) {
            Ok((a, r)) => if fwd(ts, q, r) { arms_at(ts, r, acc.push(a)) } else { Err(stuck()) },
            Err(e) => Err(e),
        }
    }
}

/// The names after `wrt` in a gradient from `q` on, after those in `acc`.
pub open spec fn wrt_names(ts: Seq<Token>, q: int, acc: Seq<Seq<char>>) -> Result<(Seq<Seq<char>>, int), PErr>
    decreases ts.len() - q,
{
    match name_at(ts, q) {
        Ok((n, r)) => if is_kind(ts, r, TokenKind::Comma) {
            if fwd(ts, q, next_pos(ts, r)) {
                wrt_names(ts, next_pos(ts, r), acc.push(n))
            } else {
                Err(stuck())
            }
        } else {
            Ok((acc.push(n), r))
        },
        Err(e) => Err(e),
    }
}

/// `{ block }` at `p`.
pub open spec fn braced_at(ts: Seq<Token>, p: int) -> Result<(Seq<StmtM>, int), PErr>
    decreases ts.len() - p, 28int,
{
    match expect_at(ts, p, TokenKind::LBrace) {
        Ok(q) => if fwd(ts, p, q) {
            match block_at(ts, q, Seq::empty()) {
                Ok((b, r)) => match expect_at(ts, r, TokenKind::RBrace) {
                    Ok(r2) => Ok((b, r2)),
                    Err(e) => Err(e),
                },
                Err(e) => Err(e),
            }
        } else {
            Err(stuck())
        },
        Err(e) => Err(e),
    }
}

/// An `if` expression after its `if` at `q`; `loc` is where it starts. Its
/// branch bodies are parsed and stand as `true`; an `else if` is parsed as
/// a primary expression.
pub open spec fn if_expr_at(ts: Seq<Token>, q: int, loc: SourceLoc) -> Result<(ExprM, int), PErr>
    decreases ts.len() - q, 25int,
{
    match expr_at(ts, q) {
        Ok((c, q1)) => if fwd(ts, q, q1) {
            match braced_at(ts, q1) {
                Ok((_b, q2)) => if is_kind(ts, q2, TokenKind::Else) {
                    let q3 = next_pos(ts, q2);
                    if fwd(ts, q, q3) {
                        if is_kind(ts, q3, TokenKind::If) {
                            match primary_at(ts, q3) {
                                Ok((e, r)) => Ok((ExprM::IfExpr(Box::new(c), Box::new(ExprM::Bool(true)), Some(Box::new(e)), loc), r)),
                                Err(e) => Err(e),
                            }
                        } else {
                            match braced_at(ts, q3) {
                                Ok((_e, r)) => Ok((
                                    ExprM::IfExpr(Box::new(c), Box::new(ExprM::Bool(true)), Some(Box::new(ExprM::Bool(true))), loc),
                                    r,
                                )),
                                Err(e) => Err(e),
                            }
                        }
                    } else {
                        Err(stuck())
                    }
                } else {
                    Ok((ExprM::IfExpr(Box::new(c), Box::new(ExprM::Bool(true)), None, loc), q2))
                },
                Err(e) => Err(e),
            }
        } else {
            Err(stuck())
        },
        Err(e) => Err(e),
    }
}

/// The optional `, wrt x, ...` of a gradient at `q`.
pub open spec fn wrt_clause(ts: Seq<Token>, q: int) -> Result<(Seq<Seq<char>>, int), PErr> {
    if is_kind(ts, q, TokenKind::Comma) {
        match expect_at(ts, next_pos(ts, q), TokenKind::Wrt) {
            Ok(q1) => wrt_names(ts, q1, Seq::empty()),
            Err(e) => Err(e),
        }
    } else {
        Ok((Seq::<Seq<char>>::empty(), q))
    }
}

/// A gradient after its `gradient` at `q`: `(e)` or `(e, wrt x, ...)`.
pub open spec fn gradient_at(ts: Seq<Token>, q: int, loc: SourceLoc) -> Result<(ExprM, int), PErr>
    decreases ts.len() - q, 25int,
{
    match expect_at(ts, q, TokenKind::LParen) {
        Ok(q1) => if fwd(ts, q, q1) {
            match expr_at(ts, q1) {
                Ok((e, q2)) => match wrt_clause(ts, q2) {
                    Ok((names, q4)) => match expect_at(ts, q4, TokenKind::RParen) {
                        Ok(r) => Ok((ExprM::Gradient(Box::new(e), names, loc), r)),
                        Err(err) => Err(err),
                    },
                    Err(err) => Err(err),
                },
                Err(e) => Err(e),
            }
        } else {
            Err(stuck())
        },
        Err(e) => Err(e),
    }
}

/// A struct literal after its `{` at `q`.
pub open spec fn struct_lit_at(ts: Seq<Token>, q: int, loc: SourceLoc) -> Result<(ExprM, int), PErr>
    decreases ts.len() - q, 25int,
{
    match field_inits(ts, q, Seq::empty()) {
        Ok((fields, r)) => match expect_at(ts, r, TokenKind::RBrace) {
            Ok(r2) => Ok((ExprM::StructLit(None, fields, loc), r2)),
            Err(e) => Err(e),
        },
        Err(e) => Err(e),
    }
}

/// A tensor literal after its `[` at `q`.
pub open spec fn tensor_lit_at(ts: Seq<Token>, q: int, loc: SourceLoc) -> Result<(ExprM, int), PErr>
    decreases ts.len() - q, 25int,
{
    match expr_list(ts, q, Seq::empty(), TokenKind::RBracket) {
        Ok((elems, r)) => match expect_at(ts, r, TokenKind::RBracket) {
            Ok(r2) => Ok((ExprM::TensorLit(elems, loc), r2)),
            Err(e) => Err(e),
        },
        Err(e) => Err(e),
    }
}

/// A match expression after its `match` at `q`.
pub open spec fn match_at(ts: Seq<Token>, q: int, loc: SourceLoc) -> Result<(ExprM, int), PErr>
    decreases ts.len() - q, 25int,
{
    match expr_at(ts, q) {
        Ok((s, q1)) => match expect_at(ts, q1, TokenKind::LBrace) {
            Ok(q2) => if fwd(ts, q, q2) {
                match arms_at(ts, q2, Seq::empty()) {
                    Ok((arms, r)) => match expect_at(ts, r, TokenKind::RBrace) {
                        Ok(r2) => Ok((ExprM::MatchExpr(Box::new(s), arms, loc), r2)),
                        Err(e) => Err(e),
                    },
                    Err(e) => Err(e),
                }
            } else {
                Err(stuck())
            },
            Err(e) => Err(e),
        },
        Err(e) => Err(e),
    }
}

/// The arguments of `transmit` after the keyword at `q`: `( e, ... )`.
pub open spec fn transmit_at(ts: Seq<Token>, q: int, loc: SourceLoc) -> Result<(ExprM, int), PErr>
    decreases ts.len() - q, 25int,
{
    match expect_at(ts, q, TokenKind::LParen) {
        Ok(q1) => if fwd(ts, q, q1) {
            match expr_list(ts, q1, Seq::empty(), TokenKind::RParen) {
                Ok((args, r)) => match expect_at(ts, r, TokenKind::RParen) {
                    Ok(r2) => Ok((ExprM::Transmit(args, loc), r2)),
                    Err(e) => Err(e),
                },
                Err(e) => Err(e),
            }
        } else {
            Err(stuck())
        },
        Err(e) => Err(e),
    }
}

/// The stages of `pipeline` after the keyword at `q`: `[ e, ... ]`; its
/// source stands as the name `_`.
pub open spec fn pipeline_at(ts: Seq<Token>, q: int, loc: SourceLoc) -> Result<(ExprM, int), PErr>
    decreases ts.len() - q, 25int,
{
    match expect_at(ts, q, TokenKind::LBracket) {
        Ok(q1) => if fwd(ts, q, q1) {
            match expr_list(ts, q1, Seq::empty(), TokenKind::RBracket) {
                Ok((stages, r)) => match expect_at(ts, r, TokenKind::RBracket) {
                    Ok(r2) => Ok((ExprM::Pipeline(Box::new(ExprM::Ident("_"@)), stages, loc), r2)),
                    Err(e) => Err(e),
                },
                Err(e) => Err(e),
            }
        } else {
            Err(stuck())
        },
        Err(e) => Err(e),
    }
}

/// An autodiff block after its keyword at `q`: `(target) { body }`.
pub open spec fn autodiff_at(ts: Seq<Token>, q: int, loc: SourceLoc) -> Result<(ExprM, int), PErr>
    decreases ts.len() - q, 25int,
{
    match expect_at(ts, q, TokenKind::LParen) {
        Ok(q1) => if fwd(ts, q, q1) {
            match expr_at(ts, q1) {
                Ok((t, q2)) => match expect_at(ts, q2, TokenKind::RParen) {
                    Ok(q3) => if fwd(ts, q, q3) {
                        match braced_at(ts, q3) {
                            Ok((body, r)) => Ok((ExprM::Autodiff(Box::new(t), body, loc), r)),
                            Err(e) => Err(e),
                        }
                    } else {
                        Err(stuck())
                    },
                    Err(e) => Err(e),
                },
                Err(e) => Err(e),
            }
        } else {
            Err(stuck())
        },
        Err(e) => Err(e),
    }
}

/// A primary expression at `p`: a literal, a name, `(e)`, a struct literal
/// `{ ... }`, a tensor literal `[ ... ]`, an `if` or `match` expression,
/// `transmit(...)`, `pipeline[...]`, `autodiff(e) { ... }` or `gradient(...)`.
pub open spec fn primary_at(ts: Seq<Token>, p: int) -> Result<(ExprM, int), PErr>
    decreases ts.len() - p, 1int,
{
    let loc = loc_of(ts, p);
    let q = next_pos(ts, p);
    if !fwd(ts, p, q) {
        Err(("Unexpected token in expression: "@ + kind_debug(kind_at(ts, p)), loc))
    } else {
        match kind_at(ts, p) {
            TokenKind::Integer(n) => Ok((ExprM::Integer(n), q)),
            TokenKind::Float(t) => Ok((ExprM::Float(t@), q)),
            TokenKind::UnitAnnotatedFloat { value, unit } => Ok((ExprM::UnitFloat(value@, unit@), q)),
            TokenKind::String(t) => Ok((ExprM::Str(t@), q)),
            TokenKind::Bool(b) => Ok((ExprM::Bool(b), q)),
            TokenKind::Ident(n) => Ok((ExprM::Ident(n@), q)),
            TokenKind::LParen => match expr_at(ts, q) {
                Ok((e, r)) => match expect_at(ts, r, TokenKind::RParen) {
                    Ok(r2) => Ok((e, r2)),
                    Err(e) => Err(e),
                },
                Err(e) => Err(e),
            },
            TokenKind::LBrace => struct_lit_at(ts, q, loc),
            TokenKind::LBracket => tensor_lit_at(ts, q, loc),
            TokenKind::If => if_expr_at(ts, q, loc),
            TokenKind::Match => match_at(ts, q, loc),
            TokenKind::Transmit => transmit_at(ts, q, loc),
            TokenKind::Pipeline => pipeline_at(ts, q, loc),
            TokenKind::Autodiff => autodiff_at(ts, q, loc),
            TokenKind::Gradient => gradient_at(ts, q, loc),
            k => Err(("Unexpected token in expression: "@ + kind_debug(k), loc)),
        }
    }
}

// ── Statements ──────────────────────────────────────────────────────────────

/// The statements from `q` on, after those in `acc`, up to `}` or the end.
pub open spec fn block_at(ts: Seq<Token>, q: int, acc: Seq<StmtM>) -> Result<(Seq<StmtM>, int), PErr>
    decreases ts.len() - q, 31int,
{
    if is_kind(ts, q, TokenKind::RBrace) || is_kind(ts, q, TokenKind::Eof) {
        Ok((acc, q))
    } else {
        match stmt_at(ts, q) {
            Ok((s, r)) => if fwd(ts, q, r) { block_at(ts, r, acc.push(s)) } else { Err(stuck()) },
            Err(e) => Err(e),
        }
    }
}

/// A `let` or `var` binding after its keyword at `q`.
pub open spec fn let_at(ts: Seq<Token>, q: int, mutable: bool, loc: SourceLoc) -> Result<(StmtM, int), PErr>
    decreases ts.len() - q, 29int,
{
    match name_at(ts, q) {
        Ok((name, q1)) => {
            let ty = if is_kind(ts, q1, TokenKind::Colon) {
                if fwd(ts, q, next_pos(ts, q1)) {
                    match type_at(ts, next_pos(ts, q1)) {
                        Ok((t, r)) => Ok((Some(t), r)),
                        Err(e) => Err(e),
                    }
                } else {
                    Err(stuck())
                }
            } else {
                Ok((None::<TypeM>, q1))
            };
            match ty {
                Ok((t, q2)) => match expect_at(ts, q2, TokenKind::Equals) {
                    Ok(q3) => if fwd(ts, q, q3) {
                        match expr_at(ts, q3) {
                            Ok((v, r)) => Ok((StmtM::Let(name, mutable, t, v, loc), skip_if(ts, r, TokenKind::Semicolon))),
                            Err(e) => Err(e),
                        }
                    } else {
                        Err(stuck())
                    },
                    Err(e) => Err(e),
                },
                Err(e) => Err(e),
            }
        },
        Err(e) => Err(e),
    }
}

/// An `if` statement after its `if` at `q`. After `else`, an `if` is
/// parsed by this same rule from the `if` token on, so that its condition
/// is an `if` expression; the nested statement's first branch becomes the
/// else body.
pub open spec fn if_stmt_at(ts: Seq<Token>, q: int, loc: SourceLoc) -> Result<(StmtM, int), PErr>
    decreases ts.len() - q, 29int,
{
    match expr_at(ts, q) {
        Ok((c, q1)) => if fwd(ts, q, q1) {
            match braced_at(ts, q1) {
                Ok((then_body, q2)) => if is_kind(ts, q2, TokenKind::Else) {
                    let q3 = next_pos(ts, q2);
                    if fwd(ts, q, q3) {
                        if is_kind(ts, q3, TokenKind::If) {
                            match if_stmt_at(ts, q3, loc_of(ts, q3)) {
                                Ok((s, r)) => Ok((StmtM::If(c, then_body, Some(then_branch(s)), loc), r)),
                                Err(e) => Err(e),
                            }
                        } else {
                            match braced_at(ts, q3) {
                                Ok((b, r)) => Ok((StmtM::If(c, then_body, Some(b), loc), r)),
                                Err(e) => Err(e),
                            }
                        }
                    } else {
                        Err(stuck())
                    }
                } else {
                    Ok((StmtM::If(c, then_body, None, loc), q2))
                },
                Err(e) => Err(e),
            }
        } else {
            Err(stuck())
        },
        Err(e) => Err(e),
    }
}

/// A `for` statement after its `for` at `q`.
pub open spec fn for_at(ts: Seq<Token>, q: int, loc: SourceLoc) -> Result<(StmtM, int), PErr>
    decreases ts.len() - q, 29int,
{
    match name_at(ts, q) {
        Ok((v, q1)) => match expect_at(ts, q1, TokenKind::In) {
            Ok(q2) => if fwd(ts, q, q2) {
                match expr_at(ts, q2) {
                    Ok((it, q3)) => if fwd(ts, q, q3) {
                        match braced_at(ts, q3) {
                            Ok((body, r)) => Ok((StmtM::For(v, it, body, loc), r)),
                            Err(e) => Err(e),
                        }
                    } else {
                        Err(stuck())
                    },
                    Err(e) => Err(e),
                }
            } else {
                Err(stuck())
            },
            Err(e) => Err(e),
        },
        Err(e) => Err(e),
    }
}

/// A `while` statement after its `while` at `q`.
pub open spec fn while_at(ts: Seq<Token>, q: int, loc: SourceLoc) -> Result<(StmtM, int), PErr>
    decreases ts.len() - q, 29int,
{
    match expr_at(ts, q) {
        Ok((c, q1)) => if fwd(ts, q, q1) {
            match braced_at(ts, q1) {
                Ok((body, r)) => Ok((StmtM::While(c, body, loc), r)),
                Err(e) => Err(e),
            }
        } else {
            Err(stuck())
        },
        Err(e) => Err(e),
    }
}

/// Whether the token at `q` ends a `return` with no value.
pub open spec fn ends_return(ts: Seq<Token>, q: int) -> bool {
    is_kind(ts, q, TokenKind::RBrace) || is_kind(ts, q, TokenKind::Semicolon) || is_kind(ts, q, TokenKind::Eof)
}

/// A statement at `p`.
pub open spec fn stmt_at(ts: Seq<Token>, p: int) -> Result<(StmtM, int), PErr>
    decreases ts.len() - p, 30int,
{
    let loc = loc_of(ts, p);
    let k = kind_at(ts, p);
    if 0 <= p < ts.len() && (k is Let || k is Var) {
        let_at(ts, p + 1, k is Var, loc)
    } else if 0 <= p < ts.len() && k is If {
        if_stmt_at(ts, p + 1, loc)
    } else if 0 <= p < ts.len() && k is For {
        for_at(ts, p + 1, loc)
    } else if 0 <= p < ts.len() && k is While {
        while_at(ts, p + 1, loc)
    } else if 0 <= p < ts.len() && k is Return {
        if ends_return(ts, p + 1) {
            Ok((StmtM::Return(None), skip_if(ts, p + 1, TokenKind::Semicolon)))
        } else {
            match expr_at(ts, p + 1) {
                Ok((e, r)) => Ok((StmtM::Return(Some(e)), skip_if(ts, r, TokenKind::Semicolon))),
                Err(e) => Err(e),
            }
        }
    } else if 0 <= p < ts.len() && k is Break {
        Ok((StmtM::Break, skip_if(ts, p + 1, TokenKind::Semicolon)))
    } else {
        match expr_at(ts, p) {
            Ok((e, r)) => Ok((StmtM::ExprStmt(e), skip_if(ts, r, TokenKind::Semicolon))),
            Err(e) => Err(e),
        }
    }
}

// ── Declarations ────────────────────────────────────────────────────────────

/// The parameters of a mission from `q` on, after those in `acc`.
pub open spec fn params_at(ts: Seq<Token>, q: int, acc: Seq<ParamM>) -> Result<(Seq<ParamM>, int), PErr>
    decreases ts.len() - q,
{
    if is_kind(ts, q, TokenKind::RParen) {
        Ok((acc, q))
    } else {
        let loc = loc_of(ts, q);
        match name_at(ts, q) {
            Ok((name, q1)) => match expect_at(ts, q1, TokenKind::Colon) {
                Ok(q2) => match type_at(ts, q2) {
                    Ok((t, r)) => {
                        let acc2 = acc.push((name, t, loc));
                        if is_kind(ts, r, TokenKind::Comma) {
                            if fwd(ts, q, next_pos(ts, r)) {
                                params_at(ts, next_pos(ts, r), acc2)
                            } else {
                                Err(stuck())
                            }
                        } else {
                            Ok((acc2, r))
                        }
                    },
                    Err(e) => Err(e),
                },
                Err(e) => Err(e),
            },
            Err(e) => Err(e),
        }
    }
}

/// A mission from its name at `p`: parameters, an optional return type
/// after `→` or after any identifier, and a braced body.
pub open spec fn mission_at(ts: Seq<Token>, p: int) -> Result<(MissionM, int), PErr> {
    let loc = loc_of(ts, p);
    match name_at(ts, p) {
        Ok((name, q)) => match expect_at(ts, q, TokenKind::LParen) {
            Ok(q2) => match params_at(ts, q2, Seq::empty()) {
                Ok((params, q3)) => match expect_at(ts, q3, TokenKind::RParen) {
                    Ok(q4) => {
                        let ret = if kind_at(ts, q4) is Arrow || kind_at(ts, q4) is Ident {
                            match type_at(ts, next_pos(ts, q4)) {
                                Ok((t, r)) => Ok((Some(t), r)),
                                Err(e) => Err(e),
                            }
                        } else {
                            Ok((None::<TypeM>, q4))
                        };
                        match ret {
                            Ok((rt, q5)) => match braced_at(ts, q5) {
                                Ok((body, r)) => Ok(((name, params, rt, body, loc), r)),
                                Err(e) => Err(e),
                            },
                            Err(e) => Err(e),
                        }
                    },
                    Err(e) => Err(e),
                },
                Err(e) => Err(e),
            },
            Err(e) => Err(e),
        },
        Err(e) => Err(e),
    }
}

/// The items of a constellation from `q` on, after those in `acc`, up to
/// `}`; `loc` is where the constellation's name is.
pub open spec fn const_items(ts: Seq<Token>, q: int, acc: Seq<ConstItemM>, loc: SourceLoc) -> Result<(Seq<ConstItemM>, int), PErr>
    decreases ts.len() - q,
{
    if is_kind(ts, q, TokenKind::RBrace) {
        Ok((acc, q))
    } else if 0 <= q < ts.len() && kind_at(ts, q) is Export {
        match name_at(ts, q + 1) {
            Ok((n, r)) => {
                let r2 = skip_if(ts, r, TokenKind::Semicolon);
                if fwd(ts, q, r2) {
                    const_items(ts, r2, acc.push(ConstItemM::Export(n)), loc)
                } else {
                    Err(stuck())
                }
            },
            Err(e) => Err(e),
        }
    } else if 0 <= q < ts.len() && kind_at(ts, q) is Mission {
        match mission_at(ts, q + 1) {
            Ok((m, r)) => if fwd(ts, q, r) {
                const_items(ts, r, acc.push(ConstItemM::Mission(m)), loc)
            } else {
                Err(stuck())
            },
            Err(e) => Err(e),
        }
    } else {
        Err(("Expected mission or export in constellation"@, loc))
    }
}

/// The `name = e` arguments of a layer from `q` on, after those in `acc`.
pub open spec fn layer_args_at(ts: Seq<Token>, q: int, acc: Seq<(Seq<char>, ExprM)>) -> Result<(Seq<(Seq<char>, ExprM)>, int), PErr>
    decreases ts.len() - q,
{
    if is_kind(ts, q, TokenKind::RParen) {
        Ok((acc, q))
    } else {
        match name_at(ts, q) {
            Ok((n, q1)) => match expect_at(ts, q1, TokenKind::Equals) {
                Ok(q2) => match expr_at(ts, q2) {
                    Ok((e, r)) => {
                        let acc2 = acc.push((n, e));
                        if is_kind(ts, r, TokenKind::Comma) {
                            if fwd(ts, q, next_pos(ts, r)) {
                                layer_args_at(ts, next_pos(ts, r), acc2)
                            } else {
                                Err(stuck())
                            }
                        } else {
                            Ok((acc2, r))
                        }
                    },
                    Err(e) => Err(e),
                },
                Err(e) => Err(e),
            },
            Err(e) => Err(e),
        }
    }
}

/// The repeat count of a layer after its arguments' `)` at `q`:
/// `repeat(n)`, or none.
pub open spec fn repeat_at(ts: Seq<Token>, q: int, loc: SourceLoc) -> Result<(Option<u32>, int), PErr> {
    if is_kind(ts, q, TokenKind::Repeat) {
        match expect_at(ts, next_pos(ts, q), TokenKind::LParen) {
            Ok(q1) => match kind_at(ts, q1) {
                TokenKind::Integer(n) => match expect_at(ts, next_pos(ts, q1), TokenKind::RParen) {
                    Ok(r) => Ok((Some(n as u32), r)),
                    Err(e) => Err(e),
                },
                _ => Err(("Expected repeat count"@, loc)),
            },
            Err(e) => Err(e),
        }
    } else {
        Ok((None, q))
    }
}

/// A layer at `p`: `layer kind(args)`, an optional repeat count and an
/// optional semicolon.
pub open spec fn layer_at(ts: Seq<Token>, p: int) -> Result<(LayerM, int), PErr> {
    let loc = loc_of(ts, p);
    match expect_at(ts, p, TokenKind::Layer) {
        Ok(q) => match name_at(ts, q) {
            Ok((kind, q1)) => match expect_at(ts, q1, TokenKind::LParen) {
                Ok(q2) => match layer_args_at(ts, q2, Seq::empty()) {
                    Ok((args, q3)) => match expect_at(ts, q3, TokenKind::RParen) {
                        Ok(q4) => match repeat_at(ts, q4, loc) {
                            Ok((rep, q5)) => Ok(((kind, args, rep, 0, loc), skip_if(ts, q5, TokenKind::Semicolon))),
                            Err(e) => Err(e),
                        },
                        Err(e) => Err(e),
                    },
                    Err(e) => Err(e),
                },
                Err(e) => Err(e),
            },
            Err(e) => Err(e),
        },
        Err(e) => Err(e),
    }
}

/// The layers of a model from `q` on, after those in `acc`, up to `}`.
pub open spec fn layers_at(ts: Seq<Token>, q: int, acc: Seq<LayerM>) -> Result<(Seq<LayerM>, int), PErr>
    decreases ts.len() - q,
{
    if is_kind(ts, q, TokenKind::RBrace) {
        Ok((acc, q))
    } else {
        match layer_at(ts, q) {
            Ok((l, r)) => if fwd(ts, q, r) { layers_at(ts, r, acc.push(l)) } else { Err(stuck()) },
            Err(e) => Err(e),
        }
    }
}

/// The fields `name: T` of a struct from `q` on, after those in `acc`,
/// separated by commas, up to `}`.
pub open spec fn fields_at(ts: Seq<Token>, q: int, acc: Seq<(Seq<char>, TypeM)>) -> Result<(Seq<(Seq<char>, TypeM)>, int), PErr>
    decreases ts.len() - q,
{
    if is_kind(ts, q, TokenKind::RBrace) {
        Ok((acc, q))
    } else {
        match name_at(ts, q) {
            Ok((n, q1)) => match expect_at(ts, q1, TokenKind::Colon) {
                Ok(q2) => match type_at(ts, q2) {
                    Ok((t, r)) => {
                        let acc2 = acc.push((n, t));
                        if is_kind(ts, r, TokenKind::Comma) {
                            if fwd(ts, q, next_pos(ts, r)) {
                                fields_at(ts, next_pos(ts, r), acc2)
                            } else {
                                Err(stuck())
                            }
                        } else {
                            Ok((acc2, r))
                        }
                    },
                    Err(e) => Err(e),
                },
                Err(e) => Err(e),
            },
            Err(e) => Err(e),
        }
    }
}

/// The variants of an enum from `q` on, after those in `acc`, separated by
/// commas, up to `}`.
pub open spec fn variants_at(ts: Seq<Token>, q: int, acc: Seq<Seq<char>>) -> Result<(Seq<Seq<char>>, int), PErr>
    decreases ts.len() - q,
{
    if is_kind(ts, q, TokenKind::RBrace) {
        Ok((acc, q))
    } else {
        match name_at(ts, q) {
            Ok((n, r)) => {
                let acc2 = acc.push(n);
                if is_kind(ts, r, TokenKind::Comma) {
                    if fwd(ts, q, next_pos(ts, r)) {
                        variants_at(ts, next_pos(ts, r), acc2)
                    } else {
                        Err(stuck())
                    }
                } else {
                    Ok((acc2, r))
                }
            },
            Err(e) => Err(e),
        }
    }
}

/// A name and `{`: the start of constellations, models, structs and enums.
pub open spec fn named_open(ts: Seq<Token>, p: int) -> Result<(Seq<char>, int), PErr> {
    match name_at(ts, p) {
        Ok((name, q)) => match expect_at(ts, q, TokenKind::LBrace) {
            Ok(q2) => Ok((name, q2)),
            Err(e) => Err(e),
        },
        Err(e) => Err(e),
    }
}

/// A constellation from its name at `p`.
pub open spec fn constellation_at(ts: Seq<Token>, p: int) -> Result<(ItemM, int), PErr> {
    let loc = loc_of(ts, p);
    match named_open(ts, p) {
        Ok((name, q)) => match const_items(ts, q, Seq::empty(), loc) {
            Ok((items, r)) => match expect_at(ts, r, TokenKind::RBrace) {
                Ok(r2) => Ok((ItemM::Constellation(name, items, loc), r2)),
                Err(e) => Err(e),
            },
            Err(e) => Err(e),
        },
        Err(e) => Err(e),
    }
}

/// A model from its name at `p`.
pub open spec fn model_at(ts: Seq<Token>, p: int) -> Result<(ItemM, int), PErr> {
    let loc = loc_of(ts, p);
    match named_open(ts, p) {
        Ok((name, q)) => match layers_at(ts, q, Seq::empty()) {
            Ok((layers, r)) => match expect_at(ts, r, TokenKind::RBrace) {
                Ok(r2) => Ok((ItemM::Model(name, layers, loc), r2)),
                Err(e) => Err(e),
            },
            Err(e) => Err(e),
        },
        Err(e) => Err(e),
    }
}

/// A struct from its name at `p`.
pub open spec fn struct_at(ts: Seq<Token>, p: int) -> Result<(ItemM, int), PErr> {
    let loc = loc_of(ts, p);
    match named_open(ts, p) {
        Ok((name, q)) => match fields_at(ts, q, Seq::empty()) {
            Ok((fields, r)) => match expect_at(ts, r, TokenKind::RBrace) {
                Ok(r2) => Ok((ItemM::Struct(name, fields, loc), r2)),
                Err(e) => Err(e),
            },
            Err(e) => Err(e),
        },
        Err(e) => Err(e),
    }
}

/// An enum from its name at `p`.
pub open spec fn enum_at(ts: Seq<Token>, p: int) -> Result<(ItemM, int), PErr> {
    let loc = loc_of(ts, p);
    match named_open(ts, p) {
        Ok((name, q)) => match variants_at(ts, q, Seq::empty()) {
            Ok((vs, r)) => match expect_at(ts, r, TokenKind::RBrace) {
                Ok(r2) => Ok((ItemM::Enum(name, vs, loc), r2)),
                Err(e) => Err(e),
            },
            Err(e) => Err(e),
        },
        Err(e) => Err(e),
    }
}

/// A unit declaration from its name at `p`: `name = definition`.
pub open spec fn unit_at(ts: Seq<Token>, p: int) -> Result<(ItemM, int), PErr> {
    let loc = loc_of(ts, p);
    match name_at(ts, p) {
        Ok((name, q)) => match expect_at(ts, q, TokenKind::Equals) {
            Ok(q2) => match name_at(ts, q2) {
                Ok((def, r)) => Ok((ItemM::Unit(name, def, loc), skip_if(ts, r, TokenKind::Semicolon))),
                Err(e) => Err(e),
            },
            Err(e) => Err(e),
        },
        Err(e) => Err(e),
    }
}

/// A top-level declaration at `p`. After `test` comes the mission's name
/// directly.
pub open spec fn top_level_at(ts: Seq<Token>, p: int) -> Result<(ItemM, int), PErr> {
    let k = kind_at(ts, p);
    if 0 <= p < ts.len() && k is Test {
        match mission_at(ts, p + 1) {
            Ok((m, r)) => Ok((ItemM::Test(m), r)),
            Err(e) => Err(e),
        }
    } else if 0 <= p < ts.len() && k is Mission {
        match mission_at(ts, p + 1) {
            Ok((m, r)) => Ok((ItemM::Mission(m), r)),
            Err(e) => Err(e),
        }
    } else if 0 <= p < ts.len() && k is Parallel {
        match expect_at(ts, p + 1, TokenKind::Mission) {
            Ok(q) => match mission_at(ts, q) {
                Ok((m, r)) => Ok((ItemM::Parallel(m), r)),
                Err(e) => Err(e),
            },
            Err(e) => Err(e),
        }
    } else if 0 <= p < ts.len() && k is Constellation {
        constellation_at(ts, p + 1)
    } else if 0 <= p < ts.len() && k is Model {
        model_at(ts, p + 1)
    } else if 0 <= p < ts.len() && k is Struct {
        struct_at(ts, p + 1)
    } else if 0 <= p < ts.len() && k is Enum {
        enum_at(ts, p + 1)
    } else if 0 <= p < ts.len() && k is Unit {
        unit_at(ts, p + 1)
    } else {
        Err(("Expected top-level declaration, got "@ + kind_debug(k), loc_of(ts, p)))
    }
}

/// The declarations from `q` on, after those in `acc`, up to `Eof`.
pub open spec fn items_at(ts: Seq<Token>, q: int, acc: Seq<ItemM>) -> Result<Seq<ItemM>, PErr>
    decreases ts.len() - q,
{
    if is_kind(ts, q, TokenKind::Eof) {
        Ok(acc)
    } else {
        match top_level_at(ts, q) {
            Ok((item, r)) => if fwd(ts, q, r) { items_at(ts, r, acc.push(item)) } else { Err(stuck()) },
            Err(e) => Err(e),
        }
    }
}

/// The program the tokens spell, or the first parse error.
pub open spec fn program_of(ts: Seq<Token>) -> Result<Seq<ItemM>, PErr> {
    items_at(ts, 0, Seq::empty())
}

// ── The parser ──────────────────────────────────────────────────────────────

/// A recursive-descent parser over a token list.
pub struct Parser {
    tokens: Vec<Token>,
    pos: usize,
}

impl Parser {
    /// The tokens being parsed.
    pub closed spec fn tokens(&self) -> Seq<Token> {
        self.tokens@
    }

    /// The position reached.
    pub closed spec fn position(&self) -> int {
        self.pos as int
    }

    /// A parser at the start of `tokens`.
    pub fn new(tokens: Vec<Token>) -> (r: Self)
        ensures
            r.tokens() == tokens@,
            r.position() == 0,
    {
        Parser { tokens, pos: 0 }
    }

    spec fn ok(&self) -> bool {
        ends_with_eof(self.tokens@) && self.pos <= self.tokens@.len()
    }

    fn current(&self) -> (r: &Token)
        requires
            self.ok(),
        ensures
            r.kind == kind_at(self.tokens@, self.pos as int),
            r.location == loc_of(self.tokens@, self.pos as int),
    {
        if self.pos < self.tokens.len() {
            &self.tokens[self.pos]
        } else {
            &self.tokens[self.tokens.len() - 1]
        }
    }

    /// The token `offset` places ahead; past the end, the last token.
    fn peek(&self, offset: usize) -> (r: &Token)
        requires
            self.ok(),
        ensures
            r.kind == kind_at(self.tokens@, self.pos + offset),
            r.location == loc_of(self.tokens@, self.pos + offset),
    {
        if offset < self.tokens.len() - self.pos {
            &self.tokens[self.pos + offset]
        } else {
            &self.tokens[self.tokens.len() - 1]
        }
    }

    fn advance(&mut self)
        requires
            old(self).ok(),
        ensures
            final(self).ok(),
            final(self).tokens == old(self).tokens,
            final(self).pos == next_pos(old(self).tokens@, old(self).pos as int),
    {
        if self.pos < self.tokens.len() {
            self.pos = self.pos + 1;
        }
    }

    /// Whether the current token is of the kind of `k`.
    fn check(&self, k: &TokenKind) -> (r: bool)
        requires
            self.ok(),
        ensures
            r == is_kind(self.tokens@, self.pos as int, *k),
    {
        tag_of(&self.current().kind) == tag_of(k)
    }

    fn consume_if(&mut self, k: &TokenKind) -> (r: bool)
        requires
            old(self).ok(),
        ensures
            final(self).ok(),
            final(self).tokens == old(self).tokens,
            final(self).pos == skip_if(old(self).tokens@, old(self).pos as int, *k),
            r == is_kind(old(self).tokens@, old(self).pos as int, *k),
    {
        if self.check(k) {
            self.advance();
            true
        } else {
            false
        }
    }

    fn expect(&mut self, k: TokenKind) -> (r: Result<(), Error>)
        requires
            old(self).ok(),
            !(k is Eof),
        ensures
            final(self).ok(),
            final(self).tokens == old(self).tokens,
            match expect_at(old(self).tokens@, old(self).pos as int, k) {
                Ok(q) => r is Ok && final(self).pos == q && old(self).pos < q,
                Err(e) => r matches Err(err) && perr_is(err, e),
            },
    {
        if self.check(&k) {
            self.advance();
            Ok(())
        } else {
            let cur = self.current();
            let mut message = str_to_string("Expected ");
            push_kind_debug(&mut message, &k);
            push_str(&mut message, ", got ");
            push_kind_debug(&mut message, &cur.kind);
            assert(message@ =~= "Expected "@ + kind_debug(k) + ", got "@ + kind_debug(kind_at(self.tokens@, self.pos as int)));
            Err(Error { message, location: cur.location, kind: ErrorKind::ParseError })
        }
    }

    fn is_at_end(&self) -> (r: bool)
        requires
            self.ok(),
        ensures
            r == (kind_at(self.tokens@, self.pos as int) is Eof),
    {
        matches!(self.current().kind, TokenKind::Eof)
    }

    /// An identifier.
    fn expect_name(&mut self) -> (r: Result<String, Error>)
        requires
            old(self).ok(),
        ensures
            final(self).ok(),
            final(self).tokens == old(self).tokens,
            match name_at(old(self).tokens@, old(self).pos as int) {
                Ok((n, q)) => r matches Ok(x) && x@ == n && final(self).pos == q && old(self).pos < q,
                Err(e) => r matches Err(err) && perr_is(err, e),
            },
    {
        let cur = self.current();
        match &cur.kind {
            TokenKind::Ident(n) => {
                let name = n.clone();
                proof {
                    if self.pos >= self.tokens@.len() {
                        assert(kind_at(self.tokens@, self.pos as int) == self.tokens@.last().kind);
                    }
                }
                self.advance();
                Ok(name)
            },
            k => {
                let mut message = str_to_string("Expected Ident(\"\")");
                push_str(&mut message, ", got ");
                push_kind_debug(&mut message, k);
                assert(message@ =~= "Expected Ident(\"\")"@ + ", got "@ + kind_debug(*k));
                Err(Error { message, location: cur.location, kind: ErrorKind::ParseError })
            },
        }
    }

    fn parse_dims(&mut self, loc: SourceLoc) -> (r: Result<Vec<usize>, Error>)
        requires
            old(self).ok(),
        ensures
            final(self).ok(),
            final(self).tokens == old(self).tokens,
            match dims_at(old(self).tokens@, old(self).pos as int, Seq::empty(), loc) {
                Ok((d, q)) => r matches Ok(x) && x@ == d && final(self).pos == q && old(self).pos <= q,
                Err(e) => r matches Err(err) && perr_is(err, e),
            },
    {
        let ghost ts = self.tokens@;
        let ghost p0 = self.pos as int;
        let mut shape: Vec<usize> = Vec::new();
        loop
            invariant
                self.ok(),
                self.tokens == old(self).tokens,
                ts == old(self).tokens@,
                p0 == old(self).pos,
                p0 <= self.pos,
                dims_at(ts, p0, Seq::empty(), loc) == dims_at(ts, self.pos as int, shape@, loc),
            decreases ts.len() - self.pos,
        {
            if !self.consume_if(&TokenKind::Comma) {
                return Ok(shape);
            }
            let n = match self.current().kind {
                TokenKind::Integer(n) => n,
                _ => {
                    return Err(Error::parse("Expected dimension in tensor type", loc));
                },
            };
            proof {
                if self.pos >= ts.len() {
                    assert(kind_at(ts, self.pos as int) == ts.last().kind);
                }
            }
            #[verifier::truncate]
            let d = n as usize;
            shape.push(d);
            self.advance();
        }
    }

    fn parse_type_expr(&mut self) -> (r: Result<TypeExpr, Error>)
        requires
            old(self).ok(),
        ensures
            final(self).ok(),
            final(self).tokens == old(self).tokens,
            match type_at(old(self).tokens@, old(self).pos as int) {
                Ok((t, q)) => r matches Ok(x) && type_view(x) == t && final(self).pos == q && old(self).pos < q,
                Err(e) => r matches Err(err) && perr_is(err, e),
            },
        decreases old(self).tokens@.len() - old(self).pos,
    {
        let ghost ts = self.tokens@;
        let ghost p0 = self.pos as int;
        let loc = self.current().location;
        let name = match &self.current().kind {
            TokenKind::Ident(n) => n.clone(),
            k => {
                let mut message = str_to_string("Expected type expression, got ");
                push_kind_debug(&mut message, k);
                assert(message@ =~= "Expected type expression, got "@ + kind_debug(*k));
                return Err(Error { message, location: loc, kind: ErrorKind::ParseError });
            },
        };
        proof {
            if p0 >= ts.len() {
                assert(kind_at(ts, p0) == ts.last().kind);
            }
        }
        self.advance();
        if is_text(&name, "Float") {
            if self.consume_if(&TokenKind::LBracket) {
                let unit_name = match self.expect_name() {
                    Ok(n) => n,
                    Err(e) => {
                        return Err(e);
                    },
                };
                match self.expect(TokenKind::RBracket) {
                    Ok(()) => Ok(TypeExpr::Float(Some(UnitExpr(unit_name)))),
                    Err(e) => Err(e),
                }
            } else {
                Ok(TypeExpr::Float(None))
            }
        } else if is_text(&name, "Int") {
            Ok(TypeExpr::Int)
        } else if is_text(&name, "Bool") {
            Ok(TypeExpr::Bool)
        } else if is_text(&name, "String") {
            Ok(TypeExpr::String)
        } else if is_text(&name, "Void") || is_text(&name, "None") {
            Ok(TypeExpr::Named(str_to_string("Void")))
        } else if is_text(&name, "Array") {
            match self.expect(TokenKind::LBracket) {
                Ok(()) => {},
                Err(e) => {
                    return Err(e);
                },
            }
            let inner = match self.parse_type_expr() {
                Ok(t) => t,
                Err(e) => {
                    return Err(e);
                },
            };
            match self.expect(TokenKind::RBracket) {
                Ok(()) => Ok(TypeExpr::Array(Box::new(inner))),
                Err(e) => Err(e),
            }
        } else if is_text(&name, "Tensor") {
            match self.expect(TokenKind::LBracket) {
                Ok(()) => {},
                Err(e) => {
                    return Err(e);
                },
            }
            let element_type = match self.parse_type_expr() {
                Ok(t) => t,
                Err(e) => {
                    return Err(e);
                },
            };
            let shape = match self.parse_dims(loc) {
                Ok(d) => d,
                Err(e) => {
                    return Err(e);
                },
            };
            match self.expect(TokenKind::RBracket) {
                Ok(()) => Ok(TypeExpr::Tensor { element_type: Box::new(element_type), shape }),
                Err(e) => Err(e),
            }
        } else {
            Ok(TypeExpr::Named(name))
        }
    }
}

fn mul_op_of(k: &TokenKind) -> (r: Option<BinOp>)
    ensures
        r == mul_op(*k),
{
    match k {
        TokenKind::Star => Some(BinOp::Multiply),
        TokenKind::Slash => Some(BinOp::Divide),
        TokenKind::Percent => Some(BinOp::Modulo),
        _ => None,
    }
}

fn matmul_op_of(k: &TokenKind) -> (r: Option<BinOp>)
    ensures
        r == (if *k is At { Some(BinOp::MatMul) } else { None::<BinOp> }),
{
    match k {
        TokenKind::At => Some(BinOp::MatMul),
        _ => None,
    }
}

fn unary_op_of(k: &TokenKind) -> (r: Option<UnOp>)
    ensures
        r == unary_op(*k),
{
    match k {
        TokenKind::Minus => Some(UnOp::Negate),
        TokenKind::Not => Some(UnOp::Not),
        TokenKind::Question => Some(UnOp::Deref),
        _ => None,
    }
}

impl Parser {
    fn parse_expr(&mut self) -> (r: Result<Expr, Error>)
        requires
            old(self).ok(),
        ensures
            final(self).ok(),
            final(self).tokens == old(self).tokens,
            match expr_at(old(self).tokens@, old(self).pos as int) {
                Ok((e, q)) => r matches Ok(x) && expr_view(x) == e && final(self).pos == q && old(self).pos < q,
                Err(e) => r matches Err(err) && perr_is(err, e),
            },
        decreases old(self).tokens@.len() - old(self).pos, 22int,
    {
        self.parse_pipe()
    }

    #[verifier::rlimit(30)]
    fn parse_pipe(&mut self) -> (r: Result<Expr, Error>)
        requires
            old(self).ok(),
        ensures
            final(self).ok(),
            final(self).tokens == old(self).tokens,
            match pipe_at(old(self).tokens@, old(self).pos as int) {
                Ok((e, q)) => r matches Ok(x) && expr_view(x) == e && final(self).pos == q && old(self).pos < q,
                Err(e) => r matches Err(err) && perr_is(err, e),
            },
        decreases old(self).tokens@.len() - old(self).pos, 21int,
    {
        let ghost ts = self.tokens@;
        let ghost p0 = self.pos as int;
        let mut expr = match self.parse_lambda() {
            Ok(e) => e,
            Err(e) => {
                return Err(e);
            },
        };
        loop
            invariant
                self.ok(),
                self.tokens == old(self).tokens,
                ts == old(self).tokens@,
                p0 == old(self).pos,
                p0 < self.pos,
                pipe_at(ts, p0) == pipe_rest(ts, self.pos as int, expr_view(expr)),
            decreases ts.len() - self.pos,
        {
            let ghost q = self.pos as int;
            if !matches!(self.current().kind, TokenKind::Pipe) {
                return Ok(expr);
            }
            assert(q < ts.len()) by {
                if q >= ts.len() {
                    assert(kind_at(ts, q) == ts.last().kind);
                }
            }
            self.advance();
            let loc = self.current().location;
            let right = match self.parse_lambda() {
                Ok(e) => e,
                Err(e) => {
                    return Err(e);
                },
            };
            expr = Expr::Pipe { left: Box::new(expr), right: Box::new(right), location: loc };
        }
    }

    #[verifier::rlimit(30)]
    fn parse_lambda(&mut self) -> (r: Result<Expr, Error>)
        requires
            old(self).ok(),
        ensures
            final(self).ok(),
            final(self).tokens == old(self).tokens,
            match lambda_at(old(self).tokens@, old(self).pos as int) {
                Ok((e, q)) => r matches Ok(x) && expr_view(x) == e && final(self).pos == q && old(self).pos < q,
                Err(e) => r matches Err(err) && perr_is(err, e),
            },
        decreases old(self).tokens@.len() - old(self).pos, 19int,
    {
        let ghost ts = self.tokens@;
        let ghost p0 = self.pos as int;
        let loc = self.current().location;
        let is_arrow = matches!(self.peek(1).kind, TokenKind::FatArrow);
        if is_arrow {
            if let TokenKind::Ident(param) = &self.current().kind {
                let param = param.clone();
                assert(p0 < ts.len()) by {
                    if p0 >= ts.len() {
                        assert(kind_at(ts, p0) == ts.last().kind);
                    }
                }
                self.advance();
                self.advance();
                let body = match self.parse_lambda() {
                    Ok(e) => e,
                    Err(e) => {
                        return Err(e);
                    },
                };
                return Ok(Expr::Lambda { param, body: Box::new(body), location: loc });
            }
        }
        self.parse_or()
    }

    fn parse_or(&mut self) -> (r: Result<Expr, Error>)
        requires
            old(self).ok(),
        ensures
            final(self).ok(),
            final(self).tokens == old(self).tokens,
            match or_at(old(self).tokens@, old(self).pos as int) {
                Ok((e, q)) => r matches Ok(x) && expr_view(x) == e && final(self).pos == q && old(self).pos < q,
                Err(e) => r matches Err(err) && perr_is(err, e),
            },
        decreases old(self).tokens@.len() - old(self).pos, 18int,
    {
        let ghost ts = self.tokens@;
        let ghost p0 = self.pos as int;
        let mut expr = match self.parse_and() {
            Ok(e) => e,
            Err(e) => {
                return Err(e);
            },
        };
        loop
            invariant
                self.ok(),
                self.tokens == old(self).tokens,
                ts == old(self).tokens@,
                p0 == old(self).pos,
                p0 < self.pos,
                or_at(ts, p0) == or_rest(ts, self.pos as int, expr_view(expr)),
            decreases ts.len() - self.pos,
        {
            let ghost q = self.pos as int;
            let loc0 = self.current().location;
            let op = match or_op_of(&self.current().kind) {
                Some(op) => op,
                None => {
                    return Ok(expr);
                },
            };
            assert(q < ts.len()) by {
                if q >= ts.len() {
                    assert(kind_at(ts, q) == ts.last().kind);
                }
            }
            self.advance();
            let loc = self.current().location;
            let right = match self.parse_and() {
                Ok(e) => e,
                Err(e) => {
                    return Err(e);
                },
            };
            expr = Expr::BinaryOp { left: Box::new(expr), op, right: Box::new(right), location: loc };
        }
    }

    fn parse_and(&mut self) -> (r: Result<Expr, Error>)
        requires
            old(self).ok(),
        ensures
            final(self).ok(),
            final(self).tokens == old(self).tokens,
            match and_at(old(self).tokens@, old(self).pos as int) {
                Ok((e, q)) => r matches Ok(x) && expr_view(x) == e && final(self).pos == q && old(self).pos < q,
                Err(e) => r matches Err(err) && perr_is(err, e),
            },
        decreases old(self).tokens@.len() - old(self).pos, 16int,
    {
        let ghost ts = self.tokens@;
        let ghost p0 = self.pos as int;
        let mut expr = match self.parse_comparison() {
            Ok(e) => e,
            Err(e) => {
                return Err(e);
            },
        };
        loop
            invariant
                self.ok(),
                self.tokens == old(self).tokens,
                ts == old(self).tokens@,
                p0 == old(self).pos,
                p0 < self.pos,
                and_at(ts, p0) == and_rest(ts, self.pos as int, expr_view(expr)),
            decreases ts.len() - self.pos,
        {
            let ghost q = self.pos as int;
            let loc0 = self.current().location;
            let op = match and_op_of(&self.current().kind) {
                Some(op) => op,
                None => {
                    return Ok(expr);
                },
            };
            assert(q < ts.len()) by {
                if q >= ts.len() {
                    assert(kind_at(ts, q) == ts.last().kind);
                }
            }
            self.advance();
            let loc = self.current().location;
            let right = match self.parse_comparison() {
                Ok(e) => e,
                Err(e) => {
                    return Err(e);
                },
            };
            expr = Expr::BinaryOp { left: Box::new(expr), op, right: Box::new(right), location: loc };
        }
    }

    fn parse_comparison(&mut self) -> (r: Result<Expr, Error>)
        requires
            old(self).ok(),
        ensures
            final(self).ok(),
            final(self).tokens == old(self).tokens,
            match comparison_at(old(self).tokens@, old(self).pos as int) {
                Ok((e, q)) => r matches Ok(x) && expr_view(x) == e && final(self).pos == q && old(self).pos < q,
                Err(e) => r matches Err(err) && perr_is(err, e),
            },
        decreases old(self).tokens@.len() - old(self).pos, 14int,
    {
        let ghost ts = self.tokens@;
        let ghost p0 = self.pos as int;
        let mut expr = match self.parse_additive() {
            Ok(e) => e,
            Err(e) => {
                return Err(e);
            },
        };
        loop
            invariant
                self.ok(),
                self.tokens == old(self).tokens,
                ts == old(self).tokens@,
                p0 == old(self).pos,
                p0 < self.pos,
                comparison_at(ts, p0) == comparison_rest(ts, self.pos as int, expr_view(expr)),
            decreases ts.len() - self.pos,
        {
            let ghost q = self.pos as int;
            let loc0 = self.current().location;
            let op = match comparison_op_of(&self.current().kind) {
                Some(op) => op,
                None => {
                    return Ok(expr);
                },
            };
            assert(q < ts.len()) by {
                if q >= ts.len() {
                    assert(kind_at(ts, q) == ts.last().kind);
                }
            }
            self.advance();
            let loc = loc0;
            let right = match self.parse_additive() {
                Ok(e) => e,
                Err(e) => {
                    return Err(e);
                },
            };
            expr = Expr::BinaryOp { left: Box::new(expr), op, right: Box::new(right), location: loc };
        }
    }

    fn parse_additive(&mut self) -> (r: Result<Expr, Error>)
        requires
            old(self).ok(),
        ensures
            final(self).ok(),
            final(self).tokens == old(self).tokens,
            match additive_at(old(self).tokens@, old(self).pos as int) {
                Ok((e, q)) => r matches Ok(x) && expr_view(x) == e && final(self).pos == q && old(self).pos < q,
                Err(e) => r matches Err(err) && perr_is(err, e),
            },
        decreases old(self).tokens@.len() - old(self).pos, 12int,
    {
        let ghost ts = self.tokens@;
        let ghost p0 = self.pos as int;
        let mut expr = match self.parse_multiplicative() {
            Ok(e) => e,
            Err(e) => {
                return Err(e);
            },
        };
        loop
            invariant
                self.ok(),
                self.tokens == old(self).tokens,
                ts == old(self).tokens@,
                p0 == old(self).pos,
                p0 < self.pos,
                additive_at(ts, p0) == additive_rest(ts, self.pos as int, expr_view(expr)),
            decreases ts.len() - self.pos,
        {
            let ghost q = self.pos as int;
            let loc0 = self.current().location;
            let op = match additive_op_of(&self.current().kind) {
                Some(op) => op,
                None => {
                    return Ok(expr);
                },
            };
            assert(q < ts.len()) by {
                if q >= ts.len() {
                    assert(kind_at(ts, q) == ts.last().kind);
                }
            }
            self.advance();
            let loc = loc0;
            let right = match self.parse_multiplicative() {
                Ok(e) => e,
                Err(e) => {
                    return Err(e);
                },
            };
            expr = Expr::BinaryOp { left: Box::new(expr), op, right: Box::new(right), location: loc };
        }
    }

    fn parse_multiplicative(&mut self) -> (r: Result<Expr, Error>)
        requires
            old(self).ok(),
        ensures
            final(self).ok(),
            final(self).tokens == old(self).tokens,
            match multiplicative_at(old(self).tokens@, old(self).pos as int) {
                Ok((e, q)) => r matches Ok(x) && expr_view(x) == e && final(self).pos == q && old(self).pos < q,
                Err(e) => r matches Err(err) && perr_is(err, e),
            },
        decreases old(self).tokens@.len() - old(self).pos, 10int,
    {
        let ghost ts = self.tokens@;
        let ghost p0 = self.pos as int;
        let mut expr = match self.parse_at() {
            Ok(e) => e,
            Err(e) => {
                return Err(e);
            },
        };
        loop
            invariant
                self.ok(),
                self.tokens == old(self).tokens,
                ts == old(self).tokens@,
                p0 == old(self).pos,
                p0 < self.pos,
                multiplicative_at(ts, p0) == multiplicative_rest(ts, self.pos as int, expr_view(expr)),
            decreases ts.len() - self.pos,
        {
            let ghost q = self.pos as int;
            let loc0 = self.current().location;
            let op = match mul_op_of(&self.current().kind) {
                Some(op) => op,
                None => {
                    return Ok(expr);
                },
            };
            assert(q < ts.len()) by {
                if q >= ts.len() {
                    assert(kind_at(ts, q) == ts.last().kind);
                }
            }
            self.advance();
            let loc = loc0;
            let right = match self.parse_at() {
                Ok(e) => e,
                Err(e) => {
                    return Err(e);
                },
            };
            expr = Expr::BinaryOp { left: Box::new(expr), op, right: Box::new(right), location: loc };
        }
    }

    fn parse_at(&mut self) -> (r: Result<Expr, Error>)
        requires
            old(self).ok(),
        ensures
            final(self).ok(),
            final(self).tokens == old(self).tokens,
            match matmul_at(old(self).tokens@, old(self).pos as int) {
                Ok((e, q)) => r matches Ok(x) && expr_view(x) == e && final(self).pos == q && old(self).pos < q,
                Err(e) => r matches Err(err) && perr_is(err, e),
            },
        decreases old(self).tokens@.len() - old(self).pos, 8int,
    {
        let ghost ts = self.tokens@;
        let ghost p0 = self.pos as int;
        let mut expr = match self.parse_power() {
            Ok(e) => e,
            Err(e) => {
                return Err(e);
            },
        };
        loop
            invariant
                self.ok(),
                self.tokens == old(self).tokens,
                ts == old(self).tokens@,
                p0 == old(self).pos,
                p0 < self.pos,
                matmul_at(ts, p0) == matmul_rest(ts, self.pos as int, expr_view(expr)),
            decreases ts.len() - self.pos,
        {
            let ghost q = self.pos as int;
            let loc0 = self.current().location;
            let op = match matmul_op_of(&self.current().kind) {
                Some(op) => op,
                None => {
                    return Ok(expr);
                },
            };
            assert(q < ts.len()) by {
                if q >= ts.len() {
                    assert(kind_at(ts, q) == ts.last().kind);
                }
            }
            self.advance();
            let loc = self.current().location;
            let right = match self.parse_power() {
                Ok(e) => e,
                Err(e) => {
                    return Err(e);
                },
            };
            expr = Expr::BinaryOp { left: Box::new(expr), op, right: Box::new(right), location: loc };
        }
    }

    fn parse_power(&mut self) -> (r: Result<Expr, Error>)
        requires
            old(self).ok(),
        ensures
            final(self).ok(),
            final(self).tokens == old(self).tokens,
            match power_at(old(self).tokens@, old(self).pos as int) {
                Ok((e, q)) => r matches Ok(x) && expr_view(x) == e && final(self).pos == q && old(self).pos < q,
                Err(e) => r matches Err(err) && perr_is(err, e),
            },
        decreases old(self).tokens@.len() - old(self).pos, 6int,
    {
        let ghost ts = self.tokens@;
        let ghost p0 = self.pos as int;
        let mut expr = match self.parse_unary() {
            Ok(e) => e,
            Err(e) => {
                return Err(e);
            },
        };
        loop
            invariant
                self.ok(),
                self.tokens == old(self).tokens,
                ts == old(self).tokens@,
                p0 == old(self).pos,
                p0 < self.pos,
                power_at(ts, p0) == power_rest(ts, self.pos as int, expr_view(expr)),
            decreases ts.len() - self.pos,
        {
            let ghost q = self.pos as int;
            let loc0 = self.current().location;
            let op = match power_op_of(&self.current().kind) {
                Some(op) => op,
                None => {
                    return Ok(expr);
                },
            };
            assert(q < ts.len()) by {
                if q >= ts.len() {
                    assert(kind_at(ts, q) == ts.last().kind);
                }
            }
            self.advance();
            let loc = self.current().location;
            let right = match self.parse_unary() {
                Ok(e) => e,
                Err(e) => {
                    return Err(e);
                },
            };
            expr = Expr::BinaryOp { left: Box::new(expr), op, right: Box::new(right), location: loc };
        }
    }

    fn parse_unary(&mut self) -> (r: Result<Expr, Error>)
        requires
            old(self).ok(),
        ensures
            final(self).ok(),
            final(self).tokens == old(self).tokens,
            match unary_at(old(self).tokens@, old(self).pos as int) {
                Ok((e, q)) => r matches Ok(x) && expr_view(x) == e && final(self).pos == q && old(self).pos < q,
                Err(e) => r matches Err(err) && perr_is(err, e),
            },
        decreases old(self).tokens@.len() - old(self).pos, 4int,
    {
        let ghost ts = self.tokens@;
        let ghost p0 = self.pos as int;
        let loc = self.current().location;
        match unary_op_of(&self.current().kind) {
            Some(op) => {
                assert(p0 < ts.len()) by {
                    if p0 >= ts.len() {
                        assert(kind_at(ts, p0) == ts.last().kind);
                    }
                }
                self.advance();
                let operand = match self.parse_unary() {
                    Ok(e) => e,
                    Err(e) => {
                        return Err(e);
                    },
                };
                Ok(Expr::UnaryOp { op, operand: Box::new(operand), location: loc })
            },
            None => self.parse_postfix(),
        }
    }

    #[verifier::rlimit(30)]
    fn parse_postfix(&mut self) -> (r: Result<Expr, Error>)
        requires
            old(self).ok(),
        ensures
            final(self).ok(),
            final(self).tokens == old(self).tokens,
            match postfix_at(old(self).tokens@, old(self).pos as int) {
                Ok((e, q)) => r matches Ok(x) && expr_view(x) == e && final(self).pos == q && old(self).pos < q,
                Err(e) => r matches Err(err) && perr_is(err, e),
            },
        decreases old(self).tokens@.len() - old(self).pos, 3int,
    {
        let ghost ts = self.tokens@;
        let ghost p0 = self.pos as int;
        let mut expr = match self.parse_primary() {
            Ok(e) => e,
            Err(e) => {
                return Err(e);
            },
        };
        loop
            invariant
                self.ok(),
                self.tokens == old(self).tokens,
                ts == old(self).tokens@,
                p0 == old(self).pos,
                p0 < self.pos,
                postfix_at(ts, p0) == postfix_rest(ts, self.pos as int, expr_view(expr)),
            decreases ts.len() - self.pos,
        {
            let ghost q = self.pos as int;
            let loc = self.current().location;
            let is_call = matches!(self.current().kind, TokenKind::LParen);
            let is_field = matches!(self.current().kind, TokenKind::Dot);
            let is_index = matches!(self.current().kind, TokenKind::LBracket);
            if !is_call && !is_field && !is_index {
                return Ok(expr);
            }
            assert(q < ts.len()) by {
                if q >= ts.len() {
                    assert(kind_at(ts, q) == ts.last().kind);
                }
            }
            self.advance();
            if is_call {
                let args = match self.parse_call_args() {
                    Ok(a) => a,
                    Err(e) => {
                        return Err(e);
                    },
                };
                match self.expect(TokenKind::RParen) {
                    Ok(()) => {},
                    Err(e) => {
                        return Err(e);
                    },
                }
                expr = Expr::Call { func: Box::new(expr), args, location: loc };
            } else if is_field {
                let field = match self.expect_name() {
                    Ok(f) => f,
                    Err(e) => {
                        return Err(e);
                    },
                };
                expr = Expr::FieldAccess { object: Box::new(expr), field, location: loc };
            } else {
                let index = match self.parse_expr() {
                    Ok(e) => e,
                    Err(e) => {
                        return Err(e);
                    },
                };
                match self.expect(TokenKind::RBracket) {
                    Ok(()) => {},
                    Err(e) => {
                        return Err(e);
                    },
                }
                expr = Expr::Index { object: Box::new(expr), index: Box::new(index), location: loc };
            }
        }
    }

    #[verifier::rlimit(30)]
    fn parse_call_args(&mut self) -> (r: Result<Vec<(Option<String>, Expr)>, Error>)
        requires
            old(self).ok(),
        ensures
            final(self).ok(),
            final(self).tokens == old(self).tokens,
            match call_args(old(self).tokens@, old(self).pos as int, Seq::empty()) {
                Ok((a, q)) => r matches Ok(x) && args_view(x@) == a && final(self).pos == q && old(self).pos <= q,
                Err(e) => r matches Err(err) && perr_is(err, e),
            },
        decreases old(self).tokens@.len() - old(self).pos, 23int,
    {
        let ghost ts = self.tokens@;
        let ghost p0 = self.pos as int;
        let mut args: Vec<(Option<String>, Expr)> = Vec::new();
        loop
            invariant
                self.ok(),
                self.tokens == old(self).tokens,
                ts == old(self).tokens@,
                p0 == old(self).pos,
                p0 <= self.pos,
                call_args(ts, p0, Seq::empty()) == call_args(ts, self.pos as int, args_view(args@)),
            decreases ts.len() - self.pos,
        {
            if self.check(&TokenKind::RParen) {
                return Ok(args);
            }
            let ghost q = self.pos as int;
            let colon_next = matches!(self.peek(1).kind, TokenKind::Colon);
            let label = match &self.current().kind {
                TokenKind::Ident(n) => if colon_next {
                    Some(n.clone())
                } else {
                    None
                },
                _ => None,
            };
            if label.is_some() {
                assert(q < ts.len()) by {
                    if q >= ts.len() {
                        assert(kind_at(ts, q) == ts.last().kind);
                    }
                }
                self.advance();
                self.advance();
            }
            let e = match self.parse_lambda() {
                Ok(e) => e,
                Err(e) => {
                    return Err(e);
                },
            };
            let ghost before = args@;
            args.push((label, e));
            assert(args@.drop_last() =~= before);
            if !self.consume_if(&TokenKind::Comma) {
                return Ok(args);
            }
        }
    }
}

impl Parser {
    fn parse_expr_list(&mut self, close: &TokenKind) -> (r: Result<Vec<Expr>, Error>)
        requires
            old(self).ok(),
        ensures
            final(self).ok(),
            final(self).tokens == old(self).tokens,
            match expr_list(old(self).tokens@, old(self).pos as int, Seq::empty(), *close) {
                Ok((e, q)) => r matches Ok(x) && exprs_view(x@) == e && final(self).pos == q && old(self).pos <= q,
                Err(e) => r matches Err(err) && perr_is(err, e),
            },
        decreases old(self).tokens@.len() - old(self).pos, 23int,
    {
        let ghost ts = self.tokens@;
        let ghost p0 = self.pos as int;
        let mut items: Vec<Expr> = Vec::new();
        loop
            invariant
                self.ok(),
                self.tokens == old(self).tokens,
                ts == old(self).tokens@,
                p0 == old(self).pos,
                p0 <= self.pos,
                expr_list(ts, p0, Seq::empty(), *close) == expr_list(ts, self.pos as int, exprs_view(items@), *close),
            decreases ts.len() - self.pos,
        {
            if self.check(close) {
                return Ok(items);
            }
            let e = match self.parse_expr() {
                Ok(e) => e,
                Err(e) => {
                    return Err(e);
                },
            };
            let ghost before = items@;
            items.push(e);
            assert(items@.drop_last() =~= before);
            if !self.consume_if(&TokenKind::Comma) {
                return Ok(items);
            }
        }
    }

    fn parse_struct_literal_fields(&mut self) -> (r: Result<Vec<(String, Expr)>, Error>)
        requires
            old(self).ok(),
        ensures
            final(self).ok(),
            final(self).tokens == old(self).tokens,
            match field_inits(old(self).tokens@, old(self).pos as int, Seq::empty()) {
                Ok((e, q)) => r matches Ok(x) && named_exprs_view(x@) == e && final(self).pos == q && old(self).pos <= q,
                Err(e) => r matches Err(err) && perr_is(err, e),
            },
        decreases old(self).tokens@.len() - old(self).pos, 23int,
    {
        let ghost ts = self.tokens@;
        let ghost p0 = self.pos as int;
        let mut fields: Vec<(String, Expr)> = Vec::new();
        loop
            invariant
                self.ok(),
                self.tokens == old(self).tokens,
                ts == old(self).tokens@,
                p0 == old(self).pos,
                p0 <= self.pos,
                field_inits(ts, p0, Seq::empty()) == field_inits(ts, self.pos as int, named_exprs_view(fields@)),
            decreases ts.len() - self.pos,
        {
            if self.check(&TokenKind::RBrace) {
                return Ok(fields);
            }
            let name = match self.expect_name() {
                Ok(n) => n,
                Err(e) => {
                    return Err(e);
                },
            };
            match self.expect(TokenKind::Colon) {
                Ok(()) => {},
                Err(e) => {
                    return Err(e);
                },
            }
            let value = match self.parse_expr() {
                Ok(e) => e,
                Err(e) => {
                    return Err(e);
                },
            };
            let ghost before = fields@;
            fields.push((name, value));
            assert(fields@.drop_last() =~= before);
            if !self.consume_if(&TokenKind::Comma) {
                return Ok(fields);
            }
        }
    }

    fn parse_pattern(&mut self) -> (r: Result<Pattern, Error>)
        requires
            old(self).ok(),
        ensures
            final(self).ok(),
            final(self).tokens == old(self).tokens,
            match kind_at(old(self).tokens@, old(self).pos as int) {
                TokenKind::Ident(n) => r matches Ok(Pattern::Ident(x)) && x@ == n@
                    && final(self).pos == next_pos(old(self).tokens@, old(self).pos as int)
                    && old(self).pos < final(self).pos,
                _ => r matches Err(err) && perr_is(err, ("Expected pattern"@, loc_of(old(self).tokens@, old(self).pos as int))),
            },
    {
        match &self.current().kind {
            TokenKind::Ident(n) => {
                let name = n.clone();
                proof {
                    if self.pos >= self.tokens@.len() {
                        assert(kind_at(self.tokens@, self.pos as int) == self.tokens@.last().kind);
                    }
                }
                self.advance();
                Ok(Pattern::Ident(name))
            },
            _ => Err(Error::parse("Expected pattern", self.current().location)),
        }
    }

    fn parse_match_arm(&mut self) -> (r: Result<MatchArm, Error>)
        requires
            old(self).ok(),
        ensures
            final(self).ok(),
            final(self).tokens == old(self).tokens,
            match arm_at(old(self).tokens@, old(self).pos as int) {
                Ok((a, q)) => r matches Ok(x) && (pat_view(x.pattern), None::<ExprM>, expr_view(x.body)) == a
                    && x.guard is None && final(self).pos == q && old(self).pos < q,
                Err(e) => r matches Err(err) && perr_is(err, e),
            },
        decreases old(self).tokens@.len() - old(self).pos, 23int,
    {
        let pattern = match self.parse_pattern() {
            Ok(p) => p,
            Err(e) => {
                return Err(e);
            },
        };
        match self.expect(TokenKind::FatArrow) {
            Ok(()) => {},
            Err(e) => {
                return Err(e);
            },
        }
        let body = match self.parse_expr() {
            Ok(e) => e,
            Err(e) => {
                return Err(e);
            },
        };
        self.consume_if(&TokenKind::Comma);
        Ok(MatchArm { pattern, guard: None, body })
    }

    fn parse_struct_literal(&mut self, loc: SourceLoc) -> (r: Result<Expr, Error>)
        requires
            old(self).ok(),
        ensures
            final(self).ok(),
            final(self).tokens == old(self).tokens,
            match struct_lit_at(old(self).tokens@, old(self).pos as int, loc) {
                Ok((e, q)) => r matches Ok(x) && expr_view(x) == e && final(self).pos == q && old(self).pos < q,
                Err(e) => r matches Err(err) && perr_is(err, e),
            },
        decreases old(self).tokens@.len() - old(self).pos, 25int,
    {
        let fields = match self.parse_struct_literal_fields() {
            Ok(f) => f,
            Err(e) => {
                return Err(e);
            },
        };
        match self.expect(TokenKind::RBrace) {
            Ok(()) => Ok(Expr::StructLiteral { ty_name: None, fields, location: loc }),
            Err(e) => Err(e),
        }
    }

    fn parse_tensor_literal(&mut self, loc: SourceLoc) -> (r: Result<Expr, Error>)
        requires
            old(self).ok(),
        ensures
            final(self).ok(),
            final(self).tokens == old(self).tokens,
            match tensor_lit_at(old(self).tokens@, old(self).pos as int, loc) {
                Ok((e, q)) => r matches Ok(x) && expr_view(x) == e && final(self).pos == q && old(self).pos < q,
                Err(e) => r matches Err(err) && perr_is(err, e),
            },
        decreases old(self).tokens@.len() - old(self).pos, 25int,
    {
        let elements = match self.parse_expr_list(&TokenKind::RBracket) {
            Ok(v) => v,
            Err(e) => {
                return Err(e);
            },
        };
        match self.expect(TokenKind::RBracket) {
            Ok(()) => Ok(Expr::TensorLiteral { elements, location: loc }),
            Err(e) => Err(e),
        }
    }

    #[verifier::rlimit(30)]
    fn parse_if_expr(&mut self, loc: SourceLoc) -> (r: Result<Expr, Error>)
        requires
            old(self).ok(),
        ensures
            final(self).ok(),
            final(self).tokens == old(self).tokens,
            match if_expr_at(old(self).tokens@, old(self).pos as int, loc) {
                Ok((e, q)) => r matches Ok(x) && expr_view(x) == e && final(self).pos == q && old(self).pos < q,
                Err(e) => r matches Err(err) && perr_is(err, e),
            },
        decreases old(self).tokens@.len() - old(self).pos, 25int,
    {
        let condition = match self.parse_expr() {
            Ok(e) => e,
            Err(e) => {
                return Err(e);
            },
        };
        match self.parse_braced() {
            Ok(_) => {},
            Err(e) => {
                return Err(e);
            },
        }
        let else_expr = if self.consume_if(&TokenKind::Else) {
            if self.check(&TokenKind::If) {
                match self.parse_primary() {
                    Ok(e) => Some(Box::new(e)),
                    Err(e) => {
                        return Err(e);
                    },
                }
            } else {
                match self.parse_braced() {
                    Ok(_) => {},
                    Err(e) => {
                        return Err(e);
                    },
                }
                let t = Expr::Bool(true);
                assert(expr_view(t) == ExprM::Bool(true));
                Some(Box::new(t))
            }
        } else {
            None
        };
        let t = Expr::Bool(true);
        assert(expr_view(t) == ExprM::Bool(true));
        let r = Expr::If { condition: Box::new(condition), then_expr: Box::new(t), else_expr, location: loc };
        Ok(r)
    }

    #[verifier::rlimit(30)]
    fn parse_arms(&mut self) -> (r: Result<Vec<MatchArm>, Error>)
        requires
            old(self).ok(),
        ensures
            final(self).ok(),
            final(self).tokens == old(self).tokens,
            match arms_at(old(self).tokens@, old(self).pos as int, Seq::empty()) {
                Ok((a, q)) => r matches Ok(x) && arms_view(x@) == a && final(self).pos == q && old(self).pos <= q,
                Err(e) => r matches Err(err) && perr_is(err, e),
            },
        decreases old(self).tokens@.len() - old(self).pos, 24int,
    {
        let ghost ts = self.tokens@;
        let ghost p0 = self.pos as int;
        let mut arms: Vec<MatchArm> = Vec::new();
        assert(arms_view(arms@) =~= Seq::<ArmM>::empty());
        loop
            invariant
                self.ok(),
                self.tokens == old(self).tokens,
                ts == old(self).tokens@,
                p0 == old(self).pos,
                p0 <= self.pos,
                arms_at(ts, p0, Seq::empty()) == arms_at(ts, self.pos as int, arms_view(arms@)),
            decreases ts.len() - self.pos,
        {
            if self.check(&TokenKind::RBrace) {
                return Ok(arms);
            }
            let arm = match self.parse_match_arm() {
                Ok(a) => a,
                Err(e) => {
                    return Err(e);
                },
            };
            let ghost before = arms@;
            let ghost a = (pat_view(arm.pattern), None::<ExprM>, expr_view(arm.body));
            arms.push(arm);
            assert(arms@.drop_last() =~= before);
            assert(arms_view(arms@) == arms_view(before).push(a));
        }
    }

    #[verifier::rlimit(30)]
    fn parse_match_expr(&mut self, loc: SourceLoc) -> (r: Result<Expr, Error>)
        requires
            old(self).ok(),
        ensures
            final(self).ok(),
            final(self).tokens == old(self).tokens,
            match match_at(old(self).tokens@, old(self).pos as int, loc) {
                Ok((e, q)) => r matches Ok(x) && expr_view(x) == e && final(self).pos == q && old(self).pos < q,
                Err(e) => r matches Err(err) && perr_is(err, e),
            },
        decreases old(self).tokens@.len() - old(self).pos, 25int,
    {
        let ghost ts = self.tokens@;
        let subject = match self.parse_expr() {
            Ok(e) => e,
            Err(e) => {
                return Err(e);
            },
        };
        match self.expect(TokenKind::LBrace) {
            Ok(()) => {},
            Err(e) => {
                return Err(e);
            },
        }
        let arms = match self.parse_arms() {
            Ok(a) => a,
            Err(e) => {
                return Err(e);
            },
        };
        match self.expect(TokenKind::RBrace) {
            Ok(()) => Ok(Expr::Match { subject: Box::new(subject), arms, location: loc }),
            Err(e) => Err(e),
        }
    }

    fn parse_transmit(&mut self, loc: SourceLoc) -> (r: Result<Expr, Error>)
        requires
            old(self).ok(),
        ensures
            final(self).ok(),
            final(self).tokens == old(self).tokens,
            match transmit_at(old(self).tokens@, old(self).pos as int, loc) {
                Ok((e, q)) => r matches Ok(x) && expr_view(x) == e && final(self).pos == q && old(self).pos < q,
                Err(e) => r matches Err(err) && perr_is(err, e),
            },
        decreases old(self).tokens@.len() - old(self).pos, 25int,
    {
        match self.expect(TokenKind::LParen) {
            Ok(()) => {},
            Err(e) => {
                return Err(e);
            },
        }
        let args = match self.parse_expr_list(&TokenKind::RParen) {
            Ok(v) => v,
            Err(e) => {
                return Err(e);
            },
        };
        match self.expect(TokenKind::RParen) {
            Ok(()) => Ok(Expr::Transmit { args, location: loc }),
            Err(e) => Err(e),
        }
    }

    #[verifier::rlimit(30)]
    fn parse_pipeline(&mut self, loc: SourceLoc) -> (r: Result<Expr, Error>)
        requires
            old(self).ok(),
        ensures
            final(self).ok(),
            final(self).tokens == old(self).tokens,
            match pipeline_at(old(self).tokens@, old(self).pos as int, loc) {
                Ok((e, q)) => r matches Ok(x) && expr_view(x) == e && final(self).pos == q && old(self).pos < q,
                Err(e) => r matches Err(err) && perr_is(err, e),
            },
        decreases old(self).tokens@.len() - old(self).pos, 25int,
    {
        match self.expect(TokenKind::LBracket) {
            Ok(()) => {},
            Err(e) => {
                return Err(e);
            },
        }
        let stages = match self.parse_expr_list(&TokenKind::RBracket) {
            Ok(v) => v,
            Err(e) => {
                return Err(e);
            },
        };
        match self.expect(TokenKind::RBracket) {
            Ok(()) => {
                let source = Expr::Ident(str_to_string("_"));
                assert(expr_view(source) == ExprM::Ident("_"@));
                let r = Expr::Pipeline { source: Box::new(source), stages, location: loc };
                assert(expr_view(r) == ExprM::Pipeline(Box::new(ExprM::Ident("_"@)), exprs_view(r->stages@), loc));
                Ok(r)
            },
            Err(e) => Err(e),
        }
    }

    fn parse_autodiff(&mut self, loc: SourceLoc) -> (r: Result<Expr, Error>)
        requires
            old(self).ok(),
        ensures
            final(self).ok(),
            final(self).tokens == old(self).tokens,
            match autodiff_at(old(self).tokens@, old(self).pos as int, loc) {
                Ok((e, q)) => r matches Ok(x) && expr_view(x) == e && final(self).pos == q && old(self).pos < q,
                Err(e) => r matches Err(err) && perr_is(err, e),
            },
        decreases old(self).tokens@.len() - old(self).pos, 25int,
    {
        match self.expect(TokenKind::LParen) {
            Ok(()) => {},
            Err(e) => {
                return Err(e);
            },
        }
        let target = match self.parse_expr() {
            Ok(e) => e,
            Err(e) => {
                return Err(e);
            },
        };
        match self.expect(TokenKind::RParen) {
            Ok(()) => {},
            Err(e) => {
                return Err(e);
            },
        }
        let body = match self.parse_braced() {
            Ok(b) => b,
            Err(e) => {
                return Err(e);
            },
        };
        Ok(Expr::Autodiff { target: Box::new(target), body, location: loc })
    }

    fn parse_wrt(&mut self) -> (r: Result<Vec<String>, Error>)
        requires
            old(self).ok(),
        ensures
            final(self).ok(),
            final(self).tokens == old(self).tokens,
            match wrt_names(old(self).tokens@, old(self).pos as int, Seq::empty()) {
                Ok((ns, q)) => r matches Ok(x) && names_view(x@) == ns && final(self).pos == q && old(self).pos < q,
                Err(e) => r matches Err(err) && perr_is(err, e),
            },
    {
        let ghost ts = self.tokens@;
        let ghost p0 = self.pos as int;
        let mut names: Vec<String> = Vec::new();
        assert(names_view(names@) =~= Seq::<Seq<char>>::empty());
        loop
            invariant
                self.ok(),
                self.tokens == old(self).tokens,
                ts == old(self).tokens@,
                p0 == old(self).pos,
                p0 <= self.pos,
                names@.len() > 0 ==> p0 < self.pos,
                wrt_names(ts, p0, Seq::empty()) == wrt_names(ts, self.pos as int, names_view(names@)),
            decreases ts.len() - self.pos,
        {
            let n = match self.expect_name() {
                Ok(n) => n,
                Err(e) => {
                    return Err(e);
                },
            };
            let ghost before = names@;
            names.push(n);
            assert(names_view(names@) =~= names_view(before).push(n@));
            if !self.consume_if(&TokenKind::Comma) {
                return Ok(names);
            }
        }
    }

    /// The optional `, wrt x, ...` of a gradient.
    fn parse_wrt_clause(&mut self) -> (r: Result<Vec<String>, Error>)
        requires
            old(self).ok(),
        ensures
            final(self).ok(),
            final(self).tokens == old(self).tokens,
            match wrt_clause(old(self).tokens@, old(self).pos as int) {
                Ok((ns, q)) => r matches Ok(x) && names_view(x@) == ns && final(self).pos == q && old(self).pos <= q,
                Err(e) => r matches Err(err) && perr_is(err, e),
            },
    {
        if self.consume_if(&TokenKind::Comma) {
            match self.expect(TokenKind::Wrt) {
                Ok(()) => {},
                Err(e) => {
                    return Err(e);
                },
            }
            self.parse_wrt()
        } else {
            let v: Vec<String> = Vec::new();
            assert(names_view(v@) =~= Seq::<Seq<char>>::empty());
            Ok(v)
        }
    }

    #[verifier::rlimit(30)]
    fn parse_gradient(&mut self, loc: SourceLoc) -> (r: Result<Expr, Error>)
        requires
            old(self).ok(),
        ensures
            final(self).ok(),
            final(self).tokens == old(self).tokens,
            match gradient_at(old(self).tokens@, old(self).pos as int, loc) {
                Ok((e, q)) => r matches Ok(x) && expr_view(x) == e && final(self).pos == q && old(self).pos < q,
                Err(e) => r matches Err(err) && perr_is(err, e),
            },
        decreases old(self).tokens@.len() - old(self).pos, 25int,
    {
        match self.expect(TokenKind::LParen) {
            Ok(()) => {},
            Err(e) => {
                return Err(e);
            },
        }
        let expr = match self.parse_expr() {
            Ok(e) => e,
            Err(e) => {
                return Err(e);
            },
        };
        let wrt = match self.parse_wrt_clause() {
            Ok(w) => w,
            Err(e) => {
                return Err(e);
            },
        };
        match self.expect(TokenKind::RParen) {
            Ok(()) => {
                assert(Seq::new(wrt@.len(), |i: int| wrt@[i]@) =~= names_view(wrt@));
                Ok(Expr::Gradient { expr: Box::new(expr), wrt, location: loc })
            },
            Err(e) => Err(e),
        }
    }

    #[verifier::rlimit(30)]
    fn parse_primary(&mut self) -> (r: Result<Expr, Error>)
        requires
            old(self).ok(),
        ensures
            final(self).ok(),
            final(self).tokens == old(self).tokens,
            match primary_at(old(self).tokens@, old(self).pos as int) {
                Ok((e, q)) => r matches Ok(x) && expr_view(x) == e && final(self).pos == q && old(self).pos < q,
                Err(e) => r matches Err(err) && perr_is(err, e),
            },
        decreases old(self).tokens@.len() - old(self).pos, 1int,
    {
        let ghost ts = self.tokens@;
        let ghost p0 = self.pos as int;
        let loc = self.current().location;
        let kind = copy_kind(&self.current().kind);
        if let TokenKind::Eof = kind {
            let mut message = str_to_string("Unexpected token in expression: ");
            push_kind_debug(&mut message, &kind);
            assert(message@ =~= "Unexpected token in expression: "@ + kind_debug(kind));
            return Err(Error { message, location: loc, kind: ErrorKind::ParseError });
        }
        assert(p0 < ts.len()) by {
            if p0 >= ts.len() {
                assert(kind_at(ts, p0) == ts.last().kind);
            }
        }
        match kind {
            TokenKind::Integer(n) => {
                self.advance();
                Ok(Expr::Integer(n))
            },
            TokenKind::Float(t) => {
                self.advance();
                Ok(Expr::Float(t))
            },
            TokenKind::UnitAnnotatedFloat { value, unit } => {
                self.advance();
                Ok(Expr::UnitAnnotatedFloat { value, unit: UnitExpr(unit) })
            },
            TokenKind::String(t) => {
                self.advance();
                Ok(Expr::String(t))
            },
            TokenKind::Bool(b) => {
                self.advance();
                Ok(Expr::Bool(b))
            },
            TokenKind::Ident(n) => {
                self.advance();
                Ok(Expr::Ident(n))
            },
            TokenKind::LParen => {
                self.advance();
                let e = match self.parse_expr() {
                    Ok(e) => e,
                    Err(e) => {
                        return Err(e);
                    },
                };
                match self.expect(TokenKind::RParen) {
                    Ok(()) => Ok(e),
                    Err(err) => Err(err),
                }
            },
            TokenKind::LBrace => {
                self.advance();
                self.parse_struct_literal(loc)
            },
            TokenKind::LBracket => {
                self.advance();
                self.parse_tensor_literal(loc)
            },
            TokenKind::If => {
                self.advance();
                self.parse_if_expr(loc)
            },
            TokenKind::Match => {
                self.advance();
                self.parse_match_expr(loc)
            },
            TokenKind::Transmit => {
                self.advance();
                self.parse_transmit(loc)
            },
            TokenKind::Pipeline => {
                self.advance();
                self.parse_pipeline(loc)
            },
            TokenKind::Autodiff => {
                self.advance();
                self.parse_autodiff(loc)
            },
            TokenKind::Gradient => {
                self.advance();
                self.parse_gradient(loc)
            },
            k => {
                let mut message = str_to_string("Unexpected token in expression: ");
                push_kind_debug(&mut message, &k);
                assert(message@ =~= "Unexpected token in expression: "@ + kind_debug(k));
                Err(Error { message, location: loc, kind: ErrorKind::ParseError })
            },
        }
    }
}

impl Parser {
    fn parse_block(&mut self) -> (r: Result<Vec<Statement>, Error>)
        requires
            old(self).ok(),
        ensures
            final(self).ok(),
            final(self).tokens == old(self).tokens,
            match block_at(old(self).tokens@, old(self).pos as int, Seq::empty()) {
                Ok((e, q)) => r matches Ok(x) && stmts_view(x@) == e && final(self).pos == q && old(self).pos <= q,
                Err(e) => r matches Err(err) && perr_is(err, e),
            },
        decreases old(self).tokens@.len() - old(self).pos, 31int,
    {
        let ghost ts = self.tokens@;
        let ghost p0 = self.pos as int;
        let mut statements: Vec<Statement> = Vec::new();
        loop
            invariant
                self.ok(),
                self.tokens == old(self).tokens,
                ts == old(self).tokens@,
                p0 == old(self).pos,
                p0 <= self.pos,
                block_at(ts, p0, Seq::empty()) == block_at(ts, self.pos as int, stmts_view(statements@)),
            decreases ts.len() - self.pos,
        {
            if self.check(&TokenKind::RBrace) || self.check(&TokenKind::Eof) {
                return Ok(statements);
            }
            let s = match self.parse_statement() {
                Ok(s) => s,
                Err(e) => {
                    return Err(e);
                },
            };
            let ghost before = statements@;
            statements.push(s);
            assert(statements@.drop_last() =~= before);
        }
    }

    fn parse_braced(&mut self) -> (r: Result<Vec<Statement>, Error>)
        requires
            old(self).ok(),
        ensures
            final(self).ok(),
            final(self).tokens == old(self).tokens,
            match braced_at(old(self).tokens@, old(self).pos as int) {
                Ok((e, q)) => r matches Ok(x) && stmts_view(x@) == e && final(self).pos == q && old(self).pos < q,
                Err(e) => r matches Err(err) && perr_is(err, e),
            },
        decreases old(self).tokens@.len() - old(self).pos, 28int,
    {
        match self.expect(TokenKind::LBrace) {
            Ok(()) => {},
            Err(e) => {
                return Err(e);
            },
        }
        let body = match self.parse_block() {
            Ok(b) => b,
            Err(e) => {
                return Err(e);
            },
        };
        match self.expect(TokenKind::RBrace) {
            Ok(()) => Ok(body),
            Err(e) => Err(e),
        }
    }

    fn parse_let_binding(&mut self, mutable: bool, loc: SourceLoc) -> (r: Result<Statement, Error>)
        requires
            old(self).ok(),
        ensures
            final(self).ok(),
            final(self).tokens == old(self).tokens,
            match let_at(old(self).tokens@, old(self).pos as int, mutable, loc) {
                Ok((e, q)) => r matches Ok(x) && stmt_view(x) == e && final(self).pos == q && old(self).pos < q,
                Err(e) => r matches Err(err) && perr_is(err, e),
            },
        decreases old(self).tokens@.len() - old(self).pos, 29int,
    {
        let name = match self.expect_name() {
            Ok(n) => n,
            Err(e) => {
                return Err(e);
            },
        };
        let type_annotation = if self.consume_if(&TokenKind::Colon) {
            match self.parse_type_expr() {
                Ok(t) => Some(t),
                Err(e) => {
                    return Err(e);
                },
            }
        } else {
            None
        };
        match self.expect(TokenKind::Equals) {
            Ok(()) => {},
            Err(e) => {
                return Err(e);
            },
        }
        let value = match self.parse_expr() {
            Ok(e) => e,
            Err(e) => {
                return Err(e);
            },
        };
        self.consume_if(&TokenKind::Semicolon);
        Ok(Statement::LetBind { name, mutable, type_annotation, value, location: loc })
    }

    #[verifier::rlimit(30)]
    fn parse_if_statement(&mut self, loc: SourceLoc) -> (r: Result<Statement, Error>)
        requires
            old(self).ok(),
        ensures
            final(self).ok(),
            final(self).tokens == old(self).tokens,
            match if_stmt_at(old(self).tokens@, old(self).pos as int, loc) {
                Ok((e, q)) => r matches Ok(x) && stmt_view(x) == e && final(self).pos == q && old(self).pos < q,
                Err(e) => r matches Err(err) && perr_is(err, e),
            },
        decreases old(self).tokens@.len() - old(self).pos, 29int,
    {
        let condition = match self.parse_expr() {
            Ok(e) => e,
            Err(e) => {
                return Err(e);
            },
        };
        let then_body = match self.parse_braced() {
            Ok(b) => b,
            Err(e) => {
                return Err(e);
            },
        };
        let else_body = if self.consume_if(&TokenKind::Else) {
            if self.check(&TokenKind::If) {
                let elif_loc = self.current().location;
                let elif_stmt = match self.parse_if_statement(elif_loc) {
                    Ok(s) => s,
                    Err(e) => {
                        return Err(e);
                    },
                };
                match elif_stmt {
                    Statement::If { then_body, .. } => Some(then_body),
                    other => Some(vec![other]),
                }
            } else {
                match self.parse_braced() {
                    Ok(b) => Some(b),
                    Err(e) => {
                        return Err(e);
                    },
                }
            }
        } else {
            None
        };
        Ok(Statement::If { condition, then_body, else_body, location: loc })
    }

    fn parse_for_statement(&mut self, loc: SourceLoc) -> (r: Result<Statement, Error>)
        requires
            old(self).ok(),
        ensures
            final(self).ok(),
            final(self).tokens == old(self).tokens,
            match for_at(old(self).tokens@, old(self).pos as int, loc) {
                Ok((e, q)) => r matches Ok(x) && stmt_view(x) == e && final(self).pos == q && old(self).pos < q,
                Err(e) => r matches Err(err) && perr_is(err, e),
            },
        decreases old(self).tokens@.len() - old(self).pos, 29int,
    {
        let var = match self.expect_name() {
            Ok(n) => n,
            Err(e) => {
                return Err(e);
            },
        };
        match self.expect(TokenKind::In) {
            Ok(()) => {},
            Err(e) => {
                return Err(e);
            },
        }
        let iter = match self.parse_expr() {
            Ok(e) => e,
            Err(e) => {
                return Err(e);
            },
        };
        let body = match self.parse_braced() {
            Ok(b) => b,
            Err(e) => {
                return Err(e);
            },
        };
        Ok(Statement::For { var, iter, body, location: loc })
    }

    fn parse_while_statement(&mut self, loc: SourceLoc) -> (r: Result<Statement, Error>)
        requires
            old(self).ok(),
        ensures
            final(self).ok(),
            final(self).tokens == old(self).tokens,
            match while_at(old(self).tokens@, old(self).pos as int, loc) {
                Ok((e, q)) => r matches Ok(x) && stmt_view(x) == e && final(self).pos == q && old(self).pos < q,
                Err(e) => r matches Err(err) && perr_is(err, e),
            },
        decreases old(self).tokens@.len() - old(self).pos, 29int,
    {
        let condition = match self.parse_expr() {
            Ok(e) => e,
            Err(e) => {
                return Err(e);
            },
        };
        let body = match self.parse_braced() {
            Ok(b) => b,
            Err(e) => {
                return Err(e);
            },
        };
        Ok(Statement::While { condition, body, location: loc })
    }

    #[verifier::rlimit(30)]
    fn parse_statement(&mut self) -> (r: Result<Statement, Error>)
        requires
            old(self).ok(),
        ensures
            final(self).ok(),
            final(self).tokens == old(self).tokens,
            match stmt_at(old(self).tokens@, old(self).pos as int) {
                Ok((e, q)) => r matches Ok(x) && stmt_view(x) == e && final(self).pos == q && old(self).pos < q,
                Err(e) => r matches Err(err) && perr_is(err, e),
            },
        decreases old(self).tokens@.len() - old(self).pos, 30int,
    {
        let ghost ts = self.tokens@;
        let ghost p0 = self.pos as int;
        let loc = self.current().location;
        let kind = copy_kind(&self.current().kind);
        let keyword = match kind {
            TokenKind::Let | TokenKind::Var | TokenKind::If | TokenKind::For | TokenKind::While
            | TokenKind::Return | TokenKind::Break => true,
            _ => false,
        };
        if !keyword {
            let expr = match self.parse_expr() {
                Ok(e) => e,
                Err(e) => {
                    return Err(e);
                },
            };
            self.consume_if(&TokenKind::Semicolon);
            return Ok(Statement::ExprStmt(expr));
        }
        assert(p0 < ts.len()) by {
            if p0 >= ts.len() {
                assert(kind_at(ts, p0) == ts.last().kind);
            }
        }
        self.advance();
        match kind {
            TokenKind::Let => self.parse_let_binding(false, loc),
            TokenKind::Var => self.parse_let_binding(true, loc),
            TokenKind::If => self.parse_if_statement(loc),
            TokenKind::For => self.parse_for_statement(loc),
            TokenKind::While => self.parse_while_statement(loc),
            TokenKind::Return => {
                let ends = self.check(&TokenKind::RBrace) || self.check(&TokenKind::Semicolon) || self.is_at_end();
                let expr = if !ends {
                    match self.parse_expr() {
                        Ok(e) => Some(e),
                        Err(e) => {
                            return Err(e);
                        },
                    }
                } else {
                    None
                };
                self.consume_if(&TokenKind::Semicolon);
                Ok(Statement::Return(expr))
            },
            _ => {
                self.consume_if(&TokenKind::Semicolon);
                Ok(Statement::Break)
            },
        }
    }
}

impl Parser {
    fn parse_parameters(&mut self) -> (r: Result<Vec<Parameter>, Error>)
        requires
            old(self).ok(),
        ensures
            final(self).ok(),
            final(self).tokens == old(self).tokens,
            match params_at(old(self).tokens@, old(self).pos as int, Seq::empty()) {
                Ok((m, q)) => r matches Ok(x) && params_view(x@) == m && final(self).pos == q && old(self).pos <= q,
                Err(e) => r matches Err(err) && perr_is(err, e),
            },
    {
        let ghost ts = self.tokens@;
        let ghost p0 = self.pos as int;
        let mut params: Vec<Parameter> = Vec::new();
        assert(params_view(params@) =~= Seq::<ParamM>::empty());
        loop
            invariant
                self.ok(),
                self.tokens == old(self).tokens,
                ts == old(self).tokens@,
                p0 == old(self).pos,
                p0 <= self.pos,
                params_at(ts, p0, Seq::empty()) == params_at(ts, self.pos as int, params_view(params@)),
            decreases ts.len() - self.pos,
        {
            if self.check(&TokenKind::RParen) {
                return Ok(params);
            }
            let loc = self.current().location;
            let name = match self.expect_name() {
            Ok(v) => v,
            Err(e) => {
                return Err(e);
            },
        };
            match self.expect(TokenKind::Colon) {
            Ok(()) => {},
            Err(e) => {
                return Err(e);
            },
        }
            let type_annotation = match self.parse_type_expr() {
            Ok(v) => v,
            Err(e) => {
                return Err(e);
            },
        };
            let ghost before = params@;
            params.push(Parameter { name, type_annotation, location: loc });
            assert(params_view(params@) =~= params_view(before).push((params@.last().name@, type_view(params@.last().type_annotation), loc)));
            if !self.consume_if(&TokenKind::Comma) {
                return Ok(params);
            }
        }
    }

    fn parse_mission_def(&mut self) -> (r: Result<MissionDecl, Error>)
        requires
            old(self).ok(),
        ensures
            final(self).ok(),
            final(self).tokens == old(self).tokens,
            match mission_at(old(self).tokens@, old(self).pos as int) {
                Ok((m, q)) => r matches Ok(x) && mission_view(x) == m && final(self).pos == q && old(self).pos < q,
                Err(e) => r matches Err(err) && perr_is(err, e),
            },
    {
        let loc = self.current().location;
        let name = match self.expect_name() {
            Ok(v) => v,
            Err(e) => {
                return Err(e);
            },
        };
        match self.expect(TokenKind::LParen) {
            Ok(()) => {},
            Err(e) => {
                return Err(e);
            },
        }
        let params = match self.parse_parameters() {
            Ok(v) => v,
            Err(e) => {
                return Err(e);
            },
        };
        match self.expect(TokenKind::RParen) {
            Ok(()) => {},
            Err(e) => {
                return Err(e);
            },
        }
        let has_return = self.consume_if(&TokenKind::Arrow) || self.consume_if(&TokenKind::Ident(String::new()));
        let return_type = if has_return {
            match self.parse_type_expr() {
                Ok(t) => Some(t),
                Err(e) => {
                    return Err(e);
                },
            }
        } else {
            None
        };
        let body = match self.parse_braced() {
            Ok(v) => v,
            Err(e) => {
                return Err(e);
            },
        };
        Ok(MissionDecl { name, params, return_type, body, location: loc })
    }

    #[verifier::rlimit(30)]
    fn parse_constellation_def(&mut self) -> (r: Result<TopLevelItem, Error>)
        requires
            old(self).ok(),
        ensures
            final(self).ok(),
            final(self).tokens == old(self).tokens,
            match constellation_at(old(self).tokens@, old(self).pos as int) {
                Ok((m, q)) => r matches Ok(x) && item_view(x) == m && final(self).pos == q && old(self).pos < q,
                Err(e) => r matches Err(err) && perr_is(err, e),
            },
    {
        let ghost ts = self.tokens@;
        let loc = self.current().location;
        let name = match self.expect_name() {
            Ok(v) => v,
            Err(e) => {
                return Err(e);
            },
        };
        match self.expect(TokenKind::LBrace) {
            Ok(()) => {},
            Err(e) => {
                return Err(e);
            },
        }
        let ghost p1 = self.pos as int;
        let mut items: Vec<ConstellationItem> = Vec::new();
        assert(citems_view(items@) =~= Seq::<ConstItemM>::empty());
        loop
            invariant
                self.ok(),
                self.tokens == old(self).tokens,
                ts == old(self).tokens@,
                old(self).pos < p1 <= self.pos,
                loc == loc_of(ts, old(self).pos as int),
                named_open(ts, old(self).pos as int) == Ok::<(Seq<char>, int), PErr>((name@, p1)),
                const_items(ts, p1, Seq::empty(), loc) == const_items(ts, self.pos as int, citems_view(items@), loc),
            ensures
                self.ok(),
                self.tokens == old(self).tokens,
                const_items(ts, p1, Seq::empty(), loc) == Ok::<(Seq<ConstItemM>, int), PErr>((citems_view(items@), self.pos as int)),
            decreases ts.len() - self.pos,
        {
            if self.check(&TokenKind::RBrace) {
                break;
            }
            let is_export = matches!(self.current().kind, TokenKind::Export);
            let is_mission = matches!(self.current().kind, TokenKind::Mission);
            if !is_export && !is_mission {
                return Err(Error::parse("Expected mission or export in constellation", loc));
            }
            let ghost q0 = self.pos as int;
            assert(q0 < ts.len()) by {
                if q0 >= ts.len() {
                    assert(kind_at(ts, q0) == ts.last().kind);
                }
            }
            self.advance();
            let ghost before = items@;
            if is_export {
                let export_name = match self.expect_name() {
            Ok(v) => v,
            Err(e) => {
                return Err(e);
            },
        };
                items.push(ConstellationItem::Export(export_name));
                self.consume_if(&TokenKind::Semicolon);
            } else {
                let mission = match self.parse_mission_def() {
            Ok(v) => v,
            Err(e) => {
                return Err(e);
            },
        };
                items.push(ConstellationItem::MissionDecl(mission));
            }
            assert(citems_view(items@) =~= citems_view(before).push(citems_view(items@).last()));
        }
        match self.expect(TokenKind::RBrace) {
            Ok(()) => {},
            Err(e) => {
                return Err(e);
            },
        }
        Ok(TopLevelItem::ConstellationDecl(ConstellationDecl { name, items, location: loc }))
    }

    fn parse_layer_args(&mut self) -> (r: Result<Vec<(String, Expr)>, Error>)
        requires
            old(self).ok(),
        ensures
            final(self).ok(),
            final(self).tokens == old(self).tokens,
            match layer_args_at(old(self).tokens@, old(self).pos as int, Seq::empty()) {
                Ok((m, q)) => r matches Ok(x) && layer_args_view(x@) == m && final(self).pos == q && old(self).pos <= q,
                Err(e) => r matches Err(err) && perr_is(err, e),
            },
    {
        let ghost ts = self.tokens@;
        let ghost p0 = self.pos as int;
        let mut args: Vec<(String, Expr)> = Vec::new();
        assert(layer_args_view(args@) =~= Seq::<(Seq<char>, ExprM)>::empty());
        loop
            invariant
                self.ok(),
                self.tokens == old(self).tokens,
                ts == old(self).tokens@,
                p0 == old(self).pos,
                p0 <= self.pos,
                layer_args_at(ts, p0, Seq::empty()) == layer_args_at(ts, self.pos as int, layer_args_view(args@)),
            decreases ts.len() - self.pos,
        {
            if self.check(&TokenKind::RParen) {
                return Ok(args);
            }
            let name = match self.expect_name() {
            Ok(v) => v,
            Err(e) => {
                return Err(e);
            },
        };
            match self.expect(TokenKind::Equals) {
            Ok(()) => {},
            Err(e) => {
                return Err(e);
            },
        }
            let value = match self.parse_expr() {
            Ok(v) => v,
            Err(e) => {
                return Err(e);
            },
        };
            let ghost before = args@;
            args.push((name, value));
            assert(layer_args_view(args@) =~= layer_args_view(before).push((args@.last().0@, expr_view(args@.last().1))));
            if !self.consume_if(&TokenKind::Comma) {
                return Ok(args);
            }
        }
    }

    fn parse_repeat(&mut self, loc: SourceLoc) -> (r: Result<Option<u32>, Error>)
        requires
            old(self).ok(),
        ensures
            final(self).ok(),
            final(self).tokens == old(self).tokens,
            match repeat_at(old(self).tokens@, old(self).pos as int, loc) {
                Ok((m, q)) => r matches Ok(x) && x == m && final(self).pos == q && old(self).pos <= q,
                Err(e) => r matches Err(err) && perr_is(err, e),
            },
    {
        if !self.consume_if(&TokenKind::Repeat) {
            return Ok(None);
        }
        match self.expect(TokenKind::LParen) {
            Ok(()) => {},
            Err(e) => {
                return Err(e);
            },
        }
        let n = match self.current().kind {
            TokenKind::Integer(n) => n,
            _ => {
                return Err(Error::parse("Expected repeat count", loc));
            },
        };
        #[verifier::truncate]
        let count = n as u32;
        self.advance();
        match self.expect(TokenKind::RParen) {
            Ok(()) => Ok(Some(count)),
            Err(e) => Err(e),
        }
    }

    fn parse_layer_decl(&mut self) -> (r: Result<LayerDecl, Error>)
        requires
            old(self).ok(),
        ensures
            final(self).ok(),
            final(self).tokens == old(self).tokens,
            match layer_at(old(self).tokens@, old(self).pos as int) {
                Ok((m, q)) => r matches Ok(x) && layer_view(x) == m && final(self).pos == q && old(self).pos < q,
                Err(e) => r matches Err(err) && perr_is(err, e),
            },
    {
        let loc = self.current().location;
        match self.expect(TokenKind::Layer) {
            Ok(()) => {},
            Err(e) => {
                return Err(e);
            },
        }
        let kind = match self.expect_name() {
            Ok(v) => v,
            Err(e) => {
                return Err(e);
            },
        };
        match self.expect(TokenKind::LParen) {
            Ok(()) => {},
            Err(e) => {
                return Err(e);
            },
        }
        let args = match self.parse_layer_args() {
            Ok(v) => v,
            Err(e) => {
                return Err(e);
            },
        };
        match self.expect(TokenKind::RParen) {
            Ok(()) => {},
            Err(e) => {
                return Err(e);
            },
        }
        let repeat = match self.parse_repeat(loc) {
            Ok(v) => v,
            Err(e) => {
                return Err(e);
            },
        };
        self.consume_if(&TokenKind::Semicolon);
        Ok(LayerDecl { kind, args, repeat, nested: Vec::new(), location: loc })
    }

    #[verifier::rlimit(30)]
    fn parse_model_def(&mut self) -> (r: Result<TopLevelItem, Error>)
        requires
            old(self).ok(),
        ensures
            final(self).ok(),
            final(self).tokens == old(self).tokens,
            match model_at(old(self).tokens@, old(self).pos as int) {
                Ok((m, q)) => r matches Ok(x) && item_view(x) == m && final(self).pos == q && old(self).pos < q,
                Err(e) => r matches Err(err) && perr_is(err, e),
            },
    {
        let ghost ts = self.tokens@;
        let loc = self.current().location;
        let name = match self.expect_name() {
            Ok(v) => v,
            Err(e) => {
                return Err(e);
            },
        };
        match self.expect(TokenKind::LBrace) {
            Ok(()) => {},
            Err(e) => {
                return Err(e);
            },
        }
        let ghost p1 = self.pos as int;
        let mut layers: Vec<LayerDecl> = Vec::new();
        assert(layers_view(layers@) =~= Seq::<LayerM>::empty());
        loop
            invariant
                self.ok(),
                self.tokens == old(self).tokens,
                ts == old(self).tokens@,
                old(self).pos < p1 <= self.pos,
                loc == loc_of(ts, old(self).pos as int),
                named_open(ts, old(self).pos as int) == Ok::<(Seq<char>, int), PErr>((name@, p1)),
                layers_at(ts, p1, Seq::empty()) == layers_at(ts, self.pos as int, layers_view(layers@)),
            ensures
                self.ok(),
                self.tokens == old(self).tokens,
                layers_at(ts, p1, Seq::empty()) == Ok::<(Seq<LayerM>, int), PErr>((layers_view(layers@), self.pos as int)),
            decreases ts.len() - self.pos,
        {
            if self.check(&TokenKind::RBrace) {
                break;
            }
            let layer = match self.parse_layer_decl() {
            Ok(v) => v,
            Err(e) => {
                return Err(e);
            },
        };
            let ghost before = layers@;
            layers.push(layer);
            assert(layers_view(layers@) =~= layers_view(before).push(layer_view(layers@.last())));
        }
        match self.expect(TokenKind::RBrace) {
            Ok(()) => {},
            Err(e) => {
                return Err(e);
            },
        }
        Ok(TopLevelItem::ModelDecl(ModelDecl { name, layers, location: loc }))
    }

    #[verifier::rlimit(30)]
    fn parse_struct_def(&mut self) -> (r: Result<TopLevelItem, Error>)
        requires
            old(self).ok(),
        ensures
            final(self).ok(),
            final(self).tokens == old(self).tokens,
            match struct_at(old(self).tokens@, old(self).pos as int) {
                Ok((m, q)) => r matches Ok(x) && item_view(x) == m && final(self).pos == q && old(self).pos < q,
                Err(e) => r matches Err(err) && perr_is(err, e),
            },
    {
        let ghost ts = self.tokens@;
        let loc = self.current().location;
        let name = match self.expect_name() {
            Ok(v) => v,
            Err(e) => {
                return Err(e);
            },
        };
        match self.expect(TokenKind::LBrace) {
            Ok(()) => {},
            Err(e) => {
                return Err(e);
            },
        }
        let ghost p1 = self.pos as int;
        let mut fields: Vec<(String, TypeExpr)> = Vec::new();
        assert(fields_view(fields@) =~= Seq::<(Seq<char>, TypeM)>::empty());
        loop
            invariant_except_break
                fields_at(ts, p1, Seq::empty()) == fields_at(ts, self.pos as int, fields_view(fields@)),
            invariant
                self.ok(),
                self.tokens == old(self).tokens,
                ts == old(self).tokens@,
                old(self).pos < p1 <= self.pos,
                named_open(ts, old(self).pos as int) == Ok::<(Seq<char>, int), PErr>((name@, p1)),
            ensures
                self.ok(),
                self.tokens == old(self).tokens,
                fields_at(ts, p1, Seq::empty()) == Ok::<(Seq<(Seq<char>, TypeM)>, int), PErr>((fields_view(fields@), self.pos as int)),
            decreases ts.len() - self.pos,
        {
            if self.check(&TokenKind::RBrace) {
                break;
            }
            let field_name = match self.expect_name() {
            Ok(v) => v,
            Err(e) => {
                return Err(e);
            },
        };
            match self.expect(TokenKind::Colon) {
            Ok(()) => {},
            Err(e) => {
                return Err(e);
            },
        }
            let field_type = match self.parse_type_expr() {
            Ok(v) => v,
            Err(e) => {
                return Err(e);
            },
        };
            let ghost before = fields@;
            fields.push((field_name, field_type));
            assert(fields_view(fields@) =~= fields_view(before).push((fields@.last().0@, type_view(fields@.last().1))));
            if !self.consume_if(&TokenKind::Comma) {
                break;
            }
        }
        match self.expect(TokenKind::RBrace) {
            Ok(()) => {},
            Err(e) => {
                return Err(e);
            },
        }
        Ok(TopLevelItem::StructDecl(StructDecl { name, fields, location: loc }))
    }

    #[verifier::rlimit(30)]
    fn parse_enum_def(&mut self) -> (r: Result<TopLevelItem, Error>)
        requires
            old(self).ok(),
        ensures
            final(self).ok(),
            final(self).tokens == old(self).tokens,
            match enum_at(old(self).tokens@, old(self).pos as int) {
                Ok((m, q)) => r matches Ok(x) && item_view(x) == m && final(self).pos == q && old(self).pos < q,
                Err(e) => r matches Err(err) && perr_is(err, e),
            },
    {
        let ghost ts = self.tokens@;
        let loc = self.current().location;
        let name = match self.expect_name() {
            Ok(v) => v,
            Err(e) => {
                return Err(e);
            },
        };
        match self.expect(TokenKind::LBrace) {
            Ok(()) => {},
            Err(e) => {
                return Err(e);
            },
        }
        let ghost p1 = self.pos as int;
        let mut variants: Vec<String> = Vec::new();
        assert(names_view(variants@) =~= Seq::<Seq<char>>::empty());
        loop
            invariant_except_break
                variants_at(ts, p1, Seq::empty()) == variants_at(ts, self.pos as int, names_view(variants@)),
            invariant
                self.ok(),
                self.tokens == old(self).tokens,
                ts == old(self).tokens@,
                old(self).pos < p1 <= self.pos,
                named_open(ts, old(self).pos as int) == Ok::<(Seq<char>, int), PErr>((name@, p1)),
            ensures
                self.ok(),
                self.tokens == old(self).tokens,
                variants_at(ts, p1, Seq::empty()) == Ok::<(Seq<Seq<char>>, int), PErr>((names_view(variants@), self.pos as int)),
            decreases ts.len() - self.pos,
        {
            if self.check(&TokenKind::RBrace) {
                break;
            }
            let v = match self.expect_name() {
            Ok(v) => v,
            Err(e) => {
                return Err(e);
            },
        };
            let ghost before = variants@;
            variants.push(v);
            assert(names_view(variants@) =~= names_view(before).push(variants@.last()@));
            if !self.consume_if(&TokenKind::Comma) {
                break;
            }
        }
        match self.expect(TokenKind::RBrace) {
            Ok(()) => {},
            Err(e) => {
                return Err(e);
            },
        }
        Ok(TopLevelItem::EnumDecl(EnumDecl { name, variants, location: loc }))
    }

    fn parse_unit_def(&mut self) -> (r: Result<TopLevelItem, Error>)
        requires
            old(self).ok(),
        ensures
            final(self).ok(),
            final(self).tokens == old(self).tokens,
            match unit_at(old(self).tokens@, old(self).pos as int) {
                Ok((m, q)) => r matches Ok(x) && item_view(x) == m && final(self).pos == q && old(self).pos < q,
                Err(e) => r matches Err(err) && perr_is(err, e),
            },
    {
        let loc = self.current().location;
        let name = match self.expect_name() {
            Ok(v) => v,
            Err(e) => {
                return Err(e);
            },
        };
        match self.expect(TokenKind::Equals) {
            Ok(()) => {},
            Err(e) => {
                return Err(e);
            },
        }
        let definition = match self.expect_name() {
            Ok(v) => v,
            Err(e) => {
                return Err(e);
            },
        };
        self.consume_if(&TokenKind::Semicolon);
        Ok(TopLevelItem::UnitDecl(UnitDecl { name, definition: UnitExpr(definition), location: loc }))
    }

    #[verifier::rlimit(30)]
    fn parse_top_level(&mut self) -> (r: Result<TopLevelItem, Error>)
        requires
            old(self).ok(),
        ensures
            final(self).ok(),
            final(self).tokens == old(self).tokens,
            match top_level_at(old(self).tokens@, old(self).pos as int) {
                Ok((m, q)) => r matches Ok(x) && item_view(x) == m && final(self).pos == q && old(self).pos < q,
                Err(e) => r matches Err(err) && perr_is(err, e),
            },
    {
        let ghost ts = self.tokens@;
        let ghost p0 = self.pos as int;
        let loc = self.current().location;
        let kind = copy_kind(&self.current().kind);
        assert(p0 < ts.len() || kind is Eof) by {
            if p0 >= ts.len() {
                assert(kind_at(ts, p0) == ts.last().kind);
            }
        }
        match kind {
            TokenKind::Test => {
                self.advance();
                let mission = match self.parse_mission_def() {
            Ok(v) => v,
            Err(e) => {
                return Err(e);
            },
        };
                Ok(TopLevelItem::TestMission(mission))
            },
            TokenKind::Mission => {
                self.advance();
                let mission = match self.parse_mission_def() {
            Ok(v) => v,
            Err(e) => {
                return Err(e);
            },
        };
                Ok(TopLevelItem::MissionDecl(mission))
            },
            TokenKind::Parallel => {
                self.advance();
                match self.expect(TokenKind::Mission) {
            Ok(()) => {},
            Err(e) => {
                return Err(e);
            },
        }
                let mission = match self.parse_mission_def() {
            Ok(v) => v,
            Err(e) => {
                return Err(e);
            },
        };
                Ok(TopLevelItem::ParallelMissionDecl(mission))
            },
            TokenKind::Constellation => {
                self.advance();
                self.parse_constellation_def()
            },
            TokenKind::Model => {
                self.advance();
                self.parse_model_def()
            },
            TokenKind::Struct => {
                self.advance();
                self.parse_struct_def()
            },
            TokenKind::Enum => {
                self.advance();
                self.parse_enum_def()
            },
            TokenKind::Unit => {
                self.advance();
                self.parse_unit_def()
            },
            k => {
                let mut message = str_to_string("Expected top-level declaration, got ");
                push_kind_debug(&mut message, &k);
                assert(message@ =~= "Expected top-level declaration, got "@ + kind_debug(k));
                Err(Error { message, location: loc, kind: ErrorKind::ParseError })
            },
        }
    }

    /// Parses the whole token list into a program, or gives the first
    /// parse error. The tokens must end with `Eof`, as the lexer's do.
    #[verifier::rlimit(30)]
    pub fn parse_program(&mut self) -> (r: Result<Program, Error>)
        requires
            ends_with_eof(old(self).tokens()),
            old(self).position() == 0,
        ensures
            final(self).tokens() == old(self).tokens(),
            match program_of(old(self).tokens()) {
                Ok(items) => r matches Ok(p) && program_view(p) == items,
                Err(e) => r matches Err(err) && perr_is(err, e),
            },
    {
        let ghost ts = self.tokens@;
        let mut items: Vec<TopLevelItem> = Vec::new();
        assert(Seq::new(items@.len(), |i: int| item_view(items@[i])) =~= Seq::<ItemM>::empty());
        loop
            invariant
                self.ok(),
                self.tokens == old(self).tokens,
                ts == old(self).tokens@,
                program_of(ts) == items_at(ts, self.pos as int, Seq::new(items@.len(), |i: int| item_view(items@[i]))),
            decreases ts.len() - self.pos,
        {
            if self.check(&TokenKind::Eof) {
                let p = Program { items };
                assert(program_view(p) =~= Seq::new(p.items@.len(), |i: int| item_view(p.items@[i])));
                return Ok(p);
            }
            let item = match self.parse_top_level() {
            Ok(v) => v,
            Err(e) => {
                return Err(e);
            },
        };
            let ghost before = items@;
            items.push(item);
            assert(Seq::new(items@.len(), |i: int| item_view(items@[i])) =~= Seq::new(before.len(), |i: int| item_view(before[i])).push(item_view(items@.last())));
        }
    }
}

} // verus!
