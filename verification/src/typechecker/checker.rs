//! The type checker: drives inference over NOVA constructs, recording errors
//! and growing one substitution.

use vstd::prelude::*;
use crate::text::{decimal, push_decimal, push_str, str_to_string};
use crate::typechecker::infer::{BinOp, TypeEnv, TypeError, env_find, fresh_map, rename};
use crate::typechecker::render::ty_text;
use crate::typechecker::subst::{Subst, resolve, acyclic, lemma_some_rank};
use crate::typechecker::traits::{TraitBound, TraitRegistry, satisfies, builtin_traits, builtin_impls};
use crate::typechecker::types::{FunctionType, NovaType, TensorShape, Ty, ShapeModel, TypeVar, model_seq, var_list};
use crate::typechecker::unify::{clash_text, compatible, top_level_outcome, unify, unify_reaches, lemma_compatible_persists, lemma_resolve_idempotent};
use crate::unit_resolver::dimension::{Dim, exps, dim_mul, dim_div, dim_pow, mul_fits, div_fits, pow_fits, lemma_dim_ext};
use crate::unit_resolver::resolver::{Outcome, UnitResolver, resolve as resolve_unit};
use crate::unit_resolver::si_table::si_rows;
use crate::unit_resolver::custom_units::CustomUnitM;

verus! {

/// One unification of `l` and `r` at `line:col` took the errors from `e0` to
/// `e1` and the substitution from `s0` to `s1`: an error was recorded just
/// when unification failed, and the outcome is that of `unify_outcome`.
pub open spec fn unified(
    e0: Seq<TypeError>,
    e1: Seq<TypeError>,
    s0: Map<u32, Ty>,
    s1: Map<u32, Ty>,
    l: Ty,
    r: Ty,
    line: u32,
    col: u32,
) -> bool {
    &&& s0.submap_of(s1)
    &&& acyclic(s1)
    &&& {
        ||| e1 == e0 && compatible(resolve(s1, l), resolve(s1, r)) && top_level_outcome(s0, s1, l, r, Ok(()))
            && unify_reaches(s0, l, r, s1, None)
        ||| e1.len() == e0.len() + 1 && e1.drop_last() == e0 && (e1.last() matches TypeError::Unification(e)
            && e.line == line && e.col == col && top_level_outcome(s0, s1, l, r, Err(e))
            && unify_reaches(s0, l, r, s1, Some(e.message@)))
    }
}

/// A unit mismatch is a compile-time error: when the operands of `+`, `-`
/// or a comparison are unit floats (so that `infer_binop_arith` unifies
/// them), unification records an error exactly when their dimensions
/// differ, and that error is the unit clash at the operator's position.
pub proof fn lemma_unit_mismatch_is_error(
    e0: Seq<TypeError>,
    e1: Seq<TypeError>,
    s0: Map<u32, Ty>,
    s1: Map<u32, Ty>,
    d1: Dim,
    u1: Seq<char>,
    d2: Dim,
    u2: Seq<char>,
    line: u32,
    col: u32,
)
    requires
        acyclic(s0),
        unified(e0, e1, s0, s1, Ty::UnitFloat { dim: d1, unit: u1 }, Ty::UnitFloat { dim: d2, unit: u2 }, line, col),
    ensures
        d1 == d2 ==> e1 == e0 && s1 == s0,
        d1 != d2 ==> e1 == e0.push(e1.last()) && (e1.last() matches TypeError::Unification(e)
            && e.line == line && e.col == col
            && e.message@ == clash_text(Ty::UnitFloat { dim: d1, unit: u1 }, Ty::UnitFloat { dim: d2, unit: u2 })),
{
    let l = Ty::UnitFloat { dim: d1, unit: u1 };
    let t = Ty::UnitFloat { dim: d2, unit: u2 };
    lemma_some_rank(s0);
    lemma_some_rank(s1);
    assert(resolve(s0, l) == l);
    assert(resolve(s0, t) == t);
    assert(resolve(s1, l) == l);
    assert(resolve(s1, t) == t);
    if d1 != d2 {
        assert(!compatible(l, t));
        assert(e1 =~= e0.push(e1.last()));
    }
}

/// The dimension with the given exponents.
pub open spec fn dim_from(s: Seq<int>) -> Dim {
    Dim { exp: [s[0] as i8, s[1] as i8, s[2] as i8, s[3] as i8, s[4] as i8, s[5] as i8, s[6] as i8] }
}

/// The type of `l op r` for an operator other than `@`, on resolved operands.
pub open spec fn arith_result(op: BinOp, l: Ty, r: Ty) -> Ty {
    match op {
        BinOp::Add | BinOp::Sub => l,
        BinOp::Mul => match (l, r) {
            (Ty::UnitFloat { dim: d1, unit: u1 }, Ty::UnitFloat { dim: d2, unit: u2 }) =>
                Ty::UnitFloat { dim: dim_from(dim_mul(d1, d2)), unit: u1 + seq!['*'] + u2 },
            (Ty::UnitFloat { .. }, Ty::Float) => l,
            (Ty::Float, Ty::UnitFloat { .. }) => r,
            _ => l,
        },
        BinOp::Div => match (l, r) {
            (Ty::UnitFloat { dim: d1, unit: u1 }, Ty::UnitFloat { dim: d2, unit: u2 }) =>
                Ty::UnitFloat { dim: dim_from(dim_div(d1, d2)), unit: u1 + seq!['/'] + u2 },
            (Ty::UnitFloat { .. }, Ty::Float) => l,
            (Ty::Float, Ty::Float) => Ty::Float,
            _ => l,
        },
        BinOp::Pow => match l {
            Ty::UnitFloat { dim, unit } => Ty::UnitFloat { dim: dim_from(dim_pow(dim, 2)), unit: unit + seq!['^', '2'] },
            _ => l,
        },
        _ => Ty::Bool,
    }
}

/// Whether `l op r` unifies its operands with each other.
pub open spec fn unifies_operands(op: BinOp, l: Ty, r: Ty) -> bool {
    match op {
        BinOp::Add | BinOp::Sub | BinOp::Eq | BinOp::Ne | BinOp::Lt | BinOp::Gt | BinOp::Le | BinOp::Ge => true,
        BinOp::Mul => !(l is UnitFloat && r is UnitFloat) && !(l is UnitFloat && r is Float) && !(l is Float && r is UnitFloat),
        BinOp::Div => !(l is UnitFloat && r is UnitFloat) && !(l is UnitFloat && r is Float) && !(l is Float && r is Float),
        _ => false,
    }
}

/// The dimension arithmetic of `l op r` stays within `i8`.
pub open spec fn arith_fits(op: BinOp, l: Ty, r: Ty) -> bool {
    match (op, l, r) {
        (BinOp::Mul, Ty::UnitFloat { dim: d1, .. }, Ty::UnitFloat { dim: d2, .. }) => mul_fits(d1, d2),
        (BinOp::Div, Ty::UnitFloat { dim: d1, .. }, Ty::UnitFloat { dim: d2, .. }) => div_fits(d1, d2),
        (BinOp::Pow, Ty::UnitFloat { dim, .. }, _) => pow_fits(dim, 2),
        _ => true,
    }
}

/// The exponents of the dimension a number type carries: those of a unit
/// float, all zero for a plain (dimensionless) float.
pub open spec fn num_exps(t: Ty) -> Seq<int> {
    match t {
        Ty::UnitFloat { dim, .. } => exps(dim),
        _ => Seq::new(7, |k: int| 0int),
    }
}

/// A plain or unit float.
pub open spec fn is_number(t: Ty) -> bool {
    t is Float || t is UnitFloat
}

/// Dimensions follow the arithmetic: a product carries the sum of its
/// operands' exponents and a quotient their difference (a plain float counts
/// as dimensionless), a square twice its operand's, and a sum or difference
/// its left operand's. A unit survives any product or quotient by a plain
/// float and any square. (The one exception, written so in the original, is
/// a plain float divided by a unit float, which is typed as the plain float.)
pub proof fn lemma_arith_dimensions(op: BinOp, l: Ty, r: Ty)
    requires
        is_number(l),
        is_number(r),
        arith_fits(op, l, r),
    ensures
        op == BinOp::Mul ==> num_exps(arith_result(op, l, r))
            == Seq::new(7, |k: int| num_exps(l)[k] + num_exps(r)[k]),
        op == BinOp::Div && !(l is Float && r is UnitFloat) ==> num_exps(arith_result(op, l, r))
            == Seq::new(7, |k: int| num_exps(l)[k] - num_exps(r)[k]),
        op == BinOp::Pow ==> num_exps(arith_result(op, l, r)) == Seq::new(7, |k: int| 2 * num_exps(l)[k]),
        (op == BinOp::Add || op == BinOp::Sub) ==> num_exps(arith_result(op, l, r)) == num_exps(l),
        (op == BinOp::Mul || op == BinOp::Div) && (l is UnitFloat || r is UnitFloat)
            && !(op == BinOp::Div && l is Float) ==> arith_result(op, l, r) is UnitFloat,
        op == BinOp::Pow && l is UnitFloat ==> arith_result(op, l, r) is UnitFloat,
        (op == BinOp::Mul || op == BinOp::Div) && l is Float && r is Float ==> arith_result(op, l, r) == Ty::Float,
{
    let res = arith_result(op, l, r);
    match (l, r) {
        (Ty::UnitFloat { dim: d1, .. }, Ty::UnitFloat { dim: d2, .. }) => {
            if op == BinOp::Mul {
                assert(num_exps(res) =~= Seq::new(7, |k: int| num_exps(l)[k] + num_exps(r)[k])) by {
                    assert forall|k: int| 0 <= k < 7 implies num_exps(res)[k] == num_exps(l)[k] + num_exps(r)[k] by {
                        assert(crate::unit_resolver::dimension::fits_i8(d1.exp@[k] + d2.exp@[k]));
                    }
                }
            }
            if op == BinOp::Div {
                assert(num_exps(res) =~= Seq::new(7, |k: int| num_exps(l)[k] - num_exps(r)[k])) by {
                    assert forall|k: int| 0 <= k < 7 implies num_exps(res)[k] == num_exps(l)[k] - num_exps(r)[k] by {
                        assert(crate::unit_resolver::dimension::fits_i8(d1.exp@[k] - d2.exp@[k]));
                    }
                }
            }
        }
        _ => {}
    }
    if op == BinOp::Pow {
        if let Ty::UnitFloat { dim, .. } = l {
            assert(num_exps(res) =~= Seq::new(7, |k: int| 2 * num_exps(l)[k])) by {
                assert forall|k: int| 0 <= k < 7 implies num_exps(res)[k] == 2 * num_exps(l)[k] by {
                    assert(crate::unit_resolver::dimension::fits_i8(dim.exp@[k] * 2));
                }
            }
        }
    }
    assert(num_exps(res) =~= Seq::new(7, |k: int| num_exps(l)[k] + num_exps(r)[k]) || op != BinOp::Mul
        || (l is UnitFloat && r is UnitFloat));
    assert(num_exps(res) =~= Seq::new(7, |k: int| num_exps(l)[k] - num_exps(r)[k]) || op != BinOp::Div
        || (l is UnitFloat && r is UnitFloat) || (l is Float && r is UnitFloat));
    assert(num_exps(res) =~= Seq::new(7, |k: int| 2 * num_exps(l)[k]) || op != BinOp::Pow || l is UnitFloat);
}

/// The message for a call with the wrong number of arguments.
pub open spec fn arity_message(expected: nat, got: nat) -> Seq<char> {
    "wrong number of arguments: expected "@ + decimal(expected) + ", got "@ + decimal(got)
}

/// The message for calling a value that is not a function.
pub open spec fn not_callable_message(t: Ty) -> Seq<char> {
    "type "@ + ty_text(t) + " is not callable"@
}

/// The type checker's state.
#[derive(Debug)]
pub struct TypeChecker {
    pub env: TypeEnv,
    pub subst: Subst,
    pub traits: TraitRegistry,
    pub units: UnitResolver,
    pub errors: Vec<TypeError>,
    /// The number the next fresh type variable gets.
    pub next_var: u32,
}

impl TypeChecker {
    /// The substitution is acyclic and the environment has a scope.
    pub open spec fn wf(&self) -> bool {
        self.subst.wf() && self.env@.len() > 0
    }

    /// A fresh type variable; numbering starts again at zero when `u32` runs
    /// out.
    fn fresh_var(&mut self) -> (r: TypeVar)
        ensures
            r.0 == old(self).next_var,
            final(self).next_var == (if old(self).next_var == u32::MAX { 0 } else { old(self).next_var + 1 }),
            final(self).env == old(self).env,
            final(self).subst == old(self).subst,
            final(self).traits == old(self).traits,
            final(self).units == old(self).units,
            final(self).errors == old(self).errors,
    {
        let v = self.next_var;
        self.next_var = if v == u32::MAX { 0 } else { v + 1 };
        TypeVar(v)
    }

    /// Unifies two types, recording an error on failure.
    pub fn unify(&mut self, lhs: &NovaType, rhs: &NovaType, line: u32, col: u32)
        requires
            old(self).wf(),
        ensures
            final(self).wf(),
            unified(old(self).errors@, final(self).errors@, old(self).subst@, final(self).subst@, lhs.model(), rhs.model(), line, col),
            final(self).env == old(self).env,
            final(self).traits == old(self).traits,
            final(self).units == old(self).units,
            final(self).next_var == old(self).next_var,
    {
        let ghost e0 = self.errors@;
        match unify(lhs, rhs, &mut self.subst, line, col) {
            Ok(()) => {},
            Err(e) => {
                self.errors.push(TypeError::Unification(e));
                assert(self.errors@.drop_last() =~= e0);
            },
        }
    }

    /// A type with the substitution applied.
    pub fn apply(&self, ty: &NovaType) -> (r: NovaType)
        requires
            self.wf(),
        ensures
            r.model() == resolve(self.subst@, ty.model()),
    {
        self.subst.apply(ty)
    }

    /// The type of an integer literal.
    pub fn infer_int_lit(&self) -> (r: NovaType)
        ensures
            r == NovaType::Int,
    {
        NovaType::Int
    }

    /// The type of a float literal without a unit.
    pub fn infer_float_lit(&self) -> (r: NovaType)
        ensures
            r == NovaType::Float,
    {
        NovaType::Float
    }

    /// The type of a string literal.
    pub fn infer_string_lit(&self) -> (r: NovaType)
        ensures
            r == NovaType::Str,
    {
        NovaType::Str
    }

    /// The type of a boolean literal.
    pub fn infer_bool_lit(&self) -> (r: NovaType)
        ensures
            r == NovaType::Bool,
    {
        NovaType::Bool
    }

    /// The type of a unit literal: `Float` with the unit's dimension, or
    /// `Float` with an error recorded when the unit does not resolve.
    pub fn infer_unit_lit(&mut self, unit_str: &str, line: u32, col: u32) -> (r: NovaType)
        requires
            !(resolve_unit(unit_str@, old(self).units.table(), old(self).units.customs()) is Overflow),
        ensures
            final(self).env == old(self).env,
            final(self).subst == old(self).subst,
            final(self).traits == old(self).traits,
            final(self).units == old(self).units,
            final(self).next_var == old(self).next_var,
            match resolve_unit(unit_str@, old(self).units.table(), old(self).units.customs()) {
                Outcome::Done(u, _) => final(self).errors == old(self).errors
                    && (r matches NovaType::UnitFloat { dim, unit_str: s } && exps(dim) == u.dim && s@ == unit_str@),
                Outcome::Failed(m) => r == NovaType::Float && final(self).errors@ == old(self).errors@.push(
                    TypeError::UnitError { message: final(self).errors@.last()->UnitError_message, line, col },
                ) && final(self).errors@.last()->UnitError_message@ == m,
                Outcome::Overflow => false,
            },
    {
        match self.units.resolve_unit_str(unit_str) {
            Ok(ru) => NovaType::UnitFloat { dim: ru.dim, unit_str: str_to_string(unit_str) },
            Err(e) => {
                self.errors.push(TypeError::UnitError { message: e.message, line, col });
                NovaType::Float
            },
        }
    }

    /// The type of a variable: its scheme instantiated with fresh variables,
    /// or a fresh variable with an error recorded when it is not bound.
    pub fn infer_ident(&mut self, name: &str, line: u32, col: u32) -> (r: NovaType)
        requires
            env_find(old(self).env@, name@) matches Some(s) ==> s.0.len() <= u32::MAX,
        ensures
            final(self).env == old(self).env,
            final(self).subst == old(self).subst,
            final(self).traits == old(self).traits,
            final(self).units == old(self).units,
            match env_find(old(self).env@, name@) {
                Some(s) => final(self).errors == old(self).errors && r.model() == (if s.0.len() == 0 {
                    s.1
                } else {
                    rename(s.1, fresh_map(s.0, if old(self).next_var + s.0.len() <= u32::MAX {
                        old(self).next_var
                    } else {
                        0
                    }))
                }),
                None => r == NovaType::Var(TypeVar(old(self).next_var)) && final(self).errors@
                    == old(self).errors@.push(
                    TypeError::UndefinedVariable {
                        name: final(self).errors@.last()->UndefinedVariable_name,
                        line,
                        col,
                    },
                ) && final(self).errors@.last()->UndefinedVariable_name@ == name@,
            },
    {
        match self.env.lookup(name) {
            Some(scheme) => {
                let n = scheme.quantified.len();
                if (u32::MAX - self.next_var) as usize <= n && n != (u32::MAX - self.next_var) as usize {
                    self.next_var = 0;
                }
                self.env.instantiate(scheme, &mut self.next_var)
            },
            None => {
                self.errors.push(TypeError::UndefinedVariable { name: str_to_string(name), line, col });
                let v = self.fresh_var();
                NovaType::Var(v)
            },
        }
    }
}

proof fn lemma_dim_from(d: Dim, s: Seq<int>)
    requires
        exps(d) == s,
    ensures
        dim_from(s) == d,
{
    let e = dim_from(s);
    assert(e.exp@ =~= d.exp@) by {
        assert forall|k: int| 0 <= k < 7 implies e.exp@[k] == d.exp@[k] by {
            assert(exps(d)[k] == d.exp@[k] as int);
        }
    }
    lemma_dim_ext(e, d);
}

/// A copy of a list of types.
fn copy_types(s: &[NovaType]) -> (r: Vec<NovaType>)
    ensures
        r@.len() == s@.len(),
        forall|i: int| 0 <= i < s@.len() ==> #[trigger] r@[i].model() == s@[i].model(),
{
    let mut v: Vec<NovaType> = Vec::new();
    let mut i: usize = 0;
    while i < s.len()
        invariant
            i <= s@.len(),
            v@.len() == i,
            forall|k: int| 0 <= k < i ==> #[trigger] v@[k].model() == s@[k].model(),
        decreases s@.len() - i,
    {
        v.push(s[i].duplicate());
        i = i + 1;
    }
    v
}

/// `u` followed by `tail`.
fn joined(u: &String, tail: &str) -> (r: String)
    ensures
        r@ == u@ + tail@,
{
    let mut s = u.clone();
    push_str(&mut s, tail);
    s
}

impl TypeChecker {
    /// The type of a binary expression from the types of its operands. With
    /// units, `*` and `/` combine dimensions and `^` squares them; the other
    /// operators unify their operands as the rules require.
    #[verifier::rlimit(40)]
    pub fn infer_binop_arith(&mut self, op: BinOp, lhs_ty: &NovaType, rhs_ty: &NovaType, line: u32, col: u32) -> (r: NovaType)
        requires
            old(self).wf(),
            arith_fits(op, resolve(old(self).subst@, lhs_ty.model()), resolve(old(self).subst@, rhs_ty.model())),
        ensures
            final(self).wf(),
            final(self).env == old(self).env,
            final(self).traits == old(self).traits,
            final(self).units == old(self).units,
            ({
                let l = resolve(old(self).subst@, lhs_ty.model());
                let t = resolve(old(self).subst@, rhs_ty.model());
                &&& op == BinOp::Matmul ==> r == NovaType::Var(TypeVar(old(self).next_var))
                &&& op != BinOp::Matmul ==> r.model() == arith_result(op, l, t)
                    && final(self).next_var == old(self).next_var
                &&& unifies_operands(op, l, t) ==> unified(old(self).errors@, final(self).errors@,
                    old(self).subst@, final(self).subst@, l, t, line, col)
                &&& (op == BinOp::And || op == BinOp::Or) ==> exists|em: Seq<TypeError>, sm: Map<u32, Ty>|
                    #[trigger] unified(old(self).errors@, em, old(self).subst@, sm, l, Ty::Bool, line, col)
                    && unified(em, final(self).errors@, sm, final(self).subst@, t, Ty::Bool, line, col)
                &&& (!unifies_operands(op, l, t) && op != BinOp::And && op != BinOp::Or) ==> final(self).errors
                    == old(self).errors && final(self).subst == old(self).subst
            }),
    {
        let lhs = self.apply(lhs_ty);
        let rhs = self.apply(rhs_ty);
        match op {
            BinOp::Add | BinOp::Sub => {
                self.unify(&lhs, &rhs, line, col);
                lhs
            },
            BinOp::Mul => {
                match (&lhs, &rhs) {
                    (NovaType::UnitFloat { dim: d1, unit_str: u1 }, NovaType::UnitFloat { dim: d2, unit_str: u2 }) => {
                        let result_dim = d1.mul(*d2);
                        proof {
                            lemma_dim_from(result_dim, dim_mul(*d1, *d2));
                        }
                        let mut unit_str = joined(u1, "*");
                        push_str(&mut unit_str, u2.as_str());
                        assert(unit_str@ =~= u1@ + seq!['*'] + u2@) by {
                            reveal_strlit("*");
                        }
                        NovaType::UnitFloat { dim: result_dim, unit_str }
                    },
                    (NovaType::UnitFloat { .. }, NovaType::Float) => lhs.clone(),
                    (NovaType::Float, NovaType::UnitFloat { .. }) => rhs.clone(),
                    _ => {
                        self.unify(&lhs, &rhs, line, col);
                        lhs
                    },
                }
            },
            BinOp::Div => {
                match (&lhs, &rhs) {
                    (NovaType::UnitFloat { dim: d1, unit_str: u1 }, NovaType::UnitFloat { dim: d2, unit_str: u2 }) => {
                        let result_dim = d1.div(*d2);
                        proof {
                            lemma_dim_from(result_dim, dim_div(*d1, *d2));
                        }
                        let mut unit_str = joined(u1, "/");
                        push_str(&mut unit_str, u2.as_str());
                        assert(unit_str@ =~= u1@ + seq!['/'] + u2@) by {
                            reveal_strlit("/");
                        }
                        NovaType::UnitFloat { dim: result_dim, unit_str }
                    },
                    (NovaType::UnitFloat { .. }, NovaType::Float) => lhs.clone(),
                    (NovaType::Float, NovaType::Float) => NovaType::Float,
                    _ => {
                        self.unify(&lhs, &rhs, line, col);
                        lhs
                    },
                }
            },
            BinOp::Pow => {
                match &lhs {
                    NovaType::UnitFloat { dim, unit_str } => {
                        let result_dim = dim.pow(2);
                        proof {
                            lemma_dim_from(result_dim, dim_pow(*dim, 2));
                        }
                        let u = joined(unit_str, "^2");
                        assert(u@ =~= unit_str@ + seq!['^', '2']) by {
                            reveal_strlit("^2");
                        }
                        NovaType::UnitFloat { dim: result_dim, unit_str: u }
                    },
                    _ => lhs.clone(),
                }
            },
            BinOp::Eq | BinOp::Ne | BinOp::Lt | BinOp::Gt | BinOp::Le | BinOp::Ge => {
                self.unify(&lhs, &rhs, line, col);
                NovaType::Bool
            },
            BinOp::And | BinOp::Or => {
                let ghost e0 = self.errors@;
                let ghost s0 = self.subst@;
                self.unify(&lhs, &NovaType::Bool, line, col);
                let ghost em = self.errors@;
                let ghost sm = self.subst@;
                self.unify(&rhs, &NovaType::Bool, line, col);
                assert(unified(e0, em, s0, sm, lhs.model(), Ty::Bool, line, col));
                NovaType::Bool
            },
            BinOp::Matmul => {
                let v = self.fresh_var();
                NovaType::Var(v)
            },
        }
    }
}


/// The errors `e1` are `e0` with at most `n` more, each a unification error at
/// `line:col`.
pub open spec fn unify_errors_added(e0: Seq<TypeError>, e1: Seq<TypeError>, n: nat, line: u32, col: u32) -> bool {
    &&& e0.len() <= e1.len() <= e0.len() + n
    &&& e1.take(e0.len() as int) == e0
    &&& forall|i: int| e0.len() <= i < e1.len() ==> (#[trigger] e1[i] matches TypeError::Unification(e)
        && e.line == line && e.col == col)
}

/// Unifying the parameters with the arguments pair by pair, left to right,
/// each at `line:col`, took the errors from `e0` to `e1` and the substitution
/// from `s0` to `s1`.
pub open spec fn args_unified(
    e0: Seq<TypeError>,
    e1: Seq<TypeError>,
    s0: Map<u32, Ty>,
    s1: Map<u32, Ty>,
    ps: Seq<Ty>,
    args: Seq<Ty>,
    line: u32,
    col: u32,
) -> bool
    decreases ps.len(),
{
    if ps.len() == 0 {
        e1 == e0 && s1 == s0
    } else {
        exists|em: Seq<TypeError>, sm: Map<u32, Ty>|
            args_unified(e0, em, s0, sm, ps.drop_last(), args.drop_last(), line, col)
            && #[trigger] unified(em, e1, sm, s1, ps.last(), args.last(), line, col)
    }
}

impl TypeChecker {
    /// The return type of a call from the callee's type and the argument
    /// types: a function's parameters are unified with the arguments; an
    /// unknown callee is unified with a function type; anything else is an
    /// error.
    pub fn infer_call(&mut self, callee_ty: &NovaType, arg_types: &[NovaType], line: u32, col: u32) -> (r: NovaType)
        requires
            old(self).wf(),
        ensures
            final(self).wf(),
            final(self).env == old(self).env,
            final(self).traits == old(self).traits,
            final(self).units == old(self).units,
            old(self).subst@.submap_of(final(self).subst@),
            match resolve(old(self).subst@, callee_ty.model()) {
                Ty::Function { params, ret, .. } => if params.len() != arg_types@.len() {
                    r == NovaType::Var(TypeVar(old(self).next_var)) && final(self).subst == old(self).subst
                        && final(self).errors@ == old(self).errors@.push(TypeError::Other {
                            message: final(self).errors@.last()->Other_message,
                            line,
                            col,
                        }) && final(self).errors@.last()->Other_message@ == arity_message(
                            params.len(),
                            arg_types@.len(),
                        )
                } else {
                    &&& r.model() == *ret
                    &&& final(self).next_var == old(self).next_var
                    &&& unify_errors_added(old(self).errors@, final(self).errors@, params.len(), line, col)
                    &&& args_unified(old(self).errors@, final(self).errors@, old(self).subst@, final(self).subst@,
                        params, model_seq(arg_types@), line, col)
                    &&& final(self).errors@ == old(self).errors@ ==> forall|i: int| 0 <= i < params.len()
                        ==> compatible(
                        resolve(final(self).subst@, #[trigger] params[i]),
                        resolve(final(self).subst@, arg_types@[i].model()),
                    )
                },
                Ty::Var(v) => {
                    let t = resolve(old(self).subst@, Ty::Function {
                        params: model_seq(arg_types@),
                        ret: Box::new(Ty::Var(old(self).next_var)),
                        parallel: false,
                    });
                    &&& r == NovaType::Var(TypeVar(old(self).next_var))
                    &&& final(self).errors == old(self).errors
                    &&& final(self).subst@ == if var_list(t).contains(v) {
                        old(self).subst@
                    } else {
                        old(self).subst@.insert(v, t)
                    }
                },
                c => r == NovaType::Var(TypeVar(old(self).next_var)) && final(self).subst == old(self).subst
                    && final(self).errors@ == old(self).errors@.push(TypeError::Other {
                    message: final(self).errors@.last()->Other_message,
                    line,
                    col,
                }) && final(self).errors@.last()->Other_message@ == not_callable_message(c),
            },
    {
        let callee = self.apply(callee_ty);
        match callee {
            NovaType::Function(ref ft) => {
                if ft.params.len() != arg_types.len() {
                    let mut message = str_to_string("wrong number of arguments: expected ");
                    push_decimal(&mut message, ft.params.len() as u64);
                    push_str(&mut message, ", got ");
                    push_decimal(&mut message, arg_types.len() as u64);
                    proof {
                        crate::typechecker::types::lemma_model_seq(ft.params@);
                    }
                    assert(message@ =~= arity_message(model_seq(ft.params@).len(), arg_types@.len()));
                    self.errors.push(TypeError::Other { message, line, col });
                    let v = self.fresh_var();
                    return NovaType::Var(v);
                }
                let ghost s0 = self.subst@;
                let ghost e0 = self.errors@;
                let ghost ps = model_seq(ft.params@);
                proof {
                    crate::typechecker::types::lemma_model_seq(ft.params@);
                }
                let mut i: usize = 0;
                assert(e0.take(e0.len() as int) =~= e0);
                proof {
                    crate::typechecker::types::lemma_model_seq(arg_types@);
                    assert(ps.take(0).len() == 0);
                }
                while i < ft.params.len()
                    invariant
                        i <= ft.params@.len() == arg_types@.len(),
                        ps == model_seq(ft.params@),
                        ps.len() == ft.params@.len(),
                        forall|k: int| 0 <= k < ps.len() ==> #[trigger] ps[k] == ft.params@[k].model(),
                        self.wf(),
                        self.env == old(self).env,
                        self.traits == old(self).traits,
                        self.units == old(self).units,
                        self.next_var == old(self).next_var,
                        s0 == old(self).subst@,
                        e0 == old(self).errors@,
                        s0.submap_of(self.subst@),
                        unify_errors_added(e0, self.errors@, i as nat, line, col),
                        args_unified(e0, self.errors@, s0, self.subst@, ps.take(i as int),
                            model_seq(arg_types@).take(i as int), line, col),
                        model_seq(arg_types@).len() == arg_types@.len(),
                        forall|k: int| 0 <= k < arg_types@.len() ==> #[trigger] model_seq(arg_types@)[k] == arg_types@[k].model(),
                        self.errors@ == e0 ==> forall|k: int| 0 <= k < i ==> compatible(
                            resolve(self.subst@, #[trigger] ps[k]),
                            resolve(self.subst@, arg_types@[k].model()),
                        ),
                    decreases ft.params@.len() - i,
                {
                    let ghost sb = self.subst@;
                    let ghost eb = self.errors@;
                    self.unify(&ft.params[i], &arg_types[i], line, col);
                    proof {
                        let am = model_seq(arg_types@);
                        assert(ps.take(i + 1).drop_last() =~= ps.take(i as int));
                        assert(am.take(i + 1).drop_last() =~= am.take(i as int));
                        assert(ps.take(i + 1).last() == ft.params@[i as int].model());
                        assert(am.take(i + 1).last() == arg_types@[i as int].model());
                        assert(args_unified(e0, eb, s0, sb, ps.take(i + 1).drop_last(), am.take(i + 1).drop_last(), line, col));
                        assert(unified(eb, self.errors@, sb, self.subst@, ps.take(i + 1).last(), am.take(i + 1).last(), line, col));
                        let pn = ps.take(i + 1);
                        let an = am.take(i + 1);
                        let e1 = self.errors@;
                        let s1 = self.subst@;
                        assert(pn.len() > 0);
                        assert(args_unified(e0, e1, s0, s1, pn, an, line, col));
                        vstd::map_lib::lemma_submap_of_trans(s0, sb, self.subst@);
                        if self.errors@ == e0 {
                            assert(eb == e0);
                            assert forall|k: int| 0 <= k < i + 1 implies compatible(
                                resolve(self.subst@, #[trigger] ps[k]),
                                resolve(self.subst@, arg_types@[k].model()),
                            ) by {
                                if k < i {
                                    lemma_compatible_persists(sb, self.subst@, ps[k], arg_types@[k].model());
                                }
                            }
                        }
                        if self.errors@ != eb {
                            let e1 = self.errors@;
                            assert(e1.drop_last() == eb);
                            assert(e1.take(e0.len() as int) =~= eb.take(e0.len() as int));
                            assert forall|k: int| e0.len() <= k < e1.len() implies (#[trigger] e1[k] matches TypeError::Unification(e)
                                && e.line == line && e.col == col) by {
                                if k < e1.len() - 1 {
                                    assert(e1[k] == eb[k]);
                                }
                            }
                        }
                    }
                    i = i + 1;
                }
                assert(ps.take(ps.len() as int) =~= ps);
                assert(model_seq(arg_types@).take(arg_types@.len() as int) =~= model_seq(arg_types@));
                (*ft.ret).clone()
            },
            NovaType::Var(v) => {
                let ghost s0 = self.subst@;
                let ret_var = self.fresh_var();
                let params = copy_types(arg_types);
                proof {
                    crate::typechecker::types::lemma_model_seq(params@);
                    crate::typechecker::types::lemma_model_seq(arg_types@);
                    assert(model_seq(params@) =~= model_seq(arg_types@));
                    lemma_resolve_idempotent(s0, callee_ty.model());
                }
                let fn_ty = NovaType::Function(FunctionType {
                    params,
                    ret: Box::new(NovaType::Var(ret_var)),
                    parallel: false,
                });
                let res = unify(&NovaType::Var(v), &fn_ty, &mut self.subst, line, col);
                proof {
                    assert(top_level_outcome(s0, self.subst@, Ty::Var(v.0), fn_ty.model(), res));
                }
                NovaType::Var(ret_var)
            },
            _ => {
                let text = callee.to_text();
                let mut message = str_to_string("type ");
                push_str(&mut message, text.as_str());
                push_str(&mut message, " is not callable");
                assert(message@ =~= not_callable_message(callee.model()));
                self.errors.push(TypeError::Other { message, line, col });
                let v = self.fresh_var();
                NovaType::Var(v)
            },
        }
    }

    /// Checks a returned type against the declared return type.
    pub fn check_return(&mut self, actual: &NovaType, expected: &NovaType, line: u32, col: u32)
        requires
            old(self).wf(),
        ensures
            final(self).wf(),
            unified(old(self).errors@, final(self).errors@, old(self).subst@, final(self).subst@, actual.model(), expected.model(), line, col),
            final(self).env == old(self).env,
            final(self).traits == old(self).traits,
            final(self).units == old(self).units,
            final(self).next_var == old(self).next_var,
    {
        self.unify(actual, expected, line, col);
    }

    /// Checks the trait bounds of a type, recording an error for the first
    /// bound it does not satisfy.
    pub fn check_bounds(&mut self, ty: &NovaType, bounds: &[TraitBound], line: u32, col: u32)
        ensures
            final(self).env == old(self).env,
            final(self).subst == old(self).subst,
            final(self).traits == old(self).traits,
            final(self).units == old(self).units,
            final(self).next_var == old(self).next_var,
            (forall|i: int| 0 <= i < bounds@.len() ==> #[trigger] satisfies(
                old(self).traits.impl_pairs(),
                ty.model(),
                bounds@[i].trait_name@,
            )) ==> final(self).errors == old(self).errors,
            !(forall|i: int| 0 <= i < bounds@.len() ==> #[trigger] satisfies(
                old(self).traits.impl_pairs(),
                ty.model(),
                bounds@[i].trait_name@,
            )) ==> final(self).errors@.len() == old(self).errors@.len() + 1 && final(self).errors@.drop_last()
                == old(self).errors@ && final(self).errors@.last() is TraitBound,
    {
        match self.traits.check_bounds(ty, bounds, line, col) {
            Ok(()) => {},
            Err(e) => {
                let ghost e0 = self.errors@;
                self.errors.push(TypeError::TraitBound(e));
                assert(self.errors@.drop_last() =~= e0);
            },
        }
    }

    /// Whether any error was recorded.
    pub fn had_errors(&self) -> (r: bool)
        ensures
            r == (self.errors@.len() > 0),
    {
        self.errors.len() > 0
    }
}


/// A monomorphic binding.
pub open spec fn mono_binding(name: Seq<char>, t: Ty) -> (Seq<char>, (Seq<u32>, Ty)) {
    (name, (Seq::empty(), t))
}

/// The function type `(params) -> ret`, not parallel.
pub open spec fn fn_ty(params: Seq<Ty>, ret: Ty) -> Ty {
    Ty::Function { params, ret: Box::new(ret), parallel: false }
}

/// A tensor of unknown shape.
pub open spec fn tensor_of(elem: Ty) -> Ty {
    Ty::Tensor { elem: Box::new(elem), shape: ShapeModel::Unknown }
}

/// The built-in missions every program sees: `transmit`, `ln`, `sqrt`,
/// `log10`, `cross_entropy`, `mse` and `pearson`. The two loss functions take
/// two tensors of one element type, a type variable of their own.
pub open spec fn builtin_bindings() -> Seq<(Seq<char>, (Seq<u32>, Ty))> {
    seq![
        mono_binding("transmit"@, fn_ty(seq![Ty::Str], Ty::Void)),
        mono_binding("ln"@, fn_ty(seq![Ty::Float], Ty::Float)),
        mono_binding("sqrt"@, fn_ty(seq![Ty::Float], Ty::Float)),
        mono_binding("log10"@, fn_ty(seq![Ty::Float], Ty::Float)),
        mono_binding("cross_entropy"@, fn_ty(seq![tensor_of(Ty::Var(0)), tensor_of(Ty::Var(0))], Ty::Float)),
        mono_binding("mse"@, fn_ty(seq![tensor_of(Ty::Var(1)), tensor_of(Ty::Var(1))], Ty::Float)),
        mono_binding("pearson"@, fn_ty(seq![Ty::Array(Box::new(Ty::Float)), Ty::Array(Box::new(Ty::Float))], Ty::Float)),
    ]
}

/// A function type from one or two parameter types to a return type.
fn function_of(p1: NovaType, p2: Option<NovaType>, ret: NovaType) -> (r: NovaType)
    ensures
        r.model() == fn_ty(
            match p2 {
                Some(q) => seq![p1.model(), q.model()],
                None => seq![p1.model()],
            },
            ret.model(),
        ),
{
    let mut params: Vec<NovaType> = Vec::new();
    let ghost m1 = p1.model();
    params.push(p1);
    let ghost ps1 = params@;
    match p2 {
        Some(q) => {
            let ghost m2 = q.model();
            params.push(q);
            proof {
                crate::typechecker::types::lemma_model_seq(params@);
            }
            assert(params@[0].model() == m1 && params@[1].model() == m2);
            assert(model_seq(params@) =~= seq![m1, m2]);
        },
        None => {
            proof {
                crate::typechecker::types::lemma_model_seq(params@);
            }
            assert(params@[0].model() == m1);
            assert(model_seq(params@) =~= seq![m1]);
        },
    }
    NovaType::Function(FunctionType { params, ret: Box::new(ret), parallel: false })
}

fn unknown_tensor(elem: NovaType) -> (r: NovaType)
    ensures
        r.model() == tensor_of(elem.model()),
{
    NovaType::Tensor { elem: Box::new(elem), shape: TensorShape::Unknown }
}

impl TypeChecker {
    /// A checker with the built-in missions bound, the built-in traits and
    /// the SI units.
    pub fn new() -> (r: Self)
        ensures
            r.wf(),
            r.env@ == seq![builtin_bindings()],
            r.subst@ == Map::<u32, Ty>::empty(),
            r.errors@.len() == 0,
            r.next_var == 2,
            r.traits.trait_defs() == builtin_traits(),
            r.traits.impl_pairs() == builtin_impls(),
            r.units.table() == si_rows(),
            r.units.customs() == Map::<Seq<char>, CustomUnitM>::empty(),
    {
        let mut tc = TypeChecker {
            env: TypeEnv::new(),
            subst: Subst::new(),
            traits: TraitRegistry::new(),
            units: UnitResolver::new(),
            errors: Vec::new(),
            next_var: 0,
        };
        tc.seed_builtins();
        tc
    }

    /// Binds the built-in missions.
    fn seed_builtins(&mut self)
        requires
            old(self).env@ == seq![Seq::<(Seq<char>, (Seq<u32>, Ty))>::empty()],
            old(self).next_var == 0,
        ensures
            final(self).env@ == seq![builtin_bindings()],
            final(self).next_var == 2,
            final(self).subst == old(self).subst,
            final(self).traits == old(self).traits,
            final(self).units == old(self).units,
            final(self).errors == old(self).errors,
    {
        let ghost e0 = self.env@;
        // transmit: (Str) -> Void
        self.env.bind("transmit", function_of(NovaType::Str, None, NovaType::Void));
        // ln, sqrt, log10: (Float) -> Float
        self.env.bind("ln", function_of(NovaType::Float, None, NovaType::Float));
        self.env.bind("sqrt", function_of(NovaType::Float, None, NovaType::Float));
        self.env.bind("log10", function_of(NovaType::Float, None, NovaType::Float));
        // cross_entropy: (Tensor, Tensor) -> Float
        let t_var = self.fresh_var();
        self.env.bind(
            "cross_entropy",
            function_of(
                unknown_tensor(NovaType::Var(t_var)),
                Some(unknown_tensor(NovaType::Var(t_var))),
                NovaType::Float,
            ),
        );
        // mse: (Tensor, Tensor) -> Float
        let t_var2 = self.fresh_var();
        self.env.bind(
            "mse",
            function_of(
                unknown_tensor(NovaType::Var(t_var2)),
                Some(unknown_tensor(NovaType::Var(t_var2))),
                NovaType::Float,
            ),
        );
        // pearson: (Array[Float], Array[Float]) -> Float
        self.env.bind(
            "pearson",
            function_of(
                NovaType::Array(Box::new(NovaType::Float)),
                Some(NovaType::Array(Box::new(NovaType::Float))),
                NovaType::Float,
            ),
        );
        assert(self.env@ =~= seq![builtin_bindings()]) by {
            assert(self.env@[0] =~= builtin_bindings());
        }
    }
}


impl Default for TypeChecker {
    fn default() -> (r: Self)
        ensures
            r.wf(),
            r.env@ == seq![builtin_bindings()],
            r.subst@ == Map::<u32, Ty>::empty(),
            r.errors@.len() == 0,
            r.next_var == 2,
            r.traits.trait_defs() == builtin_traits(),
            r.traits.impl_pairs() == builtin_impls(),
            r.units.table() == si_rows(),
            r.units.customs() == Map::<Seq<char>, CustomUnitM>::empty(),
    {
        TypeChecker::new()
    }
}

} // verus!
