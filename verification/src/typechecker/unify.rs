//! Unification of NOVA types: Robinson unification extended with unit
//! dimensions (`Float[unit]` unifies only with the same dimension), tensor
//! shapes (ranks must agree, sizes where known) and an occurs check.

use vstd::prelude::*;
use crate::text::{decimal, decimals, join, push_char, push_decimal, push_decimals_joined, push_str};
use crate::typechecker::render::{comma, ty_text, var_text};
use crate::typechecker::subst::{
    Subst, acyclic, closed_in, height, height_fields, height_seq, lemma_concat_contains,
    lemma_height_fields_index, lemma_height_seq_index, lemma_resolve_fields_index,
    lemma_var_list_fields_contains, resolve_fields_r,
    lemma_resolve_extend, lemma_resolve_id, lemma_resolve_seq_index, lemma_resolve_within,
    lemma_resolved_unbound, lemma_some_rank, lemma_var_list_parts, lemma_var_list_seq_contains,
    ranked, resolve, resolve_r, resolve_seq_r, some_rank, unbound_in, within, lemma_bind_acyclic,
};
use crate::typechecker::types::{
    NovaType, ShapeModel, TensorShape, Ty, TypeVar, lemma_model_fields, lemma_model_seq, model_fields, model_seq,
    var_list, var_list_fields, var_list_seq,
};
use crate::unit_resolver::dimension::dim_name;

verus! {

// ── Errors ───────────────────────────────────────────────────────────────────

/// A unification failure, with the source position it was found at.
#[derive(Debug)]
pub struct UnifyError {
    pub message: String,
    pub line: u32,
    pub col: u32,
}

impl UnifyError {
    /// An error with no source position.
    pub fn new(msg: &str) -> (r: Self)
        ensures
            r.message@ == msg@,
            r.line == 0,
            r.col == 0,
    {
        UnifyError { message: msg.to_string(), line: 0, col: 0 }
    }

    /// An error at a source position.
    pub fn at(msg: &str, line: u32, col: u32) -> (r: Self)
        ensures
            r.message@ == msg@,
            r.line == line,
            r.col == col,
    {
        UnifyError { message: msg.to_string(), line, col }
    }

    /// The error as printed: `line:col: type error: message`, or
    /// `type error: message` when the line is zero.
    pub fn to_text(&self) -> (r: String)
        ensures
            r@ == if self.line > 0 {
                decimal(self.line as nat) + seq![':'] + decimal(self.col as nat) + ": type error: "@ + self.message@
            } else {
                "type error: "@ + self.message@
            },
    {
        let mut s = String::new();
        if self.line > 0 {
            push_decimal(&mut s, self.line as u64);
            push_char(&mut s, ':');
            push_decimal(&mut s, self.col as u64);
            push_str(&mut s, ": type error: ");
        } else {
            push_str(&mut s, "type error: ");
        }
        push_str(&mut s, self.message.as_str());
        assert(s@ =~= if self.line > 0 {
            decimal(self.line as nat) + seq![':'] + decimal(self.col as nat) + ": type error: "@ + self.message@
        } else {
            "type error: "@ + self.message@
        });
        s
    }
}

/// An error whose message is the text built so far.
fn error_at(msg: String, line: u32, col: u32) -> (r: UnifyError)
    ensures
        r.message@ == msg@,
        r.line == line,
        r.col == col,
{
    UnifyError { message: msg, line, col }
}

// ── Shapes ───────────────────────────────────────────────────────────────────

/// How a list of sizes is printed for debugging: `[2, 3]`.
pub open spec fn sizes_text(d: Seq<usize>) -> Seq<char> {
    seq!['['] + join(decimals(d), comma()) + seq![']']
}

/// The shape two tensor shapes unify to, or `None` when they clash: an
/// unknown shape takes the other one; otherwise ranks must agree, and
/// concrete sizes must be equal.
pub open spec fn shape_meet(l: ShapeModel, r: ShapeModel) -> Option<ShapeModel> {
    match (l, r) {
        (ShapeModel::Unknown, _) => Some(r),
        (_, ShapeModel::Unknown) => Some(l),
        (ShapeModel::Rank(a), ShapeModel::Rank(b)) => if a == b { Some(l) } else { None },
        (ShapeModel::Known(a), ShapeModel::Known(b)) => if a == b { Some(l) } else { None },
        (ShapeModel::Rank(n), ShapeModel::Known(d)) => if n == d.len() { Some(r) } else { None },
        (ShapeModel::Known(d), ShapeModel::Rank(n)) => if n == d.len() { Some(l) } else { None },
        (ShapeModel::Symbolic(a), ShapeModel::Symbolic(b)) => if a.len() == b.len() { Some(l) } else { None },
        (ShapeModel::Rank(n), ShapeModel::Symbolic(s)) => if n == s.len() { Some(r) } else { None },
        (ShapeModel::Symbolic(s), ShapeModel::Rank(n)) => if n == s.len() { Some(l) } else { None },
        (ShapeModel::Known(d), ShapeModel::Symbolic(s)) => if d.len() == s.len() { Some(l) } else { None },
        (ShapeModel::Symbolic(s), ShapeModel::Known(d)) => if d.len() == s.len() { Some(r) } else { None },
    }
}

/// The message for two shapes that clash.
pub open spec fn shape_clash_text(l: ShapeModel, r: ShapeModel) -> Seq<char> {
    match (l, r) {
        (ShapeModel::Rank(a), ShapeModel::Rank(b)) =>
            "tensor rank mismatch: rank "@ + decimal(a) + " vs rank "@ + decimal(b),
        (ShapeModel::Known(a), ShapeModel::Known(b)) =>
            "tensor shape mismatch: "@ + sizes_text(a) + " vs "@ + sizes_text(b),
        (ShapeModel::Rank(n), ShapeModel::Known(d)) =>
            "tensor rank "@ + decimal(n) + " does not match shape "@ + sizes_text(d),
        (ShapeModel::Known(d), ShapeModel::Rank(n)) =>
            "tensor rank "@ + decimal(n) + " does not match shape "@ + sizes_text(d),
        (ShapeModel::Symbolic(_), ShapeModel::Symbolic(_)) => "symbolic tensor shape rank mismatch"@,
        _ => "tensor rank mismatch"@,
    }
}

/// Appends a list of sizes as `[2, 3]`.
fn push_sizes(s: &mut String, d: &Vec<usize>)
    ensures
        final(s)@ == old(s)@ + sizes_text(d@),
{
    push_char(s, '[');
    push_decimals_joined(s, d.as_slice(), ", ");
    proof { reveal_strlit(", "); assert(", "@ =~= comma()); }
    push_char(s, ']');
    assert(s@ =~= old(s)@ + sizes_text(d@));
}

/// Unifies two tensor shapes.
fn unify_shapes(lhs: &TensorShape, rhs: &TensorShape, line: u32, col: u32) -> (r: Result<TensorShape, UnifyError>)
    ensures
        match r {
            Ok(s) => shape_meet(lhs.model(), rhs.model()) == Some(s.model()),
            Err(e) => shape_meet(lhs.model(), rhs.model()) is None
                && e.message@ == shape_clash_text(lhs.model(), rhs.model()) && e.line == line && e.col == col,
        },
{
    match (lhs, rhs) {
        (TensorShape::Unknown, other) => Ok(other.duplicate()),
        (other, TensorShape::Unknown) => Ok(other.duplicate()),
        (TensorShape::Rank(a), TensorShape::Rank(b)) => {
            if *a == *b {
                Ok(TensorShape::Rank(*a))
            } else {
                let mut m = String::new();
                push_str(&mut m, "tensor rank mismatch: rank ");
                push_decimal(&mut m, *a as u64);
                push_str(&mut m, " vs rank ");
                push_decimal(&mut m, *b as u64);
                assert(m@ =~= shape_clash_text(lhs.model(), rhs.model()));
                Err(error_at(m, line, col))
            }
        }
        (TensorShape::Known(a), TensorShape::Known(b)) => {
            if crate::typechecker::types::usize_seq_eq(a, b) {
                Ok(TensorShape::Known(a.clone()))
            } else {
                let mut m = String::new();
                push_str(&mut m, "tensor shape mismatch: ");
                push_sizes(&mut m, a);
                push_str(&mut m, " vs ");
                push_sizes(&mut m, b);
                assert(m@ =~= shape_clash_text(lhs.model(), rhs.model()));
                Err(error_at(m, line, col))
            }
        }
        (TensorShape::Rank(n), TensorShape::Known(d)) => {
            if *n == d.len() {
                Ok(TensorShape::Known(d.clone()))
            } else {
                let mut m = String::new();
                push_str(&mut m, "tensor rank ");
                push_decimal(&mut m, *n as u64);
                push_str(&mut m, " does not match shape ");
                push_sizes(&mut m, d);
                assert(m@ =~= shape_clash_text(lhs.model(), rhs.model()));
                Err(error_at(m, line, col))
            }
        }
        (TensorShape::Known(d), TensorShape::Rank(n)) => {
            if *n == d.len() {
                Ok(TensorShape::Known(d.clone()))
            } else {
                let mut m = String::new();
                push_str(&mut m, "tensor rank ");
                push_decimal(&mut m, *n as u64);
                push_str(&mut m, " does not match shape ");
                push_sizes(&mut m, d);
                assert(m@ =~= shape_clash_text(lhs.model(), rhs.model()));
                Err(error_at(m, line, col))
            }
        }
        (TensorShape::Symbolic(a), TensorShape::Symbolic(b)) => {
            if a.len() == b.len() {
                Ok(lhs.duplicate())
            } else {
                Err(UnifyError::at("symbolic tensor shape rank mismatch", line, col))
            }
        }
        (TensorShape::Rank(n), TensorShape::Symbolic(s)) => {
            if *n == s.len() { Ok(rhs.duplicate()) } else { Err(UnifyError::at("tensor rank mismatch", line, col)) }
        }
        (TensorShape::Symbolic(s), TensorShape::Rank(n)) => {
            if *n == s.len() { Ok(lhs.duplicate()) } else { Err(UnifyError::at("tensor rank mismatch", line, col)) }
        }
        (TensorShape::Known(d), TensorShape::Symbolic(s)) => {
            if d.len() == s.len() { Ok(lhs.duplicate()) } else { Err(UnifyError::at("tensor rank mismatch", line, col)) }
        }
        (TensorShape::Symbolic(s), TensorShape::Known(d)) => {
            if d.len() == s.len() { Ok(rhs.duplicate()) } else { Err(UnifyError::at("tensor rank mismatch", line, col)) }
        }
    }
}

// ── What a successful unification guarantees ────────────────────────────────

/// Two types that unification accepts as one: equal types, `Never` against
/// anything, `Float` against `Float[unit]`, unit floats of one dimension,
/// and compound types of one form whose parts are compatible in turn.
pub open spec fn compatible(a: Ty, b: Ty) -> bool
    decreases a,
{
    if a == b {
        true
    } else {
        match (a, b) {
            (Ty::Never, _) => true,
            (_, Ty::Never) => true,
            (Ty::Float, Ty::UnitFloat { .. }) => true,
            (Ty::UnitFloat { .. }, Ty::Float) => true,
            (Ty::UnitFloat { dim: d1, .. }, Ty::UnitFloat { dim: d2, .. }) => d1 == d2,
            (Ty::Tensor { elem: e1, shape: s1 }, Ty::Tensor { elem: e2, shape: s2 }) =>
                compatible(*e1, *e2) && shape_meet(s1, s2) is Some,
            (Ty::Array(x), Ty::Array(y)) => compatible(*x, *y),
            (Ty::Wave(x), Ty::Wave(y)) => compatible(*x, *y),
            (Ty::Opt(x), Ty::Opt(y)) => compatible(*x, *y),
            (Ty::Res(x1, y1), Ty::Res(x2, y2)) => compatible(*x1, *x2) && compatible(*y1, *y2),
            (Ty::Function { params: p1, ret: r1, .. }, Ty::Function { params: p2, ret: r2, .. }) =>
                compatible_seq(p1, p2) && compatible(*r1, *r2),
            (Ty::Named { name: n1, args: a1 }, Ty::Named { name: n2, args: a2 }) =>
                n1 == n2 && compatible_seq(a1, a2),
            (Ty::Tuple(t1), Ty::Tuple(t2)) => compatible_seq(t1, t2),
            _ => false,
        }
    }
}

/// Two lists of one length whose types are pairwise compatible.
pub open spec fn compatible_seq(s1: Seq<Ty>, s2: Seq<Ty>) -> bool
    decreases s1,
{
    s1.len() == s2.len() && (s1.len() == 0 || (compatible_seq(s1.drop_last(), s2.drop_last())
        && compatible(s1.last(), s2.last())))
}

/// `compatible_seq` holds when the lists have one length and each pair is compatible.
pub proof fn lemma_compatible_seq_intro(s1: Seq<Ty>, s2: Seq<Ty>)
    requires
        s1.len() == s2.len(),
        forall|i: int| 0 <= i < s1.len() ==> #[trigger] compatible(s1[i], s2[i]),
    ensures
        compatible_seq(s1, s2),
    decreases s1.len(),
{
    if s1.len() > 0 {
        assert forall|i: int| 0 <= i < s1.drop_last().len() implies #[trigger] compatible(s1.drop_last()[i], s2.drop_last()[i]) by {
            assert(compatible(s1[i], s2[i]));
        }
        lemma_compatible_seq_intro(s1.drop_last(), s2.drop_last());
        assert(compatible(s1[s1.len() - 1], s2[s1.len() - 1]));
    }
}

/// Applying a substitution keeps compatible types compatible.
pub proof fn lemma_compatible_resolve(sigma: Map<u32, Ty>, rank: spec_fn(u32) -> nat, a: Ty, b: Ty)
    requires
        ranked(sigma, rank),
        compatible(a, b),
    ensures
        compatible(resolve_r(sigma, rank, a), resolve_r(sigma, rank, b)),
    decreases a,
{
    if a != b {
        match (a, b) {
            (Ty::Tensor { elem: e1, .. }, Ty::Tensor { elem: e2, .. }) => lemma_compatible_resolve(sigma, rank, *e1, *e2),
            (Ty::Array(x), Ty::Array(y)) => lemma_compatible_resolve(sigma, rank, *x, *y),
            (Ty::Wave(x), Ty::Wave(y)) => lemma_compatible_resolve(sigma, rank, *x, *y),
            (Ty::Opt(x), Ty::Opt(y)) => lemma_compatible_resolve(sigma, rank, *x, *y),
            (Ty::Res(x1, y1), Ty::Res(x2, y2)) => {
                lemma_compatible_resolve(sigma, rank, *x1, *x2);
                lemma_compatible_resolve(sigma, rank, *y1, *y2);
            }
            (Ty::Function { params: p1, ret: r1, .. }, Ty::Function { params: p2, ret: r2, .. }) => {
                lemma_compatible_resolve_seq(sigma, rank, p1, p2);
                lemma_compatible_resolve(sigma, rank, *r1, *r2);
            }
            (Ty::Named { args: a1, .. }, Ty::Named { args: a2, .. }) => lemma_compatible_resolve_seq(sigma, rank, a1, a2),
            (Ty::Tuple(t1), Ty::Tuple(t2)) => lemma_compatible_resolve_seq(sigma, rank, t1, t2),
            _ => {}
        }
    }
}

/// `lemma_compatible_resolve` for lists.
pub proof fn lemma_compatible_resolve_seq(sigma: Map<u32, Ty>, rank: spec_fn(u32) -> nat, s1: Seq<Ty>, s2: Seq<Ty>)
    requires
        ranked(sigma, rank),
        compatible_seq(s1, s2),
    ensures
        compatible_seq(resolve_seq_r(sigma, rank, s1), resolve_seq_r(sigma, rank, s2)),
    decreases s1,
{
    if s1.len() > 0 {
        lemma_compatible_resolve_seq(sigma, rank, s1.drop_last(), s2.drop_last());
        lemma_compatible_resolve(sigma, rank, s1.last(), s2.last());
        let r1 = resolve_seq_r(sigma, rank, s1);
        let r2 = resolve_seq_r(sigma, rank, s2);
        assert(r1.drop_last() =~= resolve_seq_r(sigma, rank, s1.drop_last()));
        assert(r2.drop_last() =~= resolve_seq_r(sigma, rank, s2.drop_last()));
    } else {
        assert(resolve_seq_r(sigma, rank, s2).len() == 0);
    }
}

// ── Sizes ────────────────────────────────────────────────────────────────────

/// The number of constructors in a type.
pub open spec fn size(t: Ty) -> nat
    decreases t,
{
    match t {
        Ty::Tensor { elem, .. } => 1 + size(*elem),
        Ty::Array(a) => 1 + size(*a),
        Ty::Wave(a) => 1 + size(*a),
        Ty::Opt(a) => 1 + size(*a),
        Ty::Res(a, b) => 1 + size(*a) + size(*b),
        Ty::Function { params, ret, .. } => 1 + size_seq(params) + size(*ret),
        Ty::Named { args, .. } => 1 + size_seq(args),
        Ty::Tuple(ts) => 1 + size_seq(ts),
        _ => 1,
    }
}

/// The total size of a list of types.
pub open spec fn size_seq(s: Seq<Ty>) -> nat
    decreases s,
{
    if s.len() == 0 { 0 } else { size_seq(s.drop_last()) + size(s.last()) }
}

/// No element of a list is larger than the list.
pub proof fn lemma_size_seq_index(s: Seq<Ty>, i: int)
    requires
        0 <= i < s.len(),
    ensures
        size(s[i]) <= size_seq(s),
    decreases s.len(),
{
    if i < s.len() - 1 {
        lemma_size_seq_index(s.drop_last(), i);
    }
}

// ── Occurs check ─────────────────────────────────────────────────────────────

/// Whether the unbound variable `var` occurs in `ty` once the substitution is applied.
fn occurs_in(var: TypeVar, ty: &NovaType, subst: &Subst) -> (r: bool)
    requires
        subst.wf(),
        !subst@.contains_key(var.0),
    ensures
        r == var_list(resolve(subst@, ty.model())).contains(var.0),
    decreases height(some_rank(subst@), ty.model()), ty,
{
    let ghost sigma = subst@;
    let ghost rank = some_rank(sigma);
    proof { lemma_some_rank(sigma); }
    let ghost res = resolve(sigma, ty.model());
    proof { lemma_var_list_parts(res); }
    match ty {
        NovaType::Var(v) => {
            if v.0 == var.0 {
                assert(res == ty.model());
                assert(var_list(res)[0] == var.0);
                return true;
            }
            match subst.lookup(*v) {
                Some(bound) => {
                    assert(sigma.contains_key(v.0));
                    assert(res == resolve(sigma, bound.model()));
                    occurs_in(var, bound, subst)
                }
                None => {
                    assert(res == ty.model());
                    assert(!var_list(res).contains(var.0)) by {
                        if var_list(res).contains(var.0) {
                            let i = var_list(res).index_of(var.0);
                            assert(i == 0);
                        }
                    }
                    false
                }
            }
        }
        NovaType::Tensor { elem, .. } => occurs_in(var, elem, subst),
        NovaType::Array(t) => occurs_in(var, t, subst),
        NovaType::Wave(t) => occurs_in(var, t, subst),
        NovaType::Option(t) => occurs_in(var, t, subst),
        NovaType::Result(t, e) => {
            proof {
                lemma_concat_contains(var_list(resolve(sigma, t.model())), var_list(resolve(sigma, e.model())), var.0);
            }
            occurs_in(var, t, subst) || occurs_in(var, e, subst)
        }
        NovaType::Function(ft) => {
            proof {
                lemma_concat_contains(
                    var_list_seq(resolve_seq_r(sigma, rank, model_seq(ft.params@))),
                    var_list(resolve(sigma, ft.ret.model())),
                    var.0,
                );
            }
            occurs_in_any(var, &ft.params, subst) || occurs_in(var, &ft.ret, subst)
        }
        NovaType::Named { type_args, .. } => occurs_in_any(var, type_args, subst),
        NovaType::Tuple(ts) => occurs_in_any(var, ts, subst),
        NovaType::Row { fields } => occurs_in_fields(var, fields, subst),
        _ => {
            assert(var_list(res) =~= Seq::<u32>::empty());
            false
        }
    }
}

/// Whether `var` occurs in one of the types, once the substitution is applied.
fn occurs_in_any(var: TypeVar, v: &Vec<NovaType>, subst: &Subst) -> (r: bool)
    requires
        subst.wf(),
        !subst@.contains_key(var.0),
    ensures
        r == var_list_seq(resolve_seq_r(subst@, some_rank(subst@), model_seq(v@))).contains(var.0),
    decreases height_seq(some_rank(subst@), model_seq(v@)), v,
{
    let ghost sigma = subst@;
    let ghost rank = some_rank(sigma);
    let ghost ms = model_seq(v@);
    let ghost rs = resolve_seq_r(sigma, rank, ms);
    proof {
        lemma_some_rank(sigma);
        lemma_model_seq(v@);
        lemma_resolve_seq_index(sigma, rank, ms);
        lemma_var_list_seq_contains(rs, var.0);
    }
    let mut i: usize = 0;
    while i < v.len()
        invariant
            subst.wf(),
            subst@ == sigma,
            rank == some_rank(sigma),
            ranked(sigma, rank),
            !sigma.contains_key(var.0),
            i <= v@.len(),
            ms == model_seq(v@),
            ms.len() == v@.len(),
            rs == resolve_seq_r(sigma, rank, ms),
            rs.len() == ms.len(),
            forall|j: int| 0 <= j < v@.len() ==> #[trigger] ms[j] == v@[j].model(),
            forall|j: int| 0 <= j < ms.len() ==> #[trigger] rs[j] == resolve_r(sigma, rank, ms[j]),
            forall|j: int| 0 <= j < i ==> !#[trigger] var_list(rs[j]).contains(var.0),
        decreases v@.len() - i,
    {
        proof {
            broadcast use vstd::std_specs::vec::axiom_vec_decreases_to_view;
            lemma_height_seq_index(rank, ms, i as int);
            assert(ms[i as int] == v@[i as int].model());
        }
        if occurs_in(var, &v[i], subst) {
            assert(var_list(rs[i as int]).contains(var.0));
            proof { lemma_var_list_seq_contains(rs, var.0); }
            return true;
        }
        i = i + 1;
    }
    false
}

/// Whether `var` occurs in the type of one of the fields, once the substitution is applied.
fn occurs_in_fields(var: TypeVar, v: &Vec<(String, NovaType)>, subst: &Subst) -> (r: bool)
    requires
        subst.wf(),
        !subst@.contains_key(var.0),
    ensures
        r == var_list_fields(resolve_fields_r(subst@, some_rank(subst@), model_fields(v@))).contains(var.0),
    decreases height_fields(some_rank(subst@), model_fields(v@)), v,
{
    let ghost sigma = subst@;
    let ghost rank = some_rank(sigma);
    let ghost ms = model_fields(v@);
    let ghost rs = resolve_fields_r(sigma, rank, ms);
    proof {
        lemma_some_rank(sigma);
        lemma_model_fields(v@);
        lemma_resolve_fields_index(sigma, rank, ms);
        lemma_var_list_fields_contains(rs, var.0);
    }
    let mut i: usize = 0;
    while i < v.len()
        invariant
            subst.wf(),
            subst@ == sigma,
            rank == some_rank(sigma),
            ranked(sigma, rank),
            !sigma.contains_key(var.0),
            i <= v@.len(),
            ms == model_fields(v@),
            ms.len() == v@.len(),
            rs == resolve_fields_r(sigma, rank, ms),
            rs.len() == ms.len(),
            forall|j: int| 0 <= j < v@.len() ==> #[trigger] ms[j] == (v@[j].0@, v@[j].1.model()),
            forall|j: int| 0 <= j < ms.len() ==> #[trigger] rs[j] == (ms[j].0, resolve_r(sigma, rank, ms[j].1)),
            forall|j: int| 0 <= j < i ==> !#[trigger] var_list(rs[j].1).contains(var.0),
        decreases v@.len() - i,
    {
        proof {
            broadcast use vstd::std_specs::vec::axiom_vec_decreases_to_view;
            lemma_height_fields_index(rank, ms, i as int);
            assert(ms[i as int] == (v@[i as int].0@, v@[i as int].1.model()));
        }
        if occurs_in(var, &v[i].1, subst) {
            assert(var_list(rs[i as int].1).contains(var.0));
            proof { lemma_var_list_fields_contains(rs, var.0); }
            return true;
        }
        i = i + 1;
    }
    false
}

// ── The outcome of unification ─────────────────────────────────────────────

/// The variable of a variable type.
pub open spec fn var_id(t: Ty) -> u32 {
    match t {
        Ty::Var(v) => v,
        _ => 0,
    }
}

/// The result is an error with this message.
pub open spec fn fails_with(r: Result<(), UnifyError>, msg: Seq<char>) -> bool {
    match r {
        Err(e) => e.message@ == msg,
        Ok(_) => false,
    }
}

/// Pairs of (resolved, non-variable) types that unify at once, binding nothing.
pub open spec fn leaf_ok(l: Ty, r: Ty) -> bool {
    match (l, r) {
        (Ty::Int, Ty::Int) => true,
        (Ty::Float, Ty::Float) => true,
        (Ty::Bool, Ty::Bool) => true,
        (Ty::Str, Ty::Str) => true,
        (Ty::Char, Ty::Char) => true,
        (Ty::Void, Ty::Void) => true,
        (Ty::Never, _) => true,
        (_, Ty::Never) => true,
        (Ty::Float, Ty::UnitFloat { .. }) => true,
        (Ty::UnitFloat { .. }, Ty::Float) => true,
        (Ty::UnitFloat { dim: d1, .. }, Ty::UnitFloat { dim: d2, .. }) => d1 == d2,
        _ => false,
    }
}

/// Pairs of (resolved, non-variable) types of one form whose parts are unified in turn.
pub open spec fn descends(l: Ty, r: Ty) -> bool {
    match (l, r) {
        (Ty::Tensor { .. }, Ty::Tensor { .. }) => true,
        (Ty::Array(_), Ty::Array(_)) => true,
        (Ty::Wave(_), Ty::Wave(_)) => true,
        (Ty::Opt(_), Ty::Opt(_)) => true,
        (Ty::Res(_, _), Ty::Res(_, _)) => true,
        (Ty::Function { params: p1, .. }, Ty::Function { params: p2, .. }) => p1.len() == p2.len(),
        (Ty::Named { name: n1, args: a1 }, Ty::Named { name: n2, args: a2 }) => n1 == n2 && a1.len() == a2.len(),
        (Ty::Tuple(t1), Ty::Tuple(t2)) => t1.len() == t2.len(),
        _ => false,
    }
}

/// The message of the occurs check.
pub open spec fn occurs_text(v: u32, t: Ty) -> Seq<char> {
    "occurs check failed: "@ + var_text(v) + " appears in "@ + ty_text(t)
}

/// The message for two (resolved, non-variable) types that neither unify at
/// once nor have parts to unify.
pub open spec fn clash_text(l: Ty, r: Ty) -> Seq<char> {
    match (l, r) {
        (Ty::UnitFloat { dim: d1, unit: u1 }, Ty::UnitFloat { dim: d2, unit: u2 }) =>
            "unit dimension mismatch: Float["@ + u1 + "] ("@ + dim_name(d1) + ") vs Float["@ + u2 + "] ("@
                + dim_name(d2) + ")\n  hint: check that both sides of this operation have compatible units"@,
        (Ty::Function { params: p1, .. }, Ty::Function { params: p2, .. }) =>
            "function arity mismatch: "@ + decimal(p1.len()) + " params vs "@ + decimal(p2.len()) + " params"@,
        (Ty::Named { name: n1, .. }, Ty::Named { name: n2, .. }) =>
            if n1 != n2 {
                "type mismatch: "@ + n1 + " vs "@ + n2
            } else {
                "type argument count mismatch for "@ + n1
            },
        (Ty::Tuple(t1), Ty::Tuple(t2)) =>
            "tuple arity mismatch: "@ + decimal(t1.len()) + " vs "@ + decimal(t2.len()),
        _ => "type mismatch: expected "@ + ty_text(l) + ", found "@ + ty_text(r),
    }
}

/// What unifying `a` with `b` under `s0` owes at the top level, where `s1` is
/// the substitution afterwards and `r` the result: variables are bound (or
/// the occurs check fails), pairs that unify at once do so, and pairs that
/// clash fail with their message, all without touching the substitution.
pub open spec fn top_level_outcome(s0: Map<u32, Ty>, s1: Map<u32, Ty>, a: Ty, b: Ty, r: Result<(), UnifyError>) -> bool {
    let l = resolve(s0, a);
    let t = resolve(s0, b);
    &&& (l is Var && l == t) ==> (r is Ok && s1 == s0)
    &&& (l is Var && l != t) ==> if var_list(t).contains(var_id(l)) {
        fails_with(r, occurs_text(var_id(l), t)) && s1 == s0
    } else {
        r is Ok && s1 == s0.insert(var_id(l), t)
    }
    &&& (l !is Var && t is Var) ==> if var_list(l).contains(var_id(t)) {
        fails_with(r, occurs_text(var_id(t), l)) && s1 == s0
    } else {
        r is Ok && s1 == s0.insert(var_id(t), l)
    }
    &&& (l !is Var && t !is Var && leaf_ok(l, t)) ==> (r is Ok && s1 == s0)
    &&& (l !is Var && t !is Var && !leaf_ok(l, t) && !descends(l, t)) ==> (fails_with(r, clash_text(l, t)) && s1 == s0)
}

/// The message of an error result, `None` for success.
pub open spec fn error_text(r: Result<(), UnifyError>) -> Option<Seq<char>> {
    match r {
        Ok(_) => None,
        Err(e) => Some(e.message@),
    }
}

/// What unifying `a` with `b` under `s` comes to: the substitution afterwards
/// and the error message, if any. Both sides are resolved first; variables
/// are bound (unless the occurs check fails), pairs that agree outright
/// succeed, clashing pairs fail, and types of one form have their parts
/// unified in turn, left to right, stopping at the first failure. `fuel`
/// bounds the nesting; `None` means it ran out.
pub open spec fn unify_outcome(s: Map<u32, Ty>, a: Ty, b: Ty, fuel: nat) -> Option<(Map<u32, Ty>, Option<Seq<char>>)>
    decreases fuel, 0nat, 0nat,
{
    if fuel == 0 {
        None
    } else {
        let l = resolve(s, a);
        let t = resolve(s, b);
        if l is Var && l == t {
            Some((s, None))
        } else if l is Var {
            if var_list(t).contains(var_id(l)) {
                Some((s, Some(occurs_text(var_id(l), t))))
            } else {
                Some((s.insert(var_id(l), t), None))
            }
        } else if t is Var {
            if var_list(l).contains(var_id(t)) {
                Some((s, Some(occurs_text(var_id(t), l))))
            } else {
                Some((s.insert(var_id(t), l), None))
            }
        } else if leaf_ok(l, t) {
            Some((s, None))
        } else if !descends(l, t) {
            Some((s, Some(clash_text(l, t))))
        } else {
            parts_outcome(s, l, t, (fuel - 1) as nat)
        }
    }
}

/// What unifying the parts of two types of one form comes to.
pub open spec fn parts_outcome(s: Map<u32, Ty>, l: Ty, t: Ty, fuel: nat) -> Option<(Map<u32, Ty>, Option<Seq<char>>)>
    decreases fuel, 2nat, 0nat,
{
    match (l, t) {
        (Ty::Tensor { elem: e1, shape: h1 }, Ty::Tensor { elem: e2, shape: h2 }) =>
            match unify_outcome(s, *e1, *e2, fuel) {
                Some((s1, None)) => if shape_meet(h1, h2) is Some {
                    Some((s1, None))
                } else {
                    Some((s1, Some(shape_clash_text(h1, h2))))
                },
                other => other,
            },
        (Ty::Array(x), Ty::Array(y)) => unify_outcome(s, *x, *y, fuel),
        (Ty::Wave(x), Ty::Wave(y)) => unify_outcome(s, *x, *y, fuel),
        (Ty::Opt(x), Ty::Opt(y)) => unify_outcome(s, *x, *y, fuel),
        (Ty::Res(a1, b1), Ty::Res(a2, b2)) => match unify_outcome(s, *a1, *a2, fuel) {
            Some((s1, None)) => unify_outcome(s1, *b1, *b2, fuel),
            other => other,
        },
        (Ty::Function { params: p1, ret: r1, .. }, Ty::Function { params: p2, ret: r2, .. }) =>
            match list_outcome(s, p1, p2, fuel) {
                Some((s1, None)) => unify_outcome(s1, *r1, *r2, fuel),
                other => other,
            },
        (Ty::Named { args: a1, .. }, Ty::Named { args: a2, .. }) => list_outcome(s, a1, a2, fuel),
        (Ty::Tuple(t1), Ty::Tuple(t2)) => list_outcome(s, t1, t2, fuel),
        _ => Some((s, None)),
    }
}

/// What unifying two lists of types pair by pair, left to right, comes to.
pub open spec fn list_outcome(s: Map<u32, Ty>, p1: Seq<Ty>, p2: Seq<Ty>, fuel: nat) -> Option<(Map<u32, Ty>, Option<Seq<char>>)>
    decreases fuel, 1nat, p1.len(),
{
    if p1.len() == 0 {
        Some((s, None))
    } else {
        match list_outcome(s, p1.drop_last(), p2.drop_last(), fuel) {
            Some((s1, None)) => unify_outcome(s1, p1.last(), p2.last(), fuel),
            other => other,
        }
    }
}

/// Unifying `a` with `b` under `s0` ends with the substitution `s1` and the
/// error message `err`, if any.
pub open spec fn unify_reaches(s0: Map<u32, Ty>, a: Ty, b: Ty, s1: Map<u32, Ty>, err: Option<Seq<char>>) -> bool {
    exists|f: nat| #[trigger] unify_outcome(s0, a, b, f) == Some((s1, err))
}

/// More fuel does not change an outcome once it is reached, so the outcome
/// of a unification is one and the same whatever fuel reaches it.
pub proof fn lemma_outcome_fuel(s: Map<u32, Ty>, a: Ty, b: Ty, f1: nat, f2: nat)
    requires
        f1 <= f2,
        unify_outcome(s, a, b, f1) is Some,
    ensures
        unify_outcome(s, a, b, f2) == unify_outcome(s, a, b, f1),
    decreases f1, 0nat, 0nat,
{
    let l = resolve(s, a);
    let t = resolve(s, b);
    if !(l is Var) && !(t is Var) && !leaf_ok(l, t) && descends(l, t) {
        lemma_parts_fuel(s, l, t, (f1 - 1) as nat, (f2 - 1) as nat);
    }
}

/// `lemma_outcome_fuel` for the parts of two types.
proof fn lemma_parts_fuel(s: Map<u32, Ty>, l: Ty, t: Ty, f1: nat, f2: nat)
    requires
        f1 <= f2,
        parts_outcome(s, l, t, f1) is Some,
    ensures
        parts_outcome(s, l, t, f2) == parts_outcome(s, l, t, f1),
    decreases f1, 2nat, 0nat,
{
    match (l, t) {
        (Ty::Tensor { elem: e1, .. }, Ty::Tensor { elem: e2, .. }) => {
            lemma_outcome_fuel(s, *e1, *e2, f1, f2);
        }
        (Ty::Array(x), Ty::Array(y)) => { lemma_outcome_fuel(s, *x, *y, f1, f2); }
        (Ty::Wave(x), Ty::Wave(y)) => { lemma_outcome_fuel(s, *x, *y, f1, f2); }
        (Ty::Opt(x), Ty::Opt(y)) => { lemma_outcome_fuel(s, *x, *y, f1, f2); }
        (Ty::Res(a1, b1), Ty::Res(a2, b2)) => {
            lemma_outcome_fuel(s, *a1, *a2, f1, f2);
            if let Some((s1, None)) = unify_outcome(s, *a1, *a2, f1) {
                lemma_outcome_fuel(s1, *b1, *b2, f1, f2);
            }
        }
        (Ty::Function { params: p1, ret: r1, .. }, Ty::Function { params: p2, ret: r2, .. }) => {
            lemma_list_fuel(s, p1, p2, f1, f2);
            if let Some((s1, None)) = list_outcome(s, p1, p2, f1) {
                lemma_outcome_fuel(s1, *r1, *r2, f1, f2);
            }
        }
        (Ty::Named { args: a1, .. }, Ty::Named { args: a2, .. }) => { lemma_list_fuel(s, a1, a2, f1, f2); }
        (Ty::Tuple(t1), Ty::Tuple(t2)) => { lemma_list_fuel(s, t1, t2, f1, f2); }
        _ => {}
    }
}

/// `lemma_outcome_fuel` for two lists of types.
proof fn lemma_list_fuel(s: Map<u32, Ty>, p1: Seq<Ty>, p2: Seq<Ty>, f1: nat, f2: nat)
    requires
        f1 <= f2,
        list_outcome(s, p1, p2, f1) is Some,
    ensures
        list_outcome(s, p1, p2, f2) == list_outcome(s, p1, p2, f1),
    decreases f1, 1nat, p1.len(),
{
    if p1.len() > 0 {
        lemma_list_fuel(s, p1.drop_last(), p2.drop_last(), f1, f2);
        if let Some((s1, None)) = list_outcome(s, p1.drop_last(), p2.drop_last(), f1) {
            lemma_outcome_fuel(s1, p1.last(), p2.last(), f1, f2);
        }
    }
}

/// An error, if any, carries the given position.
pub open spec fn error_at_pos(r: Result<(), UnifyError>, line: u32, col: u32) -> bool {
    match r {
        Err(e) => e.line == line && e.col == col,
        Ok(_) => true,
    }
}

// ── Proof steps of unification ──────────────────────────────────────────────

/// A substitution that grows within `uni` either stays the same or leaves
/// fewer variables of `uni` unbound.
proof fn lemma_step(uni: Set<u32>, s0: Map<u32, Ty>, s1: Map<u32, Ty>)
    requires
        uni.finite(),
        s0.submap_of(s1),
        closed_in(s1, uni),
    ensures
        uni.difference(s1.dom()).len() <= uni.difference(s0.dom()).len(),
        s1 != s0 ==> uni.difference(s1.dom()).len() < uni.difference(s0.dom()).len(),
{
    let d0 = uni.difference(s0.dom());
    let d1 = uni.difference(s1.dom());
    assert(d1.subset_of(d0));
    vstd::set_lib::lemma_len_subset(d1, d0);
    if s1 != s0 {
        if s1.dom() =~= s0.dom() {
            assert(s1 =~= s0);
        }
        let k = choose|k: u32| s1.dom().contains(k) && !s0.dom().contains(k);
        assert(d1.subset_of(d0.remove(k)));
        vstd::set_lib::lemma_len_subset(d1, d0.remove(k));
    }
}

/// Growth of a substitution is transitive.
proof fn lemma_submap_trans(a: Map<u32, Ty>, b: Map<u32, Ty>, c: Map<u32, Ty>)
    requires
        a.submap_of(b),
        b.submap_of(c),
    ensures
        a.submap_of(c),
{
    vstd::map_lib::lemma_submap_of_trans(a, b, c);
}

/// Compatibility found under a substitution survives its growth.
pub proof fn lemma_compatible_persists(s1: Map<u32, Ty>, s2: Map<u32, Ty>, a: Ty, b: Ty)
    requires
        acyclic(s1),
        acyclic(s2),
        s1.submap_of(s2),
        compatible(resolve(s1, a), resolve(s1, b)),
    ensures
        compatible(resolve(s2, a), resolve(s2, b)),
{
    lemma_some_rank(s1);
    lemma_some_rank(s2);
    lemma_compatible_resolve(s2, some_rank(s2), resolve(s1, a), resolve(s1, b));
    lemma_resolve_extend(s1, some_rank(s1), s2, some_rank(s2), a);
    lemma_resolve_extend(s1, some_rank(s1), s2, some_rank(s2), b);
}

/// Resolving under a grown substitution absorbs the resolution before it.
proof fn lemma_resolve_again(s1: Map<u32, Ty>, s2: Map<u32, Ty>, a: Ty)
    requires
        acyclic(s1),
        acyclic(s2),
        s1.submap_of(s2),
    ensures
        resolve(s2, resolve(s1, a)) == resolve(s2, a),
{
    lemma_some_rank(s1);
    lemma_some_rank(s2);
    lemma_resolve_extend(s1, some_rank(s1), s2, some_rank(s2), a);
}

/// A type with no bound variable, all of whose variables lie in `uni`.
pub open spec fn clean(sigma: Map<u32, Ty>, uni: Set<u32>, t: Ty) -> bool {
    unbound_in(sigma, t) && within(t, uni)
}

/// The parts of a clean type are clean.
proof fn lemma_clean_parts(sigma: Map<u32, Ty>, uni: Set<u32>, t: Ty)
    requires
        clean(sigma, uni, t),
    ensures
        match t {
            Ty::Tensor { elem, .. } => clean(sigma, uni, *elem),
            Ty::Array(a) => clean(sigma, uni, *a),
            Ty::Wave(a) => clean(sigma, uni, *a),
            Ty::Opt(a) => clean(sigma, uni, *a),
            Ty::Res(a, b) => clean(sigma, uni, *a) && clean(sigma, uni, *b),
            Ty::Function { params, ret, .. } => clean(sigma, uni, *ret)
                && forall|i: int| 0 <= i < params.len() ==> #[trigger] clean(sigma, uni, params[i]),
            Ty::Named { args, .. } => forall|i: int| 0 <= i < args.len() ==> #[trigger] clean(sigma, uni, args[i]),
            Ty::Tuple(ts) => forall|i: int| 0 <= i < ts.len() ==> #[trigger] clean(sigma, uni, ts[i]),
            _ => true,
        },
{
    lemma_var_list_parts(t);
    match t {
        Ty::Res(a, b) => {
            assert forall|w: u32| #[trigger] var_list(*a).contains(w) implies !sigma.contains_key(w) && uni.contains(w) by {
                lemma_concat_contains(var_list(*a), var_list(*b), w);
            }
            assert forall|w: u32| #[trigger] var_list(*b).contains(w) implies !sigma.contains_key(w) && uni.contains(w) by {
                lemma_concat_contains(var_list(*a), var_list(*b), w);
            }
        }
        Ty::Function { params, ret, .. } => {
            assert forall|w: u32| #[trigger] var_list(*ret).contains(w) implies !sigma.contains_key(w) && uni.contains(w) by {
                lemma_concat_contains(var_list_seq(params), var_list(*ret), w);
            }
            assert forall|i: int| 0 <= i < params.len() implies #[trigger] clean(sigma, uni, params[i]) by {
                assert forall|w: u32| #[trigger] var_list(params[i]).contains(w) implies !sigma.contains_key(w) && uni.contains(w) by {
                    lemma_var_list_seq_contains(params, w);
                    lemma_concat_contains(var_list_seq(params), var_list(*ret), w);
                }
            }
        }
        Ty::Named { args, .. } => {
            assert forall|i: int| 0 <= i < args.len() implies #[trigger] clean(sigma, uni, args[i]) by {
                assert forall|w: u32| #[trigger] var_list(args[i]).contains(w) implies !sigma.contains_key(w) && uni.contains(w) by {
                    lemma_var_list_seq_contains(args, w);
                }
            }
        }
        Ty::Tuple(ts) => {
            assert forall|i: int| 0 <= i < ts.len() implies #[trigger] clean(sigma, uni, ts[i]) by {
                assert forall|w: u32| #[trigger] var_list(ts[i]).contains(w) implies !sigma.contains_key(w) && uni.contains(w) by {
                    lemma_var_list_seq_contains(ts, w);
                }
            }
        }
        _ => {}
    }
}

// ── Unification ──────────────────────────────────────────────────────────────

/// Binds the unbound variable `v` to the resolved type `ty`, unless `v`
/// occurs in it.
fn bind_var(v: TypeVar, ty: &NovaType, subst: &mut Subst, line: u32, col: u32) -> (r: Result<(), UnifyError>)
    requires
        old(subst).wf(),
        !old(subst)@.contains_key(v.0),
        unbound_in(old(subst)@, ty.model()),
    ensures
        final(subst).wf(),
        error_at_pos(r, line, col),
        if var_list(ty.model()).contains(v.0) {
            fails_with(r, occurs_text(v.0, ty.model())) && final(subst)@ == old(subst)@
        } else {
            r is Ok && final(subst)@ == old(subst)@.insert(v.0, ty.model())
        },
{
    proof {
        lemma_some_rank(subst@);
        lemma_resolve_id(subst@, some_rank(subst@), ty.model());
    }
    if occurs_in(v, ty, subst) {
        let mut m = String::new();
        push_str(&mut m, "occurs check failed: ");
        push_char(&mut m, 'τ');
        push_decimal(&mut m, v.0 as u64);
        push_str(&mut m, " appears in ");
        ty.push_text(&mut m);
        assert(m@ =~= occurs_text(v.0, ty.model()));
        return Err(error_at(m, line, col));
    }
    subst.bind(v, ty.clone());
    Ok(())
}

/// After binding `v` to `t`, a type that resolved to `v` and one that
/// resolved to `t` resolve alike.
proof fn lemma_after_bind(s0: Map<u32, Ty>, s1: Map<u32, Ty>, v: u32, t: Ty, x: Ty, y: Ty)
    requires
        acyclic(s0),
        acyclic(s1),
        !s0.contains_key(v),
        s1 == s0.insert(v, t),
        resolve(s0, x) == Ty::Var(v),
        resolve(s0, y) == t,
    ensures
        resolve(s1, x) == resolve(s1, y),
{
    assert(s0.submap_of(s1));
    lemma_resolve_again(s0, s1, x);
    lemma_resolve_again(s0, s1, y);
    lemma_some_rank(s1);
    assert(s1.contains_key(v) && s1[v] == t);
    assert(resolve_r(s1, some_rank(s1), Ty::Var(v)) == resolve_r(s1, some_rank(s1), t));
}

/// Unifies two types whose variables lie in `uni`, the substitution being closed in `uni`.
fn unify_in(
    lhs: &NovaType,
    rhs: &NovaType,
    subst: &mut Subst,
    line: u32,
    col: u32,
    Ghost(uni): Ghost<Set<u32>>,
) -> (r: Result<(), UnifyError>)
    requires
        old(subst).wf(),
        uni.finite(),
        closed_in(old(subst)@, uni),
        within(lhs.model(), uni),
        within(rhs.model(), uni),
    ensures
        final(subst).wf(),
        closed_in(final(subst)@, uni),
        old(subst)@.submap_of(final(subst)@),
        error_at_pos(r, line, col),
        r is Ok ==> compatible(resolve(final(subst)@, lhs.model()), resolve(final(subst)@, rhs.model())),
        top_level_outcome(old(subst)@, final(subst)@, lhs.model(), rhs.model(), r),
        exists|f: nat| #[trigger] unify_outcome(old(subst)@, lhs.model(), rhs.model(), f)
            == Some((final(subst)@, error_text(r))),
    decreases
        uni.difference(old(subst)@.dom()).len(),
        size(resolve(old(subst)@, lhs.model())) + size(resolve(old(subst)@, rhs.model())),
        2nat,
{
    let ghost s0 = subst@;
    let r = unify_step(lhs, rhs, subst, line, col, Ghost(uni));
    proof {
        let l = resolve(s0, lhs.model());
        let t = resolve(s0, rhs.model());
        if l !is Var && t !is Var && !leaf_ok(l, t) && descends(l, t) {
            let f = choose|f: nat| #[trigger] parts_outcome(s0, l, t, f) == Some((subst@, error_text(r)));
            assert(unify_outcome(s0, lhs.model(), rhs.model(), f + 1) == Some((subst@, error_text(r))));
        } else {
            assert(unify_outcome(s0, lhs.model(), rhs.model(), 1) == Some((subst@, error_text(r))));
        }
    }
    r
}

/// One step of `unify_in`: resolves both sides and settles the top level,
/// handing the parts of two types of one form to `unify_parts`.
fn unify_step(
    lhs: &NovaType,
    rhs: &NovaType,
    subst: &mut Subst,
    line: u32,
    col: u32,
    Ghost(uni): Ghost<Set<u32>>,
) -> (r: Result<(), UnifyError>)
    requires
        old(subst).wf(),
        uni.finite(),
        closed_in(old(subst)@, uni),
        within(lhs.model(), uni),
        within(rhs.model(), uni),
    ensures
        final(subst).wf(),
        closed_in(final(subst)@, uni),
        old(subst)@.submap_of(final(subst)@),
        error_at_pos(r, line, col),
        r is Ok ==> compatible(resolve(final(subst)@, lhs.model()), resolve(final(subst)@, rhs.model())),
        top_level_outcome(old(subst)@, final(subst)@, lhs.model(), rhs.model(), r),
        ({
            let l = resolve(old(subst)@, lhs.model());
            let t = resolve(old(subst)@, rhs.model());
            (l !is Var && t !is Var && !leaf_ok(l, t) && descends(l, t)) ==> exists|f: nat|
                #[trigger] parts_outcome(old(subst)@, l, t, f) == Some((final(subst)@, error_text(r)))
        }),
    decreases
        uni.difference(old(subst)@.dom()).len(),
        size(resolve(old(subst)@, lhs.model())) + size(resolve(old(subst)@, rhs.model())),
        1nat,
{
    let ghost s0 = subst@;
    let ghost rank = some_rank(s0);
    proof { lemma_some_rank(s0); }
    let l = subst.apply(lhs);
    let r = subst.apply(rhs);
    let ghost lm = l.model();
    let ghost rm = r.model();
    proof {
        lemma_resolved_unbound(s0, rank, lhs.model());
        lemma_resolved_unbound(s0, rank, rhs.model());
        lemma_resolve_within(s0, rank, lhs.model(), uni);
        lemma_resolve_within(s0, rank, rhs.model(), uni);
        assert(clean(s0, uni, lm));
        assert(clean(s0, uni, rm));
        lemma_var_list_parts(lm);
        lemma_var_list_parts(rm);
    }
    match (&l, &r) {
        (NovaType::Var(a), NovaType::Var(b)) => {
            if a.0 == b.0 {
                return Ok(());
            }
            assert(var_list(lm).contains(a.0)) by { assert(var_list(lm)[0] == a.0); }
            let res = bind_var(*a, &r, subst, line, col);
            proof {
                if res is Ok {
                    lemma_after_bind(s0, subst@, a.0, rm, lhs.model(), rhs.model());
                }
            }
            res
        }
        (NovaType::Var(a), _) => {
            assert(var_list(lm).contains(a.0)) by { assert(var_list(lm)[0] == a.0); }
            let res = bind_var(*a, &r, subst, line, col);
            proof {
                if res is Ok {
                    lemma_after_bind(s0, subst@, a.0, rm, lhs.model(), rhs.model());
                }
            }
            res
        }
        (_, NovaType::Var(b)) => {
            assert(var_list(rm).contains(b.0)) by { assert(var_list(rm)[0] == b.0); }
            let res = bind_var(*b, &l, subst, line, col);
            proof {
                if res is Ok {
                    lemma_after_bind(s0, subst@, b.0, lm, rhs.model(), lhs.model());
                }
            }
            res
        }
        (NovaType::Int, NovaType::Int) => Ok(()),
        (NovaType::Float, NovaType::Float) => Ok(()),
        (NovaType::Bool, NovaType::Bool) => Ok(()),
        (NovaType::Str, NovaType::Str) => Ok(()),
        (NovaType::Char, NovaType::Char) => Ok(()),
        (NovaType::Void, NovaType::Void) => Ok(()),
        (NovaType::Never, _) => Ok(()),
        (_, NovaType::Never) => Ok(()),
        (NovaType::Float, NovaType::UnitFloat { .. }) => Ok(()),
        (NovaType::UnitFloat { .. }, NovaType::Float) => Ok(()),
        (NovaType::UnitFloat { dim: d1, unit_str: u1 }, NovaType::UnitFloat { dim: d2, unit_str: u2 }) => {
            if *d1 == *d2 {
                Ok(())
            } else {
                let mut m = String::new();
                push_str(&mut m, "unit dimension mismatch: Float[");
                push_str(&mut m, u1.as_str());
                push_str(&mut m, "] (");
                let n1 = d1.name();
                push_str(&mut m, n1.as_str());
                push_str(&mut m, ") vs Float[");
                push_str(&mut m, u2.as_str());
                push_str(&mut m, "] (");
                let n2 = d2.name();
                push_str(&mut m, n2.as_str());
                push_str(&mut m, ")\n  hint: check that both sides of this operation have compatible units");
                assert(m@ =~= clash_text(lm, rm));
                Err(error_at(m, line, col))
            }
        }
        (NovaType::Function(f1), NovaType::Function(f2)) => {
            if f1.params.len() != f2.params.len() {
                let mut m = String::new();
                push_str(&mut m, "function arity mismatch: ");
                push_decimal(&mut m, f1.params.len() as u64);
                push_str(&mut m, " params vs ");
                push_decimal(&mut m, f2.params.len() as u64);
                push_str(&mut m, " params");
                proof { lemma_model_seq(f1.params@); lemma_model_seq(f2.params@); }
                assert(m@ =~= clash_text(lm, rm));
                return Err(error_at(m, line, col));
            }
            proof { lemma_model_seq(f1.params@); lemma_model_seq(f2.params@); }
            let res = unify_parts(&l, &r, subst, line, col, Ghost(uni));
            proof {
                if res is Ok {
                    lemma_resolve_again(s0, subst@, lhs.model());
                    lemma_resolve_again(s0, subst@, rhs.model());
                }
            }
            res
        }
        (NovaType::Named { name: n1, type_args: a1 }, NovaType::Named { name: n2, type_args: a2 }) => {
            if *n1 != *n2 {
                let mut m = String::new();
                push_str(&mut m, "type mismatch: ");
                push_str(&mut m, n1.as_str());
                push_str(&mut m, " vs ");
                push_str(&mut m, n2.as_str());
                assert(m@ =~= clash_text(lm, rm));
                return Err(error_at(m, line, col));
            }
            if a1.len() != a2.len() {
                let mut m = String::new();
                push_str(&mut m, "type argument count mismatch for ");
                push_str(&mut m, n1.as_str());
                proof { lemma_model_seq(a1@); lemma_model_seq(a2@); }
                assert(m@ =~= clash_text(lm, rm));
                return Err(error_at(m, line, col));
            }
            proof { lemma_model_seq(a1@); lemma_model_seq(a2@); }
            let res = unify_parts(&l, &r, subst, line, col, Ghost(uni));
            proof {
                if res is Ok {
                    lemma_resolve_again(s0, subst@, lhs.model());
                    lemma_resolve_again(s0, subst@, rhs.model());
                }
            }
            res
        }
        (NovaType::Tuple(t1), NovaType::Tuple(t2)) => {
            if t1.len() != t2.len() {
                let mut m = String::new();
                push_str(&mut m, "tuple arity mismatch: ");
                push_decimal(&mut m, t1.len() as u64);
                push_str(&mut m, " vs ");
                push_decimal(&mut m, t2.len() as u64);
                proof { lemma_model_seq(t1@); lemma_model_seq(t2@); }
                assert(m@ =~= clash_text(lm, rm));
                return Err(error_at(m, line, col));
            }
            proof { lemma_model_seq(t1@); lemma_model_seq(t2@); }
            let res = unify_parts(&l, &r, subst, line, col, Ghost(uni));
            proof {
                if res is Ok {
                    lemma_resolve_again(s0, subst@, lhs.model());
                    lemma_resolve_again(s0, subst@, rhs.model());
                }
            }
            res
        }
        (NovaType::Tensor { .. }, NovaType::Tensor { .. })
        | (NovaType::Array(_), NovaType::Array(_))
        | (NovaType::Wave(_), NovaType::Wave(_))
        | (NovaType::Option(_), NovaType::Option(_))
        | (NovaType::Result(_, _), NovaType::Result(_, _)) => {
            let res = unify_parts(&l, &r, subst, line, col, Ghost(uni));
            proof {
                if res is Ok {
                    lemma_resolve_again(s0, subst@, lhs.model());
                    lemma_resolve_again(s0, subst@, rhs.model());
                }
            }
            res
        }
        _ => {
            let mut m = String::new();
            push_str(&mut m, "type mismatch: expected ");
            l.push_text(&mut m);
            push_str(&mut m, ", found ");
            r.push_text(&mut m);
            assert(m@ =~= clash_text(lm, rm));
            Err(error_at(m, line, col))
        }
    }
}

/// Unifies the parts of two resolved types of one form.
#[verifier::rlimit(60)]
#[verifier::spinoff_prover]
fn unify_parts(
    l: &NovaType,
    r: &NovaType,
    subst: &mut Subst,
    line: u32,
    col: u32,
    Ghost(uni): Ghost<Set<u32>>,
) -> (res: Result<(), UnifyError>)
    requires
        old(subst).wf(),
        uni.finite(),
        closed_in(old(subst)@, uni),
        clean(old(subst)@, uni, l.model()),
        clean(old(subst)@, uni, r.model()),
        descends(l.model(), r.model()),
    ensures
        final(subst).wf(),
        closed_in(final(subst)@, uni),
        old(subst)@.submap_of(final(subst)@),
        error_at_pos(res, line, col),
        res is Ok ==> compatible(resolve(final(subst)@, l.model()), resolve(final(subst)@, r.model())),
        exists|f: nat| #[trigger] parts_outcome(old(subst)@, l.model(), r.model(), f)
            == Some((final(subst)@, error_text(res))),
    decreases uni.difference(old(subst)@.dom()).len(), size(l.model()) + size(r.model()), 0nat,
{
    let ghost s0 = subst@;
    let ghost rank = some_rank(s0);
    let ghost lm = l.model();
    let ghost rm = r.model();
    proof {
        lemma_some_rank(s0);
        lemma_clean_parts(s0, uni, lm);
        lemma_clean_parts(s0, uni, rm);
    }
    match (l, r) {
        (NovaType::Tensor { elem: e1, shape: h1 }, NovaType::Tensor { elem: e2, shape: h2 }) => {
            proof {
                lemma_resolve_id(s0, rank, e1.model());
                lemma_resolve_id(s0, rank, e2.model());
            }
            let first = unify_in(e1, e2, subst, line, col, Ghost(uni));
            let ghost f = choose|f: nat| #[trigger] unify_outcome(s0, e1.model(), e2.model(), f)
                == Some((subst@, error_text(first)));
            assert(parts_outcome(s0, lm, rm, f) == parts_outcome(s0, lm, rm, f));
            match first {
                Err(e) => return Err(e),
                Ok(()) => {},
            }
            match unify_shapes(h1, h2, line, col) {
                Err(e) => Err(e),
                Ok(_) => Ok(()),
            }
        }
        (NovaType::Array(a), NovaType::Array(b)) => {
            proof {
                lemma_resolve_id(s0, rank, a.model());
                lemma_resolve_id(s0, rank, b.model());
            }
            let res = unify_in(a, b, subst, line, col, Ghost(uni));
            let ghost f = choose|f: nat| #[trigger] unify_outcome(s0, a.model(), b.model(), f)
                == Some((subst@, error_text(res)));
            assert(parts_outcome(s0, lm, rm, f) == Some((subst@, error_text(res))));
            res
        }
        (NovaType::Wave(a), NovaType::Wave(b)) => {
            proof {
                lemma_resolve_id(s0, rank, a.model());
                lemma_resolve_id(s0, rank, b.model());
            }
            let res = unify_in(a, b, subst, line, col, Ghost(uni));
            let ghost f = choose|f: nat| #[trigger] unify_outcome(s0, a.model(), b.model(), f)
                == Some((subst@, error_text(res)));
            assert(parts_outcome(s0, lm, rm, f) == Some((subst@, error_text(res))));
            res
        }
        (NovaType::Option(a), NovaType::Option(b)) => {
            proof {
                lemma_resolve_id(s0, rank, a.model());
                lemma_resolve_id(s0, rank, b.model());
            }
            let res = unify_in(a, b, subst, line, col, Ghost(uni));
            let ghost f = choose|f: nat| #[trigger] unify_outcome(s0, a.model(), b.model(), f)
                == Some((subst@, error_text(res)));
            assert(parts_outcome(s0, lm, rm, f) == Some((subst@, error_text(res))));
            res
        }
        (NovaType::Result(a1, b1), NovaType::Result(a2, b2)) => {
            proof {
                lemma_resolve_id(s0, rank, a1.model());
                lemma_resolve_id(s0, rank, a2.model());
                lemma_resolve_id(s0, rank, b1.model());
                lemma_resolve_id(s0, rank, b2.model());
            }
            let first = unify_in(a1, a2, subst, line, col, Ghost(uni));
            let ghost f1 = choose|f: nat| #[trigger] unify_outcome(s0, a1.model(), a2.model(), f)
                == Some((subst@, error_text(first)));
            match first {
                Err(e) => {
                    assert(parts_outcome(s0, lm, rm, f1) == Some((subst@, error_text(first))));
                    return Err(e);
                }
                Ok(()) => {},
            }
            let ghost s1 = subst@;
            proof { lemma_step(uni, s0, s1); }
            let res = unify_in(b1, b2, subst, line, col, Ghost(uni));
            proof {
                if res is Ok {
                    lemma_compatible_persists(s1, subst@, a1.model(), a2.model());
                }
                let f2 = choose|f: nat| #[trigger] unify_outcome(s1, b1.model(), b2.model(), f)
                    == Some((subst@, error_text(res)));
                lemma_submap_trans(s0, s1, subst@);
                let fm = if f1 < f2 { f2 } else { f1 };
                lemma_outcome_fuel(s0, a1.model(), a2.model(), f1, fm);
                lemma_outcome_fuel(s1, b1.model(), b2.model(), f2, fm);
                assert(parts_outcome(s0, lm, rm, fm) == Some((subst@, error_text(res))));
            }
            res
        }
        (NovaType::Function(f1), NovaType::Function(f2)) => {
            proof {
                lemma_model_seq(f1.params@);
                lemma_model_seq(f2.params@);
                lemma_resolve_id(s0, rank, f1.ret.model());
                lemma_resolve_id(s0, rank, f2.ret.model());
                assert forall|i: int| 0 <= i < f1.params@.len() implies #[trigger] clean(s0, uni, f1.params@[i].model()) by {
                    assert(model_seq(f1.params@)[i] == f1.params@[i].model());
                }
                assert forall|i: int| 0 <= i < f2.params@.len() implies #[trigger] clean(s0, uni, f2.params@[i].model()) by {
                    assert(model_seq(f2.params@)[i] == f2.params@[i].model());
                }
            }
            let first = unify_lists(&f1.params, &f2.params, subst, line, col, Ghost(uni));
            let ghost g1 = choose|f: nat| #[trigger] list_outcome(s0, model_seq(f1.params@), model_seq(f2.params@), f)
                == Some((subst@, error_text(first)));
            match first {
                Err(e) => {
                    assert(parts_outcome(s0, lm, rm, g1) == Some((subst@, error_text(first))));
                    return Err(e);
                }
                Ok(()) => {},
            }
            let ghost s1 = subst@;
            proof { lemma_step(uni, s0, s1); }
            let res = unify_in(&f1.ret, &f2.ret, subst, line, col, Ghost(uni));
            proof {
                if res is Ok {
                    lemma_lists_persist(s1, subst@, f1.params@, f2.params@);
                    lemma_compatible_lists(subst@, f1.params@, f2.params@);
                }
                let g2 = choose|f: nat| #[trigger] unify_outcome(s1, f1.ret.model(), f2.ret.model(), f)
                    == Some((subst@, error_text(res)));
                lemma_submap_trans(s0, s1, subst@);
                let fm = if g1 < g2 { g2 } else { g1 };
                lemma_list_fuel(s0, model_seq(f1.params@), model_seq(f2.params@), g1, fm);
                lemma_outcome_fuel(s1, f1.ret.model(), f2.ret.model(), g2, fm);
                assert(parts_outcome(s0, lm, rm, fm) == Some((subst@, error_text(res))));
            }
            res
        }
        (NovaType::Named { type_args: a1, .. }, NovaType::Named { type_args: a2, .. }) => {
            proof {
                lemma_model_seq(a1@);
                lemma_model_seq(a2@);
                assert forall|i: int| 0 <= i < a1@.len() implies #[trigger] clean(s0, uni, a1@[i].model()) by {
                    assert(model_seq(a1@)[i] == a1@[i].model());
                }
                assert forall|i: int| 0 <= i < a2@.len() implies #[trigger] clean(s0, uni, a2@[i].model()) by {
                    assert(model_seq(a2@)[i] == a2@[i].model());
                }
            }
            let res = unify_lists(a1, a2, subst, line, col, Ghost(uni));
            proof {
                if res is Ok {
                    lemma_compatible_lists(subst@, a1@, a2@);
                }
                let f = choose|f: nat| #[trigger] list_outcome(s0, model_seq(a1@), model_seq(a2@), f)
                    == Some((subst@, error_text(res)));
                assert(parts_outcome(s0, lm, rm, f) == Some((subst@, error_text(res))));
            }
            res
        }
        (NovaType::Tuple(t1), NovaType::Tuple(t2)) => {
            proof {
                lemma_model_seq(t1@);
                lemma_model_seq(t2@);
                assert forall|i: int| 0 <= i < t1@.len() implies #[trigger] clean(s0, uni, t1@[i].model()) by {
                    assert(model_seq(t1@)[i] == t1@[i].model());
                }
                assert forall|i: int| 0 <= i < t2@.len() implies #[trigger] clean(s0, uni, t2@[i].model()) by {
                    assert(model_seq(t2@)[i] == t2@[i].model());
                }
            }
            let res = unify_lists(t1, t2, subst, line, col, Ghost(uni));
            proof {
                if res is Ok {
                    lemma_compatible_lists(subst@, t1@, t2@);
                }
                let f = choose|f: nat| #[trigger] list_outcome(s0, model_seq(t1@), model_seq(t2@), f)
                    == Some((subst@, error_text(res)));
                assert(parts_outcome(s0, lm, rm, f) == Some((subst@, error_text(res))));
            }
            res
        }
        _ => {
            proof { assert(false); }
            Ok(())
        }
    }
}

/// Pairwise compatibility of two lists, once resolved, is compatibility of the resolved lists.
proof fn lemma_compatible_lists(sigma: Map<u32, Ty>, p1: Seq<NovaType>, p2: Seq<NovaType>)
    requires
        acyclic(sigma),
        p1.len() == p2.len(),
        forall|i: int| 0 <= i < p1.len() ==> #[trigger] compatible(resolve(sigma, p1[i].model()), resolve(sigma, p2[i].model())),
    ensures
        compatible_seq(
            resolve_seq_r(sigma, some_rank(sigma), model_seq(p1)),
            resolve_seq_r(sigma, some_rank(sigma), model_seq(p2)),
        ),
{
    lemma_some_rank(sigma);
    let rank = some_rank(sigma);
    lemma_model_seq(p1);
    lemma_model_seq(p2);
    lemma_resolve_seq_index(sigma, rank, model_seq(p1));
    lemma_resolve_seq_index(sigma, rank, model_seq(p2));
    let q1 = resolve_seq_r(sigma, rank, model_seq(p1));
    let q2 = resolve_seq_r(sigma, rank, model_seq(p2));
    assert forall|i: int| 0 <= i < q1.len() implies #[trigger] compatible(q1[i], q2[i]) by {
        assert(model_seq(p1)[i] == p1[i].model());
        assert(model_seq(p2)[i] == p2[i].model());
        assert(compatible(resolve(sigma, p1[i].model()), resolve(sigma, p2[i].model())));
    }
    lemma_compatible_seq_intro(q1, q2);
}

/// Pairwise compatibility of two lists survives the growth of the substitution.
proof fn lemma_lists_persist(s1: Map<u32, Ty>, s2: Map<u32, Ty>, p1: Seq<NovaType>, p2: Seq<NovaType>)
    requires
        acyclic(s1),
        acyclic(s2),
        s1.submap_of(s2),
        p1.len() == p2.len(),
        forall|i: int| 0 <= i < p1.len() ==> #[trigger] compatible(resolve(s1, p1[i].model()), resolve(s1, p2[i].model())),
    ensures
        forall|i: int| 0 <= i < p1.len() ==> #[trigger] compatible(resolve(s2, p1[i].model()), resolve(s2, p2[i].model())),
{
    assert forall|i: int| 0 <= i < p1.len() implies #[trigger] compatible(resolve(s2, p1[i].model()), resolve(s2, p2[i].model())) by {
        lemma_compatible_persists(s1, s2, p1[i].model(), p2[i].model());
    }
}

/// Unifies two lists of types of one length, pair by pair.
fn unify_lists(
    p1: &Vec<NovaType>,
    p2: &Vec<NovaType>,
    subst: &mut Subst,
    line: u32,
    col: u32,
    Ghost(uni): Ghost<Set<u32>>,
) -> (res: Result<(), UnifyError>)
    requires
        old(subst).wf(),
        uni.finite(),
        closed_in(old(subst)@, uni),
        p1@.len() == p2@.len(),
        forall|i: int| 0 <= i < p1@.len() ==> #[trigger] clean(old(subst)@, uni, p1@[i].model()),
        forall|i: int| 0 <= i < p2@.len() ==> #[trigger] clean(old(subst)@, uni, p2@[i].model()),
    ensures
        final(subst).wf(),
        closed_in(final(subst)@, uni),
        old(subst)@.submap_of(final(subst)@),
        error_at_pos(res, line, col),
        res is Ok ==> forall|i: int| 0 <= i < p1@.len()
            ==> #[trigger] compatible(resolve(final(subst)@, p1@[i].model()), resolve(final(subst)@, p2@[i].model())),
        exists|f: nat| #[trigger] list_outcome(old(subst)@, model_seq(p1@), model_seq(p2@), f)
            == Some((final(subst)@, error_text(res))),
    decreases
        uni.difference(old(subst)@.dom()).len(),
        size_seq(model_seq(p1@)) + size_seq(model_seq(p2@)) + 1,
        0nat,
{
    let ghost s0 = subst@;
    let ghost rank = some_rank(s0);
    proof {
        lemma_some_rank(s0);
        lemma_model_seq(p1@);
        lemma_model_seq(p2@);
    }
    let mut i: usize = 0;
    let ghost mut fuel: nat = 0;
    while i < p1.len()
        invariant
            list_outcome(s0, model_seq(p1@).take(i as int), model_seq(p2@).take(i as int), fuel) == Some((subst@, None::<Seq<char>>)),
            s0 == old(subst)@,
            rank == some_rank(s0),
            ranked(s0, rank),
            acyclic(s0),
            uni.finite(),
            p1@.len() == p2@.len(),
            model_seq(p1@).len() == p1@.len(),
            model_seq(p2@).len() == p2@.len(),
            forall|j: int| 0 <= j < p1@.len() ==> #[trigger] model_seq(p1@)[j] == p1@[j].model(),
            forall|j: int| 0 <= j < p2@.len() ==> #[trigger] model_seq(p2@)[j] == p2@[j].model(),
            forall|j: int| 0 <= j < p1@.len() ==> #[trigger] clean(s0, uni, p1@[j].model()),
            forall|j: int| 0 <= j < p2@.len() ==> #[trigger] clean(s0, uni, p2@[j].model()),
            i <= p1@.len(),
            subst.wf(),
            closed_in(subst@, uni),
            s0.submap_of(subst@),
            forall|j: int| 0 <= j < i ==> #[trigger] compatible(resolve(subst@, p1@[j].model()), resolve(subst@, p2@[j].model())),
        decreases p1@.len() - i,
    {
        let ghost si = subst@;
        proof {
            lemma_step(uni, s0, si);
            assert(clean(s0, uni, p1@[i as int].model()));
            assert(clean(s0, uni, p2@[i as int].model()));
            lemma_resolve_id(s0, rank, p1@[i as int].model());
            lemma_resolve_id(s0, rank, p2@[i as int].model());
            lemma_size_seq_index(model_seq(p1@), i as int);
            lemma_size_seq_index(model_seq(p2@), i as int);
            assert(within(p1@[i as int].model(), uni));
            assert(within(p2@[i as int].model(), uni));
        }
        let step = unify_in(&p1[i], &p2[i], subst, line, col, Ghost(uni));
        proof {
            lemma_submap_trans(s0, si, subst@);
            let fe = choose|f: nat| #[trigger] unify_outcome(si, p1@[i as int].model(), p2@[i as int].model(), f)
                == Some((subst@, error_text(step)));
            let fm = if fuel < fe { fe } else { fuel };
            let q1 = model_seq(p1@);
            let q2 = model_seq(p2@);
            lemma_list_fuel(s0, q1.take(i as int), q2.take(i as int), fuel, fm);
            lemma_outcome_fuel(si, p1@[i as int].model(), p2@[i as int].model(), fe, fm);
            assert(q1.take(i + 1).drop_last() =~= q1.take(i as int));
            assert(q2.take(i + 1).drop_last() =~= q2.take(i as int));
            assert(q1.take(i + 1).last() == p1@[i as int].model());
            assert(q2.take(i + 1).last() == p2@[i as int].model());
            assert(list_outcome(s0, q1.take(i + 1), q2.take(i + 1), fm) == Some((subst@, error_text(step))));
            fuel = fm;
        }
        match step {
            Err(e) => {
                proof {
                    lemma_list_error_stops(s0, model_seq(p1@), model_seq(p2@), i + 1, fuel);
                }
                return Err(e);
            }
            Ok(()) => {},
        }
        proof {
            assert forall|j: int| 0 <= j < i + 1 implies #[trigger] compatible(resolve(subst@, p1@[j].model()), resolve(subst@, p2@[j].model())) by {
                if j < i {
                    lemma_compatible_persists(si, subst@, p1@[j].model(), p2@[j].model());
                }
            }
        }
        i = i + 1;
    }
    assert(model_seq(p1@).take(p1@.len() as int) =~= model_seq(p1@));
    assert(model_seq(p2@).take(p2@.len() as int) =~= model_seq(p2@));
    Ok(())
}

/// A failure within a prefix of two lists is the outcome of the whole lists.
proof fn lemma_list_error_stops(s: Map<u32, Ty>, p1: Seq<Ty>, p2: Seq<Ty>, k: int, f: nat)
    requires
        0 <= k <= p1.len(),
        p1.len() == p2.len(),
        list_outcome(s, p1.take(k), p2.take(k), f) matches Some((_, Some(_))),
    ensures
        list_outcome(s, p1, p2, f) == list_outcome(s, p1.take(k), p2.take(k), f),
    decreases p1.len(),
{
    if k == p1.len() {
        assert(p1.take(k) =~= p1);
        assert(p2.take(k) =~= p2);
    } else {
        assert(p1.drop_last().take(k) =~= p1.take(k));
        assert(p2.drop_last().take(k) =~= p2.take(k));
        lemma_list_error_stops(s, p1.drop_last(), p2.drop_last(), k, f);
    }
}

/// The variables bound by `sigma` or occurring in one of its bindings.
pub open spec fn subst_vars(sigma: Map<u32, Ty>) -> Set<u32> {
    sigma.dom() + Set::new(|w: u32| exists|u: u32| #[trigger] sigma.contains_key(u) && var_list(sigma[u]).contains(w))
}

/// A substitution with finitely many bindings mentions finitely many variables.
proof fn lemma_subst_vars_finite(sigma: Map<u32, Ty>)
    requires
        sigma.dom().finite(),
    ensures
        subst_vars(sigma).finite(),
    decreases sigma.dom().len(),
{
    let rv = Set::new(|w: u32| exists|u: u32| #[trigger] sigma.contains_key(u) && var_list(sigma[u]).contains(w));
    if sigma.dom().len() == 0 {
        assert(sigma.dom() =~= Set::<u32>::empty());
        assert(rv =~= Set::<u32>::empty());
    } else {
        let k = sigma.dom().choose();
        let rest = sigma.remove(k);
        lemma_subst_vars_finite(rest);
        let bigger = subst_vars(rest) + var_list(sigma[k]).to_set();
        assert(rv.subset_of(bigger)) by {
            assert forall|w: u32| rv.contains(w) implies bigger.contains(w) by {
                let u = choose|u: u32| #[trigger] sigma.contains_key(u) && var_list(sigma[u]).contains(w);
                if u == k {
                    assert(var_list(sigma[k]).to_set().contains(w));
                } else {
                    assert(rest.contains_key(u));
                }
            }
        }
        vstd::set_lib::lemma_len_subset(rv, bigger);
    }
}

/// Unifies `lhs` with `rhs`, extending `subst` with the bindings that make
/// them agree. Errors carry the position `line:col`.
///
/// The result and the substitution afterwards are those of `unify_outcome`:
/// variables are bound to what they meet (unless they occur in it), types
/// that agree outright succeed untouched, clashing types fail with a message
/// that names both, and the parts of types of one form are unified in turn.
/// The substitution only grows, and on success the two types, with the final
/// substitution applied, are compatible; when the two types, resolved under
/// the substitution before the call, are plain (no `Never`, unit floats,
/// tensors or parallel functions), they are equal.
pub fn unify(lhs: &NovaType, rhs: &NovaType, subst: &mut Subst, line: u32, col: u32) -> (r: Result<(), UnifyError>)
    requires
        old(subst).wf(),
    ensures
        final(subst).wf(),
        old(subst)@.submap_of(final(subst)@),
        error_at_pos(r, line, col),
        r is Ok ==> compatible(resolve(final(subst)@, lhs.model()), resolve(final(subst)@, rhs.model())),
        top_level_outcome(old(subst)@, final(subst)@, lhs.model(), rhs.model(), r),
        unify_reaches(old(subst)@, lhs.model(), rhs.model(), final(subst)@, error_text(r)),
        (r is Ok && plain(resolve(old(subst)@, lhs.model())) && plain(resolve(old(subst)@, rhs.model())))
            ==> resolve(final(subst)@, lhs.model()) == resolve(final(subst)@, rhs.model()),
{
    let ghost sigma = subst@;
    let ghost uni = var_list(lhs.model()).to_set() + var_list(rhs.model()).to_set() + subst_vars(sigma);
    proof {
        lemma_subst_vars_finite(sigma);
        assert forall|v: u32| #[trigger] sigma.contains_key(v) implies uni.contains(v) && within(sigma[v], uni) by {
            assert forall|w: u32| #[trigger] var_list(sigma[v]).contains(w) implies uni.contains(w) by {
                assert(subst_vars(sigma).contains(w));
            }
        }
        assert forall|w: u32| #[trigger] var_list(lhs.model()).contains(w) implies uni.contains(w) by {
            assert(var_list(lhs.model()).to_set().contains(w));
        }
        assert forall|w: u32| #[trigger] var_list(rhs.model()).contains(w) implies uni.contains(w) by {
            assert(var_list(rhs.model()).to_set().contains(w));
        }
    }
    let r = unify_in(lhs, rhs, subst, line, col, Ghost(uni));
    proof {
        if r is Ok && plain(resolve(sigma, lhs.model())) && plain(resolve(sigma, rhs.model())) {
            let f = choose|f: nat| #[trigger] unify_outcome(sigma, lhs.model(), rhs.model(), f)
                == Some((subst@, error_text(r)));
            lemma_outcome_plain(sigma, lhs.model(), rhs.model(), f);
            let s1 = subst@;
            lemma_some_rank(sigma);
            lemma_some_rank(s1);
            lemma_resolved_unbound(sigma, some_rank(sigma), lhs.model());
            lemma_resolved_unbound(sigma, some_rank(sigma), rhs.model());
            lemma_resolve_again(sigma, s1, lhs.model());
            lemma_resolve_again(sigma, s1, rhs.model());
            lemma_resolve_plain(sigma, s1, some_rank(s1), resolve(sigma, lhs.model()));
            lemma_resolve_plain(sigma, s1, some_rank(s1), resolve(sigma, rhs.model()));
            lemma_compatible_plain_equal(resolve(s1, lhs.model()), resolve(s1, rhs.model()));
        }
    }
    r
}

// ── Plain types: where compatibility is equality ────────────────────────────

/// A type without `Never`, unit floats or tensors, whose function types are
/// all sequential: the types on which unification can only succeed by making
/// both sides equal.
pub open spec fn plain(t: Ty) -> bool
    decreases t,
{
    match t {
        Ty::Never => false,
        Ty::UnitFloat { .. } => false,
        Ty::Tensor { .. } => false,
        Ty::Array(a) => plain(*a),
        Ty::Wave(a) => plain(*a),
        Ty::Opt(a) => plain(*a),
        Ty::Res(a, b) => plain(*a) && plain(*b),
        Ty::Function { params, ret, parallel } => !parallel && plain_seq(params) && plain(*ret),
        Ty::Named { args, .. } => plain_seq(args),
        Ty::Tuple(ts) => plain_seq(ts),
        _ => true,
    }
}

/// Every type of the list is plain.
pub open spec fn plain_seq(s: Seq<Ty>) -> bool
    decreases s,
{
    s.len() == 0 || (plain_seq(s.drop_last()) && plain(s.last()))
}

/// The substitution an outcome ends with.
pub open spec fn outcome_subst(o: Option<(Map<u32, Ty>, Option<Seq<char>>)>) -> Map<u32, Ty> {
    match o {
        Some((s1, _)) => s1,
        None => Map::empty(),
    }
}

/// A list is plain just when each of its types is.
proof fn lemma_plain_seq_index(s: Seq<Ty>)
    ensures
        plain_seq(s) <==> forall|i: int| 0 <= i < s.len() ==> #[trigger] plain(s[i]),
    decreases s.len(),
{
    if s.len() > 0 {
        lemma_plain_seq_index(s.drop_last());
        if forall|i: int| 0 <= i < s.len() ==> #[trigger] plain(s[i]) {
            assert forall|i: int| 0 <= i < s.drop_last().len() implies #[trigger] plain(s.drop_last()[i]) by {
                assert(plain(s[i]));
            }
            assert(plain(s[s.len() - 1]));
        }
        if plain_seq(s) {
            assert forall|i: int| 0 <= i < s.len() implies #[trigger] plain(s[i]) by {
                if i < s.len() - 1 {
                    assert(plain(s.drop_last()[i]));
                }
            }
        }
    }
}

/// Two compatible plain types are equal.
proof fn lemma_compatible_plain_equal(a: Ty, b: Ty)
    requires
        plain(a),
        plain(b),
        compatible(a, b),
    ensures
        a == b,
    decreases a,
{
    if a != b {
        match (a, b) {
            (Ty::Array(x), Ty::Array(y)) => { lemma_compatible_plain_equal(*x, *y); }
            (Ty::Wave(x), Ty::Wave(y)) => { lemma_compatible_plain_equal(*x, *y); }
            (Ty::Opt(x), Ty::Opt(y)) => { lemma_compatible_plain_equal(*x, *y); }
            (Ty::Res(x1, y1), Ty::Res(x2, y2)) => {
                lemma_compatible_plain_equal(*x1, *x2);
                lemma_compatible_plain_equal(*y1, *y2);
            }
            (Ty::Function { params: p1, ret: r1, .. }, Ty::Function { params: p2, ret: r2, .. }) => {
                lemma_compatible_seq_plain_equal(p1, p2);
                lemma_compatible_plain_equal(*r1, *r2);
            }
            (Ty::Named { args: a1, .. }, Ty::Named { args: a2, .. }) => { lemma_compatible_seq_plain_equal(a1, a2); }
            (Ty::Tuple(t1), Ty::Tuple(t2)) => { lemma_compatible_seq_plain_equal(t1, t2); }
            _ => {}
        }
    }
}

/// Two pairwise compatible plain lists are equal.
proof fn lemma_compatible_seq_plain_equal(s1: Seq<Ty>, s2: Seq<Ty>)
    requires
        plain_seq(s1),
        plain_seq(s2),
        compatible_seq(s1, s2),
    ensures
        s1 == s2,
    decreases s1,
{
    if s1.len() > 0 {
        lemma_compatible_seq_plain_equal(s1.drop_last(), s2.drop_last());
        lemma_compatible_plain_equal(s1.last(), s2.last());
        assert(s1 =~= s2.drop_last().push(s2.last()));
        assert(s2 =~= s2.drop_last().push(s2.last()));
    } else {
        assert(s1 =~= s2);
    }
}

/// The parts of a plain type are plain.
proof fn lemma_plain_parts(t: Ty)
    requires
        plain(t),
    ensures
        match t {
            Ty::Array(a) => plain(*a),
            Ty::Wave(a) => plain(*a),
            Ty::Opt(a) => plain(*a),
            Ty::Res(a, b) => plain(*a) && plain(*b),
            Ty::Function { params, ret, .. } => plain(*ret)
                && forall|i: int| 0 <= i < params.len() ==> #[trigger] plain(params[i]),
            Ty::Named { args, .. } => forall|i: int| 0 <= i < args.len() ==> #[trigger] plain(args[i]),
            Ty::Tuple(ts) => forall|i: int| 0 <= i < ts.len() ==> #[trigger] plain(ts[i]),
            _ => true,
        },
{
    match t {
        Ty::Function { params, .. } => { lemma_plain_seq_index(params); }
        Ty::Named { args, .. } => { lemma_plain_seq_index(args); }
        Ty::Tuple(ts) => { lemma_plain_seq_index(ts); }
        _ => {}
    }
}

/// `s1` grows `s0` plainly: it keeps the bindings of `s0`, and each binding
/// it adds is plain and mentions no variable that `s0` binds.
pub open spec fn grows_plainly(s0: Map<u32, Ty>, s1: Map<u32, Ty>) -> bool {
    &&& s0.submap_of(s1)
    &&& forall|v: u32| #[trigger] s1.contains_key(v) && !s0.contains_key(v)
        ==> plain(s1[v]) && unbound_in(s0, s1[v])
}

/// Plain growth is transitive.
proof fn lemma_grows_trans(a: Map<u32, Ty>, b: Map<u32, Ty>, c: Map<u32, Ty>)
    requires
        grows_plainly(a, b),
        grows_plainly(b, c),
    ensures
        grows_plainly(a, c),
{
    lemma_submap_trans(a, b, c);
    assert forall|v: u32| #[trigger] c.contains_key(v) && !a.contains_key(v)
        implies plain(c[v]) && unbound_in(a, c[v]) by {
        if b.contains_key(v) {
            assert(c[v] == b[v]);
        } else {
            assert forall|w: u32| #[trigger] var_list(c[v]).contains(w) implies !a.contains_key(w) by {
                assert(!b.contains_key(w));
            }
        }
    }
}

/// Resolving, under plainly grown bindings, a plain type whose variables the
/// old bindings leave unbound gives a plain type.
proof fn lemma_resolve_plain(s0: Map<u32, Ty>, s1: Map<u32, Ty>, rank: spec_fn(u32) -> nat, t: Ty)
    requires
        ranked(s1, rank),
        grows_plainly(s0, s1),
        plain(t),
        unbound_in(s0, t),
    ensures
        plain(resolve_r(s1, rank, t)),
    decreases height(rank, t), t,
{
    lemma_clean_parts(s0, Set::full(), t);
    lemma_plain_parts(t);
    match t {
        Ty::Var(v) => {
            if s1.contains_key(v) {
                assert(var_list(t).contains(v)) by { assert(var_list(t)[0] == v); }
                lemma_resolve_plain(s0, s1, rank, s1[v]);
            }
        }
        Ty::Array(a) => { lemma_resolve_plain(s0, s1, rank, *a); }
        Ty::Wave(a) => { lemma_resolve_plain(s0, s1, rank, *a); }
        Ty::Opt(a) => { lemma_resolve_plain(s0, s1, rank, *a); }
        Ty::Res(a, b) => {
            lemma_resolve_plain(s0, s1, rank, *a);
            lemma_resolve_plain(s0, s1, rank, *b);
        }
        Ty::Function { params, ret, .. } => {
            lemma_resolve_plain_seq(s0, s1, rank, params);
            lemma_resolve_plain(s0, s1, rank, *ret);
        }
        Ty::Named { args, .. } => { lemma_resolve_plain_seq(s0, s1, rank, args); }
        Ty::Tuple(ts) => { lemma_resolve_plain_seq(s0, s1, rank, ts); }
        _ => {}
    }
}

/// `lemma_resolve_plain` for a list of types.
proof fn lemma_resolve_plain_seq(s0: Map<u32, Ty>, s1: Map<u32, Ty>, rank: spec_fn(u32) -> nat, s: Seq<Ty>)
    requires
        ranked(s1, rank),
        grows_plainly(s0, s1),
        forall|i: int| 0 <= i < s.len() ==> #[trigger] plain(s[i]) && clean(s0, Set::full(), s[i]),
    ensures
        plain_seq(resolve_seq_r(s1, rank, s)),
    decreases height_seq(rank, s), s,
{
    let rs = resolve_seq_r(s1, rank, s);
    lemma_resolve_seq_index(s1, rank, s);
    lemma_plain_seq_index(rs);
    assert forall|i: int| 0 <= i < rs.len() implies #[trigger] plain(rs[i]) by {
        lemma_height_seq_index(rank, s, i);
        assert(plain(s[i]) && clean(s0, Set::full(), s[i]));
        lemma_resolve_plain(s0, s1, rank, s[i]);
    }
}

/// Unifying two types that resolve to plain types grows the bindings
/// plainly and keeps them acyclic.
proof fn lemma_outcome_plain(s: Map<u32, Ty>, a: Ty, b: Ty, f: nat)
    requires
        acyclic(s),
        plain(resolve(s, a)),
        plain(resolve(s, b)),
        unify_outcome(s, a, b, f) is Some,
    ensures
        acyclic(outcome_subst(unify_outcome(s, a, b, f))),
        grows_plainly(s, outcome_subst(unify_outcome(s, a, b, f))),
    decreases f, 0nat, 0nat,
{
    let rank = some_rank(s);
    lemma_some_rank(s);
    let l = resolve(s, a);
    let t = resolve(s, b);
    lemma_resolved_unbound(s, rank, a);
    lemma_resolved_unbound(s, rank, b);
    lemma_var_list_parts(l);
    lemma_var_list_parts(t);
    assert(s.submap_of(s));
    if l is Var && l != t {
        if !var_list(t).contains(var_id(l)) {
            assert(var_list(l).contains(var_id(l))) by { assert(var_list(l)[0] == var_id(l)); }
            lemma_resolve_id(s, rank, t);
            lemma_bind_acyclic(s, var_id(l), t);
            assert(s.submap_of(s.insert(var_id(l), t)));
        }
    } else if !(l is Var) && t is Var {
        if !var_list(l).contains(var_id(t)) {
            assert(var_list(t).contains(var_id(t))) by { assert(var_list(t)[0] == var_id(t)); }
            lemma_resolve_id(s, rank, l);
            lemma_bind_acyclic(s, var_id(t), l);
            assert(s.submap_of(s.insert(var_id(t), l)));
        }
    } else if !(l is Var) && !(t is Var) && !leaf_ok(l, t) && descends(l, t) {
        lemma_parts_plain(s, l, t, (f - 1) as nat);
    }
}

/// `lemma_outcome_plain` for the parts of two resolved plain types.
proof fn lemma_parts_plain(s: Map<u32, Ty>, l: Ty, t: Ty, f: nat)
    requires
        acyclic(s),
        plain(l),
        plain(t),
        unbound_in(s, l),
        unbound_in(s, t),
        descends(l, t),
        parts_outcome(s, l, t, f) is Some,
    ensures
        acyclic(outcome_subst(parts_outcome(s, l, t, f))),
        grows_plainly(s, outcome_subst(parts_outcome(s, l, t, f))),
    decreases f, 2nat, 0nat,
{
    let rank = some_rank(s);
    lemma_some_rank(s);
    lemma_plain_parts(l);
    lemma_plain_parts(t);
    lemma_clean_parts(s, Set::full(), l);
    lemma_clean_parts(s, Set::full(), t);
    match (l, t) {
        (Ty::Array(x), Ty::Array(y)) | (Ty::Wave(x), Ty::Wave(y)) | (Ty::Opt(x), Ty::Opt(y)) => {
            lemma_resolve_id(s, rank, *x);
            lemma_resolve_id(s, rank, *y);
            lemma_outcome_plain(s, *x, *y, f);
        }
        (Ty::Res(a1, b1), Ty::Res(a2, b2)) => {
            lemma_resolve_id(s, rank, *a1);
            lemma_resolve_id(s, rank, *a2);
            lemma_outcome_plain(s, *a1, *a2, f);
            if let Some((s1, None)) = unify_outcome(s, *a1, *a2, f) {
                lemma_some_rank(s1);
                lemma_resolve_plain(s, s1, some_rank(s1), *b1);
                lemma_resolve_plain(s, s1, some_rank(s1), *b2);
                lemma_outcome_plain(s1, *b1, *b2, f);
                lemma_grows_trans(s, s1, outcome_subst(unify_outcome(s1, *b1, *b2, f)));
            }
        }
        (Ty::Function { params: p1, ret: r1, .. }, Ty::Function { params: p2, ret: r2, .. }) => {
            lemma_list_plain(s, p1, p2, f);
            if let Some((s1, None)) = list_outcome(s, p1, p2, f) {
                lemma_some_rank(s1);
                lemma_resolve_plain(s, s1, some_rank(s1), *r1);
                lemma_resolve_plain(s, s1, some_rank(s1), *r2);
                lemma_outcome_plain(s1, *r1, *r2, f);
                lemma_grows_trans(s, s1, outcome_subst(unify_outcome(s1, *r1, *r2, f)));
            }
        }
        (Ty::Named { args: a1, .. }, Ty::Named { args: a2, .. }) => { lemma_list_plain(s, a1, a2, f); }
        (Ty::Tuple(t1), Ty::Tuple(t2)) => { lemma_list_plain(s, t1, t2, f); }
        _ => {}
    }
}

/// `lemma_outcome_plain` for two lists of resolved plain types.
proof fn lemma_list_plain(s: Map<u32, Ty>, p1: Seq<Ty>, p2: Seq<Ty>, f: nat)
    requires
        acyclic(s),
        forall|i: int| 0 <= i < p1.len() ==> #[trigger] plain(p1[i]) && clean(s, Set::full(), p1[i]),
        forall|i: int| 0 <= i < p2.len() ==> #[trigger] plain(p2[i]) && clean(s, Set::full(), p2[i]),
        p1.len() == p2.len(),
        list_outcome(s, p1, p2, f) is Some,
    ensures
        acyclic(outcome_subst(list_outcome(s, p1, p2, f))),
        grows_plainly(s, outcome_subst(list_outcome(s, p1, p2, f))),
    decreases f, 1nat, p1.len(),
{
    assert(s.submap_of(s));
    if p1.len() > 0 {
        let q1 = p1.drop_last();
        let q2 = p2.drop_last();
        assert forall|i: int| 0 <= i < q1.len() implies #[trigger] plain(q1[i]) && clean(s, Set::full(), q1[i]) by {
            assert(plain(p1[i]) && clean(s, Set::full(), p1[i]));
        }
        assert forall|i: int| 0 <= i < q2.len() implies #[trigger] plain(q2[i]) && clean(s, Set::full(), q2[i]) by {
            assert(plain(p2[i]) && clean(s, Set::full(), p2[i]));
        }
        lemma_list_plain(s, q1, q2, f);
        if let Some((s1, None)) = list_outcome(s, q1, q2, f) {
            assert(plain(p1[p1.len() - 1]) && clean(s, Set::full(), p1[p1.len() - 1]));
            assert(plain(p2[p2.len() - 1]) && clean(s, Set::full(), p2[p2.len() - 1]));
            lemma_some_rank(s1);
            lemma_resolve_plain(s, s1, some_rank(s1), p1.last());
            lemma_resolve_plain(s, s1, some_rank(s1), p2.last());
            lemma_outcome_plain(s1, p1.last(), p2.last(), f);
            lemma_grows_trans(s, s1, outcome_subst(unify_outcome(s1, p1.last(), p2.last(), f)));
        }
    }
}

/// Applying a substitution twice is applying it once.
pub proof fn lemma_resolve_idempotent(sigma: Map<u32, Ty>, t: Ty)
    requires
        acyclic(sigma),
    ensures
        resolve(sigma, resolve(sigma, t)) == resolve(sigma, t),
{
    lemma_some_rank(sigma);
    lemma_resolved_unbound(sigma, some_rank(sigma), t);
    lemma_resolve_id(sigma, some_rank(sigma), resolve(sigma, t));
}

} // verus!
