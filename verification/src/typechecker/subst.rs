//! Substitutions: finite maps from type variables to types, kept free of
//! cycles, and what applying one to a type gives.
//!
//! A substitution is acyclic when its variables can be ranked so that every
//! bound variable outranks the variables of the type it is bound to; applying
//! it then chases each binding to the end, and `resolve` is that result.

use vstd::prelude::*;
use std::collections::HashMap;
use crate::typechecker::types::{
    NovaType, FunctionType, TypeVar, Ty, var_list, var_list_seq, var_list_fields, model_seq, model_fields,
    lemma_model_seq, lemma_model_fields,
};

verus! {

pub open spec fn max_nat(a: nat, b: nat) -> nat {
    if a >= b { a } else { b }
}

/// One more than the highest rank of a variable of `t` (zero with no variable).
pub open spec fn height(rank: spec_fn(u32) -> nat, t: Ty) -> nat
    decreases t,
{
    match t {
        Ty::Var(v) => rank(v) + 1,
        Ty::Tensor { elem, .. } => height(rank, *elem),
        Ty::Array(a) => height(rank, *a),
        Ty::Wave(a) => height(rank, *a),
        Ty::Opt(a) => height(rank, *a),
        Ty::Res(a, b) => max_nat(height(rank, *a), height(rank, *b)),
        Ty::Function { params, ret, .. } => max_nat(height_seq(rank, params), height(rank, *ret)),
        Ty::Named { args, .. } => height_seq(rank, args),
        Ty::Tuple(ts) => height_seq(rank, ts),
        Ty::Row(fs) => height_fields(rank, fs),
        _ => 0,
    }
}

/// The greatest height of a list of types.
pub open spec fn height_seq(rank: spec_fn(u32) -> nat, s: Seq<Ty>) -> nat
    decreases s,
{
    if s.len() == 0 {
        0
    } else {
        max_nat(height_seq(rank, s.drop_last()), height(rank, s.last()))
    }
}

/// The greatest height of the types of a list of named fields.
pub open spec fn height_fields(rank: spec_fn(u32) -> nat, s: Seq<(Seq<char>, Ty)>) -> nat
    decreases s,
{
    if s.len() == 0 {
        0
    } else {
        max_nat(height_fields(rank, s.drop_last()), height(rank, s.last().1))
    }
}

/// Every bound variable outranks all variables of its binding.
pub open spec fn ranked(sigma: Map<u32, Ty>, rank: spec_fn(u32) -> nat) -> bool {
    forall|u: u32| #[trigger] sigma.contains_key(u) ==> height(rank, sigma[u]) <= rank(u)
}

/// A substitution with no cycle of bindings.
pub open spec fn acyclic(sigma: Map<u32, Ty>) -> bool {
    sigma.dom().finite() && exists|rank: spec_fn(u32) -> nat| ranked(sigma, rank)
}

/// A ranking that witnesses that `sigma` is acyclic.
pub open spec fn some_rank(sigma: Map<u32, Ty>) -> spec_fn(u32) -> nat {
    choose|rank: spec_fn(u32) -> nat| ranked(sigma, rank)
}

/// `t` with every bound variable replaced, recursively, by what it is bound to.
pub open spec fn resolve_r(sigma: Map<u32, Ty>, rank: spec_fn(u32) -> nat, t: Ty) -> Ty
    decreases height(rank, t), t
    when ranked(sigma, rank)
{
    match t {
        Ty::Var(v) => if sigma.contains_key(v) { resolve_r(sigma, rank, sigma[v]) } else { t },
        Ty::Tensor { elem, shape } => Ty::Tensor { elem: Box::new(resolve_r(sigma, rank, *elem)), shape },
        Ty::Array(a) => Ty::Array(Box::new(resolve_r(sigma, rank, *a))),
        Ty::Wave(a) => Ty::Wave(Box::new(resolve_r(sigma, rank, *a))),
        Ty::Opt(a) => Ty::Opt(Box::new(resolve_r(sigma, rank, *a))),
        Ty::Res(a, b) => Ty::Res(Box::new(resolve_r(sigma, rank, *a)), Box::new(resolve_r(sigma, rank, *b))),
        Ty::Function { params, ret, parallel } => Ty::Function {
            params: resolve_seq_r(sigma, rank, params),
            ret: Box::new(resolve_r(sigma, rank, *ret)),
            parallel,
        },
        Ty::Named { name, args } => Ty::Named { name, args: resolve_seq_r(sigma, rank, args) },
        Ty::Tuple(ts) => Ty::Tuple(resolve_seq_r(sigma, rank, ts)),
        Ty::Row(fs) => Ty::Row(resolve_fields_r(sigma, rank, fs)),
        _ => t,
    }
}

/// `resolve_r` on each type of a list.
pub open spec fn resolve_seq_r(sigma: Map<u32, Ty>, rank: spec_fn(u32) -> nat, s: Seq<Ty>) -> Seq<Ty>
    decreases height_seq(rank, s), s
    when ranked(sigma, rank)
{
    if s.len() == 0 {
        Seq::empty()
    } else {
        resolve_seq_r(sigma, rank, s.drop_last()).push(resolve_r(sigma, rank, s.last()))
    }
}

/// `resolve_r` on the type of each named field.
pub open spec fn resolve_fields_r(sigma: Map<u32, Ty>, rank: spec_fn(u32) -> nat, s: Seq<(Seq<char>, Ty)>) -> Seq<(Seq<char>, Ty)>
    decreases height_fields(rank, s), s
    when ranked(sigma, rank)
{
    if s.len() == 0 {
        Seq::empty()
    } else {
        resolve_fields_r(sigma, rank, s.drop_last()).push((s.last().0, resolve_r(sigma, rank, s.last().1)))
    }
}

/// What applying the acyclic substitution `sigma` to `t` gives.
pub open spec fn resolve(sigma: Map<u32, Ty>, t: Ty) -> Ty {
    resolve_r(sigma, some_rank(sigma), t)
}


/// The ranking chosen for an acyclic substitution does rank it.
pub proof fn lemma_some_rank(sigma: Map<u32, Ty>)
    requires
        acyclic(sigma),
    ensures
        ranked(sigma, some_rank(sigma)),
{
}

/// No element of a list is higher than the list.
pub proof fn lemma_height_seq_index(rank: spec_fn(u32) -> nat, s: Seq<Ty>, i: int)
    requires
        0 <= i < s.len(),
    ensures
        height(rank, s[i]) <= height_seq(rank, s),
    decreases s.len(),
{
    if i < s.len() - 1 {
        lemma_height_seq_index(rank, s.drop_last(), i);
    }
}

/// No field is higher than the field list.
pub proof fn lemma_height_fields_index(rank: spec_fn(u32) -> nat, s: Seq<(Seq<char>, Ty)>, i: int)
    requires
        0 <= i < s.len(),
    ensures
        height(rank, s[i].1) <= height_fields(rank, s),
    decreases s.len(),
{
    if i < s.len() - 1 {
        lemma_height_fields_index(rank, s.drop_last(), i);
    }
}

/// Resolving a list extended by one type extends the resolved list by its resolution.
pub proof fn lemma_resolve_seq_push(sigma: Map<u32, Ty>, rank: spec_fn(u32) -> nat, s: Seq<Ty>, x: Ty)
    requires
        ranked(sigma, rank),
    ensures
        resolve_seq_r(sigma, rank, s.push(x)) == resolve_seq_r(sigma, rank, s).push(resolve_r(sigma, rank, x)),
{
    assert(s.push(x).drop_last() =~= s);
}

/// Resolving a field list extended by one field extends the resolved list by that field resolved.
pub proof fn lemma_resolve_fields_push(sigma: Map<u32, Ty>, rank: spec_fn(u32) -> nat, s: Seq<(Seq<char>, Ty)>, x: (Seq<char>, Ty))
    requires
        ranked(sigma, rank),
    ensures
        resolve_fields_r(sigma, rank, s.push(x)) == resolve_fields_r(sigma, rank, s).push((x.0, resolve_r(sigma, rank, x.1))),
{
    assert(s.push(x).drop_last() =~= s);
}

/// The models of a prefix of a list, extended by one more element.
proof fn lemma_model_seq_take(v: Seq<NovaType>, i: int)
    requires
        0 <= i < v.len(),
    ensures
        model_seq(v.take(i + 1)) == model_seq(v.take(i)).push(v[i].model()),
{
    assert(v.take(i + 1).drop_last() =~= v.take(i));
}

/// The models of a prefix of a field list, extended by one more field.
proof fn lemma_model_fields_take(v: Seq<(String, NovaType)>, i: int)
    requires
        0 <= i < v.len(),
    ensures
        model_fields(v.take(i + 1)) == model_fields(v.take(i)).push((v[i].0@, v[i].1.model())),
{
    assert(v.take(i + 1).drop_last() =~= v.take(i));
}


// ── Variables of lists, heights under two rankings ──────────────────────────

/// A concatenation holds exactly the elements of its two parts.
pub proof fn lemma_concat_contains(a: Seq<u32>, b: Seq<u32>, x: u32)
    ensures
        (a + b).contains(x) <==> (a.contains(x) || b.contains(x)),
{
    if a.contains(x) {
        let i = a.index_of(x);
        assert((a + b)[i] == x);
    }
    if b.contains(x) {
        let i = b.index_of(x);
        assert((a + b)[a.len() + i] == x);
    }
    if (a + b).contains(x) {
        let i = (a + b).index_of(x);
        if i < a.len() {
            assert(a[i] == x);
        } else {
            assert(b[i - a.len()] == x);
        }
    }
}

/// A variable of a list of types is a variable of one of them.
pub proof fn lemma_var_list_seq_contains(s: Seq<Ty>, x: u32)
    ensures
        var_list_seq(s).contains(x) <==> exists|i: int| 0 <= i < s.len() && #[trigger] var_list(s[i]).contains(x),
    decreases s.len(),
{
    if s.len() > 0 {
        lemma_var_list_seq_contains(s.drop_last(), x);
        lemma_concat_contains(var_list_seq(s.drop_last()), var_list(s.last()), x);
        if var_list_seq(s).contains(x) {
            if var_list(s.last()).contains(x) {
                assert(var_list(s[s.len() - 1]).contains(x));
            } else {
                let i = choose|i: int| 0 <= i < s.drop_last().len() && #[trigger] var_list(s.drop_last()[i]).contains(x);
                assert(s[i] == s.drop_last()[i]);
            }
        }
        if exists|i: int| 0 <= i < s.len() && #[trigger] var_list(s[i]).contains(x) {
            let i = choose|i: int| 0 <= i < s.len() && #[trigger] var_list(s[i]).contains(x);
            if i < s.len() - 1 {
                assert(s.drop_last()[i] == s[i]);
            }
        }
    }
}

/// A variable of a list of fields is a variable of one of their types.
pub proof fn lemma_var_list_fields_contains(s: Seq<(Seq<char>, Ty)>, x: u32)
    ensures
        var_list_fields(s).contains(x) <==> exists|i: int| 0 <= i < s.len() && #[trigger] var_list(s[i].1).contains(x),
    decreases s.len(),
{
    if s.len() > 0 {
        lemma_var_list_fields_contains(s.drop_last(), x);
        lemma_concat_contains(var_list_fields(s.drop_last()), var_list(s.last().1), x);
        if var_list_fields(s).contains(x) {
            if var_list(s.last().1).contains(x) {
                assert(var_list(s[s.len() - 1].1).contains(x));
            } else {
                let i = choose|i: int| 0 <= i < s.drop_last().len() && #[trigger] var_list(s.drop_last()[i].1).contains(x);
                assert(s[i] == s.drop_last()[i]);
            }
        }
        if exists|i: int| 0 <= i < s.len() && #[trigger] var_list(s[i].1).contains(x) {
            let i = choose|i: int| 0 <= i < s.len() && #[trigger] var_list(s[i].1).contains(x);
            if i < s.len() - 1 {
                assert(s.drop_last()[i] == s[i]);
            }
        }
    }
}

/// Raising the ranks of the variables of `t` by at most `k` raises its height by at most `k`.
pub proof fn lemma_height_le(r1: spec_fn(u32) -> nat, r2: spec_fn(u32) -> nat, k: nat, t: Ty)
    requires
        forall|w: u32| var_list(t).contains(w) ==> r2(w) <= r1(w) + k,
    ensures
        height(r2, t) <= height(r1, t) + k,
    decreases t,
{
    match t {
        Ty::Var(v) => {
            assert(var_list(t) == seq![v]);
            assert(var_list(t)[0] == v);
            assert(var_list(t).contains(v));
        }
        Ty::Tensor { elem, .. } => {
            assert(var_list(t) == var_list(*elem));
            lemma_height_le(r1, r2, k, *elem);
        }
        Ty::Array(a) => {
            assert(var_list(t) == var_list(*a));
            lemma_height_le(r1, r2, k, *a);
        }
        Ty::Wave(a) => {
            assert(var_list(t) == var_list(*a));
            lemma_height_le(r1, r2, k, *a);
        }
        Ty::Opt(a) => {
            assert(var_list(t) == var_list(*a));
            lemma_height_le(r1, r2, k, *a);
        }
        Ty::Res(a, b) => {
            assert(var_list(t) == var_list(*a) + var_list(*b));
            assert forall|w: u32| var_list(*a).contains(w) implies r2(w) <= r1(w) + k by {
                lemma_concat_contains(var_list(*a), var_list(*b), w);
                assert(var_list(t).contains(w));
            }
            assert forall|w: u32| var_list(*b).contains(w) implies r2(w) <= r1(w) + k by {
                lemma_concat_contains(var_list(*a), var_list(*b), w);
                assert(var_list(t).contains(w));
            }
            lemma_height_le(r1, r2, k, *a);
            lemma_height_le(r1, r2, k, *b);
        }
        Ty::Function { params, ret, .. } => {
            assert(var_list(t) == var_list_seq(params) + var_list(*ret));
            assert forall|w: u32| var_list_seq(params).contains(w) implies r2(w) <= r1(w) + k by {
                lemma_concat_contains(var_list_seq(params), var_list(*ret), w);
                assert(var_list(t).contains(w));
            }
            assert forall|w: u32| var_list(*ret).contains(w) implies r2(w) <= r1(w) + k by {
                lemma_concat_contains(var_list_seq(params), var_list(*ret), w);
                assert(var_list(t).contains(w));
            }
            lemma_height_seq_le(r1, r2, k, params);
            lemma_height_le(r1, r2, k, *ret);
        }
        Ty::Named { args, .. } => {
            assert(var_list(t) == var_list_seq(args));
            lemma_height_seq_le(r1, r2, k, args);
        }
        Ty::Tuple(ts) => {
            assert(var_list(t) == var_list_seq(ts));
            lemma_height_seq_le(r1, r2, k, ts);
        }
        Ty::Row(fs) => {
            assert(var_list(t) == var_list_fields(fs));
            lemma_height_fields_le(r1, r2, k, fs);
        }
        _ => {}
    }
}

/// `lemma_height_le` for a list of types.
pub proof fn lemma_height_seq_le(r1: spec_fn(u32) -> nat, r2: spec_fn(u32) -> nat, k: nat, s: Seq<Ty>)
    requires
        forall|w: u32| var_list_seq(s).contains(w) ==> r2(w) <= r1(w) + k,
    ensures
        height_seq(r2, s) <= height_seq(r1, s) + k,
    decreases s,
{
    if s.len() > 0 {
        assert(var_list_seq(s) == var_list_seq(s.drop_last()) + var_list(s.last()));
        assert forall|w: u32| var_list_seq(s.drop_last()).contains(w) implies r2(w) <= r1(w) + k by {
            lemma_concat_contains(var_list_seq(s.drop_last()), var_list(s.last()), w);
            assert(var_list_seq(s).contains(w));
        }
        assert forall|w: u32| var_list(s.last()).contains(w) implies r2(w) <= r1(w) + k by {
            lemma_concat_contains(var_list_seq(s.drop_last()), var_list(s.last()), w);
            assert(var_list_seq(s).contains(w));
        }
        lemma_height_seq_le(r1, r2, k, s.drop_last());
        lemma_height_le(r1, r2, k, s.last());
    }
}

/// `lemma_height_le` for a list of fields.
pub proof fn lemma_height_fields_le(r1: spec_fn(u32) -> nat, r2: spec_fn(u32) -> nat, k: nat, s: Seq<(Seq<char>, Ty)>)
    requires
        forall|w: u32| var_list_fields(s).contains(w) ==> r2(w) <= r1(w) + k,
    ensures
        height_fields(r2, s) <= height_fields(r1, s) + k,
    decreases s,
{
    if s.len() > 0 {
        assert(var_list_fields(s) == var_list_fields(s.drop_last()) + var_list(s.last().1));
        assert forall|w: u32| var_list_fields(s.drop_last()).contains(w) implies r2(w) <= r1(w) + k by {
            lemma_concat_contains(var_list_fields(s.drop_last()), var_list(s.last().1), w);
            assert(var_list_fields(s).contains(w));
        }
        assert forall|w: u32| var_list(s.last().1).contains(w) implies r2(w) <= r1(w) + k by {
            lemma_concat_contains(var_list_fields(s.drop_last()), var_list(s.last().1), w);
            assert(var_list_fields(s).contains(w));
        }
        lemma_height_fields_le(r1, r2, k, s.drop_last());
        lemma_height_le(r1, r2, k, s.last().1);
    }
}

// ── What resolution does to variables ──────────────────────────────────────

/// Resolving a list keeps its length and resolves each element.
pub proof fn lemma_resolve_seq_index(sigma: Map<u32, Ty>, rank: spec_fn(u32) -> nat, s: Seq<Ty>)
    requires
        ranked(sigma, rank),
    ensures
        resolve_seq_r(sigma, rank, s).len() == s.len(),
        forall|i: int| 0 <= i < s.len() ==> #[trigger] resolve_seq_r(sigma, rank, s)[i] == resolve_r(sigma, rank, s[i]),
    decreases s.len(),
{
    if s.len() > 0 {
        lemma_resolve_seq_index(sigma, rank, s.drop_last());
        assert forall|i: int| 0 <= i < s.len() implies #[trigger] resolve_seq_r(sigma, rank, s)[i] == resolve_r(sigma, rank, s[i]) by {
            if i < s.len() - 1 {
                assert(s.drop_last()[i] == s[i]);
            }
        }
    }
}

/// Resolving a field list keeps its length and names and resolves each type.
pub proof fn lemma_resolve_fields_index(sigma: Map<u32, Ty>, rank: spec_fn(u32) -> nat, s: Seq<(Seq<char>, Ty)>)
    requires
        ranked(sigma, rank),
    ensures
        resolve_fields_r(sigma, rank, s).len() == s.len(),
        forall|i: int| 0 <= i < s.len() ==> #[trigger] resolve_fields_r(sigma, rank, s)[i] == (s[i].0, resolve_r(sigma, rank, s[i].1)),
    decreases s.len(),
{
    if s.len() > 0 {
        lemma_resolve_fields_index(sigma, rank, s.drop_last());
        assert forall|i: int| 0 <= i < s.len() implies #[trigger] resolve_fields_r(sigma, rank, s)[i] == (s[i].0, resolve_r(sigma, rank, s[i].1)) by {
            if i < s.len() - 1 {
                assert(s.drop_last()[i] == s[i]);
            }
        }
    }
}

/// If `w` occurs in `t`, every variable of the resolution of `w` occurs in the resolution of `t`.
pub proof fn lemma_resolve_vars_mono(sigma: Map<u32, Ty>, rank: spec_fn(u32) -> nat, t: Ty, w: u32, x: u32)
    requires
        ranked(sigma, rank),
        var_list(t).contains(w),
        var_list(resolve_r(sigma, rank, Ty::Var(w))).contains(x),
    ensures
        var_list(resolve_r(sigma, rank, t)).contains(x),
    decreases height(rank, t), t,
{
    match t {
        Ty::Var(v) => {
            assert(var_list(t)[0] == v);
        }
        Ty::Tensor { elem, .. } => lemma_resolve_vars_mono(sigma, rank, *elem, w, x),
        Ty::Array(a) => lemma_resolve_vars_mono(sigma, rank, *a, w, x),
        Ty::Wave(a) => lemma_resolve_vars_mono(sigma, rank, *a, w, x),
        Ty::Opt(a) => lemma_resolve_vars_mono(sigma, rank, *a, w, x),
        Ty::Res(a, b) => {
            lemma_concat_contains(var_list(*a), var_list(*b), w);
            lemma_concat_contains(var_list(resolve_r(sigma, rank, *a)), var_list(resolve_r(sigma, rank, *b)), x);
            if var_list(*a).contains(w) {
                lemma_resolve_vars_mono(sigma, rank, *a, w, x);
            } else {
                lemma_resolve_vars_mono(sigma, rank, *b, w, x);
            }
        }
        Ty::Function { params, ret, .. } => {
            lemma_concat_contains(var_list_seq(params), var_list(*ret), w);
            lemma_concat_contains(
                var_list_seq(resolve_seq_r(sigma, rank, params)),
                var_list(resolve_r(sigma, rank, *ret)),
                x,
            );
            if var_list(*ret).contains(w) {
                lemma_resolve_vars_mono(sigma, rank, *ret, w, x);
            } else {
                lemma_resolve_seq_vars_mono(sigma, rank, params, w, x);
            }
        }
        Ty::Named { args, .. } => lemma_resolve_seq_vars_mono(sigma, rank, args, w, x),
        Ty::Tuple(ts) => lemma_resolve_seq_vars_mono(sigma, rank, ts, w, x),
        Ty::Row(fs) => lemma_resolve_fields_vars_mono(sigma, rank, fs, w, x),
        _ => {
            assert(var_list(t) =~= Seq::<u32>::empty());
        }
    }
}

/// `lemma_resolve_vars_mono` for a list of types.
pub proof fn lemma_resolve_seq_vars_mono(sigma: Map<u32, Ty>, rank: spec_fn(u32) -> nat, s: Seq<Ty>, w: u32, x: u32)
    requires
        ranked(sigma, rank),
        var_list_seq(s).contains(w),
        var_list(resolve_r(sigma, rank, Ty::Var(w))).contains(x),
    ensures
        var_list_seq(resolve_seq_r(sigma, rank, s)).contains(x),
    decreases height_seq(rank, s), s,
{
    lemma_var_list_seq_contains(s, w);
    let i = choose|i: int| 0 <= i < s.len() && #[trigger] var_list(s[i]).contains(w);
    lemma_height_seq_index(rank, s, i);
    lemma_resolve_vars_mono(sigma, rank, s[i], w, x);
    lemma_resolve_seq_index(sigma, rank, s);
    lemma_var_list_seq_contains(resolve_seq_r(sigma, rank, s), x);
    assert(var_list(resolve_seq_r(sigma, rank, s)[i]).contains(x));
}

/// `lemma_resolve_vars_mono` for a list of fields.
pub proof fn lemma_resolve_fields_vars_mono(sigma: Map<u32, Ty>, rank: spec_fn(u32) -> nat, s: Seq<(Seq<char>, Ty)>, w: u32, x: u32)
    requires
        ranked(sigma, rank),
        var_list_fields(s).contains(w),
        var_list(resolve_r(sigma, rank, Ty::Var(w))).contains(x),
    ensures
        var_list_fields(resolve_fields_r(sigma, rank, s)).contains(x),
    decreases height_fields(rank, s), s,
{
    lemma_var_list_fields_contains(s, w);
    let i = choose|i: int| 0 <= i < s.len() && #[trigger] var_list(s[i].1).contains(w);
    lemma_height_fields_index(rank, s, i);
    lemma_resolve_vars_mono(sigma, rank, s[i].1, w, x);
    lemma_resolve_fields_index(sigma, rank, s);
    lemma_var_list_fields_contains(resolve_fields_r(sigma, rank, s), x);
    assert(var_list(resolve_fields_r(sigma, rank, s)[i].1).contains(x));
}


/// All variables of `t` lie in `u`.
pub open spec fn within(t: Ty, u: Set<u32>) -> bool {
    forall|w: u32| #[trigger] var_list(t).contains(w) ==> u.contains(w)
}

/// Every bound variable, and every variable of a binding, lies in `u`.
pub open spec fn closed_in(sigma: Map<u32, Ty>, u: Set<u32>) -> bool {
    forall|v: u32| #[trigger] sigma.contains_key(v) ==> u.contains(v) && within(sigma[v], u)
}

/// No variable of `t` is bound.
pub open spec fn unbound_in(sigma: Map<u32, Ty>, t: Ty) -> bool {
    forall|w: u32| #[trigger] var_list(t).contains(w) ==> !sigma.contains_key(w)
}

/// The variables of the parts of a compound type are variables of the type.
pub proof fn lemma_var_list_parts(t: Ty)
    ensures
        match t {
            Ty::Tensor { elem, .. } => var_list(t) == var_list(*elem),
            Ty::Array(a) => var_list(t) == var_list(*a),
            Ty::Wave(a) => var_list(t) == var_list(*a),
            Ty::Opt(a) => var_list(t) == var_list(*a),
            Ty::Res(a, b) => var_list(t) == var_list(*a) + var_list(*b),
            Ty::Function { params, ret, .. } => var_list(t) == var_list_seq(params) + var_list(*ret),
            Ty::Named { args, .. } => var_list(t) == var_list_seq(args),
            Ty::Tuple(ts) => var_list(t) == var_list_seq(ts),
            Ty::Row(fs) => var_list(t) == var_list_fields(fs),
            Ty::Var(v) => var_list(t) == seq![v],
            _ => var_list(t) == Seq::<u32>::empty(),
        },
{
}

/// The variables of a resolved type are unbound.
pub proof fn lemma_resolved_unbound(sigma: Map<u32, Ty>, rank: spec_fn(u32) -> nat, t: Ty)
    requires
        ranked(sigma, rank),
    ensures
        unbound_in(sigma, resolve_r(sigma, rank, t)),
    decreases height(rank, t), t,
{
    let r = resolve_r(sigma, rank, t);
    lemma_var_list_parts(r);
    match t {
        Ty::Var(v) => {
            if sigma.contains_key(v) {
                assert(r == resolve_r(sigma, rank, sigma[v]));
                lemma_resolved_unbound(sigma, rank, sigma[v]);
                assert(unbound_in(sigma, r));
                assert(unbound_in(sigma, resolve_r(sigma, rank, t)));
            } else {
                assert(r == t);
                assert forall|w: u32| #[trigger] var_list(r).contains(w) implies !sigma.contains_key(w) by {
                    assert(var_list(r) == seq![v]);
                    if var_list(r).contains(w) {
                        let i = var_list(r).index_of(w);
                        assert(i == 0);
                    }
                }
                assert(unbound_in(sigma, r));
                assert(unbound_in(sigma, resolve_r(sigma, rank, t)));
            }
        }
        Ty::Tensor { elem, .. } => {
            lemma_resolved_unbound(sigma, rank, *elem);
            assert(unbound_in(sigma, r));
        }
        Ty::Array(a) => {
            lemma_resolved_unbound(sigma, rank, *a);
            assert(unbound_in(sigma, r));
        }
        Ty::Wave(a) => {
            lemma_resolved_unbound(sigma, rank, *a);
            assert(unbound_in(sigma, r));
        }
        Ty::Opt(a) => {
            lemma_resolved_unbound(sigma, rank, *a);
            assert(unbound_in(sigma, r));
        }
        Ty::Res(a, b) => {
            lemma_resolved_unbound(sigma, rank, *a);
            lemma_resolved_unbound(sigma, rank, *b);
            assert forall|w: u32| #[trigger] var_list(r).contains(w) implies !sigma.contains_key(w) by {
                lemma_concat_contains(var_list(resolve_r(sigma, rank, *a)), var_list(resolve_r(sigma, rank, *b)), w);
            }
        }
        Ty::Function { params, ret, .. } => {
            lemma_resolved_unbound_seq(sigma, rank, params);
            lemma_resolved_unbound(sigma, rank, *ret);
            assert forall|w: u32| #[trigger] var_list(r).contains(w) implies !sigma.contains_key(w) by {
                lemma_concat_contains(var_list_seq(resolve_seq_r(sigma, rank, params)), var_list(resolve_r(sigma, rank, *ret)), w);
            }
        }
        Ty::Named { name, args } => {
            lemma_resolved_unbound_seq(sigma, rank, args);
            let x = var_list_seq(resolve_seq_r(sigma, rank, args));
            assert(r == Ty::Named { name, args: resolve_seq_r(sigma, rank, args) });
            assert forall|w: u32| #[trigger] var_list(r).contains(w) implies !sigma.contains_key(w) by {
                assert(var_list(r) == x);
                assert(x.contains(w));
            }
        }
        Ty::Tuple(ts) => {
            lemma_resolved_unbound_seq(sigma, rank, ts);
            let x = var_list_seq(resolve_seq_r(sigma, rank, ts));
            assert(r == Ty::Tuple(resolve_seq_r(sigma, rank, ts)));
            assert forall|w: u32| #[trigger] var_list(r).contains(w) implies !sigma.contains_key(w) by {
                assert(var_list(r) == x);
                assert(x.contains(w));
            }
        }
        Ty::Row(fs) => {
            lemma_resolved_unbound_fields(sigma, rank, fs);
            let x = var_list_fields(resolve_fields_r(sigma, rank, fs));
            assert(r == Ty::Row(resolve_fields_r(sigma, rank, fs)));
            assert forall|w: u32| #[trigger] var_list(r).contains(w) implies !sigma.contains_key(w) by {
                assert(var_list(r) == x);
                assert(x.contains(w));
            }
        }
        _ => {
            assert(r == t);
            assert(var_list(r) =~= Seq::<u32>::empty());
            assert(unbound_in(sigma, r));
        }
    }
}

/// `lemma_resolved_unbound` for a list of types.
pub proof fn lemma_resolved_unbound_seq(sigma: Map<u32, Ty>, rank: spec_fn(u32) -> nat, s: Seq<Ty>)
    requires
        ranked(sigma, rank),
    ensures
        forall|w: u32| #[trigger] var_list_seq(resolve_seq_r(sigma, rank, s)).contains(w) ==> !sigma.contains_key(w),
    decreases height_seq(rank, s), s,
{
    let rs = resolve_seq_r(sigma, rank, s);
    lemma_resolve_seq_index(sigma, rank, s);
    assert forall|w: u32| #[trigger] var_list_seq(rs).contains(w) implies !sigma.contains_key(w) by {
        lemma_var_list_seq_contains(rs, w);
        let i = choose|i: int| 0 <= i < rs.len() && #[trigger] var_list(rs[i]).contains(w);
        lemma_height_seq_index(rank, s, i);
        lemma_resolved_unbound(sigma, rank, s[i]);
    }
}

/// `lemma_resolved_unbound` for a list of fields.
pub proof fn lemma_resolved_unbound_fields(sigma: Map<u32, Ty>, rank: spec_fn(u32) -> nat, s: Seq<(Seq<char>, Ty)>)
    requires
        ranked(sigma, rank),
    ensures
        forall|w: u32| #[trigger] var_list_fields(resolve_fields_r(sigma, rank, s)).contains(w) ==> !sigma.contains_key(w),
    decreases height_fields(rank, s), s,
{
    let rs = resolve_fields_r(sigma, rank, s);
    lemma_resolve_fields_index(sigma, rank, s);
    assert forall|w: u32| #[trigger] var_list_fields(rs).contains(w) implies !sigma.contains_key(w) by {
        lemma_var_list_fields_contains(rs, w);
        let i = choose|i: int| 0 <= i < rs.len() && #[trigger] var_list(rs[i].1).contains(w);
        lemma_height_fields_index(rank, s, i);
        lemma_resolved_unbound(sigma, rank, s[i].1);
    }
}

/// A type with no bound variable resolves to itself.
pub proof fn lemma_resolve_id(sigma: Map<u32, Ty>, rank: spec_fn(u32) -> nat, t: Ty)
    requires
        ranked(sigma, rank),
        unbound_in(sigma, t),
    ensures
        resolve_r(sigma, rank, t) == t,
    decreases t,
{
    lemma_var_list_parts(t);
    match t {
        Ty::Var(v) => {
            assert(var_list(t).contains(v)) by { assert(var_list(t)[0] == v); }
        }
        Ty::Tensor { elem, .. } => lemma_resolve_id(sigma, rank, *elem),
        Ty::Array(a) => lemma_resolve_id(sigma, rank, *a),
        Ty::Wave(a) => lemma_resolve_id(sigma, rank, *a),
        Ty::Opt(a) => lemma_resolve_id(sigma, rank, *a),
        Ty::Res(a, b) => {
            assert forall|w: u32| #[trigger] var_list(*a).contains(w) implies !sigma.contains_key(w) by {
                lemma_concat_contains(var_list(*a), var_list(*b), w);
            }
            assert forall|w: u32| #[trigger] var_list(*b).contains(w) implies !sigma.contains_key(w) by {
                lemma_concat_contains(var_list(*a), var_list(*b), w);
            }
            lemma_resolve_id(sigma, rank, *a);
            lemma_resolve_id(sigma, rank, *b);
        }
        Ty::Function { params, ret, .. } => {
            assert forall|w: u32| #[trigger] var_list_seq(params).contains(w) implies !sigma.contains_key(w) by {
                lemma_concat_contains(var_list_seq(params), var_list(*ret), w);
            }
            assert forall|w: u32| #[trigger] var_list(*ret).contains(w) implies !sigma.contains_key(w) by {
                lemma_concat_contains(var_list_seq(params), var_list(*ret), w);
            }
            lemma_resolve_id_seq(sigma, rank, params);
            lemma_resolve_id(sigma, rank, *ret);
        }
        Ty::Named { args, .. } => lemma_resolve_id_seq(sigma, rank, args),
        Ty::Tuple(ts) => lemma_resolve_id_seq(sigma, rank, ts),
        Ty::Row(fs) => lemma_resolve_id_fields(sigma, rank, fs),
        _ => {}
    }
}

/// `lemma_resolve_id` for a list of types.
pub proof fn lemma_resolve_id_seq(sigma: Map<u32, Ty>, rank: spec_fn(u32) -> nat, s: Seq<Ty>)
    requires
        ranked(sigma, rank),
        forall|w: u32| #[trigger] var_list_seq(s).contains(w) ==> !sigma.contains_key(w),
    ensures
        resolve_seq_r(sigma, rank, s) == s,
    decreases s,
{
    lemma_resolve_seq_index(sigma, rank, s);
    assert forall|i: int| 0 <= i < s.len() implies #[trigger] resolve_seq_r(sigma, rank, s)[i] == s[i] by {
        assert forall|w: u32| #[trigger] var_list(s[i]).contains(w) implies !sigma.contains_key(w) by {
            lemma_var_list_seq_contains(s, w);
        }
        lemma_resolve_id(sigma, rank, s[i]);
    }
    assert(resolve_seq_r(sigma, rank, s) =~= s);
}

/// `lemma_resolve_id` for a list of fields.
pub proof fn lemma_resolve_id_fields(sigma: Map<u32, Ty>, rank: spec_fn(u32) -> nat, s: Seq<(Seq<char>, Ty)>)
    requires
        ranked(sigma, rank),
        forall|w: u32| #[trigger] var_list_fields(s).contains(w) ==> !sigma.contains_key(w),
    ensures
        resolve_fields_r(sigma, rank, s) == s,
    decreases s,
{
    lemma_resolve_fields_index(sigma, rank, s);
    assert forall|i: int| 0 <= i < s.len() implies #[trigger] resolve_fields_r(sigma, rank, s)[i] == s[i] by {
        assert forall|w: u32| #[trigger] var_list(s[i].1).contains(w) implies !sigma.contains_key(w) by {
            lemma_var_list_fields_contains(s, w);
        }
        lemma_resolve_id(sigma, rank, s[i].1);
    }
    assert(resolve_fields_r(sigma, rank, s) =~= s);
}

/// Resolving under a larger substitution absorbs a resolution under a smaller one.
pub proof fn lemma_resolve_extend(
    s1: Map<u32, Ty>, r1: spec_fn(u32) -> nat, s2: Map<u32, Ty>, r2: spec_fn(u32) -> nat, t: Ty,
)
    requires
        ranked(s1, r1),
        ranked(s2, r2),
        s1.submap_of(s2),
    ensures
        resolve_r(s2, r2, resolve_r(s1, r1, t)) == resolve_r(s2, r2, t),
    decreases height(r1, t), t,
{
    match t {
        Ty::Var(v) => {
            if s1.contains_key(v) {
                assert(s2.contains_key(v) && s2[v] == s1[v]);
                lemma_resolve_extend(s1, r1, s2, r2, s1[v]);
            }
        }
        Ty::Tensor { elem, .. } => lemma_resolve_extend(s1, r1, s2, r2, *elem),
        Ty::Array(a) => lemma_resolve_extend(s1, r1, s2, r2, *a),
        Ty::Wave(a) => lemma_resolve_extend(s1, r1, s2, r2, *a),
        Ty::Opt(a) => lemma_resolve_extend(s1, r1, s2, r2, *a),
        Ty::Res(a, b) => {
            lemma_resolve_extend(s1, r1, s2, r2, *a);
            lemma_resolve_extend(s1, r1, s2, r2, *b);
        }
        Ty::Function { params, ret, .. } => {
            lemma_resolve_extend_seq(s1, r1, s2, r2, params);
            lemma_resolve_extend(s1, r1, s2, r2, *ret);
        }
        Ty::Named { args, .. } => lemma_resolve_extend_seq(s1, r1, s2, r2, args),
        Ty::Tuple(ts) => lemma_resolve_extend_seq(s1, r1, s2, r2, ts),
        Ty::Row(fs) => lemma_resolve_extend_fields(s1, r1, s2, r2, fs),
        _ => {}
    }
}

/// `lemma_resolve_extend` for a list of types.
pub proof fn lemma_resolve_extend_seq(
    s1: Map<u32, Ty>, r1: spec_fn(u32) -> nat, s2: Map<u32, Ty>, r2: spec_fn(u32) -> nat, s: Seq<Ty>,
)
    requires
        ranked(s1, r1),
        ranked(s2, r2),
        s1.submap_of(s2),
    ensures
        resolve_seq_r(s2, r2, resolve_seq_r(s1, r1, s)) == resolve_seq_r(s2, r2, s),
    decreases height_seq(r1, s), s,
{
    let m = resolve_seq_r(s1, r1, s);
    lemma_resolve_seq_index(s1, r1, s);
    lemma_resolve_seq_index(s2, r2, m);
    lemma_resolve_seq_index(s2, r2, s);
    assert forall|i: int| 0 <= i < s.len() implies #[trigger] resolve_seq_r(s2, r2, m)[i] == resolve_seq_r(s2, r2, s)[i] by {
        lemma_height_seq_index(r1, s, i);
        lemma_resolve_extend(s1, r1, s2, r2, s[i]);
    }
    assert(resolve_seq_r(s2, r2, m) =~= resolve_seq_r(s2, r2, s));
}

/// `lemma_resolve_extend` for a list of fields.
pub proof fn lemma_resolve_extend_fields(
    s1: Map<u32, Ty>, r1: spec_fn(u32) -> nat, s2: Map<u32, Ty>, r2: spec_fn(u32) -> nat, s: Seq<(Seq<char>, Ty)>,
)
    requires
        ranked(s1, r1),
        ranked(s2, r2),
        s1.submap_of(s2),
    ensures
        resolve_fields_r(s2, r2, resolve_fields_r(s1, r1, s)) == resolve_fields_r(s2, r2, s),
    decreases height_fields(r1, s), s,
{
    let m = resolve_fields_r(s1, r1, s);
    lemma_resolve_fields_index(s1, r1, s);
    lemma_resolve_fields_index(s2, r2, m);
    lemma_resolve_fields_index(s2, r2, s);
    assert forall|i: int| 0 <= i < s.len() implies #[trigger] resolve_fields_r(s2, r2, m)[i] == resolve_fields_r(s2, r2, s)[i] by {
        lemma_height_fields_index(r1, s, i);
        lemma_resolve_extend(s1, r1, s2, r2, s[i].1);
    }
    assert(resolve_fields_r(s2, r2, m) =~= resolve_fields_r(s2, r2, s));
}

/// Resolution under a substitution closed in `u` keeps the variables of a type in `u`.
pub proof fn lemma_resolve_within(sigma: Map<u32, Ty>, rank: spec_fn(u32) -> nat, t: Ty, u: Set<u32>)
    requires
        ranked(sigma, rank),
        closed_in(sigma, u),
        within(t, u),
    ensures
        within(resolve_r(sigma, rank, t), u),
    decreases height(rank, t), t,
{
    let r = resolve_r(sigma, rank, t);
    lemma_var_list_parts(t);
    lemma_var_list_parts(r);
    match t {
        Ty::Var(v) => {
            assert(var_list(t).contains(v)) by { assert(var_list(t)[0] == v); }
            if sigma.contains_key(v) {
                assert(r == resolve_r(sigma, rank, sigma[v]));
                lemma_resolve_within(sigma, rank, sigma[v], u);
            } else {
                assert(r == t);
            }
        }
        Ty::Tensor { elem, .. } => lemma_resolve_within(sigma, rank, *elem, u),
        Ty::Array(a) => lemma_resolve_within(sigma, rank, *a, u),
        Ty::Wave(a) => lemma_resolve_within(sigma, rank, *a, u),
        Ty::Opt(a) => lemma_resolve_within(sigma, rank, *a, u),
        Ty::Res(a, b) => {
            assert forall|w: u32| #[trigger] var_list(*a).contains(w) implies u.contains(w) by {
                lemma_concat_contains(var_list(*a), var_list(*b), w);
            }
            assert forall|w: u32| #[trigger] var_list(*b).contains(w) implies u.contains(w) by {
                lemma_concat_contains(var_list(*a), var_list(*b), w);
            }
            lemma_resolve_within(sigma, rank, *a, u);
            lemma_resolve_within(sigma, rank, *b, u);
            assert forall|w: u32| #[trigger] var_list(r).contains(w) implies u.contains(w) by {
                lemma_concat_contains(var_list(resolve_r(sigma, rank, *a)), var_list(resolve_r(sigma, rank, *b)), w);
            }
        }
        Ty::Function { params, ret, .. } => {
            assert forall|w: u32| #[trigger] var_list_seq(params).contains(w) implies u.contains(w) by {
                lemma_concat_contains(var_list_seq(params), var_list(*ret), w);
            }
            assert forall|w: u32| #[trigger] var_list(*ret).contains(w) implies u.contains(w) by {
                lemma_concat_contains(var_list_seq(params), var_list(*ret), w);
            }
            lemma_resolve_within_seq(sigma, rank, params, u);
            lemma_resolve_within(sigma, rank, *ret, u);
            assert forall|w: u32| #[trigger] var_list(r).contains(w) implies u.contains(w) by {
                lemma_concat_contains(var_list_seq(resolve_seq_r(sigma, rank, params)), var_list(resolve_r(sigma, rank, *ret)), w);
            }
        }
        Ty::Named { name, args } => {
            assert forall|w: u32| #[trigger] var_list_seq(args).contains(w) implies u.contains(w) by {
                assert(var_list(t).contains(w));
            }
            lemma_resolve_within_seq(sigma, rank, args, u);
            let x = var_list_seq(resolve_seq_r(sigma, rank, args));
            assert(r == Ty::Named { name, args: resolve_seq_r(sigma, rank, args) });
            assert forall|w: u32| #[trigger] var_list(r).contains(w) implies u.contains(w) by {
                assert(var_list(r) == x);
                assert(x.contains(w));
            }
        }
        Ty::Tuple(ts) => {
            assert forall|w: u32| #[trigger] var_list_seq(ts).contains(w) implies u.contains(w) by {
                assert(var_list(t).contains(w));
            }
            lemma_resolve_within_seq(sigma, rank, ts, u);
            let x = var_list_seq(resolve_seq_r(sigma, rank, ts));
            assert(r == Ty::Tuple(resolve_seq_r(sigma, rank, ts)));
            assert forall|w: u32| #[trigger] var_list(r).contains(w) implies u.contains(w) by {
                assert(var_list(r) == x);
                assert(x.contains(w));
            }
        }
        Ty::Row(fs) => {
            assert forall|w: u32| #[trigger] var_list_fields(fs).contains(w) implies u.contains(w) by {
                assert(var_list(t).contains(w));
            }
            lemma_resolve_within_fields(sigma, rank, fs, u);
            let x = var_list_fields(resolve_fields_r(sigma, rank, fs));
            assert(r == Ty::Row(resolve_fields_r(sigma, rank, fs)));
            assert forall|w: u32| #[trigger] var_list(r).contains(w) implies u.contains(w) by {
                assert(var_list(r) == x);
                assert(x.contains(w));
            }
        }
        _ => {}
    }
}

/// `lemma_resolve_within` for a list of types.
pub proof fn lemma_resolve_within_seq(sigma: Map<u32, Ty>, rank: spec_fn(u32) -> nat, s: Seq<Ty>, u: Set<u32>)
    requires
        ranked(sigma, rank),
        closed_in(sigma, u),
        forall|w: u32| #[trigger] var_list_seq(s).contains(w) ==> u.contains(w),
    ensures
        forall|w: u32| #[trigger] var_list_seq(resolve_seq_r(sigma, rank, s)).contains(w) ==> u.contains(w),
    decreases height_seq(rank, s), s,
{
    let rs = resolve_seq_r(sigma, rank, s);
    lemma_resolve_seq_index(sigma, rank, s);
    assert forall|w: u32| #[trigger] var_list_seq(rs).contains(w) implies u.contains(w) by {
        lemma_var_list_seq_contains(rs, w);
        let i = choose|i: int| 0 <= i < rs.len() && #[trigger] var_list(rs[i]).contains(w);
        lemma_height_seq_index(rank, s, i);
        assert forall|x: u32| #[trigger] var_list(s[i]).contains(x) implies u.contains(x) by {
            lemma_var_list_seq_contains(s, x);
        }
        lemma_resolve_within(sigma, rank, s[i], u);
    }
}

/// `lemma_resolve_within` for a list of fields.
pub proof fn lemma_resolve_within_fields(sigma: Map<u32, Ty>, rank: spec_fn(u32) -> nat, s: Seq<(Seq<char>, Ty)>, u: Set<u32>)
    requires
        ranked(sigma, rank),
        closed_in(sigma, u),
        forall|w: u32| #[trigger] var_list_fields(s).contains(w) ==> u.contains(w),
    ensures
        forall|w: u32| #[trigger] var_list_fields(resolve_fields_r(sigma, rank, s)).contains(w) ==> u.contains(w),
    decreases height_fields(rank, s), s,
{
    let rs = resolve_fields_r(sigma, rank, s);
    lemma_resolve_fields_index(sigma, rank, s);
    assert forall|w: u32| #[trigger] var_list_fields(rs).contains(w) implies u.contains(w) by {
        lemma_var_list_fields_contains(rs, w);
        let i = choose|i: int| 0 <= i < rs.len() && #[trigger] var_list(rs[i].1).contains(w);
        lemma_height_fields_index(rank, s, i);
        assert forall|x: u32| #[trigger] var_list(s[i].1).contains(x) implies u.contains(x) by {
            lemma_var_list_fields_contains(s, x);
        }
        lemma_resolve_within(sigma, rank, s[i].1, u);
    }
}

/// Binding an unbound variable to a type in which, resolved, it does not
/// occur keeps the substitution acyclic.
pub proof fn lemma_bind_acyclic(sigma: Map<u32, Ty>, var: u32, m: Ty)
    requires
        acyclic(sigma),
        !sigma.contains_key(var),
        !var_list(resolve(sigma, m)).contains(var),
    ensures
        acyclic(sigma.insert(var, m)),
{
    let r = some_rank(sigma);
    lemma_some_rank(sigma);
    let k: nat = height(r, m) + 1;
    let anc = |u: u32| var_list(resolve_r(sigma, r, Ty::Var(u))).contains(var);
    let r2 = |u: u32| if anc(u) { (r(u) + k) as nat } else { r(u) };
    let s2 = sigma.insert(var, m);
    assert forall|u: u32| #[trigger] s2.contains_key(u) implies height(r2, s2[u]) <= r2(u) by {
        if u == var {
            assert(resolve_r(sigma, r, Ty::Var(var)) == Ty::Var(var));
            assert(var_list(Ty::Var(var))[0] == var);
            assert(anc(var));
            assert forall|w: u32| var_list(m).contains(w) implies r2(w) <= r(w) + 0 && r(w) <= r2(w) + 0 by {
                if anc(w) {
                    lemma_resolve_vars_mono(sigma, r, m, w, var);
                }
            }
            lemma_height_le(r, r2, 0, m);
        } else {
            assert(s2[u] == sigma[u]);
            assert(sigma.contains_key(u));
            if anc(u) {
                lemma_height_le(r, r2, k, sigma[u]);
            } else {
                assert(resolve_r(sigma, r, Ty::Var(u)) == resolve_r(sigma, r, sigma[u]));
                assert forall|w: u32| var_list(sigma[u]).contains(w) implies r2(w) <= r(w) + 0 by {
                    if anc(w) {
                        lemma_resolve_vars_mono(sigma, r, sigma[u], w, var);
                    }
                }
                lemma_height_le(r, r2, 0, sigma[u]);
            }
        }
    }
    assert(ranked(s2, r2));
}

/// A mapping from type variables to types, grown by unification.
#[derive(Debug)]
pub struct Subst {
    map: HashMap<u32, NovaType>,
}

impl View for Subst {
    type V = Map<u32, Ty>;

    closed spec fn view(&self) -> Map<u32, Ty> {
        self.map@.map_values(|t: NovaType| t.model())
    }
}

impl Subst {
    /// Well-formed: no cycle of bindings.
    pub open spec fn wf(&self) -> bool {
        acyclic(self@)
    }

    /// The empty substitution.
    pub fn new() -> (r: Self)
        ensures
            r@ == Map::<u32, Ty>::empty(),
            r.wf(),
    {
        let r = Subst { map: HashMap::new() };
        assert(r@ =~= Map::<u32, Ty>::empty());
        assert(ranked(r@, |u: u32| 0nat));
        r
    }

    /// The number of bound variables.
    pub fn len(&self) -> (r: usize)
        ensures
            r == self@.len(),
    {
        broadcast use vstd::std_specs::hash::group_hash_axioms;
        assert(self@.dom() =~= self.map@.dom());
        self.map.len()
    }

    /// True when no variable is bound.
    pub fn is_empty(&self) -> (r: bool)
        ensures
            r == (self@.len() == 0),
    {
        self.len() == 0
    }

    /// What `var` is bound to, if anything.
    pub fn lookup(&self, var: TypeVar) -> (r: Option<&NovaType>)
        ensures
            match r {
                Some(t) => self@.contains_key(var.0) && t.model() == self@[var.0],
                None => !self@.contains_key(var.0),
            },
    {
        broadcast use vstd::std_specs::hash::group_hash_axioms;
        self.map.get(&var.0)
    }

    /// Binds `var` to `ty`. A variable is bound once: binding it again to
    /// another type is refused. A binding that does not make a cycle keeps
    /// the substitution well-formed.
    pub fn bind(&mut self, var: TypeVar, ty: NovaType)
        requires
            old(self)@.contains_key(var.0) ==> old(self)@[var.0] == ty.model(),
        ensures
            final(self)@ == old(self)@.insert(var.0, ty.model()),
            (old(self).wf() && (old(self)@.contains_key(var.0)
                || !var_list(resolve(old(self)@, ty.model())).contains(var.0))) ==> final(self).wf(),
    {
        broadcast use vstd::std_specs::hash::group_hash_axioms;
        let ghost m = ty.model();
        self.map.insert(var.0, ty);
        assert(self@ =~= old(self)@.insert(var.0, m));
        proof {
            if old(self)@.contains_key(var.0) {
                assert(self@ =~= old(self)@);
            } else if old(self).wf() && !var_list(resolve(old(self)@, m)).contains(var.0) {
                lemma_bind_acyclic(old(self)@, var.0, m);
            }
        }
    }

    /// Applies the substitution to a type, chasing every binding to the end.
    pub fn apply(&self, ty: &NovaType) -> (r: NovaType)
        requires
            self.wf(),
        ensures
            r.model() == resolve(self@, ty.model()),
        decreases height(some_rank(self@), ty.model()), ty,
    {
        let ghost rank = some_rank(self@);
        proof { lemma_some_rank(self@); }
        match ty {
            NovaType::Var(v) => {
                match self.lookup(*v) {
                    Some(bound) => {
                        assert(self@.contains_key(v.0));
                        self.apply(bound)
                    }
                    None => ty.clone(),
                }
            }
            NovaType::Tensor { elem, shape } => NovaType::Tensor { elem: Box::new(self.apply(elem)), shape: shape.duplicate() },
            NovaType::Array(t) => NovaType::Array(Box::new(self.apply(t))),
            NovaType::Wave(t) => NovaType::Wave(Box::new(self.apply(t))),
            NovaType::Option(t) => NovaType::Option(Box::new(self.apply(t))),
            NovaType::Result(t, e) => NovaType::Result(Box::new(self.apply(t)), Box::new(self.apply(e))),
            NovaType::Function(ft) => NovaType::Function(FunctionType {
                params: self.apply_all(&ft.params),
                ret: Box::new(self.apply(&ft.ret)),
                parallel: ft.parallel,
            }),
            NovaType::Named { name, type_args } => NovaType::Named {
                name: name.clone(),
                type_args: self.apply_all(type_args),
            },
            NovaType::Tuple(ts) => NovaType::Tuple(self.apply_all(ts)),
            NovaType::Row { fields } => NovaType::Row { fields: self.apply_fields(fields) },
            _ => ty.clone(),
        }
    }

    /// Applies the substitution to each type of a list.
    fn apply_all(&self, v: &Vec<NovaType>) -> (r: Vec<NovaType>)
        requires
            self.wf(),
        ensures
            model_seq(r@) == resolve_seq_r(self@, some_rank(self@), model_seq(v@)),
        decreases height_seq(some_rank(self@), model_seq(v@)), v,
    {
        let ghost rank = some_rank(self@);
        proof { lemma_some_rank(self@); lemma_model_seq(v@); }
        let mut w: Vec<NovaType> = Vec::new();
        let mut i: usize = 0;
        assert(v@.take(0) =~= Seq::<NovaType>::empty());
        while i < v.len()
            invariant
                self.wf(),
                rank == some_rank(self@),
                ranked(self@, rank),
                i <= v@.len(),
                model_seq(v@).len() == v@.len(),
                forall|j: int| 0 <= j < v@.len() ==> #[trigger] model_seq(v@)[j] == v@[j].model(),
                model_seq(w@) == resolve_seq_r(self@, rank, model_seq(v@.take(i as int))),
            decreases v@.len() - i,
        {
            proof {
                broadcast use vstd::std_specs::vec::axiom_vec_decreases_to_view;
                lemma_height_seq_index(rank, model_seq(v@), i as int);
                assert(model_seq(v@)[i as int] == v@[i as int].model());
            }
            let t = self.apply(&v[i]);
            let ghost before = w@;
            w.push(t);
            proof {
                assert(w@.drop_last() =~= before);
                lemma_model_seq_take(v@, i as int);
                lemma_resolve_seq_push(self@, rank, model_seq(v@.take(i as int)), v@[i as int].model());
            }
            i = i + 1;
        }
        assert(v@.take(v@.len() as int) =~= v@);
        w
    }

    /// Applies the substitution to the type of each named field.
    fn apply_fields(&self, v: &Vec<(String, NovaType)>) -> (r: Vec<(String, NovaType)>)
        requires
            self.wf(),
        ensures
            model_fields(r@) == resolve_fields_r(self@, some_rank(self@), model_fields(v@)),
        decreases height_fields(some_rank(self@), model_fields(v@)), v,
    {
        let ghost rank = some_rank(self@);
        proof { lemma_some_rank(self@); lemma_model_fields(v@); }
        let mut w: Vec<(String, NovaType)> = Vec::new();
        let mut i: usize = 0;
        assert(v@.take(0) =~= Seq::<(String, NovaType)>::empty());
        while i < v.len()
            invariant
                self.wf(),
                rank == some_rank(self@),
                ranked(self@, rank),
                i <= v@.len(),
                model_fields(v@).len() == v@.len(),
                forall|j: int| 0 <= j < v@.len() ==> #[trigger] model_fields(v@)[j] == (v@[j].0@, v@[j].1.model()),
                model_fields(w@) == resolve_fields_r(self@, rank, model_fields(v@.take(i as int))),
            decreases v@.len() - i,
        {
            proof {
                broadcast use vstd::std_specs::vec::axiom_vec_decreases_to_view;
                lemma_height_fields_index(rank, model_fields(v@), i as int);
                assert(model_fields(v@)[i as int] == (v@[i as int].0@, v@[i as int].1.model()));
            }
            let n = v[i].0.clone();
            let t = self.apply(&v[i].1);
            let ghost before = w@;
            w.push((n, t));
            proof {
                assert(w@.drop_last() =~= before);
                lemma_model_fields_take(v@, i as int);
                lemma_resolve_fields_push(self@, rank, model_fields(v@.take(i as int)), (v@[i as int].0@, v@[i as int].1.model()));
            }
            i = i + 1;
        }
        assert(v@.take(v@.len() as int) =~= v@);
        w
    }
}

} // verus!
