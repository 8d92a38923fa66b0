//! The NOVA type algebra.

use vstd::prelude::*;
use crate::unit_resolver::dimension::Dim;

verus! {

/// A type variable (an unknown type resolved by unification).
#[derive(Debug, Clone, Copy, PartialEq, Eq, Hash, Structural)]
pub struct TypeVar(pub u32);

/// The mathematical model of a tensor shape.
pub enum ShapeModel {
    Known(Seq<usize>),
    Symbolic(Seq<Seq<char>>),
    Rank(nat),
    Unknown,
}

/// The mathematical model of a type.
pub enum Ty {
    Var(u32),
    Int,
    Float,
    UnitFloat { dim: Dim, unit: Seq<char> },
    Bool,
    Str,
    Char,
    Void,
    Never,
    Tensor { elem: Box<Ty>, shape: ShapeModel },
    Array(Box<Ty>),
    Wave(Box<Ty>),
    Opt(Box<Ty>),
    Res(Box<Ty>, Box<Ty>),
    Function { params: Seq<Ty>, ret: Box<Ty>, parallel: bool },
    Named { name: Seq<char>, args: Seq<Ty> },
    Tuple(Seq<Ty>),
    Row(Seq<(Seq<char>, Ty)>),
}

/// Tensor shape: either concrete sizes, symbolic names, only a rank, or unknown.
#[derive(Debug, Clone, PartialEq, Eq)]
pub enum TensorShape {
    Known(Vec<usize>),
    Symbolic(Vec<String>),
    Rank(usize),
    Unknown,
}

/// Every type in NOVA.
#[derive(Debug)]
pub enum NovaType {
    Var(TypeVar),
    Int,
    Float,
    UnitFloat { dim: Dim, unit_str: String },
    Bool,
    Str,
    Char,
    Void,
    Never,
    Tensor { elem: Box<NovaType>, shape: TensorShape },
    Array(Box<NovaType>),
    Wave(Box<NovaType>),
    Option(Box<NovaType>),
    Result(Box<NovaType>, Box<NovaType>),
    Function(FunctionType),
    Named { name: String, type_args: Vec<NovaType> },
    Tuple(Vec<NovaType>),
    Row { fields: Vec<(String, NovaType)> },
}

/// A NOVA function type: parameter types + return type.
#[derive(Debug)]
pub struct FunctionType {
    pub params: Vec<NovaType>,
    pub ret: Box<NovaType>,
    pub parallel: bool,
}

/// The character sequences of a list of strings.
pub open spec fn string_views(v: Seq<String>) -> Seq<Seq<char>> {
    Seq::new(v.len(), |i: int| v[i]@)
}

impl TensorShape {
    pub open spec fn model(&self) -> ShapeModel {
        match self {
            TensorShape::Known(v) => ShapeModel::Known(v@),
            TensorShape::Symbolic(v) => ShapeModel::Symbolic(string_views(v@)),
            TensorShape::Rank(r) => ShapeModel::Rank(*r as nat),
            TensorShape::Unknown => ShapeModel::Unknown,
        }
    }
}

/// The models of a list of types.
pub open spec fn model_seq(s: Seq<NovaType>) -> Seq<Ty>
    decreases s,
{
    if s.len() == 0 {
        Seq::empty()
    } else {
        model_seq(s.drop_last()).push(s.last().model())
    }
}

/// The models of a list of named fields.
pub open spec fn model_fields(s: Seq<(String, NovaType)>) -> Seq<(Seq<char>, Ty)>
    decreases s,
{
    if s.len() == 0 {
        Seq::empty()
    } else {
        model_fields(s.drop_last()).push((s.last().0@, s.last().1.model()))
    }
}

impl NovaType {
    pub open spec fn model(&self) -> Ty
        decreases self,
    {
        match self {
            NovaType::Var(v) => Ty::Var(v.0),
            NovaType::Int => Ty::Int,
            NovaType::Float => Ty::Float,
            NovaType::UnitFloat { dim, unit_str } => Ty::UnitFloat { dim: *dim, unit: unit_str@ },
            NovaType::Bool => Ty::Bool,
            NovaType::Str => Ty::Str,
            NovaType::Char => Ty::Char,
            NovaType::Void => Ty::Void,
            NovaType::Never => Ty::Never,
            NovaType::Tensor { elem, shape } => Ty::Tensor { elem: Box::new(elem.model()), shape: shape.model() },
            NovaType::Array(t) => Ty::Array(Box::new(t.model())),
            NovaType::Wave(t) => Ty::Wave(Box::new(t.model())),
            NovaType::Option(t) => Ty::Opt(Box::new(t.model())),
            NovaType::Result(t, e) => Ty::Res(Box::new(t.model()), Box::new(e.model())),
            NovaType::Function(ft) => {
                proof { broadcast use vstd::std_specs::vec::axiom_vec_decreases_to_view; }
                Ty::Function { params: model_seq(ft.params@), ret: Box::new(ft.ret.model()), parallel: ft.parallel }
            }
            NovaType::Named { name, type_args } => {
                proof { broadcast use vstd::std_specs::vec::axiom_vec_decreases_to_view; }
                Ty::Named { name: name@, args: model_seq(type_args@) }
            }
            NovaType::Tuple(ts) => {
                proof { broadcast use vstd::std_specs::vec::axiom_vec_decreases_to_view; }
                Ty::Tuple(model_seq(ts@))
            }
            NovaType::Row { fields } => {
                proof { broadcast use vstd::std_specs::vec::axiom_vec_decreases_to_view; }
                Ty::Row(model_fields(fields@))
            }
        }
    }
}


/// `model_seq` has one model per element.
pub proof fn lemma_model_seq(s: Seq<NovaType>)
    ensures
        model_seq(s).len() == s.len(),
        forall|i: int| 0 <= i < s.len() ==> #[trigger] model_seq(s)[i] == s[i].model(),
    decreases s.len(),
{
    if s.len() > 0 {
        lemma_model_seq(s.drop_last());
    }
}

/// `model_fields` has one model per field.
pub proof fn lemma_model_fields(s: Seq<(String, NovaType)>)
    ensures
        model_fields(s).len() == s.len(),
        forall|i: int| 0 <= i < s.len() ==> #[trigger] model_fields(s)[i] == (s[i].0@, s[i].1.model()),
    decreases s.len(),
{
    if s.len() > 0 {
        lemma_model_fields(s.drop_last());
    }
}

// ── Type variables of a type ────────────────────────────────────────────────

/// The type variables of a type, in left-to-right order, with repetitions.
pub open spec fn var_list(t: Ty) -> Seq<u32>
    decreases t,
{
    match t {
        Ty::Var(v) => seq![v],
        Ty::Tensor { elem, .. } => var_list(*elem),
        Ty::Array(a) => var_list(*a),
        Ty::Wave(a) => var_list(*a),
        Ty::Opt(a) => var_list(*a),
        Ty::Res(a, b) => var_list(*a) + var_list(*b),
        Ty::Function { params, ret, .. } => var_list_seq(params) + var_list(*ret),
        Ty::Named { args, .. } => var_list_seq(args),
        Ty::Tuple(ts) => var_list_seq(ts),
        Ty::Row(fs) => var_list_fields(fs),
        _ => Seq::empty(),
    }
}

/// The type variables of a list of types, in order.
pub open spec fn var_list_seq(s: Seq<Ty>) -> Seq<u32>
    decreases s,
{
    if s.len() == 0 { Seq::empty() } else { var_list_seq(s.drop_last()) + var_list(s.last()) }
}

/// The type variables of a list of named fields, in order.
pub open spec fn var_list_fields(s: Seq<(Seq<char>, Ty)>) -> Seq<u32>
    decreases s,
{
    if s.len() == 0 { Seq::empty() } else { var_list_fields(s.drop_last()) + var_list(s.last().1) }
}

/// Appends to `acc` each element of `s` not already present, in order.
pub open spec fn add_new(acc: Seq<u32>, s: Seq<u32>) -> Seq<u32>
    decreases s.len(),
{
    if s.len() == 0 {
        acc
    } else {
        let acc2 = if acc.contains(s[0]) { acc } else { acc.push(s[0]) };
        add_new(acc2, s.drop_first())
    }
}

/// The distinct type variables of a type, in order of first occurrence.
pub open spec fn free_var_list(t: Ty) -> Seq<u32> {
    add_new(Seq::empty(), var_list(t))
}

/// Adding two lists one after the other is adding their concatenation.
pub proof fn lemma_add_new_concat(acc: Seq<u32>, a: Seq<u32>, b: Seq<u32>)
    ensures
        add_new(add_new(acc, a), b) == add_new(acc, a + b),
    decreases a.len(),
{
    if a.len() == 0 {
        assert(a + b =~= b);
    } else {
        let acc2 = if acc.contains(a[0]) { acc } else { acc.push(a[0]) };
        lemma_add_new_concat(acc2, a.drop_first(), b);
        assert((a + b).drop_first() =~= a.drop_first() + b);
        assert((a + b)[0] == a[0]);
    }
}

/// Adding elements keeps an accumulator free of duplicates and collects
/// exactly the elements of both.
pub proof fn lemma_add_new_props(acc: Seq<u32>, s: Seq<u32>)
    requires
        acc.no_duplicates(),
    ensures
        add_new(acc, s).no_duplicates(),
        forall|x: u32| add_new(acc, s).contains(x) <==> (acc.contains(x) || s.contains(x)),
        acc.is_prefix_of(add_new(acc, s)),
    decreases s.len(),
{
    if s.len() > 0 {
        let acc2 = if acc.contains(s[0]) { acc } else { acc.push(s[0]) };
        assert(acc2.no_duplicates()) by {
            if !acc.contains(s[0]) {
                assert forall|i: int, j: int| 0 <= i < acc2.len() && 0 <= j < acc2.len() && i != j
                    implies acc2[i] != acc2[j] by {
                    if i == acc.len() { assert(acc2[j] == acc[j]); }
                    else if j == acc.len() { assert(acc2[i] == acc[i]); }
                }
            }
        }
        lemma_add_new_props(acc2, s.drop_first());
        assert(add_new(acc, s) == add_new(acc2, s.drop_first()));
        assert forall|x: u32| add_new(acc, s).contains(x) <==> (acc.contains(x) || s.contains(x)) by {
            assert(add_new(acc2, s.drop_first()).contains(x) <==> (acc2.contains(x) || s.drop_first().contains(x)));
            if x == s[0] && !acc.contains(x) {
                assert(acc2[acc.len() as int] == x);
            }
            if x == s[0] {
                assert(s.contains(x));
            }
            if s.contains(x) && x != s[0] {
                let i = s.index_of(x);
                assert(s.drop_first()[i - 1] == x);
            }
            if s.drop_first().contains(x) {
                let i = s.drop_first().index_of(x);
                assert(s[i + 1] == x);
            }
            if acc.contains(x) {
                let i = acc.index_of(x);
                assert(acc2[i] == x);
            }
            if acc2.contains(x) && x != s[0] {
                let i = acc2.index_of(x);
                assert(acc[i] == x);
            }
        }
        assert(acc.is_prefix_of(add_new(acc, s))) by {
            assert forall|i: int| 0 <= i < acc.len() implies acc[i] == add_new(acc, s)[i] by {
                assert(acc2[i] == acc[i]);
            }
        }
    }
}

// ── Questions about a type ──────────────────────────────────────────────────

/// The type variables of a list of type variables.
pub open spec fn ids(v: Seq<TypeVar>) -> Seq<u32> {
    v.map_values(|x: TypeVar| x.0)
}

impl NovaType {
    /// True for the numeric types: `Int`, `Float` and `Float[unit]`.
    pub fn is_numeric(&self) -> (r: bool)
        ensures
            r == (self.model() is Int || self.model() is Float || self.model() is UnitFloat),
    {
        match self {
            NovaType::Int | NovaType::Float | NovaType::UnitFloat { .. } => true,
            _ => false,
        }
    }

    /// True for a unit-annotated float.
    pub fn is_unit_float(&self) -> (r: bool)
        ensures
            r == self.model() is UnitFloat,
    {
        match self {
            NovaType::UnitFloat { .. } => true,
            _ => false,
        }
    }

    /// True if no type variable occurs in this type.
    pub fn is_concrete(&self) -> (r: bool)
        ensures
            r == (var_list(self.model()).len() == 0),
    {
        !self.contains_var()
    }

    /// True if a type variable occurs anywhere in this type.
    pub fn contains_var(&self) -> (r: bool)
        ensures
            r == (var_list(self.model()).len() > 0),
        decreases self,
    {
        match self {
            NovaType::Var(_) => true,
            NovaType::Tensor { elem, .. } => (**elem).contains_var(),
            NovaType::Array(t) => (**t).contains_var(),
            NovaType::Wave(t) => (**t).contains_var(),
            NovaType::Option(t) => (**t).contains_var(),
            NovaType::Result(t, e) => (**t).contains_var() || (**e).contains_var(),
            NovaType::Function(ft) => any_contains_var(&ft.params) || (*ft.ret).contains_var(),
            NovaType::Named { type_args, .. } => any_contains_var(type_args),
            NovaType::Tuple(ts) => any_contains_var(ts),
            NovaType::Row { fields } => any_field_contains_var(fields),
            _ => false,
        }
    }

    /// The distinct type variables of this type, in order of first occurrence.
    pub fn free_vars(&self) -> (r: Vec<TypeVar>)
        ensures
            ids(r@) == free_var_list(self.model()),
    {
        let mut vars: Vec<TypeVar> = Vec::new();
        assert(ids(vars@) =~= Seq::<u32>::empty());
        self.collect_vars(&mut vars);
        vars
    }

    fn collect_vars(&self, out: &mut Vec<TypeVar>)
        ensures
            ids(final(out)@) == add_new(ids(old(out)@), var_list(self.model())),
        decreases self,
    {
        match self {
            NovaType::Var(v) => {
                let ghost acc = ids(old(out)@);
                let found = contains_id(out, v.0);
                if !found {
                    out.push(*v);
                    assert(ids(out@) =~= ids(old(out)@).push(v.0));
                }
                proof {
                    let acc2 = if acc.contains(v.0) { acc } else { acc.push(v.0) };
                    assert(seq![v.0].drop_first() =~= Seq::<u32>::empty());
                    assert(add_new(acc2, Seq::<u32>::empty()) == acc2);
                    assert(var_list(self.model()) == seq![v.0]);
                    assert(add_new(acc, seq![v.0]) == add_new(acc2, seq![v.0].drop_first()));
                }
            }
            NovaType::Tensor { elem, .. } => (**elem).collect_vars(out),
            NovaType::Array(t) => (**t).collect_vars(out),
            NovaType::Wave(t) => (**t).collect_vars(out),
            NovaType::Option(t) => (**t).collect_vars(out),
            NovaType::Result(t, e) => {
                (**t).collect_vars(out);
                (**e).collect_vars(out);
                proof { lemma_add_new_concat(ids(old(out)@), var_list(t.model()), var_list(e.model())); }
            }
            NovaType::Function(ft) => {
                collect_vars_all(&ft.params, out);
                (*ft.ret).collect_vars(out);
                proof {
                    lemma_add_new_concat(ids(old(out)@), var_list_seq(model_seq(ft.params@)), var_list(ft.ret.model()));
                }
            }
            NovaType::Named { type_args, .. } => collect_vars_all(type_args, out),
            NovaType::Tuple(ts) => collect_vars_all(ts, out),
            NovaType::Row { fields } => collect_vars_fields(fields, out),
            _ => {
                assert(var_list(self.model()) =~= Seq::<u32>::empty());
            }
        }
    }
}

/// Whether some variable of `out` has the number `id`.
fn contains_id(out: &Vec<TypeVar>, id: u32) -> (r: bool)
    ensures
        r == ids(out@).contains(id),
{
    let mut i: usize = 0;
    while i < out.len()
        invariant
            i <= out@.len(),
            forall|j: int| 0 <= j < i ==> out@[j].0 != id,
        decreases out@.len() - i,
    {
        if out[i].0 == id {
            assert(ids(out@)[i as int] == id);
            return true;
        }
        i = i + 1;
    }
    assert(!ids(out@).contains(id)) by {
        if ids(out@).contains(id) {
            let k = ids(out@).index_of(id);
            assert(out@[k].0 == id);
        }
    }
    false
}

/// The variables of a prefix of a list, extended by one more element.
proof fn lemma_var_list_seq_take(v: Seq<NovaType>, i: int)
    requires
        0 <= i < v.len(),
    ensures
        var_list_seq(model_seq(v.take(i + 1))) == var_list_seq(model_seq(v.take(i))) + var_list(v[i].model()),
{
    let ms = model_seq(v.take(i));
    assert(v.take(i + 1).drop_last() =~= v.take(i));
    assert(model_seq(v.take(i + 1)) == ms.push(v[i].model()));
    assert(ms.push(v[i].model()).drop_last() =~= ms);
}

/// The variables of a prefix of a field list, extended by one more field.
proof fn lemma_var_list_fields_take(v: Seq<(String, NovaType)>, i: int)
    requires
        0 <= i < v.len(),
    ensures
        var_list_fields(model_fields(v.take(i + 1))) == var_list_fields(model_fields(v.take(i))) + var_list(v[i].1.model()),
{
    let ms = model_fields(v.take(i));
    let f = (v[i].0@, v[i].1.model());
    assert(v.take(i + 1).drop_last() =~= v.take(i));
    assert(model_fields(v.take(i + 1)) == ms.push(f));
    assert(ms.push(f).drop_last() =~= ms);
}

/// True if a type variable occurs in one of the types.
fn any_contains_var(v: &Vec<NovaType>) -> (r: bool)
    ensures
        r == (var_list_seq(model_seq(v@)).len() > 0),
    decreases v,
{
    let mut i: usize = 0;
    assert(v@.take(0) =~= Seq::<NovaType>::empty());
    while i < v.len()
        invariant
            i <= v@.len(),
            var_list_seq(model_seq(v@.take(i as int))).len() == 0,
        decreases v@.len() - i,
    {
        proof {
            broadcast use vstd::std_specs::vec::axiom_vec_decreases_to_view;
            lemma_var_list_seq_take(v@, i as int);
        }
        if v[i].contains_var() {
            proof { lemma_var_list_seq_prefix(model_seq(v@), model_seq(v@.take(i + 1)), v@, i + 1); }
            return true;
        }
        i = i + 1;
    }
    assert(v@.take(v@.len() as int) =~= v@);
    false
}

/// True if a type variable occurs in one of the fields.
fn any_field_contains_var(v: &Vec<(String, NovaType)>) -> (r: bool)
    ensures
        r == (var_list_fields(model_fields(v@)).len() > 0),
    decreases v,
{
    let mut i: usize = 0;
    assert(v@.take(0) =~= Seq::<(String, NovaType)>::empty());
    while i < v.len()
        invariant
            i <= v@.len(),
            var_list_fields(model_fields(v@.take(i as int))).len() == 0,
        decreases v@.len() - i,
    {
        proof {
            broadcast use vstd::std_specs::vec::axiom_vec_decreases_to_view;
            lemma_var_list_fields_take(v@, i as int);
        }
        if v[i].1.contains_var() {
            proof { lemma_var_list_fields_prefix(v@, i + 1); }
            return true;
        }
        i = i + 1;
    }
    assert(v@.take(v@.len() as int) =~= v@);
    false
}

/// The variables of a prefix of a list are a prefix of the variables of the list.
proof fn lemma_var_list_seq_prefix(all: Seq<Ty>, pre: Seq<Ty>, v: Seq<NovaType>, k: int)
    requires
        0 <= k <= v.len(),
        all == model_seq(v),
        pre == model_seq(v.take(k)),
    ensures
        var_list_seq(pre).len() <= var_list_seq(all).len(),
    decreases v.len() - k,
{
    if k < v.len() {
        lemma_var_list_seq_take(v, k);
        lemma_var_list_seq_prefix(all, model_seq(v.take(k + 1)), v, k + 1);
    } else {
        assert(v.take(k) =~= v);
    }
}

/// The variables of a prefix of a field list are no more than those of the list.
proof fn lemma_var_list_fields_prefix(v: Seq<(String, NovaType)>, k: int)
    requires
        0 <= k <= v.len(),
    ensures
        var_list_fields(model_fields(v.take(k))).len() <= var_list_fields(model_fields(v)).len(),
    decreases v.len() - k,
{
    if k < v.len() {
        lemma_var_list_fields_take(v, k);
        lemma_var_list_fields_prefix(v, k + 1);
    } else {
        assert(v.take(k) =~= v);
    }
}

/// Collects the variables of each type in turn.
fn collect_vars_all(v: &Vec<NovaType>, out: &mut Vec<TypeVar>)
    ensures
        ids(final(out)@) == add_new(ids(old(out)@), var_list_seq(model_seq(v@))),
    decreases v,
{
    let mut i: usize = 0;
    assert(v@.take(0) =~= Seq::<NovaType>::empty());
    while i < v.len()
        invariant
            i <= v@.len(),
            ids(out@) == add_new(ids(old(out)@), var_list_seq(model_seq(v@.take(i as int)))),
        decreases v@.len() - i,
    {
        proof {
            broadcast use vstd::std_specs::vec::axiom_vec_decreases_to_view;
            lemma_var_list_seq_take(v@, i as int);
            lemma_add_new_concat(ids(old(out)@), var_list_seq(model_seq(v@.take(i as int))), var_list(v@[i as int].model()));
        }
        v[i].collect_vars(out);
        i = i + 1;
    }
    assert(v@.take(v@.len() as int) =~= v@);
}

/// Collects the variables of each field's type in turn.
fn collect_vars_fields(v: &Vec<(String, NovaType)>, out: &mut Vec<TypeVar>)
    ensures
        ids(final(out)@) == add_new(ids(old(out)@), var_list_fields(model_fields(v@))),
    decreases v,
{
    let mut i: usize = 0;
    assert(v@.take(0) =~= Seq::<(String, NovaType)>::empty());
    while i < v.len()
        invariant
            i <= v@.len(),
            ids(out@) == add_new(ids(old(out)@), var_list_fields(model_fields(v@.take(i as int)))),
        decreases v@.len() - i,
    {
        proof {
            broadcast use vstd::std_specs::vec::axiom_vec_decreases_to_view;
            lemma_var_list_fields_take(v@, i as int);
            lemma_add_new_concat(ids(old(out)@), var_list_fields(model_fields(v@.take(i as int))), var_list(v@[i as int].1.model()));
        }
        v[i].1.collect_vars(out);
        i = i + 1;
    }
    assert(v@.take(v@.len() as int) =~= v@);
}

// ── TypeVar, TypeScheme ───────────────────────────────────────────────────────

/// Fresh variables are unique: `fresh` hands out the counter and advances
/// it, and the counter never goes back, so a variable handed out by a later
/// call (at a counter no smaller than the one the first call left) differs
/// from the first.
pub proof fn lemma_fresh_distinct(first: TypeVar, counter_after_first: u32, later: TypeVar)
    requires
        counter_after_first == first.0 + 1,
        later.0 >= counter_after_first,
    ensures
        first != later,
{
}

/// Fresh variables over a run of calls: when each call of `fresh` hands out
/// the counter as it found it (`vs[k].0 == counters[k]`) and leaves it one
/// higher (`counters[k + 1] == counters[k] + 1`), as its contract says, all
/// the variables handed out are different.
pub proof fn lemma_fresh_run_distinct(vs: Seq<TypeVar>, counters: Seq<u32>)
    requires
        counters.len() == vs.len() + 1,
        forall|k: int| 0 <= k < vs.len() ==> (#[trigger] vs[k]).0 == counters[k],
        forall|k: int| 0 <= k < vs.len() ==> #[trigger] counters[k + 1] == counters[k] + 1,
    ensures
        forall|i: int, j: int| 0 <= i < j < vs.len() ==> vs[i] != vs[j],
{
    assert forall|i: int, j: int| 0 <= i <= j < counters.len() implies counters[j] == counters[i] + (j - i) by {
        lemma_counter_steps(counters, i, j);
    }
    assert forall|i: int, j: int| 0 <= i < j < vs.len() implies vs[i] != vs[j] by {
        assert(counters[j] == counters[i] + (j - i));
        assert(vs[i].0 == counters[i] && vs[j].0 == counters[j]);
    }
}

/// A counter advanced by one at each step is `j - i` higher after the steps
/// from `i` to `j`.
proof fn lemma_counter_steps(counters: Seq<u32>, i: int, j: int)
    requires
        0 <= i <= j < counters.len(),
        forall|k: int| 0 <= k < counters.len() - 1 ==> #[trigger] counters[k + 1] == counters[k] + 1,
    ensures
        counters[j] == counters[i] + (j - i),
    decreases j - i,
{
    if i < j {
        lemma_counter_steps(counters, i, j - 1);
        assert(counters[(j - 1) + 1] == counters[j - 1] + 1);
    }
}

impl TypeVar {
    /// A fresh type variable: the current value of the counter, which is then
    /// advanced, so no two calls on the same counter give the same variable.
    pub fn fresh(counter: &mut u32) -> (r: Self)
        requires
            *old(counter) < u32::MAX,
        ensures
            r.0 == *old(counter),
            *final(counter) == *old(counter) + 1,
    {
        let v = *counter;
        *counter = v + 1;
        TypeVar(v)
    }
}

/// A polymorphic type scheme: ∀ quantified. body
#[derive(Debug)]
pub struct TypeScheme {
    /// Universally quantified type variables.
    pub quantified: Vec<TypeVar>,
    /// The body type (may contain `quantified` variables).
    pub body: NovaType,
}

impl TypeScheme {
    /// A monomorphic scheme: no quantified variables.
    pub fn mono(t: NovaType) -> (r: Self)
        ensures
            r.quantified@.len() == 0,
            r.body.model() == t.model(),
    {
        TypeScheme { quantified: Vec::new(), body: t }
    }
}

// ── Deep copy and equality ───────────────────────────────────────────────────

impl TensorShape {
    /// A copy of this shape.
    pub fn duplicate(&self) -> (r: TensorShape)
        ensures
            r.model() == self.model(),
    {
        match self {
            TensorShape::Known(v) => TensorShape::Known(v.clone()),
            TensorShape::Symbolic(v) => {
                let mut w: Vec<String> = Vec::new();
                let mut i: usize = 0;
                while i < v.len()
                    invariant
                        i <= v@.len(),
                        w@.len() == i,
                        forall|j: int| 0 <= j < i ==> #[trigger] w@[j]@ == v@[j]@,
                    decreases v@.len() - i,
                {
                    w.push(v[i].clone());
                    i = i + 1;
                }
                assert(string_views(w@) =~= string_views(v@));
                TensorShape::Symbolic(w)
            }
            TensorShape::Rank(r) => TensorShape::Rank(*r),
            TensorShape::Unknown => TensorShape::Unknown,
        }
    }

    /// Structural equality of shapes.
    pub fn same(&self, other: &TensorShape) -> (r: bool)
        ensures
            r == (self.model() == other.model()),
    {
        match (self, other) {
            (TensorShape::Known(a), TensorShape::Known(b)) => usize_seq_eq(a, b),
            (TensorShape::Symbolic(a), TensorShape::Symbolic(b)) => {
                if a.len() != b.len() {
                    assert(string_views(a@).len() != string_views(b@).len());
                    return false;
                }
                let mut i: usize = 0;
                #[verifier::loop_isolation(false)]
                while i < a.len()
                    invariant
                        a@.len() == b@.len(),
                        i <= a@.len(),
                        forall|j: int| 0 <= j < i ==> #[trigger] a@[j]@ == b@[j]@,
                    decreases a@.len() - i,
                {
                    if a[i] != b[i] {
                        assert(string_views(a@)[i as int] != string_views(b@)[i as int]);
                        return false;
                    }
                    i = i + 1;
                }
                assert(string_views(a@) =~= string_views(b@));
                true
            }
            (TensorShape::Rank(a), TensorShape::Rank(b)) => *a == *b,
            (TensorShape::Unknown, TensorShape::Unknown) => true,
            _ => false,
        }
    }
}

/// Element-wise equality of two lists of sizes.
pub fn usize_seq_eq(a: &Vec<usize>, b: &Vec<usize>) -> (r: bool)
    ensures
        r == (a@ == b@),
{
    if a.len() != b.len() {
        return false;
    }
    let mut i: usize = 0;
    while i < a.len()
        invariant
            a@.len() == b@.len(),
            i <= a@.len(),
            forall|j: int| 0 <= j < i ==> a@[j] == b@[j],
        decreases a@.len() - i,
    {
        if a[i] != b[i] {
            return false;
        }
        i = i + 1;
    }
    assert(a@ =~= b@);
    true
}

impl NovaType {
    /// A deep copy of this type.
    pub fn duplicate(&self) -> (r: NovaType)
        ensures
            r.model() == self.model(),
        decreases self,
    {
        match self {
            NovaType::Var(v) => NovaType::Var(*v),
            NovaType::Int => NovaType::Int,
            NovaType::Float => NovaType::Float,
            NovaType::UnitFloat { dim, unit_str } => NovaType::UnitFloat { dim: *dim, unit_str: unit_str.clone() },
            NovaType::Bool => NovaType::Bool,
            NovaType::Str => NovaType::Str,
            NovaType::Char => NovaType::Char,
            NovaType::Void => NovaType::Void,
            NovaType::Never => NovaType::Never,
            NovaType::Tensor { elem, shape } => NovaType::Tensor {
                elem: Box::new((**elem).duplicate()),
                shape: shape.duplicate(),
            },
            NovaType::Array(t) => NovaType::Array(Box::new((**t).duplicate())),
            NovaType::Wave(t) => NovaType::Wave(Box::new((**t).duplicate())),
            NovaType::Option(t) => NovaType::Option(Box::new((**t).duplicate())),
            NovaType::Result(t, e) => NovaType::Result(Box::new((**t).duplicate()), Box::new((**e).duplicate())),
            NovaType::Function(ft) => NovaType::Function(FunctionType {
                params: duplicate_all(&ft.params),
                ret: Box::new((*ft.ret).duplicate()),
                parallel: ft.parallel,
            }),
            NovaType::Named { name, type_args } => NovaType::Named {
                name: name.clone(),
                type_args: duplicate_all(type_args),
            },
            NovaType::Tuple(ts) => NovaType::Tuple(duplicate_all(ts)),
            NovaType::Row { fields } => NovaType::Row { fields: duplicate_fields(fields) },
        }
    }

    /// Structural equality of types.
    pub fn same(&self, other: &NovaType) -> (r: bool)
        ensures
            r == (self.model() == other.model()),
        decreases self,
    {
        match (self, other) {
            (NovaType::Var(a), NovaType::Var(b)) => a.0 == b.0,
            (NovaType::Int, NovaType::Int) => true,
            (NovaType::Float, NovaType::Float) => true,
            (NovaType::UnitFloat { dim: d1, unit_str: u1 }, NovaType::UnitFloat { dim: d2, unit_str: u2 }) =>
                *d1 == *d2 && *u1 == *u2,
            (NovaType::Bool, NovaType::Bool) => true,
            (NovaType::Str, NovaType::Str) => true,
            (NovaType::Char, NovaType::Char) => true,
            (NovaType::Void, NovaType::Void) => true,
            (NovaType::Never, NovaType::Never) => true,
            (NovaType::Tensor { elem: e1, shape: s1 }, NovaType::Tensor { elem: e2, shape: s2 }) =>
                (**e1).same(&**e2) && s1.same(s2),
            (NovaType::Array(a), NovaType::Array(b)) => (**a).same(&**b),
            (NovaType::Wave(a), NovaType::Wave(b)) => (**a).same(&**b),
            (NovaType::Option(a), NovaType::Option(b)) => (**a).same(&**b),
            (NovaType::Result(a1, b1), NovaType::Result(a2, b2)) => (**a1).same(&**a2) && (**b1).same(&**b2),
            (NovaType::Function(f1), NovaType::Function(f2)) =>
                f1.parallel == f2.parallel && same_all(&f1.params, &f2.params) && (*f1.ret).same(&*f2.ret),
            (NovaType::Named { name: n1, type_args: a1 }, NovaType::Named { name: n2, type_args: a2 }) =>
                *n1 == *n2 && same_all(a1, a2),
            (NovaType::Tuple(a), NovaType::Tuple(b)) => same_all(a, b),
            (NovaType::Row { fields: a }, NovaType::Row { fields: b }) => same_fields(a, b),
            _ => false,
        }
    }
}

/// Deep copies of a list of types.
pub fn duplicate_all(v: &Vec<NovaType>) -> (r: Vec<NovaType>)
    ensures
        model_seq(r@) == model_seq(v@),
    decreases v,
{
    let mut w: Vec<NovaType> = Vec::new();
    let mut i: usize = 0;
    while i < v.len()
        invariant
            i <= v@.len(),
            model_seq(w@) == model_seq(v@.take(i as int)),
        decreases v@.len() - i,
    {
        assert(v@.take(i + 1).drop_last() =~= v@.take(i as int));
        proof { broadcast use vstd::std_specs::vec::axiom_vec_decreases_to_view; }
        let t = v[i].duplicate();
        let ghost before = w@;
        w.push(t);
        assert(w@.drop_last() =~= before);
        i = i + 1;
    }
    assert(v@.take(v@.len() as int) =~= v@);
    w
}

/// Deep copies of a list of named fields.
pub fn duplicate_fields(v: &Vec<(String, NovaType)>) -> (r: Vec<(String, NovaType)>)
    ensures
        model_fields(r@) == model_fields(v@),
    decreases v,
{
    let mut w: Vec<(String, NovaType)> = Vec::new();
    let mut i: usize = 0;
    while i < v.len()
        invariant
            i <= v@.len(),
            model_fields(w@) == model_fields(v@.take(i as int)),
        decreases v@.len() - i,
    {
        assert(v@.take(i + 1).drop_last() =~= v@.take(i as int));
        proof { broadcast use vstd::std_specs::vec::axiom_vec_decreases_to_view; }
        let n = v[i].0.clone();
        let t = v[i].1.duplicate();
        let ghost before = w@;
        w.push((n, t));
        assert(w@.drop_last() =~= before);
        i = i + 1;
    }
    assert(v@.take(v@.len() as int) =~= v@);
    w
}

/// Structural equality of two lists of types.
pub fn same_all(a: &Vec<NovaType>, b: &Vec<NovaType>) -> (r: bool)
    ensures
        r == (model_seq(a@) == model_seq(b@)),
    decreases a,
{
    proof { lemma_model_seq(a@); lemma_model_seq(b@); }
    if a.len() != b.len() {
        return false;
    }
    let mut i: usize = 0;
    while i < a.len()
        invariant
            a@.len() == b@.len(),
            i <= a@.len(),
            model_seq(a@).len() == a@.len(),
            model_seq(b@).len() == b@.len(),
            forall|j: int| 0 <= j < a@.len() ==> #[trigger] model_seq(a@)[j] == a@[j].model(),
            forall|j: int| 0 <= j < b@.len() ==> #[trigger] model_seq(b@)[j] == b@[j].model(),
            forall|j: int| 0 <= j < i ==> a@[j].model() == b@[j].model(),
        decreases a@.len() - i,
    {
        proof { broadcast use vstd::std_specs::vec::axiom_vec_decreases_to_view; }
        if !a[i].same(&b[i]) {
            assert(model_seq(a@)[i as int] != model_seq(b@)[i as int]);
            return false;
        }
        i = i + 1;
    }
    assert(model_seq(a@) =~= model_seq(b@));
    true
}

/// Structural equality of two lists of named fields.
pub fn same_fields(a: &Vec<(String, NovaType)>, b: &Vec<(String, NovaType)>) -> (r: bool)
    ensures
        r == (model_fields(a@) == model_fields(b@)),
    decreases a,
{
    proof { lemma_model_fields(a@); lemma_model_fields(b@); }
    if a.len() != b.len() {
        return false;
    }
    let mut i: usize = 0;
    while i < a.len()
        invariant
            a@.len() == b@.len(),
            i <= a@.len(),
            model_fields(a@).len() == a@.len(),
            model_fields(b@).len() == b@.len(),
            forall|j: int| 0 <= j < a@.len() ==> #[trigger] model_fields(a@)[j] == (a@[j].0@, a@[j].1.model()),
            forall|j: int| 0 <= j < b@.len() ==> #[trigger] model_fields(b@)[j] == (b@[j].0@, b@[j].1.model()),
            forall|j: int| 0 <= j < i ==> a@[j].0@ == b@[j].0@ && a@[j].1.model() == b@[j].1.model(),
        decreases a@.len() - i,
    {
        proof { broadcast use vstd::std_specs::vec::axiom_vec_decreases_to_view; }
        if a[i].0 != b[i].0 || !a[i].1.same(&b[i].1) {
            assert(model_fields(a@)[i as int] != model_fields(b@)[i as int]);
            return false;
        }
        i = i + 1;
    }
    assert(model_fields(a@) =~= model_fields(b@));
    true
}


impl Clone for NovaType {
    fn clone(&self) -> (r: Self)
        ensures
            r.model() == self.model(),
    {
        self.duplicate()
    }
}

impl PartialEq for NovaType {
    fn eq(&self, other: &NovaType) -> (r: bool) {
        self.same(other)
    }
}

impl vstd::std_specs::cmp::PartialEqSpecImpl for NovaType {
    open spec fn obeys_eq_spec() -> bool {
        false
    }

    open spec fn eq_spec(&self, other: &NovaType) -> bool {
        self.model() == other.model()
    }
}

impl Clone for FunctionType {
    fn clone(&self) -> (r: Self)
        ensures
            model_seq(r.params@) == model_seq(self.params@),
            r.ret.model() == self.ret.model(),
            r.parallel == self.parallel,
    {
        FunctionType { params: duplicate_all(&self.params), ret: Box::new((*self.ret).duplicate()), parallel: self.parallel }
    }
}

impl PartialEq for FunctionType {
    fn eq(&self, other: &FunctionType) -> (r: bool) {
        self.parallel == other.parallel && same_all(&self.params, &other.params) && (*self.ret).same(&*other.ret)
    }
}

impl vstd::std_specs::cmp::PartialEqSpecImpl for FunctionType {
    open spec fn obeys_eq_spec() -> bool {
        false
    }

    open spec fn eq_spec(&self, other: &FunctionType) -> bool {
        self.parallel == other.parallel && model_seq(self.params@) == model_seq(other.params@)
            && self.ret.model() == other.ret.model()
    }
}

} // verus!
