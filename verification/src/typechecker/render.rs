//! How types are written in messages: `Float[m/s]`, `Tensor[Float, rank=2]`,
//! `(Float, Float) -> Float`, `Result[Int, Str]` and so on.

use vstd::prelude::*;
use crate::text::{decimal, decimals, join, lemma_join_push, push_char, push_decimal, push_str, push_decimals_joined};
use crate::typechecker::types::{
    NovaType, TensorShape, TypeVar, Ty, ShapeModel, model_seq, model_fields, string_views,
    lemma_model_seq, lemma_model_fields,
};

verus! {

/// `", "`
pub open spec fn comma() -> Seq<char> {
    seq![',', ' ']
}

/// The text of a type variable: `τ` and its number.
pub open spec fn var_text(v: u32) -> Seq<char> {
    seq!['τ'] + decimal(v as nat)
}

/// The text of a tensor shape.
pub open spec fn shape_text(s: ShapeModel) -> Seq<char> {
    match s {
        ShapeModel::Known(d) => seq!['('] + join(decimals(d), comma()) + seq![')'],
        ShapeModel::Symbolic(n) => seq!['('] + join(n, comma()) + seq![')'],
        ShapeModel::Rank(r) => seq!['r', 'a', 'n', 'k', '='] + decimal(r),
        ShapeModel::Unknown => seq!['?'],
    }
}

/// The text of a type.
pub open spec fn ty_text(t: Ty) -> Seq<char>
    decreases t,
{
    match t {
        Ty::Var(v) => var_text(v),
        Ty::Int => seq!['I', 'n', 't'],
        Ty::Float => seq!['F', 'l', 'o', 'a', 't'],
        Ty::UnitFloat { unit, .. } => seq!['F', 'l', 'o', 'a', 't', '['] + unit + seq![']'],
        Ty::Bool => seq!['B', 'o', 'o', 'l'],
        Ty::Str => seq!['S', 't', 'r'],
        Ty::Char => seq!['C', 'h', 'a', 'r'],
        Ty::Void => seq!['V', 'o', 'i', 'd'],
        Ty::Never => seq!['N', 'e', 'v', 'e', 'r'],
        Ty::Tensor { elem, shape } =>
            seq!['T', 'e', 'n', 's', 'o', 'r', '['] + ty_text(*elem) + comma() + shape_text(shape) + seq![']'],
        Ty::Array(a) => seq!['A', 'r', 'r', 'a', 'y', '['] + ty_text(*a) + seq![']'],
        Ty::Wave(a) => seq!['W', 'a', 'v', 'e', '['] + ty_text(*a) + seq![']'],
        Ty::Opt(a) => seq!['O', 'p', 't', 'i', 'o', 'n', '['] + ty_text(*a) + seq![']'],
        Ty::Res(a, b) =>
            seq!['R', 'e', 's', 'u', 'l', 't', '['] + ty_text(*a) + comma() + ty_text(*b) + seq![']'],
        Ty::Function { params, ret, .. } =>
            seq!['('] + join(texts(params), comma()) + seq![')', ' ', '-', '>', ' '] + ty_text(*ret),
        Ty::Named { name, args } =>
            if args.len() == 0 { name } else { name + seq!['['] + join(texts(args), comma()) + seq![']'] },
        Ty::Tuple(ts) => seq!['('] + join(texts(ts), comma()) + seq![')'],
        Ty::Row(fs) => seq!['{', ' '] + join(field_texts(fs), comma()) + seq![' ', '}'],
    }
}

/// The texts of a list of types.
pub open spec fn texts(s: Seq<Ty>) -> Seq<Seq<char>>
    decreases s,
{
    if s.len() == 0 {
        Seq::empty()
    } else {
        texts(s.drop_last()).push(ty_text(s.last()))
    }
}

/// The texts `name: type` of a list of named fields.
pub open spec fn field_texts(s: Seq<(Seq<char>, Ty)>) -> Seq<Seq<char>>
    decreases s,
{
    if s.len() == 0 {
        Seq::empty()
    } else {
        field_texts(s.drop_last()).push(s.last().0 + seq![':', ' '] + ty_text(s.last().1))
    }
}

/// One text per type.
pub proof fn lemma_texts_len(s: Seq<Ty>)
    ensures
        texts(s).len() == s.len(),
    decreases s.len(),
{
    if s.len() > 0 {
        lemma_texts_len(s.drop_last());
    }
}

/// One text per field.
pub proof fn lemma_field_texts_len(s: Seq<(Seq<char>, Ty)>)
    ensures
        field_texts(s).len() == s.len(),
    decreases s.len(),
{
    if s.len() > 0 {
        lemma_field_texts_len(s.drop_last());
    }
}

impl TypeVar {
    /// The text of this variable, such as `τ3`.
    pub fn to_text(&self) -> (r: String)
        ensures
            r@ == var_text(self.0),
    {
        let mut s = String::new();
        push_char(&mut s, 'τ');
        push_decimal(&mut s, self.0 as u64);
        assert(s@ =~= var_text(self.0));
        s
    }
}

impl TensorShape {
    /// Appends the text of this shape.
    pub fn push_text(&self, s: &mut String)
        ensures
            final(s)@ == old(s)@ + shape_text(self.model()),
    {
        match self {
            TensorShape::Known(d) => {
                push_char(s, '(');
                push_decimals_joined(s, d.as_slice(), ", ");
                proof { reveal_strlit(", "); assert(", "@ =~= comma()); }
                push_char(s, ')');
                assert(s@ =~= old(s)@ + shape_text(self.model()));
            }
            TensorShape::Symbolic(names) => {
                push_char(s, '(');
                let mut i: usize = 0;
                while i < names.len()
                    invariant
                        i <= names@.len(),
                        s@ == old(s)@ + seq!['('] + join(string_views(names@.take(i as int)), comma()),
                    decreases names@.len() - i,
                {
                    let ghost before = s@;
                    if i > 0 {
                        push_str(s, ", ");
                        proof { reveal_strlit(", "); assert(", "@ =~= comma()); }
                    }
                    push_str(s, names[i].as_str());
                    proof {
                        let p = string_views(names@.take(i as int));
                        assert(string_views(names@.take(i + 1)) =~= p.push(names@[i as int]@));
                        lemma_join_push(p, comma(), names@[i as int]@);
                        assert(s@ =~= old(s)@ + seq!['('] + join(string_views(names@.take(i + 1)), comma()));
                    }
                    i = i + 1;
                }
                assert(names@.take(names@.len() as int) =~= names@);
                push_char(s, ')');
                assert(s@ =~= old(s)@ + shape_text(self.model()));
            }
            TensorShape::Rank(r) => {
                push_str(s, "rank=");
                proof { reveal_strlit("rank="); }
                push_decimal(s, *r as u64);
                assert(s@ =~= old(s)@ + shape_text(self.model()));
            }
            TensorShape::Unknown => {
                push_char(s, '?');
                assert(s@ =~= old(s)@ + shape_text(self.model()));
            }
        }
    }

    /// The text of this shape, such as `(2, 3)`, `rank=2` or `?`.
    pub fn to_text(&self) -> (r: String)
        ensures
            r@ == shape_text(self.model()),
    {
        let mut s = String::new();
        self.push_text(&mut s);
        assert(s@ =~= shape_text(self.model()));
        s
    }
}

impl NovaType {
    /// Appends the text of this type.
    pub fn push_text(&self, s: &mut String)
        ensures
            final(s)@ == old(s)@ + ty_text(self.model()),
        decreases self,
    {
        match self {
            NovaType::Var(v) => {
                push_char(s, 'τ');
                push_decimal(s, v.0 as u64);
            }
            NovaType::Int => { proof { reveal_strlit("Int"); }
                push_str(s, "Int"); }
            NovaType::Float => { proof { reveal_strlit("Float"); }
                push_str(s, "Float"); }
            NovaType::UnitFloat { unit_str, .. } => {
                proof { reveal_strlit("Float["); }
                push_str(s, "Float[");
                push_str(s, unit_str.as_str());
                push_char(s, ']');
            }
            NovaType::Bool => { proof { reveal_strlit("Bool"); }
                push_str(s, "Bool"); }
            NovaType::Str => { proof { reveal_strlit("Str"); }
                push_str(s, "Str"); }
            NovaType::Char => { proof { reveal_strlit("Char"); }
                push_str(s, "Char"); }
            NovaType::Void => { proof { reveal_strlit("Void"); }
                push_str(s, "Void"); }
            NovaType::Never => { proof { reveal_strlit("Never"); }
                push_str(s, "Never"); }
            NovaType::Tensor { elem, shape } => {
                proof { reveal_strlit("Tensor["); }
                push_str(s, "Tensor[");
                (**elem).push_text(s);
                proof { reveal_strlit(", "); assert(", "@ =~= comma()); }
                push_str(s, ", ");
                shape.push_text(s);
                push_char(s, ']');
            }
            NovaType::Array(a) => {
                proof { reveal_strlit("Array["); }
                push_str(s, "Array[");
                (**a).push_text(s);
                push_char(s, ']');
            }
            NovaType::Wave(a) => {
                proof { reveal_strlit("Wave["); }
                push_str(s, "Wave[");
                (**a).push_text(s);
                push_char(s, ']');
            }
            NovaType::Option(a) => {
                proof { reveal_strlit("Option["); }
                push_str(s, "Option[");
                (**a).push_text(s);
                push_char(s, ']');
            }
            NovaType::Result(a, b) => {
                proof { reveal_strlit("Result["); }
                push_str(s, "Result[");
                (**a).push_text(s);
                proof { reveal_strlit(", "); assert(", "@ =~= comma()); }
                push_str(s, ", ");
                (**b).push_text(s);
                push_char(s, ']');
            }
            NovaType::Function(ft) => {
                push_char(s, '(');
                push_texts_joined(s, &ft.params);
                proof { reveal_strlit(") -> "); }
                push_str(s, ") -> ");
                (*ft.ret).push_text(s);
            }
            NovaType::Named { name, type_args } => {
                push_str(s, name.as_str());
                if type_args.len() > 0 {
                    push_char(s, '[');
                    push_texts_joined(s, type_args);
                    push_char(s, ']');
                }
            }
            NovaType::Tuple(ts) => {
                push_char(s, '(');
                push_texts_joined(s, ts);
                push_char(s, ')');
            }
            NovaType::Row { fields } => {
                proof { reveal_strlit("{ "); }
                push_str(s, "{ ");
                push_field_texts_joined(s, fields);
                proof { reveal_strlit(" }"); }
                push_str(s, " }");
            }
        }
        assert(s@ =~= old(s)@ + ty_text(self.model()));
    }

    /// The text of this type, such as `Tensor[Float[eV], rank=1]`.
    pub fn to_text(&self) -> (r: String)
        ensures
            r@ == ty_text(self.model()),
    {
        let mut s = String::new();
        self.push_text(&mut s);
        assert(s@ =~= ty_text(self.model()));
        s
    }
}

/// Appends the texts of the types, separated by `", "`.
fn push_texts_joined(s: &mut String, v: &Vec<NovaType>)
    ensures
        final(s)@ == old(s)@ + join(texts(model_seq(v@)), comma()),
    decreases v,
{
    let mut i: usize = 0;
    while i < v.len()
        invariant
            i <= v@.len(),
            s@ == old(s)@ + join(texts(model_seq(v@.take(i as int))), comma()),
        decreases v@.len() - i,
    {
        proof { broadcast use vstd::std_specs::vec::axiom_vec_decreases_to_view; }
        let ghost s0 = s@;
        if i > 0 {
            proof { reveal_strlit(", "); assert(", "@ =~= comma()); }
            push_str(s, ", ");
        }
        let ghost mid = s@;
        assert(mid == if i > 0 { s0 + comma() } else { s0 });
        v[i].push_text(s);
        assert(s@ == mid + ty_text(v@[i as int].model()));
        proof {
            let p = texts(model_seq(v@.take(i as int)));
            lemma_model_seq(v@.take(i as int));
            lemma_texts_len(model_seq(v@.take(i as int)));
            assert(v@.take(i + 1).drop_last() =~= v@.take(i as int));
            let ms = model_seq(v@.take(i as int));
            assert(model_seq(v@.take(i + 1)) == ms.push(v@[i as int].model()));
            assert(ms.push(v@[i as int].model()).drop_last() =~= ms);
            assert(texts(model_seq(v@.take(i + 1))) =~= p.push(ty_text(v@[i as int].model())));
            lemma_join_push(p, comma(), ty_text(v@[i as int].model()));
            assert(s@ =~= old(s)@ + join(texts(model_seq(v@.take(i + 1))), comma()));
        }
        i = i + 1;
    }
    assert(v@.take(v@.len() as int) =~= v@);
}

/// Appends the texts `name: type` of the fields, separated by `", "`.
fn push_field_texts_joined(s: &mut String, v: &Vec<(String, NovaType)>)
    ensures
        final(s)@ == old(s)@ + join(field_texts(model_fields(v@)), comma()),
    decreases v,
{
    let mut i: usize = 0;
    while i < v.len()
        invariant
            i <= v@.len(),
            s@ == old(s)@ + join(field_texts(model_fields(v@.take(i as int))), comma()),
        decreases v@.len() - i,
    {
        proof { broadcast use vstd::std_specs::vec::axiom_vec_decreases_to_view; }
        let ghost before = s@;
        if i > 0 {
            proof { reveal_strlit(", "); assert(", "@ =~= comma()); }
                push_str(s, ", ");
        }
        let ghost mid = s@;
        push_str(s, v[i].0.as_str());
        proof { reveal_strlit(": "); assert(": "@ =~= seq![':', ' ']); }
                push_str(s, ": ");
        v[i].1.push_text(s);
        proof {
            let p = field_texts(model_fields(v@.take(i as int)));
            lemma_model_fields(v@.take(i as int));
            lemma_field_texts_len(model_fields(v@.take(i as int)));
            let f = v@[i as int].0@ + seq![':', ' '] + ty_text(v@[i as int].1.model());
            assert(v@.take(i + 1).drop_last() =~= v@.take(i as int));
            let ms = model_fields(v@.take(i as int));
            let fm = (v@[i as int].0@, v@[i as int].1.model());
            assert(model_fields(v@.take(i + 1)) == ms.push(fm));
            assert(ms.push(fm).drop_last() =~= ms);
            assert(field_texts(model_fields(v@.take(i + 1))) =~= p.push(f));
            lemma_join_push(p, comma(), f);
            assert(s@ =~= mid + f);
            assert(s@ =~= old(s)@ + join(field_texts(model_fields(v@.take(i + 1))), comma()));
        }
        i = i + 1;
    }
    assert(v@.take(v@.len() as int) =~= v@);
}

} // verus!
