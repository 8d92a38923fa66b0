//! The one-line summaries of a parsed program's declarations that the
//! compiler's command line prints, with return types in their debug text.

use vstd::prelude::*;
use crate::frontend::ast::{TopLevelItem, TypeExpr, UnitExpr};
use crate::frontend::parser::{debug_str, push_debug_str};
use crate::text::{decimal, decimals, join, lemma_join_push, push_decimal, push_decimals_joined, push_str};

verus! {

/// The debug text of a type expression, as `derive(Debug)` writes it.
pub open spec fn type_debug(t: TypeExpr) -> Seq<char>
    decreases t,
{
    match t {
        TypeExpr::Named(n) => "Named("@ + debug_str(n@) + ")"@,
        TypeExpr::Float(None) => "Float(None)"@,
        TypeExpr::Float(Some(u)) => "Float(Some(UnitExpr("@ + debug_str(u.0@) + ")))"@,
        TypeExpr::Int => "Int"@,
        TypeExpr::Bool => "Bool"@,
        TypeExpr::String => "String"@,
        TypeExpr::Tensor { element_type, shape } => "Tensor { element_type: "@ + type_debug(*element_type)
            + ", shape: ["@ + join(decimals(shape@), ", "@) + "] }"@,
        TypeExpr::Array(x) => "Array("@ + type_debug(*x) + ")"@,
        TypeExpr::Option(x) => "Option("@ + type_debug(*x) + ")"@,
        TypeExpr::Result(a, b) => "Result("@ + type_debug(*a) + ", "@ + type_debug(*b) + ")"@,
        TypeExpr::Wave(x) => "Wave("@ + type_debug(*x) + ")"@,
        TypeExpr::Function { params, return_type } => "Function { params: ["@ + join(types_debug(params@), ", "@)
            + "], return_type: "@ + type_debug(*return_type) + " }"@,
    }
}

/// The debug texts of a list of type expressions.
pub open spec fn types_debug(s: Seq<TypeExpr>) -> Seq<Seq<char>>
    decreases s,
{
    if s.len() == 0 {
        Seq::empty()
    } else {
        types_debug(s.drop_last()).push(type_debug(s.last()))
    }
}

/// The debug text of an optional type expression.
pub open spec fn opt_type_debug(t: Option<TypeExpr>) -> Seq<char> {
    match t {
        Some(x) => "Some("@ + type_debug(x) + ")"@,
        None => "None"@,
    }
}

/// The summary line of the `i`-th declaration of a program.
pub open spec fn item_line(i: nat, item: TopLevelItem) -> Seq<char> {
    let head = "  ["@ + decimal(i) + "] "@;
    match item {
        TopLevelItem::MissionDecl(m) => head + "mission "@ + m.name@ + " : "@ + opt_type_debug(m.return_type),
        TopLevelItem::ParallelMissionDecl(m) => head + "parallel mission "@ + m.name@ + " : "@
            + opt_type_debug(m.return_type),
        TopLevelItem::ConstellationDecl(c) => head + "constellation "@ + c.name@,
        TopLevelItem::ModelDecl(m) => head + "model "@ + m.name@ + " ("@ + decimal(m.layers@.len()) + " layers)"@,
        TopLevelItem::StructDecl(s) => head + "struct "@ + s.name@ + " ("@ + decimal(s.fields@.len()) + " fields)"@,
        TopLevelItem::EnumDecl(e) => head + "enum "@ + e.name@ + " ("@ + decimal(e.variants@.len()) + " variants)"@,
        TopLevelItem::UnitDecl(u) => head + "unit "@ + u.name@,
        TopLevelItem::TestMission(m) => head + "test mission "@ + m.name@,
    }
}

/// Appends the debug text of a type expression.
pub fn push_type_debug(s: &mut String, t: &TypeExpr)
    ensures
        final(s)@ == old(s)@ + type_debug(*t),
    decreases t,
{
    let ghost s0 = s@;
    match t {
        TypeExpr::Named(n) => {
            push_str(s, "Named(");
            push_debug_str(s, n);
            push_str(s, ")");
        },
        TypeExpr::Float(None) => push_str(s, "Float(None)"),
        TypeExpr::Float(Some(u)) => {
            push_str(s, "Float(Some(UnitExpr(");
            push_debug_str(s, &u.0);
            push_str(s, ")))");
        },
        TypeExpr::Int => push_str(s, "Int"),
        TypeExpr::Bool => push_str(s, "Bool"),
        TypeExpr::String => push_str(s, "String"),
        TypeExpr::Tensor { element_type, shape } => {
            push_str(s, "Tensor { element_type: ");
            push_type_debug(s, element_type);
            push_str(s, ", shape: [");
            push_decimals_joined(s, shape.as_slice(), ", ");
            push_str(s, "] }");
        },
        TypeExpr::Array(x) => {
            push_str(s, "Array(");
            push_type_debug(s, x);
            push_str(s, ")");
        },
        TypeExpr::Option(x) => {
            push_str(s, "Option(");
            push_type_debug(s, x);
            push_str(s, ")");
        },
        TypeExpr::Result(a, b) => {
            push_str(s, "Result(");
            push_type_debug(s, a);
            push_str(s, ", ");
            push_type_debug(s, b);
            push_str(s, ")");
        },
        TypeExpr::Wave(x) => {
            push_str(s, "Wave(");
            push_type_debug(s, x);
            push_str(s, ")");
        },
        TypeExpr::Function { params, return_type } => {
            push_str(s, "Function { params: [");
            let ghost s1 = s@;
            let mut i: usize = 0;
            while i < params.len()
                invariant
                    *t is Function,
                    (*t)->params == *params,
                    i <= params@.len(),
                    s@ == s1 + join(types_debug(params@.take(i as int)), ", "@),
                decreases params@.len() - i,
            {
                let ghost before = s@;
                if i > 0 {
                    push_str(s, ", ");
                }
                proof {
                    assert(decreases_to!(*t => (*t)->params));
                    assert(decreases_to!((*t)->params => (*t)->params@));
                    assert(0 <= i < (*t)->params@.len());
                    assert(decreases_to!((*t)->params@ => (*t)->params@[i as int]));
                    assert(decreases_to!(*t => params@[i as int]));
                }
                push_type_debug(s, &params[i]);
                proof {
                    let d = types_debug(params@.take(i as int));
                    assert(params@.take(i + 1).drop_last() =~= params@.take(i as int));
                    assert(types_debug(params@.take(i + 1)) =~= d.push(type_debug(params@[i as int])));
                    lemma_join_push(d, ", "@, type_debug(params@[i as int]));
                }
                i = i + 1;
            }
            assert(params@.take(params@.len() as int) =~= params@);
            push_str(s, "], return_type: ");
            push_type_debug(s, return_type);
            push_str(s, " }");
        },
    }
    assert(s@ =~= s0 + type_debug(*t));
}

/// The summary line of the `index`-th declaration of a program: its kind,
/// its name, and its return type, layer, field or variant count.
pub fn item_summary(index: usize, item: &TopLevelItem) -> (r: String)
    ensures
        r@ == item_line(index as nat, *item),
{
    let mut s = String::new();
    push_str(&mut s, "  [");
    push_decimal(&mut s, index as u64);
    push_str(&mut s, "] ");
    let ghost head = s@;
    assert(head =~= "  ["@ + decimal(index as nat) + "] "@);
    match item {
        TopLevelItem::MissionDecl(m) | TopLevelItem::ParallelMissionDecl(m) => {
            if let TopLevelItem::ParallelMissionDecl(_) = item {
                push_str(&mut s, "parallel mission ");
            } else {
                push_str(&mut s, "mission ");
            }
            push_str(&mut s, m.name.as_str());
            push_str(&mut s, " : ");
            match &m.return_type {
                Some(t) => {
                    push_str(&mut s, "Some(");
                    push_type_debug(&mut s, t);
                    push_str(&mut s, ")");
                },
                None => push_str(&mut s, "None"),
            }
        },
        TopLevelItem::ConstellationDecl(c) => {
            push_str(&mut s, "constellation ");
            push_str(&mut s, c.name.as_str());
        },
        TopLevelItem::ModelDecl(m) => {
            push_str(&mut s, "model ");
            push_str(&mut s, m.name.as_str());
            push_str(&mut s, " (");
            push_decimal(&mut s, m.layers.len() as u64);
            push_str(&mut s, " layers)");
        },
        TopLevelItem::StructDecl(d) => {
            push_str(&mut s, "struct ");
            push_str(&mut s, d.name.as_str());
            push_str(&mut s, " (");
            push_decimal(&mut s, d.fields.len() as u64);
            push_str(&mut s, " fields)");
        },
        TopLevelItem::EnumDecl(e) => {
            push_str(&mut s, "enum ");
            push_str(&mut s, e.name.as_str());
            push_str(&mut s, " (");
            push_decimal(&mut s, e.variants.len() as u64);
            push_str(&mut s, " variants)");
        },
        TopLevelItem::UnitDecl(u) => {
            push_str(&mut s, "unit ");
            push_str(&mut s, u.name.as_str());
        },
        TopLevelItem::TestMission(m) => {
            push_str(&mut s, "test mission ");
            push_str(&mut s, m.name.as_str());
        },
    }
    assert(s@ =~= item_line(index as nat, *item));
    s
}

} // verus!
