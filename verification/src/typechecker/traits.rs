//! Trait bounds: "type T must implement trait X".
//!
//! A `TraitRegistry` holds the trait definitions and which types implement
//! which traits. Numeric types satisfy the arithmetic traits, every type
//! satisfies `Display`, and floats (with or without a unit) satisfy
//! `Transcendental`; anything else must be registered.

use vstd::prelude::*;
use crate::text::{push_str, str_to_string};
use crate::typechecker::render::ty_text;
use crate::typechecker::types::{NovaType, Ty, string_views};

verus! {

/// A single trait bound: "T : TraitName".
#[derive(Debug, Clone, PartialEq, Eq, Hash)]
pub struct TraitBound {
    pub trait_name: String,
}

impl TraitBound {
    /// A bound on the named trait.
    pub fn new(name: &str) -> (r: Self)
        ensures
            r.trait_name@ == name@,
    {
        TraitBound { trait_name: str_to_string(name) }
    }
}

/// A trait definition: its name and the names of its methods.
#[derive(Debug, Clone)]
pub struct TraitDef {
    pub name: String,
    pub methods: Vec<String>,
}

/// A type that fails a trait bound.
#[derive(Debug, Clone)]
pub struct BoundError {
    pub ty_name: String,
    pub trait_name: String,
    pub message: String,
    pub line: u32,
    pub col: u32,
}

impl BoundError {
    /// The error as printed: `line:col: message`.
    pub fn to_text(&self) -> (r: String)
        ensures
            r@ == crate::text::decimal(self.line as nat) + seq![':'] + crate::text::decimal(self.col as nat)
                + ": "@ + self.message@,
    {
        let mut s = String::new();
        crate::text::push_decimal(&mut s, self.line as u64);
        crate::text::push_char(&mut s, ':');
        crate::text::push_decimal(&mut s, self.col as u64);
        push_str(&mut s, ": ");
        push_str(&mut s, self.message.as_str());
        s
    }
}

/// Trait definitions, and which types implement which traits.
#[derive(Debug)]
pub struct TraitRegistry {
    /// Definitions in the order given; a later one replaces an earlier one of the same name.
    traits: Vec<TraitDef>,
    /// Pairs (type name, trait name): the type implements the trait.
    impls: Vec<(String, String)>,
}

/// Trait name to method names, the later definition of a name winning.
pub open spec fn defs_map(v: Seq<TraitDef>) -> Map<Seq<char>, Seq<Seq<char>>>
    decreases v.len(),
{
    if v.len() == 0 {
        Map::empty()
    } else {
        defs_map(v.drop_last()).insert(v.last().name@, string_views(v.last().methods@))
    }
}

/// The (type, trait) pairs of a list.
pub open spec fn pair_set(v: Seq<(String, String)>) -> Set<(Seq<char>, Seq<char>)> {
    Set::new(|p: (Seq<char>, Seq<char>)| exists|i: int| 0 <= i < v.len() && #[trigger] v[i].0@ == p.0 && v[i].1@ == p.1)
}

/// The traits every registry starts with, and their methods.
pub open spec fn builtin_traits() -> Map<Seq<char>, Seq<Seq<char>>> {
    map![
        "Numeric"@ => seq!["zero"@, "one"@],
        "Display"@ => seq!["display"@],
        "Add"@ => seq!["add"@],
        "Sub"@ => seq!["sub"@],
        "Mul"@ => seq!["mul"@],
        "Div"@ => seq!["div"@],
        "Neg"@ => seq!["neg"@],
        "Transcendental"@ => seq!["ln"@, "exp"@, "sqrt"@, "sin"@, "cos"@],
        "Measurable"@ => seq!["measure"@],
        "Displayable"@ => seq!["display"@, "display_with_unit"@],
        "Optimiser"@ => seq!["step"@, "reset"@]
    ]
}

/// The implementations every registry starts with: `Int` and `Float` are
/// numeric and displayable, `Float` is transcendental, `Str` and `Bool` are displayable.
pub open spec fn builtin_impls() -> Set<(Seq<char>, Seq<char>)> {
    set![
        ("Int"@, "Numeric"@), ("Int"@, "Add"@), ("Int"@, "Sub"@), ("Int"@, "Mul"@),
        ("Int"@, "Div"@), ("Int"@, "Neg"@), ("Int"@, "Display"@),
        ("Float"@, "Numeric"@), ("Float"@, "Add"@), ("Float"@, "Sub"@), ("Float"@, "Mul"@),
        ("Float"@, "Div"@), ("Float"@, "Neg"@), ("Float"@, "Display"@),
        ("Float"@, "Transcendental"@), ("Str"@, "Display"@), ("Bool"@, "Display"@)
    ]
}

/// The name a type is registered under.
pub open spec fn type_name_of(t: Ty) -> Seq<char> {
    match t {
        Ty::Int => "Int"@,
        Ty::Float => "Float"@,
        Ty::UnitFloat { .. } => "Float"@,
        Ty::Bool => "Bool"@,
        Ty::Str => "Str"@,
        Ty::Char => "Char"@,
        Ty::Tensor { .. } => "Tensor"@,
        Ty::Array(_) => "Array"@,
        Ty::Named { name, .. } => name,
        _ => "<unknown>"@,
    }
}

/// `Int`, `Float` and `Float[unit]`.
pub open spec fn is_numeric_ty(t: Ty) -> bool {
    t is Int || t is Float || t is UnitFloat
}

/// The bounds a type meets whatever is registered.
pub open spec fn builtin_satisfies(t: Ty, tr: Seq<char>) -> bool {
    ||| tr == "Numeric"@ && is_numeric_ty(t)
    ||| tr == "Display"@
    ||| (tr == "Add"@ || tr == "Sub"@ || tr == "Mul"@ || tr == "Div"@ || tr == "Neg"@) && is_numeric_ty(t)
    ||| tr == "Transcendental"@ && (t is Float || t is UnitFloat)
}

/// A type meets a bound by the built-in rules or by a registered implementation.
pub open spec fn satisfies(impls: Set<(Seq<char>, Seq<char>)>, t: Ty, tr: Seq<char>) -> bool {
    builtin_satisfies(t, tr) || impls.contains((type_name_of(t), tr))
}

/// The message for a type that does not meet a bound.
pub open spec fn bound_message(t: Ty, tr: Seq<char>) -> Seq<char> {
    "type `"@ + ty_text(t) + "` does not implement trait `"@ + tr + "`\n  hint: add `impl "@ + tr + " for "@
        + ty_text(t) + "` or derive it"@
}

/// Whether the string holds the characters of the literal.
fn is_text(s: &String, lit: &str) -> (r: bool)
    ensures
        r == (s@ == lit@),
{
    let t = str_to_string(lit);
    *s == t
}

impl TraitRegistry {
    /// Trait name to method names.
    pub closed spec fn trait_defs(&self) -> Map<Seq<char>, Seq<Seq<char>>> {
        defs_map(self.traits@)
    }

    /// The registered (type name, trait name) implementations.
    pub closed spec fn impl_pairs(&self) -> Set<(Seq<char>, Seq<char>)> {
        pair_set(self.impls@)
    }

    /// A registry holding the built-in traits and implementations.
    pub fn new() -> (r: Self)
        ensures
            r.trait_defs() == builtin_traits(),
            r.impl_pairs() == builtin_impls(),
    {
        let mut r = TraitRegistry { traits: Vec::new(), impls: Vec::new() };
        assert(r.impl_pairs() =~= Set::empty());
        assert(r.trait_defs() =~= Map::empty());
        r.register_builtins();
        r
    }

    /// Registers a trait definition, replacing one of the same name.
    pub fn define_trait(&mut self, def: TraitDef)
        ensures
            final(self).trait_defs() == old(self).trait_defs().insert(def.name@, string_views(def.methods@)),
            final(self).impl_pairs() == old(self).impl_pairs(),
    {
        let ghost d = def;
        self.traits.push(def);
        assert(self.traits@.drop_last() =~= old(self).traits@);
    }

    /// Declares that a type implements a trait.
    pub fn add_impl(&mut self, ty_name: &str, trait_name: &str)
        ensures
            final(self).impl_pairs() == old(self).impl_pairs().insert((ty_name@, trait_name@)),
            final(self).trait_defs() == old(self).trait_defs(),
    {
        self.impls.push((str_to_string(ty_name), str_to_string(trait_name)));
        let ghost old_v = old(self).impls@;
        let ghost v = self.impls@;
        assert forall|p: (Seq<char>, Seq<char>)| pair_set(v).contains(p) <==> old(self).impl_pairs().insert((ty_name@, trait_name@)).contains(p) by {
            if pair_set(v).contains(p) {
                let i = choose|i: int| 0 <= i < v.len() && #[trigger] v[i].0@ == p.0 && v[i].1@ == p.1;
                if i < old_v.len() {
                    assert(old_v[i] == v[i]);
                }
            }
            if pair_set(old_v).contains(p) {
                let i = choose|i: int| 0 <= i < old_v.len() && #[trigger] old_v[i].0@ == p.0 && old_v[i].1@ == p.1;
                assert(v[i] == old_v[i]);
            }
            if p == (ty_name@, trait_name@) {
                assert(v[old_v.len() as int].0@ == p.0);
            }
        }
        assert(self.impl_pairs() =~= old(self).impl_pairs().insert((ty_name@, trait_name@)));
    }

    /// Whether the pair (type name, trait name) is registered.
    fn has_impl(&self, ty_name: &String, trait_name: &String) -> (r: bool)
        ensures
            r == self.impl_pairs().contains((ty_name@, trait_name@)),
    {
        let mut i: usize = 0;
        while i < self.impls.len()
            invariant
                i <= self.impls@.len(),
                forall|j: int| 0 <= j < i ==> !(#[trigger] self.impls@[j].0@ == ty_name@ && self.impls@[j].1@ == trait_name@),
            decreases self.impls@.len() - i,
        {
            if self.impls[i].0 == *ty_name && self.impls[i].1 == *trait_name {
                return true;
            }
            i = i + 1;
        }
        false
    }

    /// Checks that a type meets every bound; the first bound it fails gives the error.
    pub fn check_bounds(&self, ty: &NovaType, bounds: &[TraitBound], line: u32, col: u32) -> (r: Result<(), BoundError>)
        ensures
            match r {
                Ok(()) => forall|i: int| 0 <= i < bounds@.len()
                    ==> #[trigger] satisfies(self.impl_pairs(), ty.model(), bounds@[i].trait_name@),
                Err(e) => exists|k: int| {
                    &&& 0 <= k < bounds@.len()
                    &&& !satisfies(self.impl_pairs(), ty.model(), #[trigger] bounds@[k].trait_name@)
                    &&& forall|j: int| 0 <= j < k ==> #[trigger] satisfies(self.impl_pairs(), ty.model(), bounds@[j].trait_name@)
                    &&& e.ty_name@ == type_name_of(ty.model())
                    &&& e.trait_name@ == bounds@[k].trait_name@
                    &&& e.message@ == bound_message(ty.model(), bounds@[k].trait_name@)
                    &&& e.line == line
                    &&& e.col == col
                },
            },
    {
        let mut i: usize = 0;
        while i < bounds.len()
            invariant
                i <= bounds@.len(),
                forall|j: int| 0 <= j < i ==> #[trigger] satisfies(self.impl_pairs(), ty.model(), bounds@[j].trait_name@),
            decreases bounds@.len() - i,
        {
            match self.check_one_bound(ty, &bounds[i], line, col) {
                Err(e) => {
                    assert(bounds@[i as int].trait_name@ == bounds@[i as int].trait_name@);
                    return Err(e);
                }
                Ok(()) => {},
            }
            i = i + 1;
        }
        Ok(())
    }

    fn check_one_bound(&self, ty: &NovaType, bound: &TraitBound, line: u32, col: u32) -> (r: Result<(), BoundError>)
        ensures
            match r {
                Ok(()) => satisfies(self.impl_pairs(), ty.model(), bound.trait_name@),
                Err(e) => !satisfies(self.impl_pairs(), ty.model(), bound.trait_name@)
                    && e.ty_name@ == type_name_of(ty.model())
                    && e.trait_name@ == bound.trait_name@
                    && e.message@ == bound_message(ty.model(), bound.trait_name@)
                    && e.line == line && e.col == col,
            },
    {
        let ty_name = Self::registered_name(ty);
        let tr = &bound.trait_name;
        if is_text(tr, "Numeric") && ty.is_numeric() {
            return Ok(());
        }
        if is_text(tr, "Display") {
            return Ok(());
        }
        if (is_text(tr, "Add") || is_text(tr, "Sub") || is_text(tr, "Mul") || is_text(tr, "Div") || is_text(tr, "Neg"))
            && ty.is_numeric() {
            return Ok(());
        }
        if is_text(tr, "Transcendental") {
            match ty {
                NovaType::Float | NovaType::UnitFloat { .. } => { return Ok(()); }
                _ => {}
            }
        }
        if self.has_impl(&ty_name, tr) {
            return Ok(());
        }
        let mut m = String::new();
        push_str(&mut m, "type `");
        ty.push_text(&mut m);
        push_str(&mut m, "` does not implement trait `");
        push_str(&mut m, tr.as_str());
        push_str(&mut m, "`\n  hint: add `impl ");
        push_str(&mut m, tr.as_str());
        push_str(&mut m, " for ");
        ty.push_text(&mut m);
        push_str(&mut m, "` or derive it");
        assert(m@ =~= bound_message(ty.model(), bound.trait_name@));
        Err(BoundError { ty_name, trait_name: tr.clone(), message: m, line, col })
    }

    /// The name a type is registered under.
    fn registered_name(ty: &NovaType) -> (r: String)
        ensures
            r@ == type_name_of(ty.model()),
    {
        match ty {
            NovaType::Int => str_to_string("Int"),
            NovaType::Float => str_to_string("Float"),
            NovaType::UnitFloat { .. } => str_to_string("Float"),
            NovaType::Bool => str_to_string("Bool"),
            NovaType::Str => str_to_string("Str"),
            NovaType::Char => str_to_string("Char"),
            NovaType::Tensor { .. } => str_to_string("Tensor"),
            NovaType::Array(_) => str_to_string("Array"),
            NovaType::Named { name, .. } => name.clone(),
            _ => str_to_string("<unknown>"),
        }
    }

    /// Registers one built-in trait.
    fn define_builtin(&mut self, name: &str, methods: Vec<String>)
        ensures
            final(self).trait_defs() == old(self).trait_defs().insert(name@, string_views(methods@)),
            final(self).impl_pairs() == old(self).impl_pairs(),
    {
        self.define_trait(TraitDef { name: str_to_string(name), methods });
    }

    /// Registers the built-in traits and implementations.
    fn register_builtins(&mut self)
        ensures
            final(self).trait_defs() == old(self).trait_defs().union_prefer_right(builtin_traits()),
            final(self).impl_pairs() == old(self).impl_pairs() + builtin_impls(),
    {
        {
            let v = vec![str_to_string("zero"), str_to_string("one")];
            assert(string_views(v@) =~= seq!["zero"@, "one"@]);
            self.define_builtin("Numeric", v);
        }
        {
            let v = vec![str_to_string("display")];
            assert(string_views(v@) =~= seq!["display"@]);
            self.define_builtin("Display", v);
        }
        {
            let v = vec![str_to_string("add")];
            assert(string_views(v@) =~= seq!["add"@]);
            self.define_builtin("Add", v);
        }
        {
            let v = vec![str_to_string("sub")];
            assert(string_views(v@) =~= seq!["sub"@]);
            self.define_builtin("Sub", v);
        }
        {
            let v = vec![str_to_string("mul")];
            assert(string_views(v@) =~= seq!["mul"@]);
            self.define_builtin("Mul", v);
        }
        {
            let v = vec![str_to_string("div")];
            assert(string_views(v@) =~= seq!["div"@]);
            self.define_builtin("Div", v);
        }
        {
            let v = vec![str_to_string("neg")];
            assert(string_views(v@) =~= seq!["neg"@]);
            self.define_builtin("Neg", v);
        }
        {
            let v = vec![str_to_string("ln"), str_to_string("exp"), str_to_string("sqrt"), str_to_string("sin"), str_to_string("cos")];
            assert(string_views(v@) =~= seq!["ln"@, "exp"@, "sqrt"@, "sin"@, "cos"@]);
            self.define_builtin("Transcendental", v);
        }
        {
            let v = vec![str_to_string("measure")];
            assert(string_views(v@) =~= seq!["measure"@]);
            self.define_builtin("Measurable", v);
        }
        {
            let v = vec![str_to_string("display"), str_to_string("display_with_unit")];
            assert(string_views(v@) =~= seq!["display"@, "display_with_unit"@]);
            self.define_builtin("Displayable", v);
        }
        {
            let v = vec![str_to_string("step"), str_to_string("reset")];
            assert(string_views(v@) =~= seq!["step"@, "reset"@]);
            self.define_builtin("Optimiser", v);
        }
        self.add_impl("Int", "Numeric");
        self.add_impl("Int", "Add");
        self.add_impl("Int", "Sub");
        self.add_impl("Int", "Mul");
        self.add_impl("Int", "Div");
        self.add_impl("Int", "Neg");
        self.add_impl("Int", "Display");
        self.add_impl("Float", "Numeric");
        self.add_impl("Float", "Add");
        self.add_impl("Float", "Sub");
        self.add_impl("Float", "Mul");
        self.add_impl("Float", "Div");
        self.add_impl("Float", "Neg");
        self.add_impl("Float", "Display");
        self.add_impl("Float", "Transcendental");
        self.add_impl("Str", "Display");
        self.add_impl("Bool", "Display");
        assert(self.trait_defs() =~= old(self).trait_defs().union_prefer_right(builtin_traits()));
        assert(self.impl_pairs() =~= old(self).impl_pairs() + builtin_impls());
    }
}

} // verus!
