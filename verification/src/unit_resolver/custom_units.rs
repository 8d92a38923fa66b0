//! Custom units declared in NOVA source, such as `unit parsec = 3.086e16[m]`.
//! Each is resolved to the dimension of its base unit and a scale factor: the
//! declared factor times the base unit's scale.

use vstd::prelude::*;
use crate::unit_resolver::dimension::Dim;
use crate::unit_resolver::scale::{Scale, ScaleM, scale_view};
use crate::unit_resolver::si_table::UnitEntry;
use crate::text::str_to_string;

verus! {

/// A resolved custom unit.
#[derive(Debug)]
pub struct CustomUnit {
    /// The resolved SI dimension.
    pub dim: Dim,
    /// Scale factor relative to the SI base unit.
    pub scale: Scale,
    /// The name as declared.
    pub name: String,
    /// The source expression (such as `3.086e16[m]`), for error messages.
    pub source_expr: String,
}

/// A custom unit over plain values: dimension, scale, source expression.
pub type CustomUnitM = (Dim, ScaleM, Seq<char>);

/// The plain value of a custom unit.
pub open spec fn unit_view(u: CustomUnit) -> CustomUnitM {
    (u.dim, scale_view(u.scale), u.source_expr@)
}

/// The units by name; a later unit of the same name hides an earlier one.
pub open spec fn units_map(s: Seq<CustomUnit>) -> Map<Seq<char>, CustomUnitM>
    decreases s.len(),
{
    if s.len() == 0 {
        Map::empty()
    } else {
        units_map(s.drop_last()).insert(s.last().name@, unit_view(s.last()))
    }
}

/// The index of the last unit named `n`, if any.
pub open spec fn last_named(s: Seq<CustomUnit>, n: Seq<char>) -> Option<int>
    decreases s.len(),
{
    if s.len() == 0 {
        None
    } else if s.last().name@ == n {
        Some(s.len() - 1)
    } else {
        last_named(s.drop_last(), n)
    }
}

proof fn lemma_last_named(s: Seq<CustomUnit>, n: Seq<char>)
    ensures
        match last_named(s, n) {
            Some(i) => 0 <= i < s.len() && s[i].name@ == n && units_map(s).contains_key(n)
                && units_map(s)[n] == unit_view(s[i]),
            None => !units_map(s).contains_key(n),
        },
    decreases s.len(),
{
    if s.len() > 0 {
        lemma_last_named(s.drop_last(), n);
    }
}

proof fn lemma_update_last(s: Seq<CustomUnit>, i: int, x: CustomUnit)
    requires
        last_named(s, x.name@) == Some(i),
    ensures
        units_map(s.update(i, x)) == units_map(s).insert(x.name@, unit_view(x)),
    decreases s.len(),
{
    lemma_last_named(s, x.name@);
    if i == s.len() - 1 {
        assert(s.update(i, x).drop_last() =~= s.drop_last());
        assert(units_map(s.update(i, x)) =~= units_map(s).insert(x.name@, unit_view(x)));
    } else {
        assert(s.update(i, x).drop_last() =~= s.drop_last().update(i, x));
        lemma_update_last(s.drop_last(), i, x);
        assert(s.last().name@ != x.name@);
        assert(units_map(s.update(i, x)) =~= units_map(s).insert(x.name@, unit_view(x)));
    }
}

/// The custom units of one compilation unit.
#[derive(Debug)]
pub struct CustomUnitRegistry {
    units: Vec<CustomUnit>,
}

impl View for CustomUnitRegistry {
    type V = Map<Seq<char>, CustomUnitM>;

    closed spec fn view(&self) -> Map<Seq<char>, CustomUnitM> {
        units_map(self.units@)
    }
}

impl CustomUnitRegistry {
    /// An empty registry.
    pub fn new() -> (r: Self)
        ensures
            r@ == Map::<Seq<char>, CustomUnitM>::empty(),
    {
        CustomUnitRegistry { units: Vec::new() }
    }

    fn position(&self, name: &String) -> (r: Option<usize>)
        ensures
            r matches Some(i) ==> last_named(self.units@, name@) == Some(i as int),
            r is None ==> last_named(self.units@, name@) is None,
    {
        let mut i = self.units.len();
        assert(self.units@.take(i as int) =~= self.units@);
        while i > 0
            invariant
                i <= self.units@.len(),
                last_named(self.units@, name@) == last_named(self.units@.take(i as int), name@),
            decreases i,
        {
            assert(self.units@.take(i as int).drop_last() =~= self.units@.take(i - 1));
            if self.units[i - 1].name == *name {
                return Some(i - 1);
            }
            i = i - 1;
        }
        None
    }

    /// Registers `name` as `factor` times the base unit `base_entry`; a unit
    /// of the same name is replaced.
    pub fn register(&mut self, name: &str, factor: &str, base_entry: &UnitEntry, source_expr: &str)
        ensures
            final(self)@ == old(self)@.insert(
                name@,
                (
                    base_entry.dim,
                    ScaleM::Mul(Box::new(ScaleM::Lit(factor@)), Box::new(scale_view(base_entry.scale))),
                    source_expr@,
                ),
            ),
    {
        let n = str_to_string(name);
        let lit = Scale::Literal(str_to_string(factor));
        assert(scale_view(lit) == ScaleM::Lit(factor@));
        let base = base_entry.scale.copy();
        let scale = Scale::Product(Box::new(lit), Box::new(base));
        assert(scale_view(scale) == ScaleM::Mul(
            Box::new(ScaleM::Lit(factor@)),
            Box::new(scale_view(base_entry.scale)),
        ));
        let cu = CustomUnit {
            dim: base_entry.dim,
            scale,
            name: str_to_string(name),
            source_expr: str_to_string(source_expr),
        };
        assert(unit_view(cu) == (
            base_entry.dim,
            ScaleM::Mul(Box::new(ScaleM::Lit(factor@)), Box::new(scale_view(base_entry.scale))),
            source_expr@,
        ));
        assert(cu.name@ == name@);
        match self.position(&n) {
            Some(i) => {
                proof {
                    lemma_last_named(self.units@, name@);
                    lemma_update_last(self.units@, i as int, cu);
                }
                self.units.set(i, cu);
            },
            None => {
                let ghost s0 = self.units@;
                let ghost c = cu;
                self.units.push(cu);
                assert(self.units@.drop_last() =~= s0);
                assert(self.units@.last() == c);
            },
        }
    }

    /// The custom unit named `name`, if any.
    pub fn get(&self, name: &str) -> (r: Option<&CustomUnit>)
        ensures
            match r {
                Some(u) => self@.contains_key(name@) && self@[name@] == unit_view(*u) && u.name@
                    == name@,
                None => !self@.contains_key(name@),
            },
    {
        let n = str_to_string(name);
        proof {
            lemma_last_named(self.units@, name@);
        }
        match self.position(&n) {
            Some(i) => Some(&self.units[i]),
            None => None,
        }
    }

    /// The custom unit named `name` as a table entry, displayed as `custom`.
    pub fn to_unit_entry(&self, name: &str) -> (r: Option<UnitEntry>)
        ensures
            match r {
                Some(e) => self@.contains_key(name@) && e.dim == self@[name@].0 && scale_view(e.scale)
                    == self@[name@].1 && e.display@ == "custom"@,
                None => !self@.contains_key(name@),
            },
    {
        match self.get(name) {
            Some(cu) => Some(
                UnitEntry { dim: cu.dim, scale: cu.scale.copy(), display: str_to_string("custom") },
            ),
            None => None,
        }
    }

    /// Whether a unit named `name` is registered.
    pub fn contains(&self, name: &str) -> (r: bool)
        ensures
            r == self@.contains_key(name@),
    {
        self.get(name).is_some()
    }

    /// The registered units, one per name.
    pub fn iter(&self) -> (r: &Vec<CustomUnit>)
        ensures
            units_map(r@) == self@,
    {
        &self.units
    }
}

} // verus!
