//! Resolving unit expressions such as `m/s²` or `N·m²/kg²` to a dimension
//! and a scale factor.
//!
//! Grammar, over the characters of the trimmed expression:
//!
//! ```text
//! unit_expr := unit_term (('*' | '·') unit_term | '/' unit_term)*
//! unit_term := unit_atom ('^' int_exp | '²' | '³')?
//! unit_atom := SYMBOL | '(' unit_expr ')'
//! int_exp   := '-'? DIGIT*
//! ```
//!
//! Spaces and tabs may stand between the parts; a missing `)` is accepted.

use vstd::prelude::*;
use crate::unit_resolver::dimension::{Dim, exps, fits_i8, mul_fits, div_fits, pow_fits, dim_mul, dim_div, dim_pow, dim_name};
use crate::unit_resolver::error::UnitError;
use crate::unit_resolver::scale::{Scale, ScaleM, scale_view};
use crate::unit_resolver::si_table::{UnitEntry, SiRow, build_si_table, si_lookup, si_rows, rows_view, row_index};
use crate::unit_resolver::custom_units::{CustomUnitRegistry, CustomUnitM};
use crate::frontend::lexer::{is_digit, digits_value, all_digits};
use crate::strings::{trim, trim_bounds, string_of};
use crate::text::{push_char, push_signed, push_str, signed_decimal, str_to_string, chars_of};

verus! {

// ── Plain values ────────────────────────────────────────────────────────────

/// A resolved unit over plain values: exponents, scale and display text.
pub struct UnitM {
    pub dim: Seq<int>,
    pub scale: ScaleM,
    pub original: Seq<char>,
}

/// What parsing a piece of a unit expression gives: a unit and the position
/// after it, an error message, or an exponent that does not fit in `i8`.
pub enum Outcome {
    Done(UnitM, int),
    Failed(Seq<char>),
    Overflow,
}

/// Every exponent fits in `i8`.
pub open spec fn dims_fit(d: Seq<int>) -> bool {
    forall|k: int| 0 <= k < 7 ==> fits_i8(#[trigger] d[k])
}

/// The product of two units, unless an exponent overflows.
pub open spec fn unit_mul(a: UnitM, b: UnitM) -> Option<UnitM> {
    let d = Seq::new(7, |k: int| a.dim[k] + b.dim[k]);
    if dims_fit(d) {
        Some(
            UnitM {
                dim: d,
                scale: ScaleM::Mul(Box::new(a.scale), Box::new(b.scale)),
                original: a.original + "\u{B7}"@ + b.original,
            },
        )
    } else {
        None
    }
}

/// The quotient of two units, unless an exponent overflows.
pub open spec fn unit_div(a: UnitM, b: UnitM) -> Option<UnitM> {
    let d = Seq::new(7, |k: int| a.dim[k] - b.dim[k]);
    if dims_fit(d) {
        Some(
            UnitM {
                dim: d,
                scale: ScaleM::Div(Box::new(a.scale), Box::new(b.scale)),
                original: a.original + "/"@ + b.original,
            },
        )
    } else {
        None
    }
}

/// A unit raised to the power `n`, unless an exponent overflows.
pub open spec fn unit_pow(a: UnitM, n: int) -> Option<UnitM> {
    let d = Seq::new(7, |k: int| a.dim[k] * n);
    if dims_fit(d) {
        Some(
            UnitM {
                dim: d,
                scale: ScaleM::Pow(Box::new(a.scale), n),
                original: a.original + "^"@ + signed_decimal(n),
            },
        )
    } else {
        None
    }
}

// ── The grammar ─────────────────────────────────────────────────────────────

/// A space or a tab.
pub open spec fn is_blank(c: char) -> bool {
    c == ' ' || c == '\t'
}

/// Where the blanks starting at `p` end.
pub open spec fn spaces_end(t: Seq<char>, p: int) -> int
    decreases t.len() - p,
{
    if 0 <= p < t.len() && is_blank(t[p]) {
        spaces_end(t, p + 1)
    } else {
        p
    }
}

/// `²` or `³`.
pub open spec fn is_superscript(c: char) -> bool {
    c == '\u{B2}' || c == '\u{B3}'
}

/// The power a superscript digit stands for.
pub open spec fn superscript_value(c: char) -> int {
    if c == '\u{B2}' {
        2
    } else {
        3
    }
}

/// The characters that end a symbol: operators, parentheses, blanks, the
/// middle dot and superscript digits.
pub open spec fn ends_symbol(c: char) -> bool {
    c == '*' || c == '/' || c == '^' || c == '(' || c == ')' || is_blank(c) || c == '\u{B7}'
        || is_superscript(c)
}

/// Where the symbol starting at `p` ends; digits end it after its first
/// character (`first` says whether none was read yet).
pub open spec fn symbol_end(t: Seq<char>, p: int, first: bool) -> int
    decreases t.len() - p,
{
    if 0 <= p < t.len() && !ends_symbol(t[p]) && (first || !is_digit(t[p])) {
        symbol_end(t, p + 1, false)
    } else {
        p
    }
}

/// Where the ASCII digits starting at `p` end.
pub open spec fn digits_end(t: Seq<char>, p: int) -> int
    decreases t.len() - p,
{
    if 0 <= p < t.len() && is_digit(t[p]) {
        digits_end(t, p + 1)
    } else {
        p
    }
}

/// The integer exponent after `^` at `p`: its value and end, or `None`
/// when its digits exceed `i8`.
pub open spec fn int_exp(t: Seq<char>, p: int) -> Option<(int, int)> {
    let q = spaces_end(t, p);
    let neg = 0 <= q < t.len() && t[q] == '-';
    let a = if neg { q + 1 } else { q };
    let e = digits_end(t, a);
    let v = digits_value(t.subrange(a, e));
    if v > 127 {
        None
    } else {
        Some((if neg { -v } else { v }, e))
    }
}

/// The message for a symbol that is neither an SI nor a custom unit.
pub open spec fn unknown_symbol_message(sym: Seq<char>) -> Seq<char> {
    "unknown unit symbol '"@ + sym
        + "'\n  hint: is this a custom unit? declare it with `unit "@ + sym
        + " = <value>[<base_unit>]`"@
}

/// The unit a symbol names: the SI table first, then the custom units.
pub open spec fn lookup_unit(si: Seq<SiRow>, cu: Map<Seq<char>, CustomUnitM>, sym: Seq<char>) -> Option<
    UnitM,
> {
    match row_index(si, sym) {
        Some(i) => Some(UnitM { dim: exps(si[i].1), scale: si[i].2, original: sym }),
        None => if cu.contains_key(sym) {
            Some(UnitM { dim: exps(cu[sym].0), scale: cu[sym].1, original: sym })
        } else {
            None
        },
    }
}

/// A unit atom at `p`: a symbol, or an expression in parentheses.
pub open spec fn atom(t: Seq<char>, p: int, si: Seq<SiRow>, cu: Map<Seq<char>, CustomUnitM>) -> Outcome
    decreases t.len() - p, 0int,
{
    let q = spaces_end(t, p);
    if 0 <= p && 0 <= q < t.len() && t[q] == '(' {
        proof {
            lemma_spaces_end(t, p);
        }
        match expr(t, q + 1, si, cu) {
            Outcome::Done(u, r) => {
                let r2 = spaces_end(t, r);
                Outcome::Done(u, if 0 <= r2 < t.len() && t[r2] == ')' { r2 + 1 } else { r2 })
            },
            other => other,
        }
    } else {
        let e = symbol_end(t, q, true);
        if e == q {
            Outcome::Failed("expected unit symbol"@)
        } else {
            let sym = t.subrange(q, e);
            match lookup_unit(si, cu, sym) {
                Some(u) => Outcome::Done(u, e),
                None => Outcome::Failed(unknown_symbol_message(sym)),
            }
        }
    }
}

/// A unit term at `p`: an atom with an optional power.
pub open spec fn term(t: Seq<char>, p: int, si: Seq<SiRow>, cu: Map<Seq<char>, CustomUnitM>) -> Outcome
    decreases t.len() - p, 1int,
{
    match atom(t, p, si, cu) {
        Outcome::Done(u, r) => {
            let q = spaces_end(t, r);
            if 0 <= q < t.len() && t[q] == '^' {
                match int_exp(t, q + 1) {
                    None => Outcome::Overflow,
                    Some((n, e)) => match unit_pow(u, n) {
                        Some(w) => Outcome::Done(w, e),
                        None => Outcome::Overflow,
                    },
                }
            } else if 0 <= q < t.len() && is_superscript(t[q]) {
                match unit_pow(u, superscript_value(t[q])) {
                    Some(w) => Outcome::Done(w, q + 1),
                    None => Outcome::Overflow,
                }
            } else {
                Outcome::Done(u, q)
            }
        },
        other => other,
    }
}

/// The operators after the first term of an expression, folded into `lhs`
/// from the left, starting at `r`.
pub open spec fn expr_rest(t: Seq<char>, r: int, lhs: UnitM, si: Seq<SiRow>, cu: Map<Seq<char>, CustomUnitM>) -> Outcome
    decreases t.len() - r, 2int,
{
    let q = spaces_end(t, r);
    if 0 <= r && 0 <= q < t.len() && (t[q] == '*' || t[q] == '\u{B7}' || t[q] == '/') {
        proof {
            lemma_spaces_end(t, r);
        }
        match term(t, q + 1, si, cu) {
            Outcome::Done(v, r2) => {
                let combined = if t[q] == '/' { unit_div(lhs, v) } else { unit_mul(lhs, v) };
                match combined {
                    None => Outcome::Overflow,
                    // positions only move forward: the guard always holds
                    Some(w) => if q + 1 <= r2 <= t.len() {
                        expr_rest(t, r2, w, si, cu)
                    } else {
                        Outcome::Failed(Seq::empty())
                    },
                }
            },
            other => other,
        }
    } else {
        Outcome::Done(lhs, q)
    }
}

/// A unit expression at `p`.
pub open spec fn expr(t: Seq<char>, p: int, si: Seq<SiRow>, cu: Map<Seq<char>, CustomUnitM>) -> Outcome
    decreases t.len() - p, 3int,
{
    match term(t, p, si, cu) {
        // positions only move forward: the guard always holds
        Outcome::Done(u, r) => if p < r <= t.len() {
            expr_rest(t, r, u, si, cu)
        } else {
            Outcome::Failed(Seq::empty())
        },
        other => other,
    }
}

/// The message for input left over after a unit expression.
pub open spec fn trailing_message(rest: Seq<char>) -> Seq<char> {
    "unexpected trailing input in unit expression: '"@ + rest + "'"@
}

/// Resolving the unit expression `s`: it is trimmed, must not be empty, and
/// must be one expression with nothing left over.
pub open spec fn resolve(s: Seq<char>, si: Seq<SiRow>, cu: Map<Seq<char>, CustomUnitM>) -> Outcome {
    let t = trim(s);
    if t.len() == 0 {
        Outcome::Failed("empty unit expression"@)
    } else {
        match expr(t, 0, si, cu) {
            Outcome::Done(u, q) => {
                let q2 = spaces_end(t, q);
                if q2 < t.len() {
                    Outcome::Failed(trailing_message(t.subrange(q2, t.len() as int)))
                } else {
                    Outcome::Done(u, q2)
                }
            },
            other => other,
        }
    }
}

pub proof fn lemma_spaces_end(t: Seq<char>, p: int)
    requires
        0 <= p,
    ensures
        p <= spaces_end(t, p),
        p <= t.len() ==> spaces_end(t, p) <= t.len(),
    decreases t.len() - p,
{
    if 0 <= p < t.len() && is_blank(t[p]) {
        lemma_spaces_end(t, p + 1);
    }
}

proof fn lemma_symbol_end(t: Seq<char>, p: int, first: bool)
    requires
        0 <= p <= t.len(),
    ensures
        p <= symbol_end(t, p, first) <= t.len(),
    decreases t.len() - p,
{
    if 0 <= p < t.len() && !ends_symbol(t[p]) && (first || !is_digit(t[p])) {
        lemma_symbol_end(t, p + 1, false);
    }
}

proof fn lemma_digits_end(t: Seq<char>, p: int)
    requires
        0 <= p <= t.len(),
    ensures
        p <= digits_end(t, p) <= t.len(),
        all_digits(t.subrange(p, digits_end(t, p))),
    decreases t.len() - p,
{
    if 0 <= p < t.len() && is_digit(t[p]) {
        lemma_digits_end(t, p + 1);
        let e = digits_end(t, p);
        assert forall|k: int| 0 <= k < e - p implies is_digit(#[trigger] t.subrange(p, e)[k]) by {
            if k > 0 {
                assert(t.subrange(p, e)[k] == t.subrange(p + 1, e)[k - 1]);
            }
        }
    }
}

proof fn lemma_int_exp(t: Seq<char>, p: int)
    requires
        0 <= p <= t.len(),
    ensures
        int_exp(t, p) matches Some((n, e)) ==> p <= e <= t.len() && -127 <= n <= 127,
{
    lemma_spaces_end(t, p);
    let q = spaces_end(t, p);
    let neg = 0 <= q < t.len() && t[q] == '-';
    let a = if neg { q + 1 } else { q };
    lemma_digits_end(t, a);
    crate::frontend::lexer::lemma_digits_value_nonneg(t.subrange(a, digits_end(t, a)));
}

/// Every piece of a unit expression that parses ends after it starts.
pub proof fn lemma_atom_progress(t: Seq<char>, p: int, si: Seq<SiRow>, cu: Map<Seq<char>, CustomUnitM>)
    requires
        0 <= p <= t.len(),
    ensures
        atom(t, p, si, cu) matches Outcome::Done(u, r) ==> p < r <= t.len(),
    decreases t.len() - p, 0int,
{
    lemma_spaces_end(t, p);
    let q = spaces_end(t, p);
    if 0 <= q < t.len() && t[q] == '(' {
        lemma_expr_progress(t, q + 1, si, cu);
        if let Outcome::Done(u, r) = expr(t, q + 1, si, cu) {
            lemma_spaces_end(t, r);
        }
    } else {
        lemma_symbol_end(t, q, true);
    }
}

pub proof fn lemma_term_progress(t: Seq<char>, p: int, si: Seq<SiRow>, cu: Map<Seq<char>, CustomUnitM>)
    requires
        0 <= p <= t.len(),
    ensures
        term(t, p, si, cu) matches Outcome::Done(u, r) ==> p < r <= t.len(),
    decreases t.len() - p, 1int,
{
    lemma_atom_progress(t, p, si, cu);
    if let Outcome::Done(u, r) = atom(t, p, si, cu) {
        lemma_spaces_end(t, r);
        let q = spaces_end(t, r);
        if 0 <= q < t.len() && t[q] == '^' {
            lemma_int_exp(t, q + 1);
        }
    }
}

pub proof fn lemma_rest_progress(t: Seq<char>, r: int, lhs: UnitM, si: Seq<SiRow>, cu: Map<Seq<char>, CustomUnitM>)
    requires
        0 <= r <= t.len(),
    ensures
        expr_rest(t, r, lhs, si, cu) matches Outcome::Done(u, e) ==> r <= e <= t.len(),
    decreases t.len() - r, 2int,
{
    lemma_spaces_end(t, r);
    let q = spaces_end(t, r);
    if 0 <= q < t.len() && (t[q] == '*' || t[q] == '\u{B7}' || t[q] == '/') {
        lemma_term_progress(t, q + 1, si, cu);
        if let Outcome::Done(v, r2) = term(t, q + 1, si, cu) {
            let combined = if t[q] == '/' { unit_div(lhs, v) } else { unit_mul(lhs, v) };
            if let Some(w) = combined {
                lemma_rest_progress(t, r2, w, si, cu);
            }
        }
    }
}

pub proof fn lemma_expr_progress(t: Seq<char>, p: int, si: Seq<SiRow>, cu: Map<Seq<char>, CustomUnitM>)
    requires
        0 <= p <= t.len(),
    ensures
        expr(t, p, si, cu) matches Outcome::Done(u, r) ==> p < r <= t.len(),
    decreases t.len() - p, 3int,
{
    lemma_term_progress(t, p, si, cu);
    if let Outcome::Done(u, r) = term(t, p, si, cu) {
        lemma_rest_progress(t, r, u, si, cu);
    }
}


// ── Resolved units ──────────────────────────────────────────────────────────

/// The result of resolving a unit expression.
#[derive(Debug)]
pub struct ResolvedUnit {
    /// The SI dimension vector.
    pub dim: Dim,
    /// Scale factor: 1 [this unit] = scale [SI base unit].
    pub scale: Scale,
    /// The unit as written, for display in error messages.
    pub original: String,
}

/// The plain value of a resolved unit.
pub open spec fn resolved_view(u: ResolvedUnit) -> UnitM {
    UnitM { dim: exps(u.dim), scale: scale_view(u.scale), original: u.original@ }
}

proof fn lemma_fits_mul(a: Dim, b: Dim)
    ensures
        mul_fits(a, b) == dims_fit(Seq::new(7, |k: int| exps(a)[k] + exps(b)[k])),
        Seq::new(7, |k: int| exps(a)[k] + exps(b)[k]) == dim_mul(a, b),
{
    let d = Seq::new(7, |k: int| exps(a)[k] + exps(b)[k]);
    assert(d =~= dim_mul(a, b));
    if mul_fits(a, b) {
        assert forall|k: int| 0 <= k < 7 implies fits_i8(#[trigger] d[k]) by {
            assert(fits_i8(a.exp@[k] + b.exp@[k]));
        }
    }
    if dims_fit(d) {
        assert forall|k: int| 0 <= k < 7 implies fits_i8(a.exp@[k] + b.exp@[k]) by {
            assert(fits_i8(d[k]));
        }
    }
}

proof fn lemma_fits_div(a: Dim, b: Dim)
    ensures
        div_fits(a, b) == dims_fit(Seq::new(7, |k: int| exps(a)[k] - exps(b)[k])),
        Seq::new(7, |k: int| exps(a)[k] - exps(b)[k]) == dim_div(a, b),
{
    let d = Seq::new(7, |k: int| exps(a)[k] - exps(b)[k]);
    assert(d =~= dim_div(a, b));
    if div_fits(a, b) {
        assert forall|k: int| 0 <= k < 7 implies fits_i8(#[trigger] d[k]) by {
            assert(fits_i8(a.exp@[k] - b.exp@[k]));
        }
    }
    if dims_fit(d) {
        assert forall|k: int| 0 <= k < 7 implies fits_i8(a.exp@[k] - b.exp@[k]) by {
            assert(fits_i8(d[k]));
        }
    }
}

proof fn lemma_fits_pow(a: Dim, n: int)
    ensures
        pow_fits(a, n) == dims_fit(Seq::new(7, |k: int| exps(a)[k] * n)),
        Seq::new(7, |k: int| exps(a)[k] * n) == dim_pow(a, n),
{
    let d = Seq::new(7, |k: int| exps(a)[k] * n);
    assert(d =~= dim_pow(a, n));
    if pow_fits(a, n) {
        assert forall|k: int| 0 <= k < 7 implies fits_i8(#[trigger] d[k]) by {
            assert(fits_i8(a.exp@[k] * n));
        }
    }
    if dims_fit(d) {
        assert forall|k: int| 0 <= k < 7 implies fits_i8(a.exp@[k] * n) by {
            assert(fits_i8(d[k]));
        }
    }
}

impl ResolvedUnit {
    /// The product of two units: dimensions add, scales multiply.
    pub fn mul(&self, rhs: &ResolvedUnit) -> (r: ResolvedUnit)
        requires
            mul_fits(self.dim, rhs.dim),
        ensures
            unit_mul(resolved_view(*self), resolved_view(*rhs)) == Some(resolved_view(r)),
    {
        proof {
            lemma_fits_mul(self.dim, rhs.dim);
        }
        let mut original = self.original.clone();
        push_char(&mut original, '\u{B7}');
        push_str(&mut original, rhs.original.as_str());
        let r = ResolvedUnit {
            dim: self.dim.mul(rhs.dim),
            scale: Scale::Product(Box::new(self.scale.copy()), Box::new(rhs.scale.copy())),
            original,
        };
        assert(r.original@ =~= self.original@ + "\u{B7}"@ + rhs.original@) by {
            reveal_strlit("\u{B7}");
        }
        r
    }

    /// The quotient of two units: dimensions subtract, scales divide.
    pub fn div(&self, rhs: &ResolvedUnit) -> (r: ResolvedUnit)
        requires
            div_fits(self.dim, rhs.dim),
        ensures
            unit_div(resolved_view(*self), resolved_view(*rhs)) == Some(resolved_view(r)),
    {
        proof {
            lemma_fits_div(self.dim, rhs.dim);
        }
        let mut original = self.original.clone();
        push_char(&mut original, '/');
        push_str(&mut original, rhs.original.as_str());
        let r = ResolvedUnit {
            dim: self.dim.div(rhs.dim),
            scale: Scale::Quotient(Box::new(self.scale.copy()), Box::new(rhs.scale.copy())),
            original,
        };
        assert(r.original@ =~= self.original@ + "/"@ + rhs.original@) by {
            reveal_strlit("/");
        }
        r
    }

    /// The unit raised to the integer power `n`.
    pub fn pow(&self, n: i8) -> (r: ResolvedUnit)
        requires
            pow_fits(self.dim, n as int),
        ensures
            unit_pow(resolved_view(*self), n as int) == Some(resolved_view(r)),
    {
        proof {
            lemma_fits_pow(self.dim, n as int);
        }
        let mut original = self.original.clone();
        push_char(&mut original, '^');
        push_signed(&mut original, n as i64);
        let r = ResolvedUnit {
            dim: self.dim.pow(n),
            scale: Scale::Power(Box::new(self.scale.copy()), n),
            original,
        };
        assert(r.original@ =~= self.original@ + "^"@ + signed_decimal(n as int)) by {
            reveal_strlit("^");
        }
        r
    }

    /// A copy of this unit.
    pub fn copy(&self) -> (r: ResolvedUnit)
        ensures
            resolved_view(r) == resolved_view(*self),
    {
        ResolvedUnit { dim: self.dim, scale: self.scale.copy(), original: self.original.clone() }
    }
}

fn mul_fits_check(a: Dim, b: Dim) -> (r: bool)
    ensures
        r == mul_fits(a, b),
{
    let mut k: usize = 0;
    while k < 7
        invariant
            k <= 7,
            forall|j: int| 0 <= j < k ==> fits_i8(a.exp@[j] + b.exp@[j]),
        decreases 7 - k,
    {
        let v: i16 = a.exp[k] as i16 + b.exp[k] as i16;
        if v < -128 || v > 127 {
            return false;
        }
        k = k + 1;
    }
    true
}

fn div_fits_check(a: Dim, b: Dim) -> (r: bool)
    ensures
        r == div_fits(a, b),
{
    let mut k: usize = 0;
    while k < 7
        invariant
            k <= 7,
            forall|j: int| 0 <= j < k ==> fits_i8(a.exp@[j] - b.exp@[j]),
        decreases 7 - k,
    {
        let v: i16 = a.exp[k] as i16 - b.exp[k] as i16;
        if v < -128 || v > 127 {
            return false;
        }
        k = k + 1;
    }
    true
}

fn pow_fits_check(a: Dim, n: i8) -> (r: bool)
    ensures
        r == pow_fits(a, n as int),
{
    let mut k: usize = 0;
    while k < 7
        invariant
            k <= 7,
            forall|j: int| 0 <= j < k ==> fits_i8(a.exp@[j] * n),
        decreases 7 - k,
    {
        assert(-128 * 128 <= a.exp@[k as int] * n <= 128 * 128) by (nonlinear_arith)
            requires
                -128 <= a.exp@[k as int] <= 127,
                -128 <= n <= 127,
        ;
        let v: i16 = a.exp[k] as i16 * n as i16;
        if v < -128 || v > 127 {
            return false;
        }
        k = k + 1;
    }
    true
}


// ── The parser ──────────────────────────────────────────────────────────────

/// What a parsing step gives: a unit, an error, or an exponent overflow.
enum Parsed {
    Done(ResolvedUnit),
    Failed(UnitError),
    Overflow,
}

/// The step result `r`, with the parser at `pos`, is the outcome `o`.
spec fn parsed_is(r: Parsed, pos: usize, o: Outcome) -> bool {
    match o {
        Outcome::Done(u, e) => r matches Parsed::Done(x) && resolved_view(x) == u && pos == e,
        Outcome::Failed(m) => r matches Parsed::Failed(err) && err.message@ == m && err.line == 0
            && err.col == 0,
        Outcome::Overflow => r is Overflow,
    }
}

/// A recursive-descent parser over the characters of a unit expression.
struct UnitExprParser<'a> {
    input: Vec<char>,
    pos: usize,
    si: &'a Vec<(String, UnitEntry)>,
    custom: &'a CustomUnitRegistry,
}

impl<'a> UnitExprParser<'a> {
    spec fn table(&self) -> Seq<SiRow> {
        rows_view(self.si@)
    }

    fn skip_spaces(&mut self)
        requires
            old(self).pos <= old(self).input@.len(),
        ensures
            final(self).input@ == old(self).input@,
            final(self).si == old(self).si,
            final(self).custom == old(self).custom,
            final(self).pos == spaces_end(old(self).input@, old(self).pos as int),
    {
        while self.pos < self.input.len() && (self.input[self.pos] == ' ' || self.input[self.pos] == '\t')
            invariant
                self.pos <= self.input@.len(),
                self.input@ == old(self).input@,
                self.si == old(self).si,
                self.custom == old(self).custom,
                spaces_end(self.input@, self.pos as int) == spaces_end(old(self).input@, old(self).pos as int),
            decreases self.input@.len() - self.pos,
        {
            self.pos = self.pos + 1;
        }
    }

    /// The power of the superscript digit under the cursor, if there is one.
    fn try_superscript(&self) -> (r: Option<i8>)
        ensures
            r == (if self.pos < self.input@.len() && is_superscript(self.input@[self.pos as int]) {
                Some(superscript_value(self.input@[self.pos as int]) as i8)
            } else {
                None::<i8>
            }),
    {
        if self.pos < self.input.len() {
            let c = self.input[self.pos];
            if c == '\u{B2}' {
                return Some(2);
            } else if c == '\u{B3}' {
                return Some(3);
            }
        }
        None
    }

    /// Reads a symbol: up to an operator, a parenthesis, a blank, a middle
    /// dot, a superscript digit, or a digit after the first character.
    fn read_symbol(&mut self) -> (r: String)
        requires
            old(self).pos <= old(self).input@.len(),
        ensures
            final(self).input@ == old(self).input@,
            final(self).si == old(self).si,
            final(self).custom == old(self).custom,
            final(self).pos == symbol_end(old(self).input@, old(self).pos as int, true),
            r@ == old(self).input@.subrange(old(self).pos as int, final(self).pos as int),
    {
        let start = self.pos;
        let mut chars_read: usize = 0;
        while self.pos < self.input.len()
            && !(ends_symbol_char(self.input[self.pos]) || (chars_read > 0 && '0' <= self.input[self.pos] && self.input[self.pos] <= '9'))
            invariant
                start <= self.pos <= self.input@.len(),
                self.input@ == old(self).input@,
                self.si == old(self).si,
                self.custom == old(self).custom,
                start == old(self).pos,
                chars_read == self.pos - start,
                symbol_end(self.input@, self.pos as int, chars_read == 0) == symbol_end(
                    self.input@,
                    start as int,
                    true,
                ),
            decreases self.input@.len() - self.pos,
        {
            self.pos = self.pos + 1;
            chars_read = chars_read + 1;
        }
        string_of(&self.input, start, self.pos)
    }

    /// The unit a symbol names: the SI table first, then the custom units.
    fn lookup(&self, sym: &String) -> (r: Result<ResolvedUnit, UnitError>)
        ensures
            match lookup_unit(self.table(), self.custom@, sym@) {
                Some(u) => r matches Ok(x) && resolved_view(x) == u,
                None => r matches Err(e) && e.message@ == unknown_symbol_message(sym@) && e.line == 0
                    && e.col == 0,
            },
    {
        if let Some(entry) = si_lookup(self.si, sym) {
            proof {
                let i = row_index(self.table(), sym@)->0;
                lemma_row_index_bounds(self.table(), sym@);
                assert(self.table()[i] == crate::unit_resolver::si_table::row_view(self.si@[i]));
            }
            return Ok(ResolvedUnit { dim: entry.dim, scale: entry.scale.copy(), original: sym.clone() });
        }
        if let Some(cu) = self.custom.get(sym.as_str()) {
            return Ok(ResolvedUnit { dim: cu.dim, scale: cu.scale.copy(), original: sym.clone() });
        }
        let mut message = str_to_string("unknown unit symbol '");
        push_str(&mut message, sym.as_str());
        push_str(&mut message, "'\n  hint: is this a custom unit? declare it with `unit ");
        push_str(&mut message, sym.as_str());
        push_str(&mut message, " = <value>[<base_unit>]`");
        assert(message@ =~= unknown_symbol_message(sym@));
        Err(UnitError { message, line: 0, col: 0 })
    }

    /// Reads an integer exponent; `None` when it does not fit in `i8`.
    fn parse_int_exp(&mut self) -> (r: Option<i8>)
        requires
            old(self).pos <= old(self).input@.len(),
        ensures
            final(self).input@ == old(self).input@,
            final(self).si == old(self).si,
            final(self).custom == old(self).custom,
            match int_exp(old(self).input@, old(self).pos as int) {
                Some((n, e)) => r == Some(n as i8) && final(self).pos == e,
                None => r is None,
            },
            final(self).pos <= final(self).input@.len(),
    {
        let ghost t = self.input@;
        proof {
            lemma_spaces_end(t, self.pos as int);
        }
        self.skip_spaces();
        let neg = self.pos < self.input.len() && self.input[self.pos] == '-';
        if neg {
            self.pos = self.pos + 1;
        }
        let a = self.pos;
        let ghost q = spaces_end(t, old(self).pos as int);
        assert(a == if 0 <= q < t.len() && t[q] == '-' { q + 1 } else { q });
        proof {
            lemma_digits_end(t, a as int);
        }
        let mut val: i8 = 0;
        while self.pos < self.input.len() && '0' <= self.input[self.pos] && self.input[self.pos] <= '9'
            invariant
                a <= self.pos <= t.len(),
                self.input@ == t,
                t == old(self).input@,
                q == spaces_end(t, old(self).pos as int),
                a == if 0 <= q < t.len() && t[q] == '-' { q + 1 } else { q },
                neg == (0 <= q < t.len() && t[q] == '-'),
                self.si == old(self).si,
                self.custom == old(self).custom,
                digits_end(t, self.pos as int) == digits_end(t, a as int),
                all_digits(t.subrange(a as int, digits_end(t, a as int))),
                val as int == digits_value(t.subrange(a as int, self.pos as int)),
                0 <= val,
            decreases t.len() - self.pos,
        {
            let c = self.input[self.pos];
            let d: i8 = (c as u32 - '0' as u32) as i8;
            assert(t.subrange(a as int, self.pos + 1).drop_last() =~= t.subrange(a as int, self.pos as int));
            if val > (127 - d) / 10 {
                let ghost e = digits_end(t, a as int);
                proof {
                    assert(val * 10 + d > 127) by (nonlinear_arith)
                        requires
                            val > (127 - d) / 10,
                            0 <= d <= 9,
                    ;
                    assert(t.subrange(a as int, self.pos + 1).last() == c);
                    assert(digits_value(t.subrange(a as int, self.pos + 1)) == val * 10 + d);
                    lemma_digits_end(t, self.pos + 1);
                    assert(t.subrange(a as int, e).take(self.pos + 1 - a) =~= t.subrange(a as int, self.pos + 1));
                    crate::frontend::lexer::lemma_digits_value_prefix(t.subrange(a as int, e), self.pos + 1 - a);
                }
                return None;
            }
            val = val * 10 + d;
            self.pos = self.pos + 1;
        }
        if neg {
            Some(-val)
        } else {
            Some(val)
        }
    }
}

proof fn lemma_row_index_bounds(rows: Seq<SiRow>, sym: Seq<char>)
    ensures
        row_index(rows, sym) matches Some(i) ==> 0 <= i < rows.len() && rows[i].0 == sym,
    decreases rows.len(),
{
    if rows.len() > 0 {
        lemma_row_index_bounds(rows.drop_last(), sym);
    }
}

fn ends_symbol_char(c: char) -> (r: bool)
    ensures
        r == ends_symbol(c),
{
    c == '*' || c == '/' || c == '^' || c == '(' || c == ')' || c == ' ' || c == '\t' || c == '\u{B7}'
        || c == '\u{B2}' || c == '\u{B3}'
}


impl<'a> UnitExprParser<'a> {
    /// Parses a unit atom: a symbol, or an expression in parentheses.
    fn parse_atom(&mut self) -> (r: Parsed)
        requires
            old(self).pos <= old(self).input@.len(),
        ensures
            final(self).input@ == old(self).input@,
            final(self).si == old(self).si,
            final(self).custom == old(self).custom,
            parsed_is(
                r,
                final(self).pos,
                atom(old(self).input@, old(self).pos as int, old(self).table(), old(self).custom@),
            ),
            final(self).pos <= final(self).input@.len(),
        decreases old(self).input@.len() - old(self).pos, 0int,
    {
        let ghost t = self.input@;
        let ghost p0 = self.pos as int;
        proof {
            lemma_spaces_end(t, p0);
        }
        self.skip_spaces();
        if self.pos < self.input.len() && self.input[self.pos] == '(' {
            self.pos = self.pos + 1;
            match self.parse_expr() {
                Parsed::Done(u) => {
                    proof {
                        lemma_spaces_end(t, self.pos as int);
                    }
                    self.skip_spaces();
                    if self.pos < self.input.len() && self.input[self.pos] == ')' {
                        self.pos = self.pos + 1;
                    }
                    Parsed::Done(u)
                },
                other => other,
            }
        } else {
            let start = self.pos;
            proof {
                lemma_symbol_end(t, start as int, true);
            }
            let sym = self.read_symbol();
            if self.pos == start {
                return Parsed::Failed(UnitError::new("expected unit symbol"));
            }
            match self.lookup(&sym) {
                Ok(u) => Parsed::Done(u),
                Err(e) => Parsed::Failed(e),
            }
        }
    }

    /// Parses a unit term: an atom with an optional power.
    fn parse_term(&mut self) -> (r: Parsed)
        requires
            old(self).pos <= old(self).input@.len(),
        ensures
            final(self).input@ == old(self).input@,
            final(self).si == old(self).si,
            final(self).custom == old(self).custom,
            parsed_is(
                r,
                final(self).pos,
                term(old(self).input@, old(self).pos as int, old(self).table(), old(self).custom@),
            ),
            final(self).pos <= final(self).input@.len(),
        decreases old(self).input@.len() - old(self).pos, 1int,
    {
        let ghost t = self.input@;
        let base = match self.parse_atom() {
            Parsed::Done(u) => u,
            other => {
                return other;
            },
        };
        proof {
            lemma_spaces_end(t, self.pos as int);
        }
        self.skip_spaces();
        if self.pos < self.input.len() && self.input[self.pos] == '^' {
            self.pos = self.pos + 1;
            proof {
                lemma_int_exp(t, self.pos as int);
            }
            match self.parse_int_exp() {
                None => Parsed::Overflow,
                Some(n) => {
                    if pow_fits_check(base.dim, n) {
                        Parsed::Done(base.pow(n))
                    } else {
                        proof {
                            lemma_fits_pow(base.dim, n as int);
                        }
                        Parsed::Overflow
                    }
                },
            }
        } else if let Some(n) = self.try_superscript() {
            self.pos = self.pos + 1;
            if pow_fits_check(base.dim, n) {
                Parsed::Done(base.pow(n))
            } else {
                proof {
                    lemma_fits_pow(base.dim, n as int);
                }
                Parsed::Overflow
            }
        } else {
            Parsed::Done(base)
        }
    }

    /// Parses a unit expression: terms joined by `*`, `·` and `/`, from the
    /// left.
    fn parse_expr(&mut self) -> (r: Parsed)
        requires
            old(self).pos <= old(self).input@.len(),
        ensures
            final(self).input@ == old(self).input@,
            final(self).si == old(self).si,
            final(self).custom == old(self).custom,
            parsed_is(
                r,
                final(self).pos,
                expr(old(self).input@, old(self).pos as int, old(self).table(), old(self).custom@),
            ),
            final(self).pos <= final(self).input@.len(),
        decreases old(self).input@.len() - old(self).pos, 3int,
    {
        let ghost t = self.input@;
        let ghost p0 = self.pos as int;
        let ghost si = self.table();
        let ghost cu = self.custom@;
        proof {
            lemma_term_progress(t, p0, si, cu);
        }
        let mut lhs = match self.parse_term() {
            Parsed::Done(u) => u,
            other => {
                return other;
            },
        };
        loop
            invariant
                self.input@ == t,
                t == old(self).input@,
                self.si == old(self).si,
                self.custom == old(self).custom,
                si == old(self).table(),
                cu == old(self).custom@,
                p0 == old(self).pos,
                p0 < self.pos <= t.len(),
                expr(t, p0, si, cu) == expr_rest(t, self.pos as int, resolved_view(lhs), si, cu),
            decreases t.len() - self.pos,
        {
            let ghost r0 = self.pos as int;
            proof {
                lemma_spaces_end(t, r0);
            }
            self.skip_spaces();
            if self.pos < self.input.len() && (self.input[self.pos] == '*' || self.input[self.pos] == '\u{B7}' || self.input[self.pos] == '/') {
                let is_div = self.input[self.pos] == '/';
                self.pos = self.pos + 1;
                proof {
                    lemma_term_progress(t, self.pos as int, si, cu);
                }
                let rhs = match self.parse_term() {
                    Parsed::Done(u) => u,
                    other => {
                        return other;
                    },
                };
                if is_div {
                    if div_fits_check(lhs.dim, rhs.dim) {
                        lhs = lhs.div(&rhs);
                    } else {
                        proof {
                            lemma_fits_div(lhs.dim, rhs.dim);
                        }
                        return Parsed::Overflow;
                    }
                } else {
                    if mul_fits_check(lhs.dim, rhs.dim) {
                        lhs = lhs.mul(&rhs);
                    } else {
                        proof {
                            lemma_fits_mul(lhs.dim, rhs.dim);
                        }
                        return Parsed::Overflow;
                    }
                }
            } else {
                return Parsed::Done(lhs);
            }
        }
    }
}


// ── The resolver ────────────────────────────────────────────────────────────

/// The characters `v[a..b]`.
fn sub_chars(v: &Vec<char>, a: usize, b: usize) -> (r: Vec<char>)
    requires
        a <= b <= v@.len(),
    ensures
        r@ == v@.subrange(a as int, b as int),
{
    let mut r: Vec<char> = Vec::new();
    let mut i = a;
    while i < b
        invariant
            a <= i <= b <= v@.len(),
            r@ == v@.subrange(a as int, i as int),
        decreases b - i,
    {
        r.push(v[i]);
        i = i + 1;
        assert(r@ =~= v@.subrange(a as int, i as int));
    }
    r
}

/// The message for two units that cannot be added.
pub open spec fn add_mismatch_message(lhs: ResolvedUnit, rhs: ResolvedUnit) -> Seq<char> {
    "cannot add "@ + lhs.original@ + " and "@ + rhs.original@ + "\n  left:  "@ + dim_name(lhs.dim)
        + "\n  right: "@ + dim_name(rhs.dim)
        + "\n  hint: did you mean to convert units, or is this a logic error?"@
}

/// The unit resolver: the SI table and the custom units declared so far.
#[derive(Debug)]
pub struct UnitResolver {
    si: Vec<(String, UnitEntry)>,
    custom: CustomUnitRegistry,
}

impl UnitResolver {
    /// The SI table the resolver looks symbols up in.
    pub closed spec fn table(&self) -> Seq<SiRow> {
        rows_view(self.si@)
    }

    /// The custom units registered so far.
    pub closed spec fn customs(&self) -> Map<Seq<char>, CustomUnitM> {
        self.custom@
    }

    /// A resolver with the full SI table and no custom units.
    pub fn new() -> (r: Self)
        ensures
            r.table() == si_rows(),
            r.customs() == Map::<Seq<char>, CustomUnitM>::empty(),
    {
        UnitResolver { si: build_si_table(), custom: CustomUnitRegistry::new() }
    }

    /// Registers the declaration `unit <name> = <factor>[<base_unit>]`, where
    /// `factor` is the decimal text of the factor and `base_unit` an SI symbol.
    pub fn register_custom_unit(
        &mut self,
        name: &str,
        factor: &str,
        base_unit: &str,
        source_expr: &str,
        line: u32,
        col: u32,
    ) -> (r: Result<(), UnitError>)
        ensures
            final(self).table() == old(self).table(),
            match row_index(old(self).table(), base_unit@) {
                Some(i) => r is Ok && final(self).customs() == old(self).customs().insert(
                    name@,
                    (
                        old(self).table()[i].1,
                        ScaleM::Mul(Box::new(ScaleM::Lit(factor@)), Box::new(old(self).table()[i].2)),
                        source_expr@,
                    ),
                ),
                None => r matches Err(e) && e.message@ == "base unit '"@ + base_unit@
                    + "' not found in SI table"@ && e.line == line && e.col == col
                    && final(self).customs() == old(self).customs(),
            },
    {
        let key = str_to_string(base_unit);
        match si_lookup(&self.si, &key) {
            Some(entry) => {
                proof {
                    let i = row_index(self.table(), base_unit@)->0;
                    lemma_row_index_bounds(self.table(), base_unit@);
                    assert(self.table()[i] == crate::unit_resolver::si_table::row_view(self.si@[i]));
                }
                self.custom.register(name, factor, entry, source_expr);
                Ok(())
            },
            None => {
                let mut message = str_to_string("base unit '");
                push_str(&mut message, base_unit);
                push_str(&mut message, "' not found in SI table");
                assert(message@ =~= "base unit '"@ + base_unit@ + "' not found in SI table"@);
                Err(UnitError { message, line, col })
            },
        }
    }

    fn resolve_parsed(&self, unit_str: &str) -> (r: Parsed)
        ensures
            match resolve(unit_str@, self.table(), self.customs()) {
                Outcome::Done(u, e) => r matches Parsed::Done(x) && resolved_view(x) == u,
                Outcome::Failed(m) => r matches Parsed::Failed(err) && err.message@ == m
                    && err.line == 0 && err.col == 0,
                Outcome::Overflow => r is Overflow,
            },
    {
        let chars = chars_of(unit_str);
        let (a, b) = trim_bounds(&chars, 0, chars.len());
        assert(chars@.subrange(0, chars@.len() as int) =~= chars@);
        if a == b {
            return Parsed::Failed(UnitError::new("empty unit expression"));
        }
        let trimmed = sub_chars(&chars, a, b);
        let mut parser = UnitExprParser { input: trimmed, pos: 0, si: &self.si, custom: &self.custom };
        match parser.parse_expr() {
            Parsed::Done(u) => {
                parser.skip_spaces();
                if parser.pos < parser.input.len() {
                    let rest = string_of(&parser.input, parser.pos, parser.input.len());
                    let mut message = str_to_string("unexpected trailing input in unit expression: '");
                    push_str(&mut message, rest.as_str());
                    push_str(&mut message, "'");
                    assert(message@ =~= trailing_message(rest@));
                    Parsed::Failed(UnitError { message, line: 0, col: 0 })
                } else {
                    Parsed::Done(u)
                }
            },
            other => other,
        }
    }

    /// Resolves a unit expression (the text between `[` and `]` of a unit
    /// literal) to its dimension, scale and display text.
    pub fn resolve_unit_str(&self, unit_str: &str) -> (r: Result<ResolvedUnit, UnitError>)
        requires
            !(resolve(unit_str@, self.table(), self.customs()) is Overflow),
        ensures
            match resolve(unit_str@, self.table(), self.customs()) {
                Outcome::Done(u, e) => r matches Ok(x) && resolved_view(x) == u,
                Outcome::Failed(m) => r matches Err(err) && err.message@ == m && err.line == 0
                    && err.col == 0,
                Outcome::Overflow => false,
            },
    {
        match self.resolve_parsed(unit_str) {
            Parsed::Done(u) => Ok(u),
            Parsed::Failed(e) => Err(e),
            Parsed::Overflow => Err(UnitError::new("exponent out of range")),
        }
    }

    /// Resolves a unit expression as `resolve_unit_str` does, or gives `None`
    /// when an exponent of it, or of its dimension, does not fit in `i8`.
    pub fn try_resolve_unit_str(&self, unit_str: &str) -> (r: Option<Result<ResolvedUnit, UnitError>>)
        ensures
            match resolve(unit_str@, self.table(), self.customs()) {
                Outcome::Done(u, e) => r matches Some(Ok(x)) && resolved_view(x) == u,
                Outcome::Failed(m) => r matches Some(Err(err)) && err.message@ == m
                    && err.line == 0 && err.col == 0,
                Outcome::Overflow => r is None,
            },
    {
        match self.resolve_parsed(unit_str) {
            Parsed::Done(u) => Some(Ok(u)),
            Parsed::Failed(e) => Some(Err(e)),
            Parsed::Overflow => None,
        }
    }

    /// Whether two units may be added: only when their dimensions agree.
    pub fn check_add_compatible(&self, lhs: &ResolvedUnit, rhs: &ResolvedUnit, line: u32, col: u32) -> (r: Result<(), UnitError>)
        ensures
            r is Ok <==> lhs.dim == rhs.dim,
            r matches Err(e) ==> e.message@ == add_mismatch_message(*lhs, *rhs) && e.line == line
                && e.col == col,
    {
        if lhs.dim == rhs.dim {
            Ok(())
        } else {
            let mut message = str_to_string("cannot add ");
            push_str(&mut message, lhs.original.as_str());
            push_str(&mut message, " and ");
            push_str(&mut message, rhs.original.as_str());
            push_str(&mut message, "\n  left:  ");
            let ln = lhs.dim.name();
            push_str(&mut message, ln.as_str());
            push_str(&mut message, "\n  right: ");
            let rn = rhs.dim.name();
            push_str(&mut message, rn.as_str());
            push_str(&mut message, "\n  hint: did you mean to convert units, or is this a logic error?");
            assert(message@ =~= add_mismatch_message(*lhs, *rhs));
            Err(UnitError { message, line, col })
        }
    }

    /// The product of two units.
    pub fn mul(&self, lhs: &ResolvedUnit, rhs: &ResolvedUnit) -> (r: ResolvedUnit)
        requires
            mul_fits(lhs.dim, rhs.dim),
        ensures
            unit_mul(resolved_view(*lhs), resolved_view(*rhs)) == Some(resolved_view(r)),
    {
        lhs.mul(rhs)
    }

    /// The quotient of two units.
    pub fn div(&self, lhs: &ResolvedUnit, rhs: &ResolvedUnit) -> (r: ResolvedUnit)
        requires
            div_fits(lhs.dim, rhs.dim),
        ensures
            unit_div(resolved_view(*lhs), resolved_view(*rhs)) == Some(resolved_view(r)),
    {
        lhs.div(rhs)
    }

    /// A unit raised to the integer power `n`.
    pub fn pow(&self, u: &ResolvedUnit, n: i8) -> (r: ResolvedUnit)
        requires
            pow_fits(u.dim, n as int),
        ensures
            unit_pow(resolved_view(*u), n as int) == Some(resolved_view(r)),
    {
        u.pow(n)
    }
}


impl Default for UnitResolver {
    fn default() -> (r: Self)
        ensures
            r.table() == si_rows(),
            r.customs() == Map::<Seq<char>, CustomUnitM>::empty(),
    {
        UnitResolver::new()
    }
}

} // verus!
