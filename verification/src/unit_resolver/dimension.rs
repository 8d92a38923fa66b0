//! SI dimension vectors: seven integer exponents over the SI base dimensions
//! [L, M, T, I, Θ, N, J] (length, mass, time, current, temperature, amount,
//! luminous intensity).
//!
//! | Operation   | Dimension result                  |
//! |-------------|-----------------------------------|
//! | a[U] * b[V] | U + V  (component-wise addition)  |
//! | a[U] / b[V] | U − V  (component-wise subtraction)|
//! | a[U] + b[V] | only if U == V                    |
//! | a[U] ^ n    | U * n  (scalar multiply)          |

use vstd::prelude::*;
use crate::text::{push_char, push_signed, str_to_string, signed_decimal, join};

verus! {

/// The 7-dimensional SI exponent vector.
#[derive(Debug, Clone, Copy, Eq, Hash)]
pub struct Dim {
    /// Exponents: [L, M, T, I, Θ, N, J]
    pub exp: [i8; 7],
}

impl PartialEq for Dim {
    fn eq(&self, other: &Dim) -> (r: bool) {
        let r = self.exp[0] == other.exp[0] && self.exp[1] == other.exp[1]
            && self.exp[2] == other.exp[2] && self.exp[3] == other.exp[3]
            && self.exp[4] == other.exp[4] && self.exp[5] == other.exp[5]
            && self.exp[6] == other.exp[6];
        proof {
            if r {
                assert(self.exp@ =~= other.exp@);
                lemma_dim_ext(*self, *other);
            }
        }
        r
    }
}

impl vstd::std_specs::cmp::PartialEqSpecImpl for Dim {
    open spec fn obeys_eq_spec() -> bool {
        true
    }

    open spec fn eq_spec(&self, other: &Dim) -> bool {
        *self == *other
    }
}

/// Two dimensions with the same exponents are the same dimension.
pub proof fn lemma_dim_ext(a: Dim, b: Dim)
    requires
        a.exp@ == b.exp@,
    ensures
        a == b,
{
    broadcast use vstd::array::axiom_array_ext_equal;
    assert forall|i: int| 0 <= i < 7 implies a.exp[i] == b.exp[i] by {
        assert(a.exp@[i] == b.exp@[i]);
    }
    assert(a.exp =~= b.exp);
}

/// True when `x` fits in an `i8`.
pub open spec fn fits_i8(x: int) -> bool {
    -128 <= x <= 127
}

/// A dimension built from seven exponents.
pub open spec fn dim_of(l: int, m: int, t: int, i: int, th: int, n: int, j: int) -> Dim {
    Dim { exp: [l as i8, m as i8, t as i8, i as i8, th as i8, n as i8, j as i8] }
}

/// Component-wise sum of the exponents fits in `i8`.
pub open spec fn mul_fits(a: Dim, b: Dim) -> bool {
    forall|k: int| 0 <= k < 7 ==> fits_i8(a.exp@[k] + b.exp@[k])
}

/// Component-wise difference of the exponents fits in `i8`.
pub open spec fn div_fits(a: Dim, b: Dim) -> bool {
    forall|k: int| 0 <= k < 7 ==> fits_i8(a.exp@[k] - b.exp@[k])
}

/// Every exponent times `n` fits in `i8`.
pub open spec fn pow_fits(a: Dim, n: int) -> bool {
    forall|k: int| 0 <= k < 7 ==> fits_i8(a.exp@[k] * n)
}

/// The exponent vector of a product.
pub open spec fn dim_mul(a: Dim, b: Dim) -> Seq<int> {
    Seq::new(7, |k: int| a.exp@[k] + b.exp@[k])
}

/// The exponent vector of a quotient.
pub open spec fn dim_div(a: Dim, b: Dim) -> Seq<int> {
    Seq::new(7, |k: int| a.exp@[k] - b.exp@[k])
}

/// The exponent vector of a power.
pub open spec fn dim_pow(a: Dim, n: int) -> Seq<int> {
    Seq::new(7, |k: int| a.exp@[k] * n)
}

/// The exponents of a dimension as integers.
pub open spec fn exps(a: Dim) -> Seq<int> {
    Seq::new(7, |k: int| a.exp@[k] as int)
}

/// The symbol of the `k`-th base dimension.
pub open spec fn base_symbol(k: int) -> Seq<char> {
    if k == 0 { seq!['L'] }
    else if k == 1 { seq!['M'] }
    else if k == 2 { seq!['T'] }
    else if k == 3 { seq!['I'] }
    else if k == 4 { seq!['Θ'] }
    else if k == 5 { seq!['N'] }
    else { seq!['J'] }
}

/// One rendered factor: the base symbol, followed by `^e` unless `e` is one.
pub open spec fn factor_text(k: int, e: int) -> Seq<char> {
    if e == 1 { base_symbol(k) } else { base_symbol(k) + seq!['^'] + signed_decimal(e) }
}

/// The rendered factors of the nonzero exponents among the first `i`.
pub open spec fn factors(exp: Seq<i8>, i: nat) -> Seq<Seq<char>>
    decreases i,
{
    if i == 0 {
        Seq::empty()
    } else {
        let prev = factors(exp, (i - 1) as nat);
        if exp[i - 1] != 0 { prev.push(factor_text(i - 1, exp[i - 1] as int)) } else { prev }
    }
}

/// The human-readable name of a dimension: a fixed name for the common
/// dimensions, else the nonzero factors joined by '·' inside brackets.
pub open spec fn dim_name(d: Dim) -> Seq<char> {
    if d == dim_of(0, 0, 0, 0, 0, 0, 0) { "dimensionless"@ }
    else if d == dim_of(1, 0, 0, 0, 0, 0, 0) { "[L] length"@ }
    else if d == dim_of(0, 1, 0, 0, 0, 0, 0) { "[M] mass"@ }
    else if d == dim_of(0, 0, 1, 0, 0, 0, 0) { "[T] time"@ }
    else if d == dim_of(0, 0, 0, 1, 0, 0, 0) { "[I] current"@ }
    else if d == dim_of(0, 0, 0, 0, 1, 0, 0) { "[Θ] temperature"@ }
    else if d == dim_of(0, 0, 0, 0, 0, 1, 0) { "[N] amount"@ }
    else if d == dim_of(0, 0, 0, 0, 0, 0, 1) { "[J] luminosity"@ }
    else if d == dim_of(1, 0, -1, 0, 0, 0, 0) { "[L·T⁻¹] velocity"@ }
    else if d == dim_of(1, 0, -2, 0, 0, 0, 0) { "[L·T⁻²] acceleration"@ }
    else if d == dim_of(1, 1, -2, 0, 0, 0, 0) { "[M·L·T⁻²] force"@ }
    else if d == dim_of(2, 1, -2, 0, 0, 0, 0) { "[M·L²·T⁻²] energy"@ }
    else if d == dim_of(2, 1, -3, 0, 0, 0, 0) { "[M·L²·T⁻³] power"@ }
    else if d == dim_of(-1, 1, -2, 0, 0, 0, 0) { "[M·L⁻¹·T⁻²] pressure"@ }
    else if d == dim_of(0, 0, -1, 0, 0, 0, 0) { "[T⁻¹] frequency"@ }
    else if d == dim_of(1, 1, -1, 0, 0, 0, 0) { "[M·L·T⁻¹] momentum"@ }
    else { seq!['['] + join(factors(d.exp@, 7), seq!['·']) + seq![']'] }
}

impl Dim {
    /// Construct from explicit exponents.
    pub fn new(l: i8, m: i8, t: i8, i: i8, theta: i8, n: i8, j: i8) -> (r: Dim)
        ensures
            r == dim_of(l as int, m as int, t as int, i as int, theta as int, n as int, j as int),
    {
        Dim { exp: [l, m, t, i, theta, n, j] }
    }

    /// Dimensionless (scalar): all exponents zero.
    pub fn dimensionless() -> (r: Dim) ensures r == dim_of(0, 0, 0, 0, 0, 0, 0) { Dim::new(0, 0, 0, 0, 0, 0, 0) }
    /// Length [L].
    pub fn length() -> (r: Dim) ensures r == dim_of(1, 0, 0, 0, 0, 0, 0) { Dim::new(1, 0, 0, 0, 0, 0, 0) }
    /// Mass [M].
    pub fn mass() -> (r: Dim) ensures r == dim_of(0, 1, 0, 0, 0, 0, 0) { Dim::new(0, 1, 0, 0, 0, 0, 0) }
    /// Time [T].
    pub fn time() -> (r: Dim) ensures r == dim_of(0, 0, 1, 0, 0, 0, 0) { Dim::new(0, 0, 1, 0, 0, 0, 0) }
    /// Electric current [I].
    pub fn current() -> (r: Dim) ensures r == dim_of(0, 0, 0, 1, 0, 0, 0) { Dim::new(0, 0, 0, 1, 0, 0, 0) }
    /// Temperature [Θ].
    pub fn temperature() -> (r: Dim) ensures r == dim_of(0, 0, 0, 0, 1, 0, 0) { Dim::new(0, 0, 0, 0, 1, 0, 0) }
    /// Amount of substance [N].
    pub fn amount() -> (r: Dim) ensures r == dim_of(0, 0, 0, 0, 0, 1, 0) { Dim::new(0, 0, 0, 0, 0, 1, 0) }
    /// Luminous intensity [J].
    pub fn luminosity() -> (r: Dim) ensures r == dim_of(0, 0, 0, 0, 0, 0, 1) { Dim::new(0, 0, 0, 0, 0, 0, 1) }
    /// Velocity, m/s.
    pub fn velocity() -> (r: Dim) ensures r == dim_of(1, 0, -1, 0, 0, 0, 0) { Dim::new(1, 0, -1, 0, 0, 0, 0) }
    /// Acceleration, m/s².
    pub fn acceleration() -> (r: Dim) ensures r == dim_of(1, 0, -2, 0, 0, 0, 0) { Dim::new(1, 0, -2, 0, 0, 0, 0) }
    /// Force, N = kg·m/s².
    pub fn force() -> (r: Dim) ensures r == dim_of(1, 1, -2, 0, 0, 0, 0) { Dim::new(1, 1, -2, 0, 0, 0, 0) }
    /// Energy, J = kg·m²/s².
    pub fn energy() -> (r: Dim) ensures r == dim_of(2, 1, -2, 0, 0, 0, 0) { Dim::new(2, 1, -2, 0, 0, 0, 0) }
    /// Power, W = kg·m²/s³.
    pub fn power() -> (r: Dim) ensures r == dim_of(2, 1, -3, 0, 0, 0, 0) { Dim::new(2, 1, -3, 0, 0, 0, 0) }
    /// Pressure, Pa = kg/(m·s²).
    pub fn pressure() -> (r: Dim) ensures r == dim_of(-1, 1, -2, 0, 0, 0, 0) { Dim::new(-1, 1, -2, 0, 0, 0, 0) }
    /// Frequency, Hz = 1/s.
    pub fn frequency() -> (r: Dim) ensures r == dim_of(0, 0, -1, 0, 0, 0, 0) { Dim::new(0, 0, -1, 0, 0, 0, 0) }
    /// Area, m².
    pub fn area() -> (r: Dim) ensures r == dim_of(2, 0, 0, 0, 0, 0, 0) { Dim::new(2, 0, 0, 0, 0, 0, 0) }
    /// Volume, m³.
    pub fn volume() -> (r: Dim) ensures r == dim_of(3, 0, 0, 0, 0, 0, 0) { Dim::new(3, 0, 0, 0, 0, 0, 0) }
    /// Density, kg/m³.
    pub fn density() -> (r: Dim) ensures r == dim_of(-3, 1, 0, 0, 0, 0, 0) { Dim::new(-3, 1, 0, 0, 0, 0, 0) }
    /// Momentum, kg·m/s.
    pub fn momentum() -> (r: Dim) ensures r == dim_of(1, 1, -1, 0, 0, 0, 0) { Dim::new(1, 1, -1, 0, 0, 0, 0) }
    /// Charge, C = A·s.
    pub fn charge() -> (r: Dim) ensures r == dim_of(0, 0, 1, 1, 0, 0, 0) { Dim::new(0, 0, 1, 1, 0, 0, 0) }
    /// Voltage, V = kg·m²/(A·s³).
    pub fn voltage() -> (r: Dim) ensures r == dim_of(2, 1, -3, -1, 0, 0, 0) { Dim::new(2, 1, -3, -1, 0, 0, 0) }

    /// Multiply two quantities: add exponent vectors.
    pub fn mul(self, rhs: Dim) -> (r: Dim)
        requires
            mul_fits(self, rhs),
        ensures
            exps(r) == dim_mul(self, rhs),
    {
        assert(fits_i8(self.exp@[0] + rhs.exp@[0]) && fits_i8(self.exp@[1] + rhs.exp@[1])
            && fits_i8(self.exp@[2] + rhs.exp@[2]) && fits_i8(self.exp@[3] + rhs.exp@[3])
            && fits_i8(self.exp@[4] + rhs.exp@[4]) && fits_i8(self.exp@[5] + rhs.exp@[5])
            && fits_i8(self.exp@[6] + rhs.exp@[6]));
        let r = Dim { exp: [
            self.exp[0] + rhs.exp[0],
            self.exp[1] + rhs.exp[1],
            self.exp[2] + rhs.exp[2],
            self.exp[3] + rhs.exp[3],
            self.exp[4] + rhs.exp[4],
            self.exp[5] + rhs.exp[5],
            self.exp[6] + rhs.exp[6],
        ] };
        assert(exps(r) =~= dim_mul(self, rhs));
        r
    }

    /// Divide two quantities: subtract exponent vectors.
    pub fn div(self, rhs: Dim) -> (r: Dim)
        requires
            div_fits(self, rhs),
        ensures
            exps(r) == dim_div(self, rhs),
    {
        assert(fits_i8(self.exp@[0] - rhs.exp@[0]) && fits_i8(self.exp@[1] - rhs.exp@[1])
            && fits_i8(self.exp@[2] - rhs.exp@[2]) && fits_i8(self.exp@[3] - rhs.exp@[3])
            && fits_i8(self.exp@[4] - rhs.exp@[4]) && fits_i8(self.exp@[5] - rhs.exp@[5])
            && fits_i8(self.exp@[6] - rhs.exp@[6]));
        let r = Dim { exp: [
            self.exp[0] - rhs.exp[0],
            self.exp[1] - rhs.exp[1],
            self.exp[2] - rhs.exp[2],
            self.exp[3] - rhs.exp[3],
            self.exp[4] - rhs.exp[4],
            self.exp[5] - rhs.exp[5],
            self.exp[6] - rhs.exp[6],
        ] };
        assert(exps(r) =~= dim_div(self, rhs));
        r
    }

    /// Raise to an integer power: multiply each exponent by n.
    pub fn pow(self, n: i8) -> (r: Dim)
        requires
            pow_fits(self, n as int),
        ensures
            exps(r) == dim_pow(self, n as int),
    {
        assert(fits_i8(self.exp@[0] * n) && fits_i8(self.exp@[1] * n) && fits_i8(self.exp@[2] * n)
            && fits_i8(self.exp@[3] * n) && fits_i8(self.exp@[4] * n) && fits_i8(self.exp@[5] * n)
            && fits_i8(self.exp@[6] * n));
        let r = Dim { exp: [
            self.exp[0] * n,
            self.exp[1] * n,
            self.exp[2] * n,
            self.exp[3] * n,
            self.exp[4] * n,
            self.exp[5] * n,
            self.exp[6] * n,
        ] };
        assert(exps(r) =~= dim_pow(self, n as int));
        r
    }

    /// Check that two dimensions match (for addition/subtraction).
    pub fn compatible_add(self, rhs: Dim) -> (r: bool)
        ensures
            r == (self == rhs),
    {
        self == rhs
    }

    /// Return true if this is dimensionless.
    pub fn is_dimensionless(self) -> (r: bool)
        ensures
            r == (self == dim_of(0, 0, 0, 0, 0, 0, 0)),
    {
        self == Dim::dimensionless()
    }

    /// Human-readable name for this dimension (for error messages).
    pub fn name(self) -> (r: String)
        ensures
            r@ == dim_name(self),
    {
        if self == Dim::dimensionless() { return str_to_string("dimensionless"); }
        if self == Dim::length() { return str_to_string("[L] length"); }
        if self == Dim::mass() { return str_to_string("[M] mass"); }
        if self == Dim::time() { return str_to_string("[T] time"); }
        if self == Dim::current() { return str_to_string("[I] current"); }
        if self == Dim::temperature() { return str_to_string("[Θ] temperature"); }
        if self == Dim::amount() { return str_to_string("[N] amount"); }
        if self == Dim::luminosity() { return str_to_string("[J] luminosity"); }
        if self == Dim::velocity() { return str_to_string("[L·T⁻¹] velocity"); }
        if self == Dim::acceleration() { return str_to_string("[L·T⁻²] acceleration"); }
        if self == Dim::force() { return str_to_string("[M·L·T⁻²] force"); }
        if self == Dim::energy() { return str_to_string("[M·L²·T⁻²] energy"); }
        if self == Dim::power() { return str_to_string("[M·L²·T⁻³] power"); }
        if self == Dim::pressure() { return str_to_string("[M·L⁻¹·T⁻²] pressure"); }
        if self == Dim::frequency() { return str_to_string("[T⁻¹] frequency"); }
        if self == Dim::momentum() { return str_to_string("[M·L·T⁻¹] momentum"); }
        let mut s = String::new();
        push_char(&mut s, '[');
        let mut i: usize = 0;
        let mut any = false;
        while i < 7
            invariant
                i <= 7,
                any == (factors(self.exp@, i as nat).len() > 0),
                s@ == seq!['['] + join(factors(self.exp@, i as nat), seq!['·']),
            decreases 7 - i,
        {
            let e = self.exp[i];
            if e != 0 {
                let ghost prev = factors(self.exp@, i as nat);
                if any {
                    push_char(&mut s, '·');
                }
                push_base_symbol(&mut s, i);
                if e != 1 {
                    push_char(&mut s, '^');
                    push_signed(&mut s, e as i64);
                }
                proof {
                    let next = factors(self.exp@, (i + 1) as nat);
                    assert(next == prev.push(factor_text(i as int, e as int)));
                    assert(next.drop_last() =~= prev);
                    if prev.len() == 0 {
                        assert(join(next, seq!['·']) == factor_text(i as int, e as int));
                    }
                }
                assert(s@ =~= seq!['['] + join(factors(self.exp@, (i + 1) as nat), seq!['·']));
                any = true;
            } else {
                assert(factors(self.exp@, (i + 1) as nat) == factors(self.exp@, i as nat));
            }
            i = i + 1;
        }
        push_char(&mut s, ']');
        assert(s@ =~= dim_name(self));
        s
    }
}

fn push_base_symbol(s: &mut String, k: usize)
    requires
        k < 7,
    ensures
        final(s)@ == old(s)@ + base_symbol(k as int),
{
    let c = if k == 0 { 'L' } else if k == 1 { 'M' } else if k == 2 { 'T' } else if k == 3 { 'I' }
        else if k == 4 { 'Θ' } else if k == 5 { 'N' } else { 'J' };
    push_char(s, c);
    assert(old(s)@.push(c) =~= old(s)@ + base_symbol(k as int));
}

/// The SI base dimensions, in the order of the exponent vector.
#[derive(Debug, Clone, Copy, PartialEq, Eq, Structural)]
pub enum Base {
    L,
    M,
    T,
    I,
    Theta,
    N,
    J,
}

/// The position of a base dimension in the exponent vector.
pub open spec fn base_index(b: Base) -> int {
    match b {
        Base::L => 0,
        Base::M => 1,
        Base::T => 2,
        Base::I => 3,
        Base::Theta => 4,
        Base::N => 5,
        Base::J => 6,
    }
}

impl Dim {
    /// The exponent of one base dimension.
    pub fn component(&self, b: Base) -> (r: i8)
        ensures
            r == self.exp[base_index(b)],
    {
        match b {
            Base::L => self.exp[0],
            Base::M => self.exp[1],
            Base::T => self.exp[2],
            Base::I => self.exp[3],
            Base::Theta => self.exp[4],
            Base::N => self.exp[5],
            Base::J => self.exp[6],
        }
    }
}

/// Multiplying quantities is commutative in their dimensions.
pub proof fn lemma_mul_commutes(a: Dim, b: Dim)
    ensures
        dim_mul(a, b) == dim_mul(b, a),
{
    assert(dim_mul(a, b) =~= dim_mul(b, a));
}

/// Multiplying quantities is associative in their dimensions: for products
/// `ab` of `a` and `b`, and `bc` of `b` and `c`, `ab·c` and `a·bc` have the
/// same exponents.
pub proof fn lemma_mul_associates(a: Dim, b: Dim, c: Dim, ab: Dim, bc: Dim)
    requires
        exps(ab) == dim_mul(a, b),
        exps(bc) == dim_mul(b, c),
    ensures
        dim_mul(ab, c) == dim_mul(a, bc),
{
    assert forall|k: int| 0 <= k < 7 implies #[trigger] dim_mul(ab, c)[k] == dim_mul(a, bc)[k] by {
        assert(exps(ab)[k] == ab.exp@[k] as int);
        assert(exps(bc)[k] == bc.exp@[k] as int);
    }
    assert(dim_mul(ab, c) =~= dim_mul(a, bc));
}

/// Dividing by `b` undoes multiplying by `b`: if `c` is the product of `a`
/// and `b`, then `c / b` has the dimension of `a`.
pub proof fn lemma_div_undoes_mul(a: Dim, b: Dim, c: Dim)
    requires
        exps(c) == dim_mul(a, b),
    ensures
        dim_div(c, b) == exps(a),
{
    assert forall|k: int| 0 <= k < 7 implies #[trigger] dim_div(c, b)[k] == exps(a)[k] by {
        assert(exps(c)[k] == c.exp@[k] as int);
    }
    assert(dim_div(c, b) =~= exps(a));
}

/// A quantity divided by one of its own dimension is dimensionless.
pub proof fn lemma_self_quotient_dimensionless(a: Dim)
    ensures
        dim_div(a, a) == exps(dim_of(0, 0, 0, 0, 0, 0, 0)),
{
    let z = dim_of(0, 0, 0, 0, 0, 0, 0);
    assert(z.exp@ =~= seq![0i8, 0i8, 0i8, 0i8, 0i8, 0i8, 0i8]);
    assert(dim_div(a, a) =~= exps(z));
}

/// Squaring a quantity multiplies it by itself.
pub proof fn lemma_square_is_self_product(a: Dim)
    ensures
        dim_pow(a, 2) == dim_mul(a, a),
{
    assert(dim_pow(a, 2) =~= dim_mul(a, a));
}

/// Raising to `m + n` is raising to `m` times raising to `n`: if `x` is `a`
/// to the `m` and `y` is `a` to the `n`, their product has the exponents of
/// `a` to the `m + n`.
pub proof fn lemma_pow_adds(a: Dim, m: int, n: int, x: Dim, y: Dim)
    requires
        exps(x) == dim_pow(a, m),
        exps(y) == dim_pow(a, n),
    ensures
        dim_mul(x, y) == dim_pow(a, m + n),
{
    assert forall|k: int| 0 <= k < 7 implies #[trigger] dim_mul(x, y)[k] == dim_pow(a, m + n)[k] by {
        assert(exps(x)[k] == x.exp@[k] as int);
        assert(exps(y)[k] == y.exp@[k] as int);
        assert(a.exp@[k] * m + a.exp@[k] * n == a.exp@[k] * (m + n)) by (nonlinear_arith);
    }
    assert(dim_mul(x, y) =~= dim_pow(a, m + n));
}

} // verus!
