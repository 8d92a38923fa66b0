use nova::unit_resolver::custom_units::CustomUnitRegistry;
use nova::unit_resolver::dimension::Dim;
use nova::unit_resolver::resolver::{ResolvedUnit, UnitResolver};
use nova::unit_resolver::scale::Scale;
use nova::unit_resolver::si_table::{build_si_table, si_lookup, UnitEntry};

/// The number a scale factor stands for.
fn value(s: &Scale) -> f64 {
    match s {
        Scale::Literal(t) => t.parse::<f64>().unwrap(),
        Scale::Product(a, b) => value(a) * value(b),
        Scale::Quotient(a, b) => value(a) / value(b),
        Scale::Power(a, n) => value(a).powi(*n as i32),
    }
}

fn r(s: &str) -> ResolvedUnit {
    UnitResolver::new().resolve_unit_str(s).expect(s)
}

fn entry<'a>(t: &'a Vec<(String, UnitEntry)>, sym: &str) -> &'a UnitEntry {
    si_lookup(t, &sym.to_string()).expect(sym)
}

// ── SI table ─────────────────────────────────────────────────────────────────

#[test]
fn lookup_kg() {
    let t = build_si_table();
    let e = entry(&t, "kg");
    assert_eq!(e.dim, Dim::mass());
    assert!((value(&e.scale) - 1.0).abs() < 1e-10);
}

#[test]
fn lookup_km_scale() {
    let t = build_si_table();
    let e = entry(&t, "km");
    assert_eq!(e.dim, Dim::length());
    assert!((value(&e.scale) - 1000.0).abs() < 0.1);
}

#[test]
fn lookup_ev() {
    let t = build_si_table();
    let e = entry(&t, "eV");
    assert_eq!(e.dim, Dim::energy());
    assert!((value(&e.scale) - 1.602e-19).abs() < 1e-22);
}

#[test]
fn lookup_newton() {
    let t = build_si_table();
    assert_eq!(entry(&t, "N").dim, Dim::force());
}

#[test]
fn lookup_solar_mass() {
    let t = build_si_table();
    assert!(si_lookup(&t, &"M_sun".to_string()).is_some());
    assert!(si_lookup(&t, &"M☉".to_string()).is_some());
    assert_eq!(entry(&t, "M_sun").dim, entry(&t, "M☉").dim);
}

#[test]
fn lookup_velocity_shorthand() {
    let t = build_si_table();
    assert_eq!(entry(&t, "m/s").dim, Dim::velocity());
    assert_eq!(entry(&t, "km/s").dim, Dim::velocity());
}

#[test]
fn lookup_acceleration_both_keys() {
    let t = build_si_table();
    assert_eq!(entry(&t, "m/s2").dim, Dim::acceleration());
    assert_eq!(entry(&t, "m/s^2").dim, Dim::acceleration());
}

#[test]
fn all_entries_have_nonzero_scale() {
    for (sym, entry) in build_si_table() {
        assert!(value(&entry.scale) > 0.0, "scale for {} must be positive", sym);
    }
}

#[test]
fn table_symbols_are_distinct_and_named() {
    let t = build_si_table();
    assert_eq!(t.len(), 89);
    for i in 0..t.len() {
        for j in i + 1..t.len() {
            assert_ne!(t[i].0, t[j].0);
        }
    }
    assert_eq!(entry(&t, "AU").display, "astronomical unit");
    assert!(si_lookup(&t, &"furlong".to_string()).is_none());
}

// ── Custom units ─────────────────────────────────────────────────────────────

#[test]
fn register_parsec() {
    let si = build_si_table();
    let mut reg = CustomUnitRegistry::new();
    reg.register("parsec", "3.086e16", entry(&si, "m"), "3.086e16[m]");
    let cu = reg.get("parsec").expect("parsec registered");
    assert_eq!(cu.dim, Dim::length());
    assert!((value(&cu.scale) - 3.086e16).abs() < 1e10);
}

#[test]
fn register_solar_luminosity() {
    let si = build_si_table();
    let mut reg = CustomUnitRegistry::new();
    reg.register("L_star", "3.828e26", entry(&si, "W"), "3.828e26[W]");
    let cu = reg.get("L_star").expect("L_star registered");
    assert_eq!(cu.dim, Dim::power());
}

#[test]
fn to_unit_entry_roundtrip() {
    let si = build_si_table();
    let mut reg = CustomUnitRegistry::new();
    reg.register("earth_rad", "6.371e6", entry(&si, "m"), "6.371e6[m]");
    let e = reg.to_unit_entry("earth_rad").expect("entry");
    assert_eq!(e.dim, Dim::length());
    assert!((value(&e.scale) - 6.371e6).abs() < 1.0);
    assert_eq!(e.display, "custom");
}

#[test]
fn missing_unit_returns_none() {
    let reg = CustomUnitRegistry::new();
    assert!(reg.get("nonexistent").is_none());
}

#[test]
fn registering_again_replaces() {
    let si = build_si_table();
    let mut reg = CustomUnitRegistry::new();
    reg.register("x", "2.0", entry(&si, "m"), "2.0[m]");
    reg.register("x", "3.0", entry(&si, "s"), "3.0[s]");
    assert_eq!(reg.iter().len(), 1);
    let cu = reg.get("x").unwrap();
    assert_eq!(cu.dim, Dim::time());
    assert_eq!(cu.source_expr, "3.0[s]");
    assert!((value(&cu.scale) - 3.0).abs() < 1e-12);
    assert!(reg.contains("x"));
    assert!(!reg.contains("y"));
}

// ── Resolving symbols ────────────────────────────────────────────────────────

#[test]
fn resolve_kg() {
    assert_eq!(r("kg").dim, Dim::mass());
}

#[test]
fn resolve_m() {
    assert_eq!(r("m").dim, Dim::length());
}

#[test]
fn resolve_s() {
    assert_eq!(r("s").dim, Dim::time());
}

#[test]
fn resolve_newton() {
    assert_eq!(r("N").dim, Dim::force());
}

#[test]
fn resolve_m_per_s() {
    assert_eq!(r("m/s").dim, Dim::velocity());
}

#[test]
fn resolve_km_per_s() {
    let u = r("km/s");
    assert_eq!(u.dim, Dim::velocity());
    assert!((value(&u.scale) - 1000.0).abs() < 0.1);
}

#[test]
fn resolve_m_per_s2_ascii() {
    assert_eq!(r("m/s^2").dim, Dim::acceleration());
}

#[test]
fn resolve_gravitational_constant_units() {
    let u = r("N*m^2/kg^2");
    let expected = Dim::force().mul(Dim::area()).div(Dim::mass().pow(2));
    assert_eq!(u.dim, expected);
}

#[test]
fn resolve_hubble_constant_units() {
    assert_eq!(r("km/s").dim, Dim::velocity());
}

#[test]
fn resolve_energy_ev() {
    let u = r("eV");
    assert_eq!(u.dim, Dim::energy());
    assert!((value(&u.scale) - 1.602e-19).abs() < 1e-22);
}

#[test]
fn thrust_divided_by_mass_flow_gives_velocity() {
    let res = UnitResolver::new();
    let _thrust = res.resolve_unit_str("N").unwrap();
    let mass_flow = res.resolve_unit_str("kg/s").unwrap();
    let kg_per_s = Dim::mass().div(Dim::time());
    assert_eq!(mass_flow.dim, kg_per_s);
}

#[test]
fn add_compatible_same_dim() {
    let res = UnitResolver::new();
    let a = res.resolve_unit_str("kg").unwrap();
    let b = res.resolve_unit_str("kg").unwrap();
    assert!(res.check_add_compatible(&a, &b, 0, 0).is_ok());
}

#[test]
fn add_incompatible_kg_plus_m() {
    let res = UnitResolver::new();
    let kg = res.resolve_unit_str("kg").unwrap();
    let m = res.resolve_unit_str("m").unwrap();
    let err = res.check_add_compatible(&kg, &m, 10, 5).unwrap_err();
    assert!(err.message.contains("cannot add"));
    assert!(err.message.contains("mass") || err.message.contains("length") || err.message.contains("M") || err.message.contains("L"));
    assert_eq!(err.line, 10);
    assert_eq!(err.col, 5);
}

#[test]
fn custom_unit_parsec() {
    let mut res = UnitResolver::new();
    res.register_custom_unit("parsec", "3.086e16", "m", "3.086e16[m]", 1, 1).unwrap();
    let u = res.resolve_unit_str("parsec").unwrap();
    assert_eq!(u.dim, Dim::length());
    assert!((value(&u.scale) - 3.086e16).abs() < 1e10);
}

#[test]
fn custom_unit_unknown_base_errors() {
    let mut res = UnitResolver::new();
    let err = res.register_custom_unit("myunit", "1.0", "foobar", "1.0[foobar]", 5, 3);
    assert!(err.is_err());
    let err = err.unwrap_err();
    assert!(err.message.contains("foobar"));
    assert_eq!(err.message, "base unit 'foobar' not found in SI table");
    assert_eq!((err.line, err.col), (5, 3));
}

#[test]
fn unknown_unit_errors() {
    let err = UnitResolver::new().resolve_unit_str("furlongs").unwrap_err();
    assert!(err.message.contains("furlongs"));
    assert!(err.message.contains("hint"));
}

#[test]
fn empty_unit_string_errors() {
    assert!(UnitResolver::new().resolve_unit_str("").is_err());
    assert!(UnitResolver::new().resolve_unit_str("   ").is_err());
    assert_eq!(UnitResolver::new().resolve_unit_str(" \t ").unwrap_err().message, "empty unit expression");
}

#[test]
fn unit_mismatch_error_message_quality() {
    let res = UnitResolver::new();
    let kg = res.resolve_unit_str("kg").unwrap();
    let m = res.resolve_unit_str("m").unwrap();
    let err = res.check_add_compatible(&kg, &m, 12, 3).unwrap_err();
    assert!(err.message.contains("kg") || err.message.contains("m"));
    assert!(err.message.contains("hint"));
    assert_eq!(
        err.message,
        "cannot add kg and m\n  left:  [M] mass\n  right: [L] length\n  hint: did you mean to convert units, or is this a logic error?"
    );
}

// ── The resolver from outside ────────────────────────────────────────────────

#[test]
fn base_length() {
    assert_eq!(r("m").dim, Dim::length());
}

#[test]
fn base_mass() {
    assert_eq!(r("kg").dim, Dim::mass());
}

#[test]
fn base_time() {
    assert_eq!(r("s").dim, Dim::time());
}

#[test]
fn base_temperature() {
    assert_eq!(r("K").dim, Dim::temperature());
}

#[test]
fn base_current() {
    assert_eq!(r("A").dim, Dim::current());
}

#[test]
fn base_amount() {
    assert_eq!(r("mol").dim, Dim::amount());
}

#[test]
fn base_luminosity() {
    assert_eq!(r("cd").dim, Dim::luminosity());
}

#[test]
fn derived_velocity() {
    assert_eq!(r("m/s").dim, Dim::velocity());
}

#[test]
fn derived_acceleration() {
    assert_eq!(r("m/s^2").dim, Dim::acceleration());
}

#[test]
fn derived_force_n() {
    assert_eq!(r("N").dim, Dim::force());
}

#[test]
fn derived_energy_j() {
    assert_eq!(r("J").dim, Dim::energy());
}

#[test]
fn derived_power_w() {
    assert_eq!(r("W").dim, Dim::power());
}

#[test]
fn derived_pressure_pa() {
    assert_eq!(r("Pa").dim, Dim::pressure());
}

#[test]
fn derived_frequency_hz() {
    assert_eq!(r("Hz").dim, Dim::frequency());
}

#[test]
fn compound_grav_constant() {
    let u = r("N*m^2/kg^2");
    let expected = Dim::force().mul(Dim::area()).div(Dim::mass().pow(2));
    assert_eq!(u.dim, expected);
}

#[test]
fn compound_energy_kg_m2_s2() {
    assert_eq!(r("kg*m^2/s^2").dim, Dim::energy());
}

#[test]
fn compound_momentum() {
    assert_eq!(r("kg*m/s").dim, Dim::momentum());
}

#[test]
fn scale_km_1000() {
    assert!((value(&r("km").scale) - 1000.0).abs() < 0.1);
}

#[test]
fn scale_ev() {
    assert!((value(&r("eV").scale) - 1.602e-19).abs() < 1e-22);
}

#[test]
fn scale_au() {
    assert!((value(&r("AU").scale) - 1.496e11).abs() < 1e7);
}

#[test]
fn scale_solar_mass() {
    assert!((value(&r("M_sun").scale) - 1.989e30).abs() < 1e25);
}

#[test]
fn custom_parsec_length() {
    let mut res = UnitResolver::new();
    res.register_custom_unit("parsec", "3.086e16", "m", "3.086e16[m]", 0, 0).unwrap();
    let u = res.resolve_unit_str("parsec").unwrap();
    assert_eq!(u.dim, Dim::length());
    assert!((value(&u.scale) - 3.086e16).abs() < 1e10);
}

#[test]
fn custom_unit_usable_in_compound() {
    let mut res = UnitResolver::new();
    res.register_custom_unit("au", "1.496e11", "m", "1.496e11[m]", 0, 0).unwrap();
    let u = res.resolve_unit_str("au").unwrap();
    assert_eq!(u.dim, Dim::length());
    let v = res.resolve_unit_str("au/s").unwrap();
    assert_eq!(v.dim, Dim::velocity());
    assert!((value(&v.scale) - 1.496e11).abs() < 1e3);
}

#[test]
fn add_kg_kg_ok() {
    let res = UnitResolver::new();
    let a = res.resolve_unit_str("kg").unwrap();
    let b = res.resolve_unit_str("kg").unwrap();
    assert!(res.check_add_compatible(&a, &b, 0, 0).is_ok());
}

#[test]
fn add_km_m_ok_same_dim() {
    let res = UnitResolver::new();
    let a = res.resolve_unit_str("km").unwrap();
    let b = res.resolve_unit_str("m").unwrap();
    assert!(res.check_add_compatible(&a, &b, 0, 0).is_ok());
}

#[test]
fn add_kg_m_fails() {
    let res = UnitResolver::new();
    let kg = res.resolve_unit_str("kg").unwrap();
    let m = res.resolve_unit_str("m").unwrap();
    let err = res.check_add_compatible(&kg, &m, 1, 1).unwrap_err();
    assert!(err.message.contains("cannot add"));
    assert!(err.message.contains("hint"));
    assert_eq!(err.line, 1);
}

#[test]
fn unknown_unit_error_has_hint() {
    let err = UnitResolver::new().resolve_unit_str("lightyears").unwrap_err();
    assert!(err.message.contains("hint"));
    assert!(err.message.contains("lightyears"));
}

// ── The grammar ──────────────────────────────────────────────────────────────

#[test]
fn superscripts_middle_dot_and_parentheses() {
    assert_eq!(r("m/s²").dim, Dim::acceleration());
    assert_eq!(r("kg·m²/s²").dim, Dim::energy());
    assert_eq!(r("m³").dim, Dim::volume());
    assert_eq!(r(" kg / ( m * s ) ").dim, Dim::new(-1, 1, -1, 0, 0, 0, 0));
    // a missing closing parenthesis is accepted
    assert_eq!(r("kg/(m*s").dim, Dim::new(-1, 1, -1, 0, 0, 0, 0));
    assert_eq!(r("s^-1").dim, Dim::frequency());
    assert_eq!(r("m ^ 2").dim, Dim::area());
    // `^` with no digits is the power zero
    assert_eq!(r("m^").dim, Dim::dimensionless());
    // a digit after the first character ends a symbol
    assert!(UnitResolver::new().resolve_unit_str("m2").is_err());
}

#[test]
fn display_text_and_scale_of_compounds() {
    let u = r("km·s^-2");
    assert_eq!(u.original, "km·s^-2");
    assert_eq!(u.dim, Dim::new(1, 0, -2, 0, 0, 0, 0));
    assert!((value(&u.scale) - 1000.0).abs() < 1e-9);
    let v = r("mi/hr");
    assert_eq!(v.original, "mi/hr");
    assert!((value(&v.scale) - 0.44704).abs() < 1e-9);
}

#[test]
fn resolution_errors() {
    let res = UnitResolver::new();
    assert_eq!(res.resolve_unit_str("m s").unwrap_err().message, "unexpected trailing input in unit expression: 's'");
    assert_eq!(res.resolve_unit_str("*m").unwrap_err().message, "expected unit symbol");
    assert_eq!(
        res.resolve_unit_str("xyz").unwrap_err().message,
        "unknown unit symbol 'xyz'\n  hint: is this a custom unit? declare it with `unit xyz = <value>[<base_unit>]`"
    );
}

#[test]
fn exponent_overflow_is_reported() {
    let res = UnitResolver::new();
    assert!(res.try_resolve_unit_str("m^200").is_none());
    assert!(res.try_resolve_unit_str("m^100*m^100").is_none());
    assert!(res.try_resolve_unit_str("m^127").unwrap().is_ok());
    assert!(res.try_resolve_unit_str("bogus").unwrap().is_err());
}

#[test]
fn unit_arithmetic_through_resolver() {
    let res = UnitResolver::new();
    let m = res.resolve_unit_str("m").unwrap();
    let s = res.resolve_unit_str("s").unwrap();
    let v = res.div(&m, &s);
    assert_eq!(v.dim, Dim::velocity());
    assert_eq!(v.original, "m/s");
    let a = res.mul(&m, &m);
    assert_eq!(a.original, "m·m");
    let p = res.pow(&s, -2);
    assert_eq!(p.original, "s^-2");
    assert_eq!(p.dim, Dim::new(0, 0, -2, 0, 0, 0, 0));
}
