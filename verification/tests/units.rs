use nova::unit_resolver::dimension::{Base, Dim};
use nova::unit_resolver::error::UnitError;

#[test]
fn mul_kg_ms2_gives_newton() {
    let result = Dim::mass().mul(Dim::acceleration());
    assert_eq!(result, Dim::force());
}

#[test]
fn div_m_s_gives_velocity() {
    let result = Dim::length().div(Dim::time());
    assert_eq!(result, Dim::velocity());
}

#[test]
fn pow_length_2_gives_area() {
    let result = Dim::length().pow(2);
    assert_eq!(result, Dim::area());
}

#[test]
fn compatible_add_same_dim() {
    assert!(Dim::mass().compatible_add(Dim::mass()));
}

#[test]
fn incompatible_add_different_dims() {
    assert!(!Dim::mass().compatible_add(Dim::length()));
}

#[test]
fn dimensionless_check() {
    assert!(Dim::dimensionless().is_dimensionless());
    assert!(!Dim::mass().is_dimensionless());
}

#[test]
fn force_divided_by_mass_gives_acceleration() {
    let result = Dim::force().div(Dim::mass());
    assert_eq!(result, Dim::acceleration());
}

#[test]
fn energy_name() {
    assert!(Dim::energy().name().contains("energy"));
}

#[test]
fn rocket_equation_units() {
    let result = Dim::time().mul(Dim::acceleration());
    assert_eq!(result, Dim::velocity());
}

#[test]
fn isp_units_resolve_to_seconds() {
    let force = Dim::force();
    let mass_rate = Dim::mass().div(Dim::time());
    let accel = Dim::acceleration();
    let denominator = mass_rate.mul(accel);
    let isp_dim = force.div(denominator);
    assert_eq!(isp_dim, Dim::time());
}

#[test]
fn delta_v_unit_chain() {
    let isp_dim = Dim::time();
    let g0_dim = Dim::acceleration();
    let result = isp_dim.mul(g0_dim);
    assert_eq!(result, Dim::velocity());
}

#[test]
fn hubble_constant_units() {
    let vel_dim = Dim::velocity();
    let len_dim = Dim::length();
    let h0_dim = vel_dim.div(len_dim);
    assert_eq!(h0_dim, Dim::frequency());
}

#[test]
fn delta_v_chain() {
    let isp = Dim::time();
    let g0 = Dim::acceleration();
    assert_eq!(isp.mul(g0), Dim::velocity());
}

#[test]
fn hubble_constant_chain() {
    assert_eq!(Dim::velocity().div(Dim::length()), Dim::frequency());
}

#[test]
fn stefan_boltzmann_units() {
    let sigma = Dim::power().div(Dim::area()).div(Dim::temperature().pow(4));
    assert_eq!(sigma.exp[0], 0);
    assert_eq!(sigma.exp[1], 1);
    assert_eq!(sigma.exp[2], -3);
    assert_eq!(sigma.exp[4], -4);
}

#[test]
fn names_of_dimensions() {
    assert_eq!(Dim::velocity().name(), "[L·T⁻¹] velocity");
    assert_eq!(Dim::dimensionless().name(), "dimensionless");
    assert_eq!(Dim::new(1, 2, 0, 0, 0, 0, -1).name(), "[L·M^2·J^-1]");
}

#[test]
fn mul_then_div_restores() {
    let a = Dim::energy();
    let b = Dim::time();
    assert_eq!(a.mul(b).div(b), a);
    assert_eq!(a.component(Base::L), 2);
    assert_eq!(a.component(Base::T), -2);
}

#[test]
fn unit_error_text() {
    assert_eq!(UnitError::new("bad unit").to_text(), "unit error: bad unit");
    assert_eq!(UnitError::at("bad unit", 3, 4).to_text(), "3:4: unit error: bad unit");
}
