//! The SI unit table: each unit symbol as written in NOVA source, with its
//! dimension, its scale factor relative to the SI base unit, and its name.
//! Scale factors are used in unit conversion, not in type checking: only the
//! dimension matters for type safety.

use vstd::prelude::*;
use crate::unit_resolver::dimension::{Dim, dim_of};
use crate::unit_resolver::scale::{Scale, ScaleM, scale_view};
use crate::text::str_to_string;

verus! {

/// One entry of the SI unit table.
#[derive(Debug)]
pub struct UnitEntry {
    /// The canonical SI dimension vector.
    pub dim: Dim,
    /// Scale factor: 1 [this unit] = scale [SI base unit].
    pub scale: Scale,
    /// Human-readable name, for error messages.
    pub display: String,
}

/// A row of the table over plain values: symbol, dimension, scale, name.
pub type SiRow = (Seq<char>, Dim, ScaleM, Seq<char>);

/// The plain value of a table row.
pub open spec fn row_view(r: (String, UnitEntry)) -> SiRow {
    (r.0@, r.1.dim, scale_view(r.1.scale), r.1.display@)
}

/// The plain values of table rows.
pub open spec fn rows_view(rs: Seq<(String, UnitEntry)>) -> Seq<SiRow> {
    rs.map_values(|r: (String, UnitEntry)| row_view(r))
}

/// The index of the first row for `sym`, if any.
pub open spec fn row_index(rows: Seq<SiRow>, sym: Seq<char>) -> Option<int>
    decreases rows.len(),
{
    if rows.len() == 0 {
        None
    } else if rows.last().0 == sym && row_index(rows.drop_last(), sym) is None {
        Some(rows.len() - 1)
    } else {
        row_index(rows.drop_last(), sym)
    }
}

/// The rows of the length units.
pub open spec fn length_rows() -> Seq<SiRow> {
    seq![
        ("m"@, dim_of(1, 0, 0, 0, 0, 0, 0), ScaleM::Lit("1.0"@), "metre"@),
        ("cm"@, dim_of(1, 0, 0, 0, 0, 0, 0), ScaleM::Lit("1e-2"@), "centimetre"@),
        ("mm"@, dim_of(1, 0, 0, 0, 0, 0, 0), ScaleM::Lit("1e-3"@), "millimetre"@),
        ("km"@, dim_of(1, 0, 0, 0, 0, 0, 0), ScaleM::Lit("1e3"@), "kilometre"@),
        ("nm"@, dim_of(1, 0, 0, 0, 0, 0, 0), ScaleM::Lit("1e-9"@), "nanometre"@),
        ("um"@, dim_of(1, 0, 0, 0, 0, 0, 0), ScaleM::Lit("1e-6"@), "micrometre"@),
        ("AU"@, dim_of(1, 0, 0, 0, 0, 0, 0), ScaleM::Lit("1.496e11"@), "astronomical unit"@),
        ("ly"@, dim_of(1, 0, 0, 0, 0, 0, 0), ScaleM::Lit("9.461e15"@), "light-year"@),
        ("pc"@, dim_of(1, 0, 0, 0, 0, 0, 0), ScaleM::Lit("3.086e16"@), "parsec"@),
        ("kpc"@, dim_of(1, 0, 0, 0, 0, 0, 0), ScaleM::Lit("3.086e19"@), "kiloparsec"@),
        ("Mpc"@, dim_of(1, 0, 0, 0, 0, 0, 0), ScaleM::Lit("3.086e22"@), "megaparsec"@),
        ("ft"@, dim_of(1, 0, 0, 0, 0, 0, 0), ScaleM::Lit("0.3048"@), "foot"@),
        ("in"@, dim_of(1, 0, 0, 0, 0, 0, 0), ScaleM::Lit("0.0254"@), "inch"@),
        ("mi"@, dim_of(1, 0, 0, 0, 0, 0, 0), ScaleM::Lit("1609.344"@), "mile"@),
    ]
}

/// The rows of the mass units.
pub open spec fn mass_rows() -> Seq<SiRow> {
    seq![
        ("kg"@, dim_of(0, 1, 0, 0, 0, 0, 0), ScaleM::Lit("1.0"@), "kilogram"@),
        ("g"@, dim_of(0, 1, 0, 0, 0, 0, 0), ScaleM::Lit("1e-3"@), "gram"@),
        ("mg"@, dim_of(0, 1, 0, 0, 0, 0, 0), ScaleM::Lit("1e-6"@), "milligram"@),
        ("t"@, dim_of(0, 1, 0, 0, 0, 0, 0), ScaleM::Lit("1e3"@), "metric tonne"@),
        ("lb"@, dim_of(0, 1, 0, 0, 0, 0, 0), ScaleM::Lit("0.453592"@), "pound"@),
        ("oz"@, dim_of(0, 1, 0, 0, 0, 0, 0), ScaleM::Lit("0.028350"@), "ounce"@),
        ("M_sun"@, dim_of(0, 1, 0, 0, 0, 0, 0), ScaleM::Lit("1.989e30"@), "solar mass"@),
        ("M\u{2609}"@, dim_of(0, 1, 0, 0, 0, 0, 0), ScaleM::Lit("1.989e30"@), "solar mass"@),
        ("u"@, dim_of(0, 1, 0, 0, 0, 0, 0), ScaleM::Lit("1.6605e-27"@), "atomic mass unit"@),
    ]
}

/// The rows of the time units.
pub open spec fn time_rows() -> Seq<SiRow> {
    seq![
        ("s"@, dim_of(0, 0, 1, 0, 0, 0, 0), ScaleM::Lit("1.0"@), "second"@),
        ("ms"@, dim_of(0, 0, 1, 0, 0, 0, 0), ScaleM::Lit("1e-3"@), "millisecond"@),
        ("us"@, dim_of(0, 0, 1, 0, 0, 0, 0), ScaleM::Lit("1e-6"@), "microsecond"@),
        ("ns"@, dim_of(0, 0, 1, 0, 0, 0, 0), ScaleM::Lit("1e-9"@), "nanosecond"@),
        ("min"@, dim_of(0, 0, 1, 0, 0, 0, 0), ScaleM::Lit("60.0"@), "minute"@),
        ("hr"@, dim_of(0, 0, 1, 0, 0, 0, 0), ScaleM::Lit("3600.0"@), "hour"@),
        ("day"@, dim_of(0, 0, 1, 0, 0, 0, 0), ScaleM::Lit("86400.0"@), "day"@),
        ("yr"@, dim_of(0, 0, 1, 0, 0, 0, 0), ScaleM::Lit("3.156e7"@), "year"@),
        ("Myr"@, dim_of(0, 0, 1, 0, 0, 0, 0), ScaleM::Lit("3.156e13"@), "megayear"@),
        ("Gyr"@, dim_of(0, 0, 1, 0, 0, 0, 0), ScaleM::Lit("3.156e16"@), "gigayear"@),
    ]
}

/// The rows of the base units.
pub open spec fn base_rows() -> Seq<SiRow> {
    seq![
        ("K"@, dim_of(0, 0, 0, 0, 1, 0, 0), ScaleM::Lit("1.0"@), "kelvin"@),
        ("C"@, dim_of(0, 0, 0, 0, 1, 0, 0), ScaleM::Lit("1.0"@), "degree Celsius"@),
        ("F"@, dim_of(0, 0, 0, 0, 1, 0, 0), ScaleM::Lit("1.0"@), "degree Fahrenheit"@),
        ("A"@, dim_of(0, 0, 0, 1, 0, 0, 0), ScaleM::Lit("1.0"@), "ampere"@),
        ("mA"@, dim_of(0, 0, 0, 1, 0, 0, 0), ScaleM::Lit("1e-3"@), "milliampere"@),
        ("mol"@, dim_of(0, 0, 0, 0, 0, 1, 0), ScaleM::Lit("1.0"@), "mole"@),
        ("cd"@, dim_of(0, 0, 0, 0, 0, 0, 1), ScaleM::Lit("1.0"@), "candela"@),
    ]
}

/// The rows of the mechanics units.
pub open spec fn mechanics_rows() -> Seq<SiRow> {
    seq![
        ("N"@, dim_of(1, 1, -2, 0, 0, 0, 0), ScaleM::Lit("1.0"@), "newton"@),
        ("kN"@, dim_of(1, 1, -2, 0, 0, 0, 0), ScaleM::Lit("1e3"@), "kilonewton"@),
        ("MN"@, dim_of(1, 1, -2, 0, 0, 0, 0), ScaleM::Lit("1e6"@), "meganewton"@),
        ("lbf"@, dim_of(1, 1, -2, 0, 0, 0, 0), ScaleM::Lit("4.4482"@), "pound-force"@),
        ("J"@, dim_of(2, 1, -2, 0, 0, 0, 0), ScaleM::Lit("1.0"@), "joule"@),
        ("kJ"@, dim_of(2, 1, -2, 0, 0, 0, 0), ScaleM::Lit("1e3"@), "kilojoule"@),
        ("MJ"@, dim_of(2, 1, -2, 0, 0, 0, 0), ScaleM::Lit("1e6"@), "megajoule"@),
        ("GJ"@, dim_of(2, 1, -2, 0, 0, 0, 0), ScaleM::Lit("1e9"@), "gigajoule"@),
        ("cal"@, dim_of(2, 1, -2, 0, 0, 0, 0), ScaleM::Lit("4.184"@), "calorie"@),
        ("kcal"@, dim_of(2, 1, -2, 0, 0, 0, 0), ScaleM::Lit("4184.0"@), "kilocalorie"@),
        ("eV"@, dim_of(2, 1, -2, 0, 0, 0, 0), ScaleM::Lit("1.602e-19"@), "electron volt"@),
        ("keV"@, dim_of(2, 1, -2, 0, 0, 0, 0), ScaleM::Lit("1.602e-16"@), "kiloelectron volt"@),
        ("MeV"@, dim_of(2, 1, -2, 0, 0, 0, 0), ScaleM::Lit("1.602e-13"@), "megaelectron volt"@),
        ("GeV"@, dim_of(2, 1, -2, 0, 0, 0, 0), ScaleM::Lit("1.602e-10"@), "gigaelectron volt"@),
        ("erg"@, dim_of(2, 1, -2, 0, 0, 0, 0), ScaleM::Lit("1e-7"@), "erg"@),
    ]
}

/// The rows of the power and pressure units.
pub open spec fn power_pressure_rows() -> Seq<SiRow> {
    seq![
        ("W"@, dim_of(2, 1, -3, 0, 0, 0, 0), ScaleM::Lit("1.0"@), "watt"@),
        ("kW"@, dim_of(2, 1, -3, 0, 0, 0, 0), ScaleM::Lit("1e3"@), "kilowatt"@),
        ("MW"@, dim_of(2, 1, -3, 0, 0, 0, 0), ScaleM::Lit("1e6"@), "megawatt"@),
        ("GW"@, dim_of(2, 1, -3, 0, 0, 0, 0), ScaleM::Lit("1e9"@), "gigawatt"@),
        ("L_sun"@, dim_of(2, 1, -3, 0, 0, 0, 0), ScaleM::Lit("3.828e26"@), "solar luminosity"@),
        ("L\u{2609}"@, dim_of(2, 1, -3, 0, 0, 0, 0), ScaleM::Lit("3.828e26"@), "solar luminosity"@),
        ("Pa"@, dim_of(-1, 1, -2, 0, 0, 0, 0), ScaleM::Lit("1.0"@), "pascal"@),
        ("kPa"@, dim_of(-1, 1, -2, 0, 0, 0, 0), ScaleM::Lit("1e3"@), "kilopascal"@),
        ("MPa"@, dim_of(-1, 1, -2, 0, 0, 0, 0), ScaleM::Lit("1e6"@), "megapascal"@),
        ("atm"@, dim_of(-1, 1, -2, 0, 0, 0, 0), ScaleM::Lit("101325.0"@), "atmosphere"@),
        ("bar"@, dim_of(-1, 1, -2, 0, 0, 0, 0), ScaleM::Lit("1e5"@), "bar"@),
        ("psi"@, dim_of(-1, 1, -2, 0, 0, 0, 0), ScaleM::Lit("6894.76"@), "pounds per square inch"@),
    ]
}

/// The rows of the frequency and angle units.
pub open spec fn frequency_angle_rows() -> Seq<SiRow> {
    seq![
        ("Hz"@, dim_of(0, 0, -1, 0, 0, 0, 0), ScaleM::Lit("1.0"@), "hertz"@),
        ("kHz"@, dim_of(0, 0, -1, 0, 0, 0, 0), ScaleM::Lit("1e3"@), "kilohertz"@),
        ("MHz"@, dim_of(0, 0, -1, 0, 0, 0, 0), ScaleM::Lit("1e6"@), "megahertz"@),
        ("GHz"@, dim_of(0, 0, -1, 0, 0, 0, 0), ScaleM::Lit("1e9"@), "gigahertz"@),
        ("THz"@, dim_of(0, 0, -1, 0, 0, 0, 0), ScaleM::Lit("1e12"@), "terahertz"@),
        ("rad"@, dim_of(0, 0, 0, 0, 0, 0, 0), ScaleM::Lit("1.0"@), "radian"@),
        ("deg"@, dim_of(0, 0, 0, 0, 0, 0, 0), ScaleM::Lit("0.017453"@), "degree"@),
        ("arcmin"@, dim_of(0, 0, 0, 0, 0, 0, 0), ScaleM::Lit("2.909e-4"@), "arcminute"@),
        ("arcsec"@, dim_of(0, 0, 0, 0, 0, 0, 0), ScaleM::Lit("4.848e-6"@), "arcsecond"@),
        ("mas"@, dim_of(0, 0, 0, 0, 0, 0, 0), ScaleM::Lit("4.848e-9"@), "milliarcsecond"@),
    ]
}

/// The rows of the data and motion units.
pub open spec fn data_motion_rows() -> Seq<SiRow> {
    seq![
        ("B"@, dim_of(0, 0, 0, 0, 0, 0, 0), ScaleM::Lit("1.0"@), "byte"@),
        ("KB"@, dim_of(0, 0, 0, 0, 0, 0, 0), ScaleM::Lit("1024.0"@), "kilobyte"@),
        ("MB"@, dim_of(0, 0, 0, 0, 0, 0, 0), ScaleM::Lit("1.049e6"@), "megabyte"@),
        ("GB"@, dim_of(0, 0, 0, 0, 0, 0, 0), ScaleM::Lit("1.074e9"@), "gigabyte"@),
        ("TB"@, dim_of(0, 0, 0, 0, 0, 0, 0), ScaleM::Lit("1.1e12"@), "terabyte"@),
        ("m/s"@, dim_of(1, 0, -1, 0, 0, 0, 0), ScaleM::Lit("1.0"@), "metres per second"@),
        ("km/s"@, dim_of(1, 0, -1, 0, 0, 0, 0), ScaleM::Lit("1e3"@), "kilometres per second"@),
        ("km/h"@, dim_of(1, 0, -1, 0, 0, 0, 0), ScaleM::Lit("0.27778"@), "kilometres per hour"@),
        ("mph"@, dim_of(1, 0, -1, 0, 0, 0, 0), ScaleM::Lit("0.44704"@), "miles per hour"@),
        ("c"@, dim_of(1, 0, -1, 0, 0, 0, 0), ScaleM::Lit("2.998e8"@), "speed of light"@),
        ("m/s2"@, dim_of(1, 0, -2, 0, 0, 0, 0), ScaleM::Lit("1.0"@), "metres per second squared"@),
        ("m/s^2"@, dim_of(1, 0, -2, 0, 0, 0, 0), ScaleM::Lit("1.0"@), "metres per second squared"@),
    ]
}

fn push_length_rows(t: &mut Vec<(String, UnitEntry)>)
    ensures
        rows_view(final(t)@) == rows_view(old(t)@) + length_rows(),
{
    let ghost t0 = rows_view(t@);
    push_row(t, "m", Dim::length(), "1.0", "metre");
    push_row(t, "cm", Dim::length(), "1e-2", "centimetre");
    push_row(t, "mm", Dim::length(), "1e-3", "millimetre");
    push_row(t, "km", Dim::length(), "1e3", "kilometre");
    push_row(t, "nm", Dim::length(), "1e-9", "nanometre");
    push_row(t, "um", Dim::length(), "1e-6", "micrometre");
    push_row(t, "AU", Dim::length(), "1.496e11", "astronomical unit");
    push_row(t, "ly", Dim::length(), "9.461e15", "light-year");
    push_row(t, "pc", Dim::length(), "3.086e16", "parsec");
    push_row(t, "kpc", Dim::length(), "3.086e19", "kiloparsec");
    push_row(t, "Mpc", Dim::length(), "3.086e22", "megaparsec");
    push_row(t, "ft", Dim::length(), "0.3048", "foot");
    push_row(t, "in", Dim::length(), "0.0254", "inch");
    push_row(t, "mi", Dim::length(), "1609.344", "mile");
    assert(rows_view(t@) =~= t0 + length_rows());
}

fn push_mass_rows(t: &mut Vec<(String, UnitEntry)>)
    ensures
        rows_view(final(t)@) == rows_view(old(t)@) + mass_rows(),
{
    let ghost t0 = rows_view(t@);
    push_row(t, "kg", Dim::mass(), "1.0", "kilogram");
    push_row(t, "g", Dim::mass(), "1e-3", "gram");
    push_row(t, "mg", Dim::mass(), "1e-6", "milligram");
    push_row(t, "t", Dim::mass(), "1e3", "metric tonne");
    push_row(t, "lb", Dim::mass(), "0.453592", "pound");
    push_row(t, "oz", Dim::mass(), "0.028350", "ounce");
    push_row(t, "M_sun", Dim::mass(), "1.989e30", "solar mass");
    push_row(t, "M\u{2609}", Dim::mass(), "1.989e30", "solar mass");
    push_row(t, "u", Dim::mass(), "1.6605e-27", "atomic mass unit");
    assert(rows_view(t@) =~= t0 + mass_rows());
}

fn push_time_rows(t: &mut Vec<(String, UnitEntry)>)
    ensures
        rows_view(final(t)@) == rows_view(old(t)@) + time_rows(),
{
    let ghost t0 = rows_view(t@);
    push_row(t, "s", Dim::time(), "1.0", "second");
    push_row(t, "ms", Dim::time(), "1e-3", "millisecond");
    push_row(t, "us", Dim::time(), "1e-6", "microsecond");
    push_row(t, "ns", Dim::time(), "1e-9", "nanosecond");
    push_row(t, "min", Dim::time(), "60.0", "minute");
    push_row(t, "hr", Dim::time(), "3600.0", "hour");
    push_row(t, "day", Dim::time(), "86400.0", "day");
    push_row(t, "yr", Dim::time(), "3.156e7", "year");
    push_row(t, "Myr", Dim::time(), "3.156e13", "megayear");
    push_row(t, "Gyr", Dim::time(), "3.156e16", "gigayear");
    assert(rows_view(t@) =~= t0 + time_rows());
}

fn push_base_rows(t: &mut Vec<(String, UnitEntry)>)
    ensures
        rows_view(final(t)@) == rows_view(old(t)@) + base_rows(),
{
    let ghost t0 = rows_view(t@);
    push_row(t, "K", Dim::temperature(), "1.0", "kelvin");
    push_row(t, "C", Dim::temperature(), "1.0", "degree Celsius");
    push_row(t, "F", Dim::temperature(), "1.0", "degree Fahrenheit");
    push_row(t, "A", Dim::current(), "1.0", "ampere");
    push_row(t, "mA", Dim::current(), "1e-3", "milliampere");
    push_row(t, "mol", Dim::amount(), "1.0", "mole");
    push_row(t, "cd", Dim::luminosity(), "1.0", "candela");
    assert(rows_view(t@) =~= t0 + base_rows());
}

fn push_mechanics_rows(t: &mut Vec<(String, UnitEntry)>)
    ensures
        rows_view(final(t)@) == rows_view(old(t)@) + mechanics_rows(),
{
    let ghost t0 = rows_view(t@);
    push_row(t, "N", Dim::force(), "1.0", "newton");
    push_row(t, "kN", Dim::force(), "1e3", "kilonewton");
    push_row(t, "MN", Dim::force(), "1e6", "meganewton");
    push_row(t, "lbf", Dim::force(), "4.4482", "pound-force");
    push_row(t, "J", Dim::energy(), "1.0", "joule");
    push_row(t, "kJ", Dim::energy(), "1e3", "kilojoule");
    push_row(t, "MJ", Dim::energy(), "1e6", "megajoule");
    push_row(t, "GJ", Dim::energy(), "1e9", "gigajoule");
    push_row(t, "cal", Dim::energy(), "4.184", "calorie");
    push_row(t, "kcal", Dim::energy(), "4184.0", "kilocalorie");
    push_row(t, "eV", Dim::energy(), "1.602e-19", "electron volt");
    push_row(t, "keV", Dim::energy(), "1.602e-16", "kiloelectron volt");
    push_row(t, "MeV", Dim::energy(), "1.602e-13", "megaelectron volt");
    push_row(t, "GeV", Dim::energy(), "1.602e-10", "gigaelectron volt");
    push_row(t, "erg", Dim::energy(), "1e-7", "erg");
    assert(rows_view(t@) =~= t0 + mechanics_rows());
}

fn push_power_pressure_rows(t: &mut Vec<(String, UnitEntry)>)
    ensures
        rows_view(final(t)@) == rows_view(old(t)@) + power_pressure_rows(),
{
    let ghost t0 = rows_view(t@);
    push_row(t, "W", Dim::power(), "1.0", "watt");
    push_row(t, "kW", Dim::power(), "1e3", "kilowatt");
    push_row(t, "MW", Dim::power(), "1e6", "megawatt");
    push_row(t, "GW", Dim::power(), "1e9", "gigawatt");
    push_row(t, "L_sun", Dim::power(), "3.828e26", "solar luminosity");
    push_row(t, "L\u{2609}", Dim::power(), "3.828e26", "solar luminosity");
    push_row(t, "Pa", Dim::pressure(), "1.0", "pascal");
    push_row(t, "kPa", Dim::pressure(), "1e3", "kilopascal");
    push_row(t, "MPa", Dim::pressure(), "1e6", "megapascal");
    push_row(t, "atm", Dim::pressure(), "101325.0", "atmosphere");
    push_row(t, "bar", Dim::pressure(), "1e5", "bar");
    push_row(t, "psi", Dim::pressure(), "6894.76", "pounds per square inch");
    assert(rows_view(t@) =~= t0 + power_pressure_rows());
}

fn push_frequency_angle_rows(t: &mut Vec<(String, UnitEntry)>)
    ensures
        rows_view(final(t)@) == rows_view(old(t)@) + frequency_angle_rows(),
{
    let ghost t0 = rows_view(t@);
    push_row(t, "Hz", Dim::frequency(), "1.0", "hertz");
    push_row(t, "kHz", Dim::frequency(), "1e3", "kilohertz");
    push_row(t, "MHz", Dim::frequency(), "1e6", "megahertz");
    push_row(t, "GHz", Dim::frequency(), "1e9", "gigahertz");
    push_row(t, "THz", Dim::frequency(), "1e12", "terahertz");
    push_row(t, "rad", Dim::dimensionless(), "1.0", "radian");
    push_row(t, "deg", Dim::dimensionless(), "0.017453", "degree");
    push_row(t, "arcmin", Dim::dimensionless(), "2.909e-4", "arcminute");
    push_row(t, "arcsec", Dim::dimensionless(), "4.848e-6", "arcsecond");
    push_row(t, "mas", Dim::dimensionless(), "4.848e-9", "milliarcsecond");
    assert(rows_view(t@) =~= t0 + frequency_angle_rows());
}

fn push_data_motion_rows(t: &mut Vec<(String, UnitEntry)>)
    ensures
        rows_view(final(t)@) == rows_view(old(t)@) + data_motion_rows(),
{
    let ghost t0 = rows_view(t@);
    push_row(t, "B", Dim::dimensionless(), "1.0", "byte");
    push_row(t, "KB", Dim::dimensionless(), "1024.0", "kilobyte");
    push_row(t, "MB", Dim::dimensionless(), "1.049e6", "megabyte");
    push_row(t, "GB", Dim::dimensionless(), "1.074e9", "gigabyte");
    push_row(t, "TB", Dim::dimensionless(), "1.1e12", "terabyte");
    push_row(t, "m/s", Dim::velocity(), "1.0", "metres per second");
    push_row(t, "km/s", Dim::velocity(), "1e3", "kilometres per second");
    push_row(t, "km/h", Dim::velocity(), "0.27778", "kilometres per hour");
    push_row(t, "mph", Dim::velocity(), "0.44704", "miles per hour");
    push_row(t, "c", Dim::velocity(), "2.998e8", "speed of light");
    push_row(t, "m/s2", Dim::acceleration(), "1.0", "metres per second squared");
    push_row(t, "m/s^2", Dim::acceleration(), "1.0", "metres per second squared");
    assert(rows_view(t@) =~= t0 + data_motion_rows());
}

/// The whole table, in the order of its groups.
pub open spec fn si_rows() -> Seq<SiRow> {
    length_rows() + mass_rows() + time_rows() + base_rows() + mechanics_rows()
        + power_pressure_rows() + frequency_angle_rows() + data_motion_rows()
}

/// The rows are exactly the units `syms`, in order, all of dimension `d`.
pub open spec fn unit_group(rows: Seq<SiRow>, syms: Seq<Seq<char>>, d: Dim) -> bool {
    &&& rows.len() == syms.len()
    &&& forall|i: int| 0 <= i < rows.len() ==> (#[trigger] rows[i]).0 == syms[i] && rows[i].1 == d
}

/// Each unit of the table measures the quantity it names: lengths are L,
/// masses M, times T, temperatures Θ, currents I, amounts N, luminous
/// intensity J; forces M·L·T⁻², energies M·L²·T⁻², powers M·L²·T⁻³,
/// pressures M·L⁻¹·T⁻², frequencies T⁻¹, velocities L·T⁻¹, accelerations
/// L·T⁻²; angles and data sizes are dimensionless.
pub proof fn lemma_si_dimensions()
    ensures
        unit_group(length_rows(), seq!["m"@, "cm"@, "mm"@, "km"@, "nm"@, "um"@, "AU"@, "ly"@, "pc"@, "kpc"@, "Mpc"@,
            "ft"@, "in"@, "mi"@], dim_of(1, 0, 0, 0, 0, 0, 0)),
        unit_group(mass_rows(), seq!["kg"@, "g"@, "mg"@, "t"@, "lb"@, "oz"@, "M_sun"@, "M\u{2609}"@, "u"@],
            dim_of(0, 1, 0, 0, 0, 0, 0)),
        unit_group(time_rows(), seq!["s"@, "ms"@, "us"@, "ns"@, "min"@, "hr"@, "day"@, "yr"@, "Myr"@, "Gyr"@],
            dim_of(0, 0, 1, 0, 0, 0, 0)),
        unit_group(base_rows().take(3), seq!["K"@, "C"@, "F"@], dim_of(0, 0, 0, 0, 1, 0, 0)),
        unit_group(base_rows().subrange(3, 5), seq!["A"@, "mA"@], dim_of(0, 0, 0, 1, 0, 0, 0)),
        unit_group(base_rows().subrange(5, 6), seq!["mol"@], dim_of(0, 0, 0, 0, 0, 1, 0)),
        unit_group(base_rows().skip(6), seq!["cd"@], dim_of(0, 0, 0, 0, 0, 0, 1)),
        unit_group(mechanics_rows().take(4), seq!["N"@, "kN"@, "MN"@, "lbf"@], dim_of(1, 1, -2, 0, 0, 0, 0)),
        unit_group(mechanics_rows().skip(4), seq!["J"@, "kJ"@, "MJ"@, "GJ"@, "cal"@, "kcal"@, "eV"@, "keV"@,
            "MeV"@, "GeV"@, "erg"@], dim_of(2, 1, -2, 0, 0, 0, 0)),
        unit_group(power_pressure_rows().take(6), seq!["W"@, "kW"@, "MW"@, "GW"@, "L_sun"@, "L\u{2609}"@],
            dim_of(2, 1, -3, 0, 0, 0, 0)),
        unit_group(power_pressure_rows().skip(6), seq!["Pa"@, "kPa"@, "MPa"@, "atm"@, "bar"@, "psi"@],
            dim_of(-1, 1, -2, 0, 0, 0, 0)),
        unit_group(frequency_angle_rows().take(5), seq!["Hz"@, "kHz"@, "MHz"@, "GHz"@, "THz"@],
            dim_of(0, 0, -1, 0, 0, 0, 0)),
        unit_group(frequency_angle_rows().skip(5), seq!["rad"@, "deg"@, "arcmin"@, "arcsec"@, "mas"@],
            dim_of(0, 0, 0, 0, 0, 0, 0)),
        unit_group(data_motion_rows().take(5), seq!["B"@, "KB"@, "MB"@, "GB"@, "TB"@], dim_of(0, 0, 0, 0, 0, 0, 0)),
        unit_group(data_motion_rows().subrange(5, 10), seq!["m/s"@, "km/s"@, "km/h"@, "mph"@, "c"@],
            dim_of(1, 0, -1, 0, 0, 0, 0)),
        unit_group(data_motion_rows().skip(10), seq!["m/s2"@, "m/s^2"@], dim_of(1, 0, -2, 0, 0, 0, 0)),
        si_rows() == length_rows() + mass_rows() + time_rows() + base_rows() + mechanics_rows()
            + power_pressure_rows() + frequency_angle_rows() + data_motion_rows(),
{
}

fn push_row(t: &mut Vec<(String, UnitEntry)>, sym: &str, dim: Dim, scale: &str, display: &str)
    ensures
        rows_view(final(t)@) == rows_view(old(t)@).push((sym@, dim, ScaleM::Lit(scale@), display@)),
{
    let e = UnitEntry {
        dim,
        scale: Scale::Literal(str_to_string(scale)),
        display: str_to_string(display),
    };
    let ghost t0 = t@;
    t.push((str_to_string(sym), e));
    assert(rows_view(t@) =~= rows_view(t0).push((sym@, dim, ScaleM::Lit(scale@), display@)));
}

/// The full SI unit table, keyed by symbol as it appears in NOVA source.
pub fn build_si_table() -> (r: Vec<(String, UnitEntry)>)
    ensures
        rows_view(r@) == si_rows(),
{
    let mut t: Vec<(String, UnitEntry)> = Vec::new();
    assert(rows_view(t@) =~= Seq::<SiRow>::empty());
    push_length_rows(&mut t);
    push_mass_rows(&mut t);
    push_time_rows(&mut t);
    push_base_rows(&mut t);
    push_mechanics_rows(&mut t);
    push_power_pressure_rows(&mut t);
    push_frequency_angle_rows(&mut t);
    push_data_motion_rows(&mut t);
    assert(rows_view(t@) =~= si_rows());
    t
}

/// The entry of the table for `sym`: the first row with that symbol.
pub fn si_lookup<'a>(t: &'a Vec<(String, UnitEntry)>, sym: &String) -> (r: Option<&'a UnitEntry>)
    ensures
        match row_index(rows_view(t@), sym@) {
            Some(i) => r matches Some(e) && *e == t@[i].1,
            None => r is None,
        },
{
    let ghost rows = rows_view(t@);
    let mut i: usize = 0;
    while i < t.len()
        invariant
            i <= t@.len(),
            rows == rows_view(t@),
            row_index(rows.take(i as int), sym@) is None,
        decreases t@.len() - i,
    {
        assert(rows.take(i + 1).drop_last() =~= rows.take(i as int));
        if t[i].0 == *sym {
            proof {
                lemma_row_index_prefix(rows, i + 1, sym@);
            }
            return Some(&t[i].1);
        }
        i = i + 1;
    }
    assert(rows.take(i as int) =~= rows);
    None
}

/// The first row for `sym` within a prefix is the first row overall.
proof fn lemma_row_index_prefix(rows: Seq<SiRow>, n: int, sym: Seq<char>)
    requires
        0 < n <= rows.len(),
        row_index(rows.take(n), sym) == Some(n - 1),
    ensures
        row_index(rows, sym) == Some(n - 1),
    decreases rows.len() - n,
{
    if n < rows.len() {
        assert(rows.drop_last().take(n) =~= rows.take(n));
        lemma_row_index_prefix(rows.drop_last(), n, sym);
    } else {
        assert(rows.take(n) =~= rows);
    }
}

} // verus!
