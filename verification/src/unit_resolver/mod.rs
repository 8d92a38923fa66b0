pub mod dimension;
pub mod error;
pub mod scale;
pub mod si_table;
pub mod custom_units;
pub mod resolver;
