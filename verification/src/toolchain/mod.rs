//! The NOVA toolchain: the source formatter, the package manifest and
//! dependency resolver, the package manager's command line, and the
//! language server's diagnostics and hovers.

pub mod formatter;
pub mod diagnostics;
pub mod hover;
pub mod manifest;
pub mod cli;
