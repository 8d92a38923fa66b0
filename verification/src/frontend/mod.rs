//! The front end of the NOVA compiler: source locations, errors and the
//! syntax tree of types and declarations.

pub mod loc;
pub mod error;
pub mod ast;
pub mod lexer;
pub mod parser;
pub mod parser_new;
pub mod summary;
