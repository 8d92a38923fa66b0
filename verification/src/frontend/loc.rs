//! Source locations.

use vstd::prelude::*;
use crate::text::{decimal, push_char, push_decimal};

verus! {

/// A position in a source file: file id, 1-based line and column.
#[derive(Debug, Clone, Copy, PartialEq, Eq, Structural)]
pub struct SourceLoc {
    pub file: usize,
    pub line: usize,
    pub column: usize,
}

impl SourceLoc {
    /// The location `file:line:column`.
    pub fn new(file: usize, line: usize, column: usize) -> (r: Self)
        ensures
            r == (SourceLoc { file, line, column }),
    {
        SourceLoc { file, line, column }
    }

    /// The location of built-in items: all zero.
    pub fn builtin() -> (r: Self)
        ensures
            r == (SourceLoc { file: 0, line: 0, column: 0 }),
    {
        SourceLoc { file: 0, line: 0, column: 0 }
    }

    /// The location as printed: `file:line:column`.
    pub fn to_text(&self) -> (r: String)
        ensures
            r@ == decimal(self.file as nat) + seq![':'] + decimal(self.line as nat) + seq![':']
                + decimal(self.column as nat),
    {
        let mut s = String::new();
        push_decimal(&mut s, self.file as u64);
        push_char(&mut s, ':');
        push_decimal(&mut s, self.line as u64);
        push_char(&mut s, ':');
        push_decimal(&mut s, self.column as u64);
        assert(s@ =~= decimal(self.file as nat) + seq![':'] + decimal(self.line as nat) + seq![':']
            + decimal(self.column as nat));
        s
    }
}

} // verus!
