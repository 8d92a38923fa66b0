//! Errors of unit resolution.

use vstd::prelude::*;
use crate::text::{decimal, push_char, push_decimal, push_str, str_to_string};

verus! {

/// A unit resolution error, with its source position (zero when unknown).
#[derive(Debug, Clone)]
pub struct UnitError {
    pub message: String,
    pub line: u32,
    pub col: u32,
}

impl UnitError {
    /// An error with no position.
    pub fn new(msg: &str) -> (r: Self)
        ensures
            r.message@ == msg@,
            r.line == 0,
            r.col == 0,
    {
        UnitError { message: str_to_string(msg), line: 0, col: 0 }
    }

    /// An error at a position.
    pub fn at(msg: &str, line: u32, col: u32) -> (r: Self)
        ensures
            r.message@ == msg@,
            r.line == line,
            r.col == col,
    {
        UnitError { message: str_to_string(msg), line, col }
    }

    /// The error as printed: `line:col: unit error: message`, or
    /// `unit error: message` when the line is zero.
    pub fn to_text(&self) -> (r: String)
        ensures
            r@ == if self.line > 0 {
                decimal(self.line as nat) + seq![':'] + decimal(self.col as nat) + ": unit error: "@ + self.message@
            } else {
                "unit error: "@ + self.message@
            },
    {
        let mut s = String::new();
        if self.line > 0 {
            push_decimal(&mut s, self.line as u64);
            push_char(&mut s, ':');
            push_decimal(&mut s, self.col as u64);
            push_str(&mut s, ": unit error: ");
        } else {
            push_str(&mut s, "unit error: ");
        }
        push_str(&mut s, self.message.as_str());
        assert(s@ =~= if self.line > 0 {
            decimal(self.line as nat) + seq![':'] + decimal(self.col as nat) + ": unit error: "@ + self.message@
        } else {
            "unit error: "@ + self.message@
        });
        s
    }
}

} // verus!
