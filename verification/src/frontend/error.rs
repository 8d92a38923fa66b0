//! Errors of the compiler front end, with their kind and location.

use vstd::prelude::*;
use crate::frontend::loc::SourceLoc;
use crate::text::{decimal, push_char, push_decimal, push_str, str_to_string};

verus! {

/// What stage an error comes from.
#[derive(Debug, Clone, Copy, PartialEq, Eq, Structural)]
pub enum ErrorKind {
    LexError,
    ParseError,
    TypeError,
    UnitError,
}

/// A front-end error.
#[derive(Debug, Clone)]
pub struct Error {
    pub message: String,
    pub location: SourceLoc,
    pub kind: ErrorKind,
}

/// The name of an error kind.
pub open spec fn kind_name(k: ErrorKind) -> Seq<char> {
    match k {
        ErrorKind::LexError => "LexError"@,
        ErrorKind::ParseError => "ParseError"@,
        ErrorKind::TypeError => "TypeError"@,
        ErrorKind::UnitError => "UnitError"@,
    }
}

impl Error {
    /// An error of the given kind.
    pub fn new(kind: ErrorKind, message: &str, location: SourceLoc) -> (r: Self)
        ensures
            r.kind == kind,
            r.message@ == message@,
            r.location == location,
    {
        Error { message: str_to_string(message), location, kind }
    }

    /// A lexing error.
    pub fn lex(message: &str, location: SourceLoc) -> (r: Self)
        ensures
            r.kind == ErrorKind::LexError,
            r.message@ == message@,
            r.location == location,
    {
        Error::new(ErrorKind::LexError, message, location)
    }

    /// A parsing error.
    pub fn parse(message: &str, location: SourceLoc) -> (r: Self)
        ensures
            r.kind == ErrorKind::ParseError,
            r.message@ == message@,
            r.location == location,
    {
        Error::new(ErrorKind::ParseError, message, location)
    }

    /// A type error.
    pub fn type_error(message: &str, location: SourceLoc) -> (r: Self)
        ensures
            r.kind == ErrorKind::TypeError,
            r.message@ == message@,
            r.location == location,
    {
        Error::new(ErrorKind::TypeError, message, location)
    }

    /// The error as printed: `<Kind>  [file:line:column]` and the message on
    /// the next line, indented by two spaces.
    pub fn to_text(&self) -> (r: String)
        ensures
            r@ == kind_name(self.kind) + "  ["@ + decimal(self.location.file as nat) + seq![':']
                + decimal(self.location.line as nat) + seq![':'] + decimal(self.location.column as nat)
                + "]\n  "@ + self.message@,
    {
        let mut s = String::new();
        match self.kind {
            ErrorKind::LexError => push_str(&mut s, "LexError"),
            ErrorKind::ParseError => push_str(&mut s, "ParseError"),
            ErrorKind::TypeError => push_str(&mut s, "TypeError"),
            ErrorKind::UnitError => push_str(&mut s, "UnitError"),
        }
        push_str(&mut s, "  [");
        push_decimal(&mut s, self.location.file as u64);
        push_char(&mut s, ':');
        push_decimal(&mut s, self.location.line as u64);
        push_char(&mut s, ':');
        push_decimal(&mut s, self.location.column as u64);
        push_str(&mut s, "]\n  ");
        push_str(&mut s, self.message.as_str());
        assert(s@ =~= kind_name(self.kind) + "  ["@ + decimal(self.location.file as nat) + seq![':']
            + decimal(self.location.line as nat) + seq![':'] + decimal(self.location.column as nat)
            + "]\n  "@ + self.message@);
        s
    }
}

} // verus!
