//! Diagnostics of the language server: errors and warnings with their
//! positions, unit mismatches among them.

use vstd::prelude::*;
use crate::text::{push_str, str_to_string};

verus! {

/// An error or warning at a source position.
#[derive(Debug, Clone)]
pub struct Diagnostic {
    pub line: u32,
    pub column: u32,
    pub message: String,
    pub severity: DiagnosticSeverity,
    pub code: Option<String>,
}

/// How serious a diagnostic is.
#[derive(Debug, Clone, Copy, PartialEq, Eq, Structural)]
pub enum DiagnosticSeverity {
    Error,
    Warning,
    Info,
    Hint,
}

/// The model of a diagnostic: position, message, severity and code.
pub open spec fn diag_model(d: Diagnostic) -> (u32, u32, Seq<char>, DiagnosticSeverity, Option<Seq<char>>) {
    (d.line, d.column, d.message@, d.severity, match d.code { Some(c) => Some(c@), None => None })
}

/// The number of errors among the diagnostics.
pub open spec fn errors_in(s: Seq<(u32, u32, Seq<char>, DiagnosticSeverity, Option<Seq<char>>)>) -> nat
    decreases s.len(),
{
    if s.len() == 0 {
        0
    } else {
        errors_in(s.drop_last()) + if s.last().3 == DiagnosticSeverity::Error { 1nat } else { 0nat }
    }
}

/// Errors are counted exactly: the count is positive (so `has_errors`
/// holds) just when some diagnostic is an error, and it never exceeds the
/// number of diagnostics.
pub proof fn lemma_errors_in_counts(s: Seq<(u32, u32, Seq<char>, DiagnosticSeverity, Option<Seq<char>>)>)
    ensures
        errors_in(s) > 0 <==> exists|i: int| 0 <= i < s.len() && #[trigger] s[i].3 == DiagnosticSeverity::Error,
        errors_in(s) <= s.len(),
    decreases s.len(),
{
    if s.len() > 0 {
        lemma_errors_in_counts(s.drop_last());
        if errors_in(s.drop_last()) > 0 {
            let i = choose|i: int| 0 <= i < s.drop_last().len() && #[trigger] s.drop_last()[i].3 == DiagnosticSeverity::Error;
            assert(s[i].3 == DiagnosticSeverity::Error);
        }
        if errors_in(s) == 0 {
            assert forall|i: int| 0 <= i < s.len() implies #[trigger] s[i].3 != DiagnosticSeverity::Error by {
                if i < s.len() - 1 {
                    assert(s.drop_last()[i] == s[i]);
                }
            }
        }
    }
}

/// The message of a unit mismatch.
pub open spec fn unit_mismatch_text(expected: Seq<char>, got: Seq<char>) -> Seq<char> {
    "cannot use "@ + got + " where "@ + expected + " is expected - dimension mismatch"@
}

/// The diagnostics engine: the diagnostics in the order added.
#[derive(Debug)]
pub struct DiagnosticsEngine {
    diagnostics: Vec<Diagnostic>,
}

impl View for DiagnosticsEngine {
    type V = Seq<(u32, u32, Seq<char>, DiagnosticSeverity, Option<Seq<char>>)>;

    closed spec fn view(&self) -> Self::V {
        self.diagnostics@.map_values(|d: Diagnostic| diag_model(d))
    }
}

impl DiagnosticsEngine {
    /// An engine with no diagnostics.
    pub fn new() -> (r: Self)
        ensures
            r@ == Seq::<(u32, u32, Seq<char>, DiagnosticSeverity, Option<Seq<char>>)>::empty(),
    {
        let r = DiagnosticsEngine { diagnostics: Vec::new() };
        assert(r@ =~= Seq::empty());
        r
    }

    /// Adds a diagnostic.
    pub fn add(&mut self, diag: Diagnostic)
        ensures
            final(self)@ == old(self)@.push(diag_model(diag)),
    {
        self.diagnostics.push(diag);
        assert(self@ =~= old(self)@.push(diag_model(diag)));
    }

    /// Adds a unit-mismatch error, coded `UNIT_MISMATCH`.
    pub fn add_unit_mismatch(&mut self, line: u32, col: u32, expected: &str, got: &str)
        ensures
            final(self)@ == old(self)@.push(
                (line, col, unit_mismatch_text(expected@, got@), DiagnosticSeverity::Error, Some("UNIT_MISMATCH"@)),
            ),
    {
        let mut message = String::new();
        push_str(&mut message, "cannot use ");
        push_str(&mut message, got);
        push_str(&mut message, " where ");
        push_str(&mut message, expected);
        push_str(&mut message, " is expected - dimension mismatch");
        assert(message@ =~= unit_mismatch_text(expected@, got@));
        self.add(Diagnostic {
            line,
            column: col,
            message,
            severity: DiagnosticSeverity::Error,
            code: Some(str_to_string("UNIT_MISMATCH")),
        });
    }

    /// Adds a type error, coded `TYPE_ERROR`.
    pub fn add_type_error(&mut self, line: u32, col: u32, message: String)
        ensures
            final(self)@ == old(self)@.push((line, col, message@, DiagnosticSeverity::Error, Some("TYPE_ERROR"@))),
    {
        self.add(Diagnostic {
            line,
            column: col,
            message,
            severity: DiagnosticSeverity::Error,
            code: Some(str_to_string("TYPE_ERROR")),
        });
    }

    /// Adds a warning with no code.
    pub fn add_warning(&mut self, line: u32, col: u32, message: String)
        ensures
            final(self)@ == old(self)@.push((line, col, message@, DiagnosticSeverity::Warning, None)),
    {
        self.add(Diagnostic { line, column: col, message, severity: DiagnosticSeverity::Warning, code: None });
    }

    /// All diagnostics, in the order added.
    pub fn get_all(&self) -> (r: &[Diagnostic])
        ensures
            r@.map_values(|d: Diagnostic| diag_model(d)) == self@,
    {
        self.diagnostics.as_slice()
    }

    /// Removes every diagnostic.
    pub fn clear(&mut self)
        ensures
            final(self)@ == Seq::<(u32, u32, Seq<char>, DiagnosticSeverity, Option<Seq<char>>)>::empty(),
    {
        self.diagnostics.clear();
        assert(self@ =~= Seq::empty());
    }

    /// Whether any diagnostic is an error.
    pub fn has_errors(&self) -> (r: bool)
        ensures
            r == (errors_in(self@) > 0),
    {
        self.error_count() > 0
    }

    /// The number of errors.
    pub fn error_count(&self) -> (r: usize)
        ensures
            r == errors_in(self@),
    {
        let mut n: usize = 0;
        let mut i: usize = 0;
        while i < self.diagnostics.len()
            invariant
                i <= self.diagnostics@.len(),
                n == errors_in(self@.take(i as int)),
                n <= i,
            decreases self.diagnostics@.len() - i,
        {
            assert(self@.take(i + 1).drop_last() =~= self@.take(i as int));
            if self.diagnostics[i].severity == DiagnosticSeverity::Error {
                n = n + 1;
            }
            i = i + 1;
        }
        assert(self@.take(self@.len() as int) =~= self@);
        n
    }
}

impl Default for DiagnosticsEngine {
    fn default() -> (r: Self)
        ensures
            r@ == Seq::<(u32, u32, Seq<char>, DiagnosticSeverity, Option<Seq<char>>)>::empty(),
    {
        DiagnosticsEngine::new()
    }
}

} // verus!
