//! Values that the editor and the server exchange.

use vstd::prelude::*;

use crate::text::{copy, opt_text};

verus! {

/// A place in a document: line and character, both counted from zero.
#[derive(Debug, Clone, Copy, PartialEq, Eq, Structural)]
pub struct Position {
    pub line: u32,
    pub character: u32,
}

/// A part of a document, from its start up to but without its end.
#[derive(Debug, Clone, Copy, PartialEq, Eq, Structural)]
pub struct TextRange {
    pub start: Position,
    pub end: Position,
}

/// A part of the document that a URI names.
#[derive(Debug)]
pub struct Location {
    pub uri: String,
    pub range: TextRange,
}

impl View for Location {
    type V = (Seq<char>, TextRange);

    open spec fn view(&self) -> (Seq<char>, TextRange) {
        (self.uri@, self.range)
    }
}

/// The models of several locations.
pub open spec fn location_views(s: Seq<Location>) -> Seq<(Seq<char>, TextRange)> {
    Seq::new(s.len(), |i: int| s[i]@)
}

/// The lowest 32 bits of a number.
pub fn narrow(x: usize) -> (r: u32)
    ensures
        r == x as u32,
{
    #[verifier::truncate]
    let r: u32 = x as u32;
    r
}

/// The lowest 32 bits of a number.
pub fn narrow_u64(x: u64) -> (r: u32)
    ensures
        r == x as u32,
{
    #[verifier::truncate]
    let r: u32 = x as u32;
    r
}

/// How bad a diagnostic is.
#[derive(Debug, Clone, Copy, PartialEq, Eq, Structural)]
pub enum DiagnosticSeverity {
    Error,
    Warning,
}

/// How a diagnostic is shown.
#[derive(Debug, Clone, Copy, PartialEq, Eq, Structural)]
pub enum DiagnosticTag {
    /// Faded out.
    Unnecessary,
}

/// A message about a part of a document.
#[derive(Debug)]
pub struct Diagnostic {
    pub range: TextRange,
    pub severity: Option<DiagnosticSeverity>,
    /// What the message comes from.
    pub source: Option<String>,
    pub message: String,
    pub tags: Option<Vec<DiagnosticTag>>,
}

/// The model of a [`Diagnostic`].
#[verifier::ext_equal]
pub struct Diag {
    pub range: TextRange,
    pub severity: Option<DiagnosticSeverity>,
    pub source: Option<Seq<char>>,
    pub message: Seq<char>,
    pub tags: Option<Seq<DiagnosticTag>>,
}

impl View for Diagnostic {
    type V = Diag;

    open spec fn view(&self) -> Diag {
        Diag {
            range: self.range,
            severity: self.severity,
            source: opt_text(self.source),
            message: self.message@,
            tags: match self.tags {
                Some(tags) => Some(tags@),
                None => None,
            },
        }
    }
}

/// The models of several diagnostics.
pub open spec fn diag_views(s: Seq<Diagnostic>) -> Seq<Diag> {
    Seq::new(s.len(), |i: int| s[i]@)
}

/// A copy of a diagnostic.
pub fn copy_diagnostic(d: &Diagnostic) -> (r: Diagnostic)
    ensures
        r@ == d@,
{
    let source = match &d.source {
        Some(s) => Some(copy(s)),
        None => None,
    };
    let tags = match &d.tags {
        Some(t) => Some(t.clone()),
        None => None,
    };
    Diagnostic {
        range: d.range,
        severity: d.severity,
        source,
        message: copy(&d.message),
        tags,
    }
}

/// A copy of several diagnostics.
pub fn copy_diagnostics(s: &Vec<Diagnostic>) -> (r: Vec<Diagnostic>)
    ensures
        diag_views(r@) == diag_views(s@),
{
    let mut out: Vec<Diagnostic> = Vec::new();
    let mut i: usize = 0;
    while i < s.len()
        invariant
            i <= s@.len(),
            out@.len() == i,
            forall|k: int| 0 <= k < i ==> (#[trigger] out@[k])@ == s@[k]@,
        decreases s@.len() - i,
    {
        out.push(copy_diagnostic(&s[i]));
        i = i + 1;
    }
    assert(diag_views(out@) =~= diag_views(s@));
    out
}

} // verus!
