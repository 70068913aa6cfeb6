//! Diagnostics and the error that parsing returns.
use vstd::prelude::*;
use crate::ir::SourceLocation;
use crate::text::{decimal, push_decimal, push_lit, push_chars, chars_of, string_of};

verus! {

/// How serious a diagnostic is.
#[derive(Debug, Clone, Copy, PartialEq, Eq, Hash, Structural)]
pub enum Severity {
    Error,
    Warning,
}

/// What a diagnostic is about.
#[derive(Debug, Clone, PartialEq, Eq)]
pub enum DiagnosticKind {
    UnexpectedToken { expected: String, found: String },
    UnterminatedString,
    UnknownCharacter(String),
    InvalidIndentation(String),
    InvalidInteger { value: String, field: String },
    InvalidFloat { value: String, field: String },
    InvalidDuration { value: String, field: String },
    InvalidBool { value: String, field: String },
    UnknownField { scope: String, name: String },
    MissingIdentifier { after: String },
    UndefinedNodeReference(String),
    DuplicateWorkflow,
    EmptyWorkflow,
    Other,
}

/// A single problem found in a source file.
#[derive(Debug, Clone, PartialEq, Eq)]
pub struct Diagnostic {
    pub severity: Severity,
    pub kind: DiagnosticKind,
    pub message: String,
    pub location: SourceLocation,
}

/// The error that parsing returns: every diagnostic found in one file.
#[derive(Debug, Clone)]
pub enum Error {
    Parse { file: String, diagnostics: Vec<Diagnostic> },
}

impl Error {
    /// The diagnostics carried by this error.
    pub fn diagnostics(&self) -> (r: &[Diagnostic])
        ensures
            match self {
                Error::Parse { diagnostics, .. } => r@ == diagnostics@,
            },
    {
        match self {
            Error::Parse { diagnostics, .. } => diagnostics.as_slice(),
        }
    }
}

/// The word that names a severity in rendered diagnostics.
pub open spec fn severity_word(s: Severity) -> Seq<char> {
    match s {
        Severity::Error => "error"@,
        Severity::Warning => "warning"@,
    }
}

/// A diagnostic rendered as `path:line:col: severity: message`.
pub open spec fn rendered(d: Diagnostic) -> Seq<char> {
    d.location.file@ + ":"@ + decimal(d.location.line as nat) + ":"@ + decimal(
        d.location.column as nat,
    ) + ": "@ + severity_word(d.severity) + ": "@ + d.message@
}

impl Diagnostic {
    /// An error-severity diagnostic.
    pub fn error(kind: DiagnosticKind, message: String, location: SourceLocation) -> (r: Self)
        ensures
            r.severity == Severity::Error,
            r.kind == kind,
            r.message == message,
            r.location == location,
    {
        Diagnostic { severity: Severity::Error, kind, message, location }
    }

    /// Renders the diagnostic as `path:line:col: severity: message`.
    pub fn render(&self) -> (r: String)
        ensures
            r@ == rendered(*self),
    {
        let mut out: Vec<char> = chars_of(self.location.file.as_str());
        push_lit(&mut out, ":");
        push_decimal(&mut out, self.location.line as u128);
        push_lit(&mut out, ":");
        push_decimal(&mut out, self.location.column as u128);
        push_lit(&mut out, ": ");
        match self.severity {
            Severity::Error => push_lit(&mut out, "error"),
            Severity::Warning => push_lit(&mut out, "warning"),
        }
        push_lit(&mut out, ": ");
        let m = chars_of(self.message.as_str());
        push_chars(&mut out, m.as_slice());
        string_of(out.as_slice())
    }
}

} // verus!

verus! {

/// A diagnostic kind with its texts taken as character sequences.
pub enum KindView {
    UnexpectedToken(Seq<char>, Seq<char>),
    UnterminatedString,
    UnknownCharacter(Seq<char>),
    InvalidIndentation(Seq<char>),
    InvalidInteger(Seq<char>, Seq<char>),
    InvalidFloat(Seq<char>, Seq<char>),
    InvalidDuration(Seq<char>, Seq<char>),
    InvalidBool(Seq<char>, Seq<char>),
    UnknownField(Seq<char>, Seq<char>),
    MissingIdentifier(Seq<char>),
    UndefinedNodeReference(Seq<char>),
    DuplicateWorkflow,
    EmptyWorkflow,
    Other,
}

pub open spec fn kview(k: DiagnosticKind) -> KindView {
    match k {
        DiagnosticKind::UnexpectedToken { expected, found } => KindView::UnexpectedToken(
            expected@,
            found@,
        ),
        DiagnosticKind::UnterminatedString => KindView::UnterminatedString,
        DiagnosticKind::UnknownCharacter(s) => KindView::UnknownCharacter(s@),
        DiagnosticKind::InvalidIndentation(s) => KindView::InvalidIndentation(s@),
        DiagnosticKind::InvalidInteger { value, field } => KindView::InvalidInteger(value@, field@),
        DiagnosticKind::InvalidFloat { value, field } => KindView::InvalidFloat(value@, field@),
        DiagnosticKind::InvalidDuration { value, field } => KindView::InvalidDuration(
            value@,
            field@,
        ),
        DiagnosticKind::InvalidBool { value, field } => KindView::InvalidBool(value@, field@),
        DiagnosticKind::UnknownField { scope, name } => KindView::UnknownField(scope@, name@),
        DiagnosticKind::MissingIdentifier { after } => KindView::MissingIdentifier(after@),
        DiagnosticKind::UndefinedNodeReference(s) => KindView::UndefinedNodeReference(s@),
        DiagnosticKind::DuplicateWorkflow => KindView::DuplicateWorkflow,
        DiagnosticKind::EmptyWorkflow => KindView::EmptyWorkflow,
        DiagnosticKind::Other => KindView::Other,
    }
}

/// An error diagnostic as (kind, message, file, line, column); every
/// diagnostic this library produces has error severity.
pub open spec fn dview(d: Diagnostic) -> (KindView, Seq<char>, Seq<char>, nat, nat) {
    (kview(d.kind), d.message@, d.location.file@, d.location.line as nat, d.location.column as nat)
}

pub open spec fn dviews(s: Seq<Diagnostic>) -> Seq<(KindView, Seq<char>, Seq<char>, nat, nat)> {
    s.map_values(|d: Diagnostic| dview(d))
}

/// Whether every diagnostic has error severity.
pub open spec fn all_errors(s: Seq<Diagnostic>) -> bool {
    forall|i: int| 0 <= i < s.len() ==> (#[trigger] s[i]).severity == Severity::Error
}

/// An error diagnostic built from character sequences.
pub fn diag(kind: DiagnosticKind, message: &[char], file: &[char], line: usize, column: usize) -> (r: Diagnostic)
    ensures
        dview(r) == (kview(kind), message@, file@, line as nat, column as nat),
        r.severity == Severity::Error,
{
    Diagnostic::error(
        kind,
        string_of(message),
        SourceLocation { file: string_of(file), line, column },
    )
}

} // verus!
