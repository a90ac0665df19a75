use vstd::prelude::*;
use vstd::string::*;
use crate::text::{copy_string, decimal, usize_to_decimal};

verus! {

/// How serious a finding is: a violation on every path, or only on some.
#[derive(Debug, Clone, Copy, PartialEq, Eq, Structural)]
pub enum Severity {
    Error,
    Warning,
}

/// The word a severity is printed as.
pub open spec fn severity_text(s: Severity) -> Seq<char> {
    match s {
        Severity::Error => "error"@,
        Severity::Warning => "warning"@,
    }
}

impl Severity {
    pub fn as_str(&self) -> (r: &'static str)
        ensures
            r@ == severity_text(*self),
    {
        match self {
            Severity::Error => "error",
            Severity::Warning => "warning",
        }
    }
}

/// One finding of the analysis, at a line and column of a file.
#[derive(Debug, Clone)]
pub struct Diagnostic {
    pub file: String,
    pub line: usize,
    pub col: usize,
    pub message: String,
    pub severity: Severity,
}

/// The mathematical value of a diagnostic.
pub struct DiagView {
    pub file: Seq<char>,
    pub line: usize,
    pub col: usize,
    pub message: Seq<char>,
    pub severity: Severity,
}

impl View for Diagnostic {
    type V = DiagView;

    open spec fn view(&self) -> DiagView {
        DiagView {
            file: self.file@,
            line: self.line,
            col: self.col,
            message: self.message@,
            severity: self.severity,
        }
    }
}

/// The views of a list of diagnostics.
pub open spec fn diags_view(v: Seq<Diagnostic>) -> Seq<DiagView> {
    v.map_values(|d: Diagnostic| d@)
}

/// The diagnostic for `file` at `line`:`col` with the given message and severity.
pub open spec fn diag(
    file: Seq<char>,
    line: usize,
    col: usize,
    message: Seq<char>,
    severity: Severity,
) -> DiagView {
    DiagView { file, line, col, message, severity }
}

/// The line `file:line:col: severity: message` that a diagnostic is printed as.
pub open spec fn rendered(d: DiagView) -> Seq<char> {
    d.file + ":"@ + decimal(d.line as nat) + ":"@ + decimal(d.col as nat) + ": "@
        + severity_text(d.severity) + ": "@ + d.message
}

impl Diagnostic {
    /// A diagnostic with the given parts.
    pub fn new(file: &str, line: usize, col: usize, message: String, severity: Severity) -> (r:
        Diagnostic)
        ensures
            r@ == diag(file@, line, col, message@, severity),
    {
        Diagnostic { file: String::from_str(file), line, col, message, severity }
    }

    /// The text that reports this diagnostic on one line.
    pub fn render(&self) -> (r: String)
        ensures
            r@ == rendered(self@),
    {
        let mut s = copy_string(&self.file);
        s.append(":");
        let line = usize_to_decimal(self.line);
        s.append(line.as_str());
        s.append(":");
        let col = usize_to_decimal(self.col);
        s.append(col.as_str());
        s.append(": ");
        s.append(self.severity.as_str());
        s.append(": ");
        s.append(self.message.as_str());
        s
    }
}

} // verus!
