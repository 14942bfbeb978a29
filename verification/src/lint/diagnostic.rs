//! Diagnostics and rule metadata.

use vstd::prelude::*;

verus! {

/// How serious a reported problem is.
#[derive(Debug, Clone, Copy, PartialEq, Eq, Structural)]
pub enum Severity {
    Error,
    Warning,
    Info,
}

impl Default for Severity {
    /// Warnings by default.
    fn default() -> (r: Self)
        ensures
            r == Severity::Warning,
    {
        Severity::Warning
    }
}

/// The family a rule belongs to.
#[derive(Debug, Clone, Copy, PartialEq, Eq, Structural)]
pub enum RuleCategory {
    Naming,
    Format,
    Basic,
    Design,
    Style,
}

impl RuleCategory {
    /// The category's lower-case name.
    pub fn as_str(&self) -> (r: &'static str)
        ensures
            (self is Naming ==> r@ == "naming"@) && (self is Format ==> r@ == "format"@) && (
            self is Basic ==> r@ == "basic"@) && (self is Design ==> r@ == "design"@) && (
            self is Style ==> r@ == "style"@),
    {
        match self {
            RuleCategory::Naming => "naming",
            RuleCategory::Format => "format",
            RuleCategory::Basic => "basic",
            RuleCategory::Design => "design",
            RuleCategory::Style => "style",
        }
    }
}

/// A rule's identity and defaults.
#[derive(Debug, Clone)]
pub struct RuleMetadata {
    pub id: &'static str,
    pub name: &'static str,
    pub category: RuleCategory,
    pub default_severity: Severity,
    pub description: &'static str,
}

/// One reported problem.
#[derive(Debug)]
pub struct Diagnostic {
    pub rule_id: String,
    pub severity: Severity,
    pub message: String,
    pub file_path: String,
    pub line: usize,
    pub column: usize,
    pub end_line: Option<usize>,
    pub end_column: Option<usize>,
    pub suggestion: Option<String>,
}

impl Diagnostic {
    /// A diagnostic with no location yet.
    pub fn new(rule_id: String, severity: Severity, message: String) -> (r: Self)
        ensures
            r.rule_id@ == rule_id@,
            r.severity == severity,
            r.message@ == message@,
            r.file_path@ == Seq::<char>::empty(),
            r.line == 0,
            r.column == 0,
            r.end_line is None,
            r.end_column is None,
            r.suggestion is None,
    {
        Diagnostic {
            rule_id,
            severity,
            message,
            file_path: String::new(),
            line: 0,
            column: 0,
            end_line: None,
            end_column: None,
            suggestion: None,
        }
    }

    /// The same diagnostic at a location.
    pub fn with_location(self, line: usize, column: usize) -> (r: Self)
        ensures
            r == (Diagnostic { line, column, ..self }),
    {
        Diagnostic { line, column, ..self }
    }

    /// The same diagnostic with an end location.
    pub fn with_end_location(self, end_line: usize, end_column: usize) -> (r: Self)
        ensures
            r == (Diagnostic { end_line: Some(end_line), end_column: Some(end_column), ..self }),
    {
        Diagnostic { end_line: Some(end_line), end_column: Some(end_column), ..self }
    }

    /// The same diagnostic attributed to a file.
    pub fn with_file(self, path: String) -> (r: Self)
        ensures
            r.file_path@ == path@,
            r.rule_id == self.rule_id,
            r.severity == self.severity,
            r.message == self.message,
            r.line == self.line,
            r.column == self.column,
            r.end_line == self.end_line,
            r.end_column == self.end_column,
            r.suggestion == self.suggestion,
    {
        Diagnostic { file_path: path, ..self }
    }

    /// The same diagnostic with a suggestion.
    pub fn with_suggestion(self, suggestion: String) -> (r: Self)
        ensures
            r.suggestion matches Some(sg) && sg@ == suggestion@,
            r.rule_id == self.rule_id,
            r.severity == self.severity,
            r.message == self.message,
            r.file_path == self.file_path,
            r.line == self.line,
            r.column == self.column,
            r.end_line == self.end_line,
            r.end_column == self.end_column,
    {
        Diagnostic { suggestion: Some(suggestion), ..self }
    }

    /// A one-line rendering: `file:line:col: severity: message (rule)`.
    pub fn render(&self) -> String {
        let sev = match self.severity {
            Severity::Error => "error",
            Severity::Warning => "warning",
            Severity::Info => "info",
        };
        let mut out = self.file_path.clone();
        out.append(":");
        out.append(crate::lint::runner::usize_str(self.line).as_str());
        out.append(":");
        out.append(crate::lint::runner::usize_str(self.column).as_str());
        out.append(": ");
        out.append(sev);
        out.append(": ");
        out.append(self.message.as_str());
        out.append(" (");
        out.append(self.rule_id.as_str());
        out.append(")");
        out
    }
}

} // verus!
