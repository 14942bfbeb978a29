//! Shared state while linting one file.

use vstd::prelude::*;

use crate::config::Config;
use crate::lint::diagnostic::{Diagnostic, Severity};
use crate::lint::suppression::Suppressions;
use crate::tree::SynTree;

verus! {

/// Collects diagnostics for one file, honouring suppressions.
pub struct LintContext {
    /// The source lines.
    pub lines: Vec<String>,
    /// The file the diagnostics belong to.
    pub file_path: String,
    /// Parsed suppression directives.
    pub suppressions: Suppressions,
    /// The diagnostics reported so far.
    pub diagnostics: Vec<Diagnostic>,
}

impl LintContext {
    /// A fresh context for one file.
    pub fn new(source: &str, file_path: &str) -> (r: Self)
        ensures
            r.diagnostics@.len() == 0,
            r.lines.deep_view() == crate::text::spec_lines(source@),
    {
        LintContext {
            lines: crate::text::split_lines(source),
            file_path: file_path.to_owned(),
            suppressions: Suppressions::parse(source),
            diagnostics: Vec::new(),
        }
    }

    /// Record a diagnostic unless a directive suppresses it; the file path
    /// is filled in here.
    pub fn report(&mut self, diagnostic: Diagnostic)
        ensures
            final(self).lines == old(self).lines,
            final(self).file_path == old(self).file_path,
            final(self).suppressions == old(self).suppressions,
            final(self).diagnostics@.len() >= old(self).diagnostics@.len(),
            final(self).diagnostics@.len() <= old(self).diagnostics@.len() + 1,
            forall|j: int|
                0 <= j < old(self).diagnostics@.len() ==> final(self).diagnostics@[j] == old(
                    self,
                ).diagnostics@[j],
    {
        if !self.suppressions.is_suppressed(diagnostic.rule_id.as_str(), diagnostic.line) {
            let d = diagnostic.with_file(self.file_path.clone());
            self.diagnostics.push(d);
        }
    }

    /// Report a diagnostic spanning a node of the tree.
    pub fn report_node(
        &mut self,
        t: &SynTree,
        i: usize,
        rule_id: &str,
        severity: Severity,
        message: String,
    )
        requires
            t.wf(),
            i < t.nodes@.len(),
        ensures
            final(self).lines == old(self).lines,
            final(self).file_path == old(self).file_path,
            final(self).suppressions == old(self).suppressions,
            final(self).diagnostics@.len() >= old(self).diagnostics@.len(),
            final(self).diagnostics@.len() <= old(self).diagnostics@.len() + 1,
            forall|j: int|
                0 <= j < old(self).diagnostics@.len() ==> final(self).diagnostics@[j] == old(
                    self,
                ).diagnostics@[j],
    {
        proof {
            assert(crate::tree::node_wf(t.nodes@, i as int));
        }
        let line = t.start_line(i);
        let column = t.nodes[i].start_col + 1;
        let end_line = t.end_line(i);
        let end_column = t.nodes[i].end_col + 1;
        let d = Diagnostic::new(rule_id.to_owned(), severity, message).with_location(
            line,
            column,
        ).with_end_location(end_line, end_column);
        self.report(d);
    }

    /// Hand the collected diagnostics out.
    pub fn into_diagnostics(self) -> (r: Vec<Diagnostic>)
        ensures
            r == self.diagnostics,
    {
        self.diagnostics
    }
}

} // verus!
