pub mod context;
pub mod diagnostic;
pub mod runner;
pub mod suppression;

pub use context::LintContext;
pub use diagnostic::{Diagnostic, RuleCategory, RuleMetadata, Severity};
pub use runner::run_linter;
pub use suppression::Suppressions;
