pub mod ast_check;
pub mod comments;
pub mod context;
pub mod declarations;
pub mod nodes;
pub mod expressions;
pub mod options;
pub mod statements;
pub mod verbatim;
pub mod output;
pub mod reorder;
pub mod run;
pub mod skip_regions;

pub use options::{FormatOptions, IndentStyle};
pub use ast_check::{compare_ast, compare_ast_with_source, AstCheckResult};
pub use reorder::{reorder_source, Declaration, MemberKind};
pub use run::{run_formatter, FormatError};
pub use output::{FormattedLine, FormattedOutput};
