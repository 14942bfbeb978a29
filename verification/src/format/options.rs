//! Formatting options: indent style, maximum line width, trailing newline.

use vstd::prelude::*;

use crate::text;

verus! {

/// Indentation style for formatting.
#[derive(Debug, Clone, Copy, PartialEq, Eq, Structural)]
pub enum IndentStyle {
    Tabs,
    Spaces(usize),
}

impl Default for IndentStyle {
    /// Tabs, as the style guide prefers.
    fn default() -> (r: Self)
        ensures
            r == IndentStyle::Tabs,
    {
        IndentStyle::Tabs
    }
}

impl IndentStyle {
    /// The view of one indent unit: a tab, or `n` spaces.
    pub open spec fn unit(self) -> Seq<char> {
        match self {
            IndentStyle::Tabs => seq!['\t'],
            IndentStyle::Spaces(n) => text::spec_repeat(seq![' '], n as int),
        }
    }

    /// One indent unit as a string.
    pub fn as_str(&self) -> (r: String)
        ensures
            r@ == self.unit(),
    {
        match self {
            IndentStyle::Tabs => {
                let s = "\t".to_owned();
                proof {
                    reveal_strlit("\t");
                    assert(s@ =~= seq!['\t']);
                }
                s
            },
            IndentStyle::Spaces(n) => {
                let s = text::repeat_str(" ", *n);
                proof {
                    reveal_strlit(" ");
                    assert(" "@ =~= seq![' ']);
                }
                s
            },
        }
    }

    /// Visual width of one indent unit; a tab counts as 4.
    pub open spec fn spec_width(self) -> int {
        match self {
            IndentStyle::Tabs => 4,
            IndentStyle::Spaces(n) => n as int,
        }
    }

    /// Visual width of one indent unit (for line length calculation).
    pub fn width(&self) -> (r: usize)
        ensures
            r == self.spec_width(),
    {
        match self {
            IndentStyle::Tabs => 4,
            IndentStyle::Spaces(n) => *n,
        }
    }
}

/// Formatting options.
#[derive(Debug, Clone, Copy, PartialEq, Eq, Structural)]
pub struct FormatOptions {
    /// Indentation style (tabs or spaces).
    pub indent_style: IndentStyle,
    /// Maximum line length before breaking.
    pub max_line_length: usize,
    /// Whether to ensure a trailing newline at end of file.
    pub trailing_newline: bool,
}

impl Default for FormatOptions {
    /// Tabs, 100 columns, trailing newline on.
    fn default() -> (r: Self)
        ensures
            r == (FormatOptions {
                indent_style: IndentStyle::Tabs,
                max_line_length: 100,
                trailing_newline: true,
            }),
    {
        FormatOptions { indent_style: IndentStyle::Tabs, max_line_length: 100, trailing_newline: true }
    }
}

impl FormatOptions {
    /// Options with tab indentation and the defaults otherwise.
    pub fn with_tabs() -> (r: Self)
        ensures
            r == (FormatOptions {
                indent_style: IndentStyle::Tabs,
                max_line_length: 100,
                trailing_newline: true,
            }),
    {
        FormatOptions { indent_style: IndentStyle::Tabs, max_line_length: 100, trailing_newline: true }
    }

    /// Options with `n`-space indentation and the defaults otherwise.
    pub fn with_spaces(n: usize) -> (r: Self)
        ensures
            r == (FormatOptions {
                indent_style: IndentStyle::Spaces(n),
                max_line_length: 100,
                trailing_newline: true,
            }),
    {
        FormatOptions {
            indent_style: IndentStyle::Spaces(n),
            max_line_length: 100,
            trailing_newline: true,
        }
    }

    /// The same options with the maximum line length replaced.
    pub fn line_length(self, len: usize) -> (r: Self)
        ensures
            r == (FormatOptions { max_line_length: len, ..self }),
    {
        FormatOptions { max_line_length: len, ..self }
    }
}

} // verus!
