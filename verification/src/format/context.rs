//! Mutable context threaded through rendering: source lines, options,
//! current indent, skip regions, and the growing output.

use vstd::prelude::*;

use crate::format::options::FormatOptions;
use crate::format::output::{FormattedLine, FormattedOutput};
use crate::format::skip_regions::SkipRegions;
use crate::text;

verus! {

/// Mutable context passed during formatting.
pub struct FormatContext {
    /// Source lines for extracting original text.
    pub lines: Vec<String>,
    /// Formatting options.
    pub options: FormatOptions,
    /// Current indentation level.
    pub indent_level: usize,
    /// Regions to skip formatting (`# fmt: off`/`on`).
    pub skip_regions: SkipRegions,
    /// Output being built.
    pub output: FormattedOutput,
}

/// The parts of the context that rendering never changes.
pub open spec fn ctx_stable(a: FormatContext, b: FormatContext) -> bool {
    &&& a.lines == b.lines
    &&& a.options == b.options
    &&& a.skip_regions == b.skip_regions
    &&& a.indent_level == b.indent_level
}

/// An output buffer line as a mathematical record: its optional 1-indexed
/// source line and its content.
pub open spec fn out_view(s: Seq<FormattedLine>) -> Seq<(Option<int>, Seq<char>)> {
    Seq::new(
        s.len(),
        |k: int|
            (
                match s[k].source_line {
                    Some(n) => Some(n as int),
                    None => None,
                },
                s[k].content@,
            ),
    )
}

impl FormatContext {
    /// The view of the source lines.
    pub open spec fn lv(&self) -> Seq<Seq<char>> {
        self.lines.deep_view()
    }

    /// Create a new formatting context.
    pub fn new(source: &str, options: &FormatOptions, skip_regions: SkipRegions) -> (r: Self)
        ensures
            r.lv() == text::spec_lines(source@),
            r.options == *options,
            r.indent_level == 0,
            r.skip_regions == skip_regions,
            r.output.lines@.len() == 0,
    {
        FormatContext {
            lines: text::split_lines(source),
            options: *options,
            indent_level: 0,
            skip_regions,
            output: FormattedOutput::new(),
        }
    }

    /// Get the current indentation string.
    pub fn indent_str(&self) -> (r: String)
        ensures
            r@ == crate::format::expressions::ind_of(self.options, self.indent_level as int),
    {
        crate::format::expressions::indent_text(&self.options, self.indent_level)
    }

    /// Increase indentation level.
    pub fn indent(&mut self)
        requires
            old(self).indent_level < usize::MAX,
        ensures
            final(self).indent_level == old(self).indent_level + 1,
            final(self).lines == old(self).lines,
            final(self).options == old(self).options,
            final(self).skip_regions == old(self).skip_regions,
            final(self).output == old(self).output,
    {
        self.indent_level = self.indent_level + 1;
    }

    /// Decrease indentation level, saturating at zero.
    pub fn dedent(&mut self)
        ensures
            final(self).indent_level == if old(self).indent_level > 0 {
                old(self).indent_level - 1
            } else {
                0
            },
            final(self).lines == old(self).lines,
            final(self).options == old(self).options,
            final(self).skip_regions == old(self).skip_regions,
            final(self).output == old(self).output,
    {
        if self.indent_level > 0 {
            self.indent_level = self.indent_level - 1;
        }
    }

    /// Check if a line number is in a skip region.
    pub fn is_skipped(&self, line: usize) -> (r: bool)
        ensures
            r == self.skip_regions.spec_skipped(line as int),
    {
        self.skip_regions.is_skipped(line)
    }

    /// Get a line from the original source (1-indexed).
    pub fn get_source_line(&self, line: usize) -> (r: Option<&String>)
        ensures
            match r {
                Some(s) => 1 <= line <= self.lv().len() && s@ == self.lv()[line - 1],
                None => !(1 <= line <= self.lv().len()),
            },
    {
        if line == 0 || line > self.lines.len() {
            None
        } else {
            proof {
                assert(self.lines@[line - 1]@ == self.lv()[line - 1]);
            }
            Some(&self.lines[line - 1])
        }
    }

    /// The visual width of `s`: tabs count as the indent width, every other
    /// character as one, saturating at `usize::MAX`.
    pub fn visual_width(&self, s: &str) -> (r: usize)
        ensures
            r as int == spec_visual_width_cap(s@, self.options.indent_style.spec_width()),
    {
        let tab_width = self.options.indent_style.width();
        let n = s.unicode_len();
        let mut total: usize = 0;
        let mut i: usize = 0;
        while i < n
            invariant
                0 <= i <= n,
                n == s@.len(),
                tab_width == self.options.indent_style.spec_width(),
                total as int == spec_visual_width_cap(s@.take(i as int), tab_width as int),
            decreases n - i,
        {
            proof {
                assert(s@.take(i + 1).drop_last() =~= s@.take(i as int));
                assert(s@.take(i + 1).last() == s@[i as int]);
            }
            let c = s.get_char(i);
            let add: usize = if c == '\t' {
                tab_width
            } else {
                1
            };
            if total <= usize::MAX - add {
                total += add;
            } else {
                total = usize::MAX;
            }
            i += 1;
        }
        proof {
            assert(s@.take(n as int) =~= s@);
        }
        total
    }

    /// Check if a string would exceed max line length.
    pub fn exceeds_line_length(&self, s: &str) -> (r: bool)
        ensures
            r == (spec_visual_width_cap(s@, self.options.indent_style.spec_width())
                > self.options.max_line_length),
    {
        self.visual_width(s) > self.options.max_line_length
    }
}

/// Visual width with tab stops of width `tabw`, capped at `usize::MAX`.
pub open spec fn spec_visual_width_cap(s: Seq<char>, tabw: int) -> int
    decreases s.len(),
{
    if s.len() == 0 {
        0
    } else {
        let rest = spec_visual_width_cap(s.drop_last(), tabw);
        let add = if s.last() == '\t' {
            tabw
        } else {
            1
        };
        if rest + add <= usize::MAX {
            rest + add
        } else {
            usize::MAX as int
        }
    }
}

} // verus!
