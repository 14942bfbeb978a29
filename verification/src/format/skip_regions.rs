//! `# fmt: off` / `# fmt: on` skip regions.
//!
//! A line carries a directive when, anywhere in it, a `#` is followed —
//! whitespace-tolerantly — by `fmt:` and then the directive word.  An open
//! region without a matching `on` extends to the last line of the file.

use vstd::prelude::*;

use crate::text;
use crate::text::{is_space_char, spec_lines, spec_starts_with};

verus! {

/// First index at or after `i` holding a non-whitespace character.
pub open spec fn first_non_ws(line: Seq<char>, i: int) -> int
    decreases line.len() - i when 0 <= i <= line.len()
{
    if i >= line.len() {
        i
    } else if is_space_char(line[i]) {
        first_non_ws(line, i + 1)
    } else {
        i
    }
}

proof fn lemma_first_non_ws(line: Seq<char>, i: int)
    requires
        0 <= i <= line.len(),
    ensures
        i <= first_non_ws(line, i) <= line.len(),
        forall|j: int| i <= j < first_non_ws(line, i) ==> is_space_char(line[j]),
        first_non_ws(line, i) < line.len() ==> !is_space_char(line[first_non_ws(line, i)]),
    decreases line.len() - i,
{
    if i < line.len() && is_space_char(line[i]) {
        lemma_first_non_ws(line, i + 1);
    }
}

/// `fmt:` as a character sequence.
pub open spec fn fmt_colon() -> Seq<char> {
    seq!['f', 'm', 't', ':']
}

/// A directive hangs off the `#` at index `h`: optional whitespace, `fmt:`,
/// optional whitespace, then `word`.
pub open spec fn directive_from_hash(line: Seq<char>, h: int, word: Seq<char>) -> bool {
    let a = first_non_ws(line, h + 1);
    &&& spec_starts_with(line.skip(a), fmt_colon())
    &&& spec_starts_with(line.skip(first_non_ws(line, a + 4)), word)
}

/// The line carries a `# fmt: <word>` directive somewhere.
pub open spec fn has_directive(line: Seq<char>, word: Seq<char>) -> bool {
    exists|h: int| 0 <= h < line.len() && line[h] == '#' && directive_from_hash(line, h, word)
}

/// Scan a line for a `# fmt: <word>` directive.
pub fn line_has_directive(line: &str, word: &str) -> (r: bool)
    ensures
        r == has_directive(line@, word@),
{
    let n = line.unicode_len();
    let mut h: usize = 0;
    while h < n
        invariant
            0 <= h <= n,
            n == line@.len(),
            forall|j: int|
                0 <= j < h ==> !(line@[j] == '#' && directive_from_hash(line@, j, word@)),
        decreases n - h,
    {
        if line.get_char(h) == '#' {
            if directive_here(line, h, word) {
                return true;
            }
        }
        h += 1;
    }
    false
}

/// Advance past whitespace starting at `i`.
fn skip_ws(line: &str, i: usize) -> (r: usize)
    requires
        i <= line@.len(),
    ensures
        r == first_non_ws(line@, i as int),
        i <= r <= line@.len(),
    decreases line@.len() - i,
{
    proof {
        lemma_first_non_ws(line@, i as int);
    }
    let n = line.unicode_len();
    if i >= n {
        return i;
    }
    if text::is_space(line.get_char(i)) {
        skip_ws(line, i + 1)
    } else {
        i
    }
}

/// Advance past whitespace starting at `i` (shared with other directive
/// scanners).
pub fn skip_ws_pub(line: &str, i: usize) -> (r: usize)
    requires
        i <= line@.len(),
    ensures
        r == first_non_ws(line@, i as int),
        i <= r <= line@.len(),
{
    skip_ws(line, i)
}

/// Check a directive hanging off the `#` at index `h`.
fn directive_here(line: &str, h: usize, word: &str) -> (r: bool)
    requires
        h < line@.len(),
    ensures
        r == directive_from_hash(line@, h as int, word@),
{
    let n = line.unicode_len();
    let a = skip_ws(line, h + 1);
    let rest_a = line.substring_char(a, n);
    proof {
        assert(rest_a@ =~= line@.skip(a as int));
        reveal_strlit("fmt:");
        assert("fmt:"@ =~= fmt_colon());
    }
    if !text::str_starts_with(rest_a, "fmt:") {
        return false;
    }
    let b = if a + 4 <= n {
        skip_ws(line, a + 4)
    } else {
        proof {
            lemma_first_non_ws(line@, a as int);
        }
        assert(false);
        n
    };
    let rest_b = line.substring_char(b, n);
    proof {
        assert(rest_b@ =~= line@.skip(b as int));
    }
    text::str_starts_with(rest_b, word)
}

/// The skip ranges of a file, accumulated over its lines.  `i` is the next
/// 0-indexed line to look at; `cur` is an open region's 1-indexed start.
pub open spec fn spec_ranges(lines: Seq<Seq<char>>, i: int, cur: Option<int>) -> Seq<(int, int)>
    decreases lines.len() - i when 0 <= i <= lines.len()
{
    if i >= lines.len() {
        match cur {
            Some(s) => seq![(s, lines.len() as int)],
            None => Seq::empty(),
        }
    } else {
        let ln = i + 1;
        if has_directive(lines[i], seq!['o', 'f', 'f']) {
            spec_ranges(lines, i + 1, if cur is None { Some(ln) } else { cur })
        } else if has_directive(lines[i], seq!['o', 'n']) {
            match cur {
                Some(s) => seq![(s, ln)] + spec_ranges(lines, i + 1, None),
                None => spec_ranges(lines, i + 1, None),
            }
        } else {
            spec_ranges(lines, i + 1, cur)
        }
    }
}

/// The skip ranges of a source text.
pub open spec fn spec_skip_ranges(source: Seq<char>) -> Seq<(int, int)> {
    spec_ranges(spec_lines(source), 0, None)
}

/// A line lies inside one of the ranges (both ends inclusive).
pub open spec fn in_skip_ranges(ranges: Seq<(int, int)>, line: int) -> bool {
    exists|k: int|
        0 <= k < ranges.len() && (#[trigger] ranges[k]).0 <= line <= ranges[k].1
}

/// Tracks regions that should skip formatting (`# fmt: off`/`on`).
pub struct SkipRegions {
    /// Ranges of lines to skip, both ends inclusive, 1-indexed.
    pub ranges: Vec<(usize, usize)>,
}

impl SkipRegions {
    /// The ranges as mathematical pairs.
    pub open spec fn view_ranges(&self) -> Seq<(int, int)> {
        Seq::new(self.ranges@.len(), |k: int| (self.ranges@[k].0 as int, self.ranges@[k].1 as int))
    }

    /// A line is skipped when some range contains it.
    pub open spec fn spec_skipped(&self, line: int) -> bool {
        in_skip_ranges(self.view_ranges(), line)
    }

    /// Parse skip regions from source code.
    pub fn parse(source: &str) -> (r: SkipRegions)
        ensures
            r.view_ranges() == spec_skip_ranges(source@),
    {
        let lines = text::split_lines(source);
        let n = lines.len();
        let ghost lv = spec_lines(source@);
        let mut ranges: Vec<(usize, usize)> = Vec::new();
        let mut current_start: Option<usize> = None;
        let mut i: usize = 0;
        proof {
            assert(lv.len() == lines@.len());
        }
        while i < n
            invariant
                0 <= i <= n,
                n == lines@.len(),
                lv == spec_lines(source@),
                lv.len() == n,
                lines.deep_view() == lv,
                i < n ==> lines@[i as int]@ == lv[i as int],
                spec_skip_ranges(source@) == Seq::new(
                    ranges@.len(),
                    |k: int| (ranges@[k].0 as int, ranges@[k].1 as int),
                ) + spec_ranges(
                    lv,
                    i as int,
                    match current_start {
                        Some(s) => Some(s as int),
                        None => None,
                    },
                ),
            decreases n - i,
        {
            proof {
                assert(lines@[i as int]@ == lines.deep_view()[i as int]);
            }
            let ghost old_ranges = ranges@;
            let line = &lines[i];
            let line_num = i + 1;
            proof {
                reveal_strlit("off");
                reveal_strlit("on");
                assert("off"@ =~= seq!['o', 'f', 'f']);
                assert("on"@ =~= seq!['o', 'n']);
            }
            if line_has_directive(line.as_str(), "off") {
                if current_start.is_none() {
                    current_start = Some(line_num);
                }
            } else if line_has_directive(line.as_str(), "on") {
                if let Some(start) = current_start {
                    ranges.push((start, line_num));
                    current_start = None;
                    proof {
                        assert(Seq::new(
                            ranges@.len(),
                            |k: int| (ranges@[k].0 as int, ranges@[k].1 as int),
                        ) =~= Seq::new(
                            old_ranges.len(),
                            |k: int| (old_ranges[k].0 as int, old_ranges[k].1 as int),
                        ) + seq![(start as int, line_num as int)]);
                    }
                }
            }
            i += 1;
        }
        if let Some(start) = current_start {
            let ghost old_ranges = ranges@;
            ranges.push((start, n));
            proof {
                assert(Seq::new(
                    ranges@.len(),
                    |k: int| (ranges@[k].0 as int, ranges@[k].1 as int),
                ) =~= Seq::new(
                    old_ranges.len(),
                    |k: int| (old_ranges[k].0 as int, old_ranges[k].1 as int),
                ) + seq![(start as int, n as int)]);
            }
        }
        let r = SkipRegions { ranges };
        proof {
            assert(r.view_ranges() =~= spec_skip_ranges(source@));
        }
        r
    }

    /// Check if a line (1-indexed) is in a skip region.
    pub fn is_skipped(&self, line: usize) -> (r: bool)
        ensures
            r == self.spec_skipped(line as int),
    {
        let n = self.ranges.len();
        let mut k: usize = 0;
        while k < n
            invariant
                0 <= k <= n,
                n == self.ranges@.len(),
                forall|j: int|
                    0 <= j < k ==> !((#[trigger] self.view_ranges()[j]).0 <= line
                        <= self.view_ranges()[j].1),
            decreases n - k,
        {
            let (start, end) = self.ranges[k];
            proof {
                assert(self.view_ranges()[k as int] == (start as int, end as int));
            }
            if line >= start && line <= end {
                return true;
            }
            k += 1;
        }
        false
    }

    /// Get the skip region containing a line, if any.
    pub fn get_region(&self, line: usize) -> (r: Option<(usize, usize)>)
        ensures
            match r {
                Some(p) => self.spec_skipped(line as int) && self.view_ranges().contains(
                    (p.0 as int, p.1 as int),
                ) && p.0 <= line <= p.1,
                None => !self.spec_skipped(line as int),
            },
    {
        let n = self.ranges.len();
        let mut k: usize = 0;
        while k < n
            invariant
                0 <= k <= n,
                n == self.ranges@.len(),
                forall|j: int|
                    0 <= j < k ==> !((#[trigger] self.view_ranges()[j]).0 <= line
                        <= self.view_ranges()[j].1),
            decreases n - k,
        {
            let (start, end) = self.ranges[k];
            proof {
                assert(self.view_ranges()[k as int] == (start as int, end as int));
            }
            if line >= start && line <= end {
                return Some((start, end));
            }
            k += 1;
        }
        None
    }

    /// Check if empty (no skip regions).
    pub fn is_empty(&self) -> (r: bool)
        ensures
            r == (self.view_ranges().len() == 0),
    {
        self.ranges.len() == 0
    }
}

} // verus!
