//! Extracted comments from source code.
//!
//! Comments are not part of the parser's tree, so they are recovered from the
//! raw text and injected back after formatting.  A line whose trimmed form
//! starts with `#` is a standalone comment and is kept whole, indentation
//! included.  Otherwise the first `#` outside a string literal starts an
//! inline comment that runs to the end of the line.

use vstd::prelude::*;

use crate::text;
use crate::text::{spec_lines, spec_trim};

verus! {

/// State-machine scan for the first `#` outside a string literal.  `inside`
/// is the in-string flag, `quote` the opening quote, `prev` the previous
/// character (for escape handling).
pub open spec fn find_hash_from(
    line: Seq<char>,
    i: int,
    inside: bool,
    quote: char,
    prev: char,
) -> Option<int>
    decreases line.len() - i when 0 <= i <= line.len()
{
    if i >= line.len() {
        None
    } else {
        let c = line[i];
        if inside {
            if c == quote && prev != '\\' {
                find_hash_from(line, i + 1, false, quote, c)
            } else {
                find_hash_from(line, i + 1, true, quote, c)
            }
        } else if c == '"' || c == '\'' {
            find_hash_from(line, i + 1, true, c, c)
        } else if c == '#' {
            Some(i)
        } else {
            find_hash_from(line, i + 1, false, quote, c)
        }
    }
}

/// Index of the first `#` outside a string literal, if any.
pub open spec fn spec_comment_start(line: Seq<char>) -> Option<int> {
    find_hash_from(line, 0, false, ' ', ' ')
}

/// Find the start of a comment in a line, handling strings.
pub fn find_comment_start(line: &str) -> (r: Option<usize>)
    ensures
        match r {
            Some(i) => spec_comment_start(line@) == Some(i as int) && i < line@.len(),
            None => spec_comment_start(line@) is None,
        },
{
    let n = line.unicode_len();
    let mut i: usize = 0;
    let mut inside: bool = false;
    let mut quote: char = ' ';
    let mut prev: char = ' ';
    while i < n
        invariant
            0 <= i <= n,
            n == line@.len(),
            spec_comment_start(line@) == find_hash_from(line@, i as int, inside, quote, prev),
        decreases n - i,
    {
        let c = line.get_char(i);
        if inside {
            if c == quote && prev != '\\' {
                inside = false;
            }
        } else if c == '"' || c == '\'' {
            inside = true;
            quote = c;
        } else if c == '#' {
            return Some(i);
        }
        prev = c;
        i += 1;
    }
    None
}

/// The standalone comments of the first `i` lines, keyed by 1-indexed line.
pub open spec fn standalone_upto(lines: Seq<Seq<char>>, i: int) -> Map<int, Seq<char>>
    decreases i,
{
    if i <= 0 {
        Map::empty()
    } else {
        let m = standalone_upto(lines, i - 1);
        let line = lines[i - 1];
        let t = spec_trim(line);
        if t.len() == 0 {
            m
        } else if t[0] == '#' {
            m.insert(i, line)
        } else {
            m
        }
    }
}

/// The inline comments of the first `i` lines, keyed by 1-indexed line.
pub open spec fn inline_upto(lines: Seq<Seq<char>>, i: int) -> Map<int, Seq<char>>
    decreases i,
{
    if i <= 0 {
        Map::empty()
    } else {
        let m = inline_upto(lines, i - 1);
        let line = lines[i - 1];
        let t = spec_trim(line);
        if t.len() == 0 || t[0] == '#' {
            m
        } else {
            match spec_comment_start(line) {
                Some(h) => m.insert(i, line.skip(h)),
                None => m,
            }
        }
    }
}

/// The standalone comment table of a source text.
pub open spec fn spec_standalone(source: Seq<char>) -> Map<int, Seq<char>> {
    standalone_upto(spec_lines(source), spec_lines(source).len() as int)
}

/// The inline comment table of a source text.
pub open spec fn spec_inline(source: Seq<char>) -> Map<int, Seq<char>> {
    inline_upto(spec_lines(source), spec_lines(source).len() as int)
}

/// Extracted comments, keyed by 1-indexed line number.
pub struct Comments {
    /// Standalone comments (entire line is a comment), in line order.
    pub standalone: Vec<(usize, String)>,
    /// Inline comments (code followed by comment), in line order.
    pub inline: Vec<(usize, String)>,
}

/// The map an association list stands for.
pub open spec fn assoc_view(entries: Seq<(usize, String)>) -> Map<int, Seq<char>>
    decreases entries.len(),
{
    if entries.len() == 0 {
        Map::empty()
    } else {
        assoc_view(entries.drop_last()).insert(
            entries.last().0 as int,
            entries.last().1@,
        )
    }
}

/// Keys strictly increase along the list.
pub open spec fn assoc_sorted(entries: Seq<(usize, String)>) -> bool {
    forall|a: int, b: int|
        0 <= a < b < entries.len() ==> (#[trigger] entries[a]).0 < (#[trigger] entries[b]).0
}

proof fn lemma_assoc_contains(entries: Seq<(usize, String)>, j: int)
    requires
        assoc_sorted(entries),
        0 <= j < entries.len(),
    ensures
        assoc_view(entries).contains_key(entries[j].0 as int),
        assoc_view(entries)[entries[j].0 as int] == entries[j].1@,
    decreases entries.len(),
{
    if j < entries.len() - 1 {
        lemma_assoc_contains(entries.drop_last(), j);
    }
}

proof fn lemma_assoc_absent(entries: Seq<(usize, String)>, key: int)
    requires
        forall|j: int| 0 <= j < entries.len() ==> (#[trigger] entries[j]).0 != key,
    ensures
        !assoc_view(entries).contains_key(key),
    decreases entries.len(),
{
    if entries.len() > 0 {
        lemma_assoc_absent(entries.drop_last(), key);
    }
}

/// Look a key up in an association list.
fn assoc_get(entries: &Vec<(usize, String)>, key: usize) -> (r: Option<&String>)
    requires
        assoc_sorted(entries@),
    ensures
        match r {
            Some(s) => assoc_view(entries@).contains_key(key as int) && s@ == assoc_view(
                entries@,
            )[key as int],
            None => !assoc_view(entries@).contains_key(key as int),
        },
{
    let n = entries.len();
    let mut j: usize = 0;
    while j < n
        invariant
            0 <= j <= n,
            n == entries@.len(),
            assoc_sorted(entries@),
            forall|k: int| 0 <= k < j ==> (#[trigger] entries@[k]).0 != key,
        decreases n - j,
    {
        if entries[j].0 == key {
            proof {
                lemma_assoc_contains(entries@, j as int);
            }
            return Some(&entries[j].1);
        }
        j += 1;
    }
    proof {
        lemma_assoc_absent(entries@, key as int);
    }
    None
}

impl Comments {
    /// Extract comments from source code.
    pub fn extract(source: &str) -> (r: Comments)
        ensures
            r.wf(),
            assoc_view(r.standalone@) == spec_standalone(source@),
            assoc_view(r.inline@) == spec_inline(source@),
    {
        let lines = text::split_lines(source);
        let n = lines.len();
        let ghost lv = spec_lines(source@);
        let mut standalone: Vec<(usize, String)> = Vec::new();
        let mut inline: Vec<(usize, String)> = Vec::new();
        let mut i: usize = 0;
        while i < n
            invariant
                0 <= i <= n,
                n == lines@.len(),
                lv == spec_lines(source@),
                lines.deep_view() == lv,
                assoc_sorted(standalone@),
                assoc_sorted(inline@),
                forall|k: int| 0 <= k < standalone@.len() ==> (#[trigger] standalone@[k]).0 <= i,
                forall|k: int| 0 <= k < inline@.len() ==> (#[trigger] inline@[k]).0 <= i,
                assoc_view(standalone@) == standalone_upto(lv, i as int),
                assoc_view(inline@) == inline_upto(lv, i as int),
            decreases n - i,
        {
            proof {
                assert(lines@[i as int]@ == lines.deep_view()[i as int]);
            }
            let line = &lines[i];
            let line_num = i + 1;
            let trimmed = text::trim(line.as_str());
            if trimmed.as_str().unicode_len() == 0 {
                // blank line: no comment
            } else if text::starts_with_char(trimmed.as_str(), '#') {
                let ghost old_standalone = standalone@;
                let entry = line.clone();
                standalone.push((line_num, entry));
                proof {
                    assert(standalone@.drop_last() =~= old_standalone);
                }
            } else if let Some(h) = find_comment_start(line.as_str()) {
                let m = line.as_str().unicode_len();
                let comment = line.as_str().substring_char(h, m).to_owned();
                proof {
                    assert(comment@ =~= lv[i as int].skip(h as int));
                }
                let ghost old_inline = inline@;
                inline.push((line_num, comment));
                proof {
                    assert(inline@.drop_last() =~= old_inline);
                }
            }
            i += 1;
        }
        Comments { standalone, inline }
    }

    /// Both association lists have strictly increasing keys.
    pub open spec fn wf(&self) -> bool {
        assoc_sorted(self.standalone@) && assoc_sorted(self.inline@)
    }

    /// The standalone comment table.
    pub open spec fn standalone_view(&self) -> Map<int, Seq<char>> {
        assoc_view(self.standalone@)
    }

    /// The inline comment table.
    pub open spec fn inline_view(&self) -> Map<int, Seq<char>> {
        assoc_view(self.inline@)
    }

    /// Get a standalone comment for a line.
    pub fn get_standalone(&self, line: usize) -> (r: Option<&String>)
        requires
            self.wf(),
        ensures
            match r {
                Some(s) => self.standalone_view().contains_key(line as int) && s@
                    == self.standalone_view()[line as int],
                None => !self.standalone_view().contains_key(line as int),
            },
    {
        assoc_get(&self.standalone, line)
    }

    /// Get an inline comment for a line.
    pub fn get_inline(&self, line: usize) -> (r: Option<&String>)
        requires
            self.wf(),
        ensures
            match r {
                Some(s) => self.inline_view().contains_key(line as int) && s@
                    == self.inline_view()[line as int],
                None => !self.inline_view().contains_key(line as int),
            },
    {
        assoc_get(&self.inline, line)
    }
}

} // verus!
