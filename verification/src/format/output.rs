//! The formatter's output buffer: rendered lines, blank-line collapsing,
//! and the final string rendering.

use vstd::prelude::*;

use crate::format::context::out_view;
use crate::format::options::FormatOptions;

verus! {

/// A single formatted line with optional source line mapping.
#[derive(Debug)]
pub struct FormattedLine {
    /// The source line number this came from (1-indexed), if known.
    pub source_line: Option<usize>,
    /// The formatted content (without trailing newline).
    pub content: String,
}

/// A line with empty content.
pub open spec fn is_blank_line(l: FormattedLine) -> bool {
    l.content@.len() == 0
}

/// An untagged line with empty content, as the blank-line policy inserts it.
pub open spec fn is_policy_blank(l: FormattedLine) -> bool {
    l.content@.len() == 0 && l.source_line is None
}

impl FormattedLine {
    /// Create a new formatted line without source mapping.
    pub fn new(content: String) -> (r: Self)
        ensures
            r.source_line is None,
            r.content@ == content@,
    {
        FormattedLine { source_line: None, content }
    }

    /// Create a formatted line with source mapping.
    pub fn with_source(content: String, source_line: usize) -> (r: Self)
        ensures
            r.source_line == Some(source_line),
            r.content@ == content@,
    {
        FormattedLine { source_line: Some(source_line), content }
    }

    /// Create an empty line.
    pub fn empty() -> (r: Self)
        ensures
            is_policy_blank(r),
    {
        FormattedLine { source_line: None, content: String::new() }
    }
}

/// Number of blank lines at the end of the buffer.
pub open spec fn spec_trailing_blanks(s: Seq<FormattedLine>) -> int
    decreases s.len(),
{
    if s.len() == 0 {
        0
    } else if is_blank_line(s.last()) {
        1 + spec_trailing_blanks(s.drop_last())
    } else {
        0
    }
}

pub proof fn lemma_trailing_blanks_bound(s: Seq<FormattedLine>)
    ensures
        0 <= spec_trailing_blanks(s) <= s.len(),
    decreases s.len(),
{
    if s.len() > 0 && is_blank_line(s.last()) {
        lemma_trailing_blanks_bound(s.drop_last());
    }
}

/// How many blank lines `push_blank_lines(count)` adds: at most two in a
/// row, counting blanks already at the end of the buffer.
pub open spec fn spec_blanks_to_add(s: Seq<FormattedLine>, count: int) -> int {
    let capped = if count >= 2 {
        2int
    } else {
        count
    };
    let t = spec_trailing_blanks(s);
    if capped >= t {
        capped - t
    } else {
        0
    }
}

/// Builder for formatted output.
#[derive(Debug)]
pub struct FormattedOutput {
    pub lines: Vec<FormattedLine>,
}

impl FormattedOutput {
    /// Create a new empty output.
    pub fn new() -> (r: Self)
        ensures
            r.lines@.len() == 0,
    {
        FormattedOutput { lines: Vec::new() }
    }

    /// Add a formatted line.
    pub fn push(&mut self, line: FormattedLine)
        ensures
            final(self).lines@ == old(self).lines@.push(line),
    {
        self.lines.push(line);
    }

    /// Add a line with just content and no source mapping.
    pub fn push_line(&mut self, content: String)
        ensures
            final(self).lines@.len() == old(self).lines@.len() + 1,
            final(self).lines@ == old(self).lines@.push(final(self).lines@.last()),
            final(self).lines@.last().source_line is None,
            final(self).lines@.last().content@ == content@,
    {
        self.lines.push(FormattedLine::new(content));
    }

    /// Add a line with source mapping.
    pub fn push_mapped(&mut self, content: String, source_line: usize)
        ensures
            final(self).lines@.len() == old(self).lines@.len() + 1,
            final(self).lines@ == old(self).lines@.push(final(self).lines@.last()),
            final(self).lines@.last().source_line == Some(source_line),
            final(self).lines@.last().content@ == content@,
    {
        self.lines.push(FormattedLine::with_source(content, source_line));
    }

    /// Add an empty line.
    pub fn push_empty(&mut self)
        ensures
            final(self).lines@.len() == old(self).lines@.len() + 1,
            final(self).lines@ == old(self).lines@.push(final(self).lines@.last()),
            is_policy_blank(final(self).lines@.last()),
    {
        self.lines.push(FormattedLine::empty());
    }

    /// Count trailing blank lines.
    fn trailing_blank_count(&self) -> (r: usize)
        ensures
            r == spec_trailing_blanks(self.lines@),
    {
        proof {
            lemma_trailing_blanks_bound(self.lines@);
        }
        let n = self.lines.len();
        let mut k: usize = 0;
        proof {
            assert(self.lines@.take(n as int) =~= self.lines@);
        }
        while k < n
            invariant
                0 <= k <= n,
                n == self.lines@.len(),
                spec_trailing_blanks(self.lines@) == k + spec_trailing_blanks(
                    self.lines@.take(n - k),
                ),
            decreases n - k,
        {
            let ghost pre = self.lines@.take(n - k);
            proof {
                assert(pre.drop_last() =~= self.lines@.take(n - k - 1));
            }
            if self.lines[n - k - 1].content.as_str().unicode_len() != 0 {
                proof {
                    assert(!is_blank_line(pre.last()));
                }
                return k;
            }
            proof {
                assert(is_blank_line(pre.last()));
            }
            k += 1;
        }
        proof {
            assert(self.lines@.take(0) =~= Seq::<FormattedLine>::empty());
        }
        k
    }

    /// Add up to `count` blank lines, never exceeding two consecutive ones.
    pub fn push_blank_lines(&mut self, count: usize)
        ensures
            final(self).lines@.len() == old(self).lines@.len() + spec_blanks_to_add(
                old(self).lines@,
                count as int,
            ),
            forall|j: int|
                0 <= j < old(self).lines@.len() ==> final(self).lines@[j] == old(self).lines@[j],
            forall|j: int|
                old(self).lines@.len() <= j < final(self).lines@.len() ==> is_policy_blank(
                    #[trigger] final(self).lines@[j],
                ),
    {
        let capped = if count >= 2 {
            2
        } else {
            count
        };
        let trailing = self.trailing_blank_count();
        let to_add = if capped >= trailing {
            capped - trailing
        } else {
            0
        };
        let ghost start = self.lines@;
        let mut a: usize = 0;
        while a < to_add
            invariant
                0 <= a <= to_add,
                self.lines@.len() == start.len() + a,
                forall|j: int| 0 <= j < start.len() ==> self.lines@[j] == start[j],
                forall|j: int|
                    start.len() <= j < self.lines@.len() ==> is_policy_blank(
                        #[trigger] self.lines@[j],
                    ),
            decreases to_add - a,
        {
            self.lines.push(FormattedLine::empty());
            a += 1;
        }
    }

    /// Get the number of lines.
    pub fn len(&self) -> (r: usize)
        ensures
            r == self.lines@.len(),
    {
        self.lines.len()
    }

    /// Check if empty.
    pub fn is_empty(&self) -> (r: bool)
        ensures
            r == (self.lines@.len() == 0),
    {
        self.lines.len() == 0
    }
}

/// The 1-indexed source lines already spoken for by some output line.
pub open spec fn tagged_lines(s: Seq<(Option<int>, Seq<char>)>) -> Set<int> {
    Set::new(|ln: int| exists|j: int| 0 <= j < s.len() && (#[trigger] s[j]).0 == Some(ln))
}

/// A line whose trimmed form starts with `#`.
pub open spec fn is_comment_line(src: Seq<Seq<char>>, ln: int) -> bool {
    1 <= ln <= src.len() && {
        let tr = crate::text::spec_trim(src[ln - 1]);
        tr.len() > 0 && tr[0] == '#'
    }
}

/// A line that exists and is not blank after trimming.
pub open spec fn is_non_blank_line(src: Seq<Seq<char>>, ln: int) -> bool {
    1 <= ln <= src.len() && crate::text::spec_trim(src[ln - 1]).len() > 0
}

/// Insert the standalone comments with line numbers in `[a, b)` that are not
/// yet emitted, in order; returns the new buffer and emitted set.
pub open spec fn inject_range(
    st: Map<int, Seq<char>>,
    already: Set<int>,
    a: int,
    b: int,
    acc: Seq<(Option<int>, Seq<char>)>,
) -> (Seq<(Option<int>, Seq<char>)>, Set<int>)
    decreases b - a when a <= b
{
    if a >= b {
        (acc, already)
    } else if !already.contains(a) && st.contains_key(a) {
        inject_range(st, already.insert(a), a + 1, b, acc.push((Some(a), st[a])))
    } else {
        inject_range(st, already, a + 1, b, acc)
    }
}

/// A rendered line's content with its inline comment appended, two spaces
/// apart, unless the comment is already its suffix.
pub open spec fn with_inline(
    content: Seq<char>,
    sl: int,
    inl: Map<int, Seq<char>>,
) -> Seq<char> {
    if inl.contains_key(sl) {
        if content.len() == 0 {
            inl[sl]
        } else if crate::text::spec_ends_with(content, inl[sl]) {
            content
        } else {
            content + "  "@ + inl[sl]
        }
    } else {
        content
    }
}

/// The source line of the first tagged output line at or after `j`.
pub open spec fn next_tagged(s: Seq<(Option<int>, Seq<char>)>, j: int) -> Option<int>
    decreases s.len() - j when 0 <= j
{
    if j >= s.len() {
        None
    } else {
        match s[j].0 {
            Some(sl) => Some(sl),
            None => next_tagged(s, j + 1),
        }
    }
}

/// Last line of the contiguous comment block starting at `cl`: extend while
/// the following line is a comment and the block stays before `next_sl`.
pub open spec fn block_end_from(src: Seq<Seq<char>>, cl: int, next_sl: int) -> int
    decreases next_sl - cl when cl <= next_sl
{
    if cl < next_sl && is_comment_line(src, cl + 1) {
        block_end_from(src, cl + 1, next_sl)
    } else {
        cl
    }
}

/// First non-blank source line in `[a, b]`, if any.
pub open spec fn first_non_blank(src: Seq<Seq<char>>, a: int, b: int) -> Option<int>
    decreases b + 1 - a when a <= b + 1
{
    if a > b {
        None
    } else if is_non_blank_line(src, a) {
        Some(a)
    } else {
        first_non_blank(src, a + 1, b)
    }
}

/// Emit the not-yet-emitted standalone comments of the block `[cl, be]`,
/// tracking the last emitted line.
pub open spec fn inject_block(
    st: Map<int, Seq<char>>,
    already: Set<int>,
    cl: int,
    be: int,
    acc: Seq<(Option<int>, Seq<char>)>,
    last: int,
) -> (Seq<(Option<int>, Seq<char>)>, Set<int>, int)
    decreases be + 1 - cl when cl <= be + 1
{
    if cl > be {
        (acc, already, last)
    } else if !already.contains(cl) && st.contains_key(cl) {
        inject_block(st, already.insert(cl), cl + 1, be, acc.push((Some(cl), st[cl])), cl)
    } else {
        inject_block(st, already, cl + 1, be, acc, last)
    }
}

/// Walk the comment-bearing source lines of the gap before a policy blank:
/// a block is attached before the blank only when a blank line (or nothing)
/// follows it within the gap.
pub open spec fn walk_gap(
    st: Map<int, Seq<char>>,
    src: Seq<Seq<char>>,
    already: Set<int>,
    cl: int,
    next_sl: int,
    acc: Seq<(Option<int>, Seq<char>)>,
    last: int,
) -> (Seq<(Option<int>, Seq<char>)>, Set<int>, int)
    decreases next_sl - cl when cl <= next_sl
    via walk_gap_decreases
{
    if cl >= next_sl {
        (acc, already, last)
    } else if already.contains(cl) {
        walk_gap(st, src, already, cl + 1, next_sl, acc, last)
    } else if !is_comment_line(src, cl) {
        walk_gap(st, src, already, cl + 1, next_sl, acc, last)
    } else {
        let be = block_end_from(src, cl, next_sl);
        let line_after = be + 1;
        let followed_by_blank = match first_non_blank(src, line_after, next_sl) {
            Some(n) => n > line_after,
            None => true,
        };
        if followed_by_blank {
            let r = inject_block(st, already, cl, be, acc, last);
            if be + 1 <= next_sl {
                walk_gap(st, src, r.1, be + 1, next_sl, r.0, r.2)
            } else {
                (r.0, r.1, r.2)
            }
        } else {
            if be + 1 <= next_sl {
                walk_gap(st, src, already, be + 1, next_sl, acc, last)
            } else {
                (acc, already, last)
            }
        }
    }
}

pub proof fn lemma_block_end_bound(src: Seq<Seq<char>>, cl: int, next_sl: int)
    requires
        cl <= next_sl,
    ensures
        cl <= block_end_from(src, cl, next_sl) <= next_sl,
    decreases next_sl - cl,
{
    if cl < next_sl && is_comment_line(src, cl + 1) {
        lemma_block_end_bound(src, cl + 1, next_sl);
    }
}

#[via_fn]
proof fn walk_gap_decreases(
    st: Map<int, Seq<char>>,
    src: Seq<Seq<char>>,
    already: Set<int>,
    cl: int,
    next_sl: int,
    acc: Seq<(Option<int>, Seq<char>)>,
    last: int,
) {
    if cl < next_sl {
        lemma_block_end_bound(src, cl, next_sl);
    }
}

/// The whole injection pass over the rendered lines.
pub open spec fn spec_inject(
    lines_vec: Seq<(Option<int>, Seq<char>)>,
    idx: int,
    last: int,
    already: Set<int>,
    st: Map<int, Seq<char>>,
    inl: Map<int, Seq<char>>,
    src: Seq<Seq<char>>,
    acc: Seq<(Option<int>, Seq<char>)>,
) -> (Seq<(Option<int>, Seq<char>)>, Set<int>, int)
    decreases lines_vec.len() - idx when 0 <= idx
{
    if idx >= lines_vec.len() {
        (acc, already, last)
    } else {
        let rec = lines_vec[idx];
        match rec.0 {
            Some(sl) => {
                let r = if last + 1 <= sl {
                    inject_range(st, already, last + 1, sl, acc)
                } else {
                    (acc, already)
                };
                let content = with_inline(rec.1, sl, inl);
                spec_inject(
                    lines_vec,
                    idx + 1,
                    sl,
                    r.1,
                    st,
                    inl,
                    src,
                    r.0.push((Some(sl), content)),
                )
            },
            None => {
                let r = match next_tagged(lines_vec, idx + 1) {
                    Some(nsl) => if last + 1 <= nsl {
                        walk_gap(st, src, already, last + 1, nsl, acc, last)
                    } else {
                        (acc, already, last)
                    },
                    None => (acc, already, last),
                };
                spec_inject(lines_vec, idx + 1, r.2, r.1, st, inl, src, r.0.push((None, rec.1)))
            },
        }
    }
}

/// The set an index list stands for.
pub open spec fn set_of(v: Seq<usize>) -> Set<int> {
    Set::new(|x: int| exists|j: int| 0 <= j < v.len() && v[j] == x)
}

/// Membership scan.
pub(crate) fn idx_contains(v: &Vec<usize>, x: usize) -> (r: bool)
    ensures
        r == set_of(v@).contains(x as int),
{
    let n = v.len();
    let mut j: usize = 0;
    while j < n
        invariant
            0 <= j <= n,
            n == v@.len(),
            forall|m: int| 0 <= m < j ==> v@[m] != x,
        decreases n - j,
    {
        if v[j] == x {
            proof {
                assert(set_of(v@).contains(x as int));
            }
            return true;
        }
        j += 1;
    }
    proof {
        assert(!set_of(v@).contains(x as int));
    }
    false
}

pub(crate) proof fn lemma_set_of_push(v: Seq<usize>, c: usize)
    ensures
        set_of(v.push(c)) == set_of(v).insert(c as int),
{
    assert forall|x: int| set_of(v.push(c)).contains(x) <==> set_of(v).insert(c as int).contains(
        x,
    ) by {
        if set_of(v.push(c)).contains(x) {
            let j = choose|j: int| 0 <= j < v.push(c).len() && v.push(c)[j] == x;
            if j < v.len() {
                assert(v[j] == x);
            }
        }
        if set_of(v).insert(c as int).contains(x) {
            if x == c as int {
                assert(v.push(c)[v.len() as int] == c);
            } else {
                let j = choose|j: int| 0 <= j < v.len() && v[j] == x;
                assert(v.push(c)[j] == x);
            }
        }
    }
    assert(set_of(v.push(c)) =~= set_of(v).insert(c as int));
}

/// Exec test for `is_comment_line`.
fn check_comment_line(src_lines: &Vec<String>, ln: usize) -> (r: bool)
    ensures
        r == is_comment_line(src_lines.deep_view(), ln as int),
{
    if ln == 0 || ln > src_lines.len() {
        return false;
    }
    proof {
        assert(src_lines@[ln - 1]@ == src_lines.deep_view()[ln - 1]);
    }
    let tr = crate::text::trim(src_lines[ln - 1].as_str());
    crate::text::starts_with_char(tr.as_str(), '#')
}

/// Exec test for `is_non_blank_line`.
fn check_non_blank_line(src_lines: &Vec<String>, ln: usize) -> (r: bool)
    ensures
        r == is_non_blank_line(src_lines.deep_view(), ln as int),
{
    if ln == 0 || ln > src_lines.len() {
        return false;
    }
    proof {
        assert(src_lines@[ln - 1]@ == src_lines.deep_view()[ln - 1]);
    }
    let tr = crate::text::trim(src_lines[ln - 1].as_str());
    tr.as_str().unicode_len() > 0
}

/// Exec lookup of `next_tagged`.
fn find_next_tagged(lines: &Vec<FormattedLine>, j: usize) -> (r: Option<usize>)
    ensures
        match r {
            Some(sl) => next_tagged(out_view(lines@), j as int) == Some(sl as int),
            None => next_tagged(out_view(lines@), j as int) is None,
        },
{
    let n = lines.len();
    let mut k: usize = j;
    while k < n
        invariant
            j <= k,
            n == lines@.len(),
            next_tagged(out_view(lines@), j as int) == next_tagged(out_view(lines@), k as int),
        decreases n - k,
    {
        if let Some(sl) = lines[k].source_line {
            proof {
                assert(out_view(lines@)[k as int].0 == Some(sl as int));
            }
            return Some(sl);
        }
        proof {
            assert(out_view(lines@)[k as int].0 is None);
        }
        k += 1;
    }
    None
}

/// Exec mirror of `block_end_from`.
fn find_block_end(src_lines: &Vec<String>, cl: usize, next_sl: usize) -> (r: usize)
    requires
        cl <= next_sl,
    ensures
        r == block_end_from(src_lines.deep_view(), cl as int, next_sl as int),
        cl <= r <= next_sl,
    decreases next_sl - cl,
{
    proof {
        lemma_block_end_bound(src_lines.deep_view(), cl as int, next_sl as int);
    }
    if cl < next_sl && check_comment_line(src_lines, cl + 1) {
        find_block_end(src_lines, cl + 1, next_sl)
    } else {
        cl
    }
}

/// Exec lookup of `first_non_blank`.
fn find_first_non_blank(src_lines: &Vec<String>, a: usize, b: usize) -> (r: Option<usize>)
    requires
        a <= b + 1,
    ensures
        match r {
            Some(n) => first_non_blank(src_lines.deep_view(), a as int, b as int) == Some(
                n as int,
            ),
            None => first_non_blank(src_lines.deep_view(), a as int, b as int) is None,
        },
    decreases b + 1 - a,
{
    if a > b {
        None
    } else if check_non_blank_line(src_lines, a) {
        Some(a)
    } else if a == b {
        proof {
            assert(first_non_blank(src_lines.deep_view(), a + 1, b as int) is None);
        }
        None
    } else {
        find_first_non_blank(src_lines, a + 1, b)
    }
}

impl FormattedOutput {
    /// Inject comments back into the output: standalone comments are placed
    /// before the rendered line that follows them, inline comments appended
    /// to their line; comment blocks trailing a declaration stay before the
    /// policy blanks that separate it from the next one.
    pub fn inject_comments(
        &mut self,
        comments: &crate::format::comments::Comments,
        source: &str,
    )
        requires
            comments.wf(),
        ensures
            out_view(final(self).lines@) == spec_inject_full(
                out_view(old(self).lines@),
                comments.standalone_view(),
                comments.inline_view(),
                crate::text::spec_lines(source@),
            ),
    {
        let ghost lv = out_view(self.lines@);
        let ghost st = comments.standalone_view();
        let ghost inl = comments.inline_view();
        let src_lines = crate::text::split_lines(source);
        let ghost src = crate::text::spec_lines(source@);
        proof {
            assert(src_lines.deep_view() == src);
        }
        // Collect all source lines that were already output.
        let n = self.lines.len();
        let mut already: Vec<usize> = Vec::new();
        let mut i: usize = 0;
        while i < n
            invariant
                0 <= i <= n,
                n == self.lines@.len(),
                lv == out_view(self.lines@),
                forall|x: int|
                    set_of(already@).contains(x) <==> exists|j: int|
                        0 <= j < i && (#[trigger] lv[j]).0 == Some(x),
            decreases n - i,
        {
            let ghost before = already@;
            if let Some(sl) = self.lines[i].source_line {
                already.push(sl);
                proof {
                    lemma_set_of_push(before, sl);
                    assert(lv[i as int].0 == Some(sl as int));
                    assert forall|x: int|
                        set_of(already@).contains(x) <==> exists|j: int|
                            0 <= j < i + 1 && (#[trigger] lv[j]).0 == Some(x) by {
                        if set_of(already@).contains(x) {
                            if x == sl as int {
                                assert(lv[i as int].0 == Some(x));
                            }
                        }
                        if exists|j: int| 0 <= j < i + 1 && (#[trigger] lv[j]).0 == Some(x) {
                            let j = choose|j: int| 0 <= j < i + 1 && (#[trigger] lv[j]).0 == Some(
                                x,
                            );
                            if j < i {
                                assert(set_of(before).contains(x));
                            }
                        }
                    }
                }
            } else {
                proof {
                    assert(lv[i as int].0 is None);
                    assert forall|x: int|
                        set_of(already@).contains(x) <==> exists|j: int|
                            0 <= j < i + 1 && (#[trigger] lv[j]).0 == Some(x) by {
                        if exists|j: int| 0 <= j < i + 1 && (#[trigger] lv[j]).0 == Some(x) {
                            let j = choose|j: int| 0 <= j < i + 1 && (#[trigger] lv[j]).0 == Some(
                                x,
                            );
                            assert(j < i);
                        }
                    }
                }
            }
            i += 1;
        }
        proof {
            assert(set_of(already@) =~= tagged_lines(lv));
        }
        let mut new_lines: Vec<FormattedLine> = Vec::new();
        let mut last: usize = 0;
        let mut i: usize = 0;
        proof {
            assert(out_view(new_lines@) =~= Seq::<(Option<int>, Seq<char>)>::empty());
        }
        while i < n
            invariant
                0 <= i <= n,
                n == self.lines@.len(),
                lv == out_view(self.lines@),
                comments.wf(),
                st == comments.standalone_view(),
                inl == comments.inline_view(),
                src == src_lines.deep_view(),
                spec_inject(lv, 0, 0, tagged_lines(lv), st, inl, src, Seq::empty()) == spec_inject(
                    lv,
                    i as int,
                    last as int,
                    set_of(already@),
                    st,
                    inl,
                    src,
                    out_view(new_lines@),
                ),
            decreases n - i,
        {
            let line_src = self.lines[i].source_line;
            proof {
                assert(lv[i as int].0 == match line_src {
                    Some(sl) => Some(sl as int),
                    None => None,
                });
                assert(lv[i as int].1 == self.lines@[i as int].content@);
            }
            match line_src {
                Some(sl) => {
                    let ghost acc0 = out_view(new_lines@);
                    let ghost alr0 = set_of(already@);
                    if last < sl {
                        let mut cl: usize = last + 1;
                        while cl < sl
                            invariant
                                last + 1 <= cl <= sl,
                                comments.wf(),
                                st == comments.standalone_view(),
                                inject_range(st, alr0, last + 1, sl as int, acc0) == inject_range(
                                    st,
                                    set_of(already@),
                                    cl as int,
                                    sl as int,
                                    out_view(new_lines@),
                                ),
                            decreases sl - cl,
                        {
                            let ghost before_a = already@;
                            let ghost before_l = out_view(new_lines@);
                            if !idx_contains(&already, cl) {
                                let cm = match comments.get_standalone(cl) {
                                    Some(cm) => Some(cm.clone()),
                                    None => None,
                                };
                                if let Some(cm) = cm {
                                    new_lines.push(FormattedLine::with_source(cm, cl));
                                    already.push(cl);
                                    proof {
                                        lemma_set_of_push(before_a, cl);
                                        assert(out_view(new_lines@) =~= before_l.push(
                                            (Some(cl as int), st[cl as int]),
                                        ));
                                    }
                                }
                            }
                            cl += 1;
                        }
                    }
                    let ghost r_acc = out_view(new_lines@);
                    let ghost r_alr = set_of(already@);
                    let content: String = {
                        let base = &self.lines[i].content;
                        match comments.get_inline(sl) {
                            Some(cm) => {
                                if base.as_str().unicode_len() == 0 {
                                    cm.clone()
                                } else if crate::text::str_ends_with(base.as_str(), cm.as_str()) {
                                    base.clone()
                                } else {
                                    base.clone().concat("  ").concat(cm.as_str())
                                }
                            },
                            None => base.clone(),
                        }
                    };
                    proof {
                        assert(content@ == with_inline(lv[i as int].1, sl as int, inl));
                    }
                    new_lines.push(FormattedLine::with_source(content, sl));
                    proof {
                        assert(out_view(new_lines@) =~= r_acc.push(
                            (Some(sl as int), with_inline(lv[i as int].1, sl as int, inl)),
                        ));
                    }
                    last = sl;
                    i += 1;
                },
                None => {
                    let ghost acc0 = out_view(new_lines@);
                    let ghost alr0 = set_of(already@);
                    let ghost last0 = last as int;
                    let nt = find_next_tagged(&self.lines, i + 1);
                    proof {
                        assert(next_tagged(lv, i + 1) == match nt {
                            Some(x) => Some(x as int),
                            None => None,
                        });
                    }
                    if let Some(nsl) = nt {
                        if last < nsl {
                            let mut cl: usize = last + 1;
                            while cl < nsl
                                invariant
                                    last0 + 1 <= cl <= nsl,
                                    comments.wf(),
                                    st == comments.standalone_view(),
                                    src == src_lines.deep_view(),
                                    last as int <= nsl,
                                    walk_gap(st, src, alr0, last0 + 1, nsl as int, acc0, last0)
                                        == walk_gap(
                                        st,
                                        src,
                                        set_of(already@),
                                        cl as int,
                                        nsl as int,
                                        out_view(new_lines@),
                                        last as int,
                                    ),
                                decreases nsl - cl,
                            {
                                if idx_contains(&already, cl) {
                                    cl += 1;
                                } else if !check_comment_line(&src_lines, cl) {
                                    cl += 1;
                                } else {
                                    let be = find_block_end(&src_lines, cl, nsl);
                                    let fnb = if be < nsl {
                                        find_first_non_blank(&src_lines, be + 1, nsl)
                                    } else {
                                        proof {
                                            assert(first_non_blank(src, be + 1, nsl as int)
                                                is None);
                                        }
                                        None
                                    };
                                    let followed_by_blank = match fnb {
                                        Some(nln) => nln > be + 1,
                                        None => true,
                                    };
                                    if followed_by_blank {
                                        let ghost b_acc = out_view(new_lines@);
                                        let ghost b_alr = set_of(already@);
                                        let ghost b_last = last as int;
                                        let mut cl2: usize = cl;
                                        let mut done: bool = false;
                                        while !done
                                            invariant
                                                cl <= cl2 <= be <= nsl,
                                                last as int <= nsl,
                                                comments.wf(),
                                                st == comments.standalone_view(),
                                                done ==> cl2 == be,
                                                inject_block(
                                                    st,
                                                    b_alr,
                                                    cl as int,
                                                    be as int,
                                                    b_acc,
                                                    b_last,
                                                ) == if done {
                                                    (
                                                        out_view(new_lines@),
                                                        set_of(already@),
                                                        last as int,
                                                    )
                                                } else {
                                                    inject_block(
                                                        st,
                                                        set_of(already@),
                                                        cl2 as int,
                                                        be as int,
                                                        out_view(new_lines@),
                                                        last as int,
                                                    )
                                                },
                                            decreases be - cl2, (if done {
                                                0int
                                            } else {
                                                1int
                                            }),
                                        {
                                            let ghost before_a = set_of(already@);
                                            let ghost before_l = out_view(new_lines@);
                                            let ghost before_last = last as int;
                                            let ghost before_av = already@;
                                            if !idx_contains(&already, cl2) {
                                                let cm = match comments.get_standalone(cl2) {
                                                    Some(cm) => Some(cm.clone()),
                                                    None => None,
                                                };
                                                if let Some(cm) = cm {
                                                    new_lines.push(
                                                        FormattedLine::with_source(cm, cl2),
                                                    );
                                                    already.push(cl2);
                                                    last = cl2;
                                                    proof {
                                                        lemma_set_of_push(before_av, cl2);
                                                        assert(out_view(new_lines@)
                                                            =~= before_l.push(
                                                            (Some(cl2 as int), st[cl2 as int]),
                                                        ));
                                                    }
                                                }
                                            }
                                            proof {
                                                assert(inject_block(
                                                    st,
                                                    before_a,
                                                    cl2 as int,
                                                    be as int,
                                                    before_l,
                                                    before_last,
                                                ) == inject_block(
                                                    st,
                                                    set_of(already@),
                                                    cl2 + 1,
                                                    be as int,
                                                    out_view(new_lines@),
                                                    last as int,
                                                ));
                                            }
                                            if cl2 == be {
                                                proof {
                                                    assert(inject_block(
                                                        st,
                                                        set_of(already@),
                                                        cl2 + 1,
                                                        be as int,
                                                        out_view(new_lines@),
                                                        last as int,
                                                    ) == (
                                                        out_view(new_lines@),
                                                        set_of(already@),
                                                        last as int,
                                                    ));
                                                }
                                                done = true;
                                            } else {
                                                cl2 += 1;
                                            }
                                        }
                                    }
                                    if be < nsl {
                                        cl = be + 1;
                                    } else {
                                        cl = nsl;
                                    }
                                }
                            }
                        }
                    }
                    let ghost r_acc = out_view(new_lines@);
                    let base = self.lines[i].content.clone();
                    new_lines.push(FormattedLine { source_line: None, content: base });
                    proof {
                        assert(out_view(new_lines@) =~= r_acc.push((None, lv[i as int].1)));
                    }
                    i += 1;
                },
            }
        }
        // Trailing standalone comments that no rendered line follows.
        let ghost m_acc = out_view(new_lines@);
        let ghost m_alr = set_of(already@);
        let ghost m_last = last as int;
        let src_len = src_lines.len();
        let mut cl: usize = last;
        let mut tdone: bool = src_len == 0;
        proof {
            if src_len == 0 && last + 1 >= 1 {
                assert(walk_tail(st, src, m_alr, m_last + 1, m_acc) == m_acc);
            }
        }
        while !tdone
            invariant
                comments.wf(),
                st == comments.standalone_view(),
                src == src_lines.deep_view(),
                src_len == src.len(),
                last <= cl,
                walk_tail(st, src, m_alr, m_last + 1, m_acc) == if tdone {
                    out_view(new_lines@)
                } else {
                    walk_tail(
                        st,
                        src,
                        set_of(already@),
                        cl + 1,
                        out_view(new_lines@),
                    )
                },
            decreases src_len - cl, (if tdone {
                0int
            } else {
                1int
            }),
        {
            if cl >= src_len {
                tdone = true;
            } else {
                let ln = cl + 1;
                let ghost before_a = already@;
                let ghost before_l = out_view(new_lines@);
                if !idx_contains(&already, ln) && check_comment_line(&src_lines, ln) {
                    let cm = match comments.get_standalone(ln) {
                        Some(cm) => Some(cm.clone()),
                        None => None,
                    };
                    if let Some(cm) = cm {
                        new_lines.push(FormattedLine::with_source(cm, ln));
                        already.push(ln);
                        proof {
                            lemma_set_of_push(before_a, ln);
                            assert(out_view(new_lines@) =~= before_l.push(
                                (Some(ln as int), st[ln as int]),
                            ));
                        }
                    }
                }
                cl = ln;
            }
        }
        self.lines = new_lines;
    }
}


/// Append the standalone comments that no rendered line follows: source
/// lines after `cl - 1` whose comments were never emitted.
pub open spec fn walk_tail(
    st: Map<int, Seq<char>>,
    src: Seq<Seq<char>>,
    already: Set<int>,
    cl: int,
    acc: Seq<(Option<int>, Seq<char>)>,
) -> Seq<(Option<int>, Seq<char>)>
    decreases src.len() + 1 - cl when cl >= 1
{
    if cl > src.len() {
        acc
    } else if !already.contains(cl) && is_comment_line(src, cl) && st.contains_key(cl) {
        walk_tail(st, src, already.insert(cl), cl + 1, acc.push((Some(cl), st[cl])))
    } else {
        walk_tail(st, src, already, cl + 1, acc)
    }
}

/// The whole injection pass: the main walk over the rendered lines, then
/// the trailing comments that nothing follows.
pub open spec fn spec_inject_full(
    lines_vec: Seq<(Option<int>, Seq<char>)>,
    st: Map<int, Seq<char>>,
    inl: Map<int, Seq<char>>,
    src: Seq<Seq<char>>,
) -> Seq<(Option<int>, Seq<char>)> {
    let m = spec_inject(lines_vec, 0, 0, tagged_lines(lines_vec), st, inl, src, Seq::empty());
    walk_tail(st, src, m.1, m.2 + 1, m.0)
}

/// The contents of the buffer, one sequence per line.
pub open spec fn content_views(s: Seq<FormattedLine>) -> Seq<Seq<char>> {
    Seq::new(s.len(), |i: int| s[i].content@)
}

/// Drop trailing empty lines.
pub open spec fn strip_trailing_empty(s: Seq<Seq<char>>) -> Seq<Seq<char>>
    decreases s.len(),
{
    if s.len() > 0 && s.last().len() == 0 {
        strip_trailing_empty(s.drop_last())
    } else {
        s
    }
}

/// Join lines with `'\n'` separators.
pub open spec fn join_nl(s: Seq<Seq<char>>) -> Seq<char>
    decreases s.len(),
{
    if s.len() == 0 {
        Seq::empty()
    } else if s.len() == 1 {
        s[0]
    } else {
        join_nl(s.drop_last()) + seq!['\n'] + s.last()
    }
}

/// The final rendering of an output buffer: trailing blank lines stripped,
/// contents joined with newlines, one trailing newline when the policy asks
/// for it and the output is non-empty.
pub open spec fn spec_render(s: Seq<FormattedLine>, trailing_newline: bool) -> Seq<char> {
    let joined = join_nl(strip_trailing_empty(content_views(s)));
    if trailing_newline && joined.len() > 0 {
        joined + seq!['\n']
    } else {
        joined
    }
}

impl FormattedOutput {
    /// Convert to the final string output.
    pub fn to_string(&self, options: &FormatOptions) -> (r: String)
        ensures
            r@ == spec_render(self.lines@, options.trailing_newline),
    {
        let ghost all = content_views(self.lines@);
        // Index just past the last non-empty line.
        let n = self.lines.len();
        let mut cut: usize = n;
        proof {
            assert(all.take(n as int) =~= all);
        }
        while cut > 0 && self.lines[cut - 1].content.as_str().unicode_len() == 0
            invariant
                0 <= cut <= n,
                n == self.lines@.len(),
                all == content_views(self.lines@),
                strip_trailing_empty(all) == strip_trailing_empty(all.take(cut as int)),
            decreases cut,
        {
            let ghost pre = all.take(cut as int);
            proof {
                assert(pre.drop_last() =~= all.take(cut - 1));
                assert(pre.last() == self.lines@[cut - 1].content@);
            }
            cut -= 1;
        }
        proof {
            if cut > 0 {
                assert(all.take(cut as int).last() == self.lines@[cut - 1].content@);
                assert(strip_trailing_empty(all.take(cut as int)) =~= all.take(cut as int));
            } else {
                assert(all.take(0) =~= Seq::<Seq<char>>::empty());
                assert(strip_trailing_empty(all.take(0)) =~= Seq::<Seq<char>>::empty());
            }
        }
        let ghost kept = strip_trailing_empty(all);
        let mut out = String::new();
        let mut i: usize = 0;
        while i < cut
            invariant
                0 <= i <= cut <= n,
                n == self.lines@.len(),
                all == content_views(self.lines@),
                kept == all.take(cut as int),
                out@ == join_nl(kept.take(i as int)),
            decreases cut - i,
        {
            proof {
                assert(kept.take(i + 1).drop_last() =~= kept.take(i as int));
                assert(kept.take(i + 1).last() == self.lines@[i as int].content@);
            }
            if i > 0 {
                out.append("\n");
                proof {
                    reveal_strlit("\n");
                    assert("\n"@ =~= seq!['\n']);
                }
            }
            out.append(self.lines[i].content.as_str());
            proof {
                if i == 0 {
                    assert(join_nl(kept.take(1)) == kept.take(1)[0]);
                }
            }
            i += 1;
        }
        proof {
            assert(kept.take(cut as int) =~= kept);
        }
        if options.trailing_newline && out.as_str().unicode_len() != 0 {
            out.append("\n");
            proof {
                reveal_strlit("\n");
                assert("\n"@ =~= seq!['\n']);
            }
        }
        out
    }
}

} // verus!
