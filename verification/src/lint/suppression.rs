//! `# gdlint:` suppression directives.
//!
//! `ignore=` suppresses the named rules on its own line and the next;
//! `disable=` opens a suppression range that a matching `enable=` closes, or
//! that runs to the end of the file.

use vstd::prelude::*;

use crate::format::skip_regions::first_non_ws;
use crate::text;
use crate::text::{spec_lines, spec_starts_with, spec_trim};

verus! {

/// Characters the captured rule list may contain: rule-name characters
/// and the commas separating the names.
pub open spec fn is_capture_char(c: char) -> bool {
    ('a' <= c && c <= 'z') || ('0' <= c && c <= '9') || c == '_' || c == '-' || c == ','
}

/// First index at or after `i` that is not a capture character.
pub open spec fn capture_run_end(line: Seq<char>, i: int) -> int
    decreases line.len() - i when 0 <= i <= line.len()
{
    if i >= line.len() {
        i
    } else if is_capture_char(line[i]) {
        capture_run_end(line, i + 1)
    } else {
        i
    }
}

proof fn lemma_capture_run_end(line: Seq<char>, i: int)
    requires
        0 <= i <= line.len(),
    ensures
        i <= capture_run_end(line, i) <= line.len(),
    decreases line.len() - i,
{
    if i < line.len() && is_capture_char(line[i]) {
        lemma_capture_run_end(line, i + 1);
    }
}

/// The capture of a `# gdlint: <word> = <rules>` directive hanging off the
/// `#` at `h`: the maximal non-empty run of capture characters after the
/// `=` — the whole comma-separated rule list.
pub open spec fn gdlint_at(line: Seq<char>, h: int, word: Seq<char>) -> Option<Seq<char>> {
    let a = first_non_ws(line, h + 1);
    if spec_starts_with(line.skip(a), "gdlint:"@) {
        let b = first_non_ws(line, a + 7);
        if spec_starts_with(line.skip(b), word) {
            let c = first_non_ws(line, b + word.len());
            if 0 <= c < line.len() && line[c] == '=' {
                let d = first_non_ws(line, c + 1);
                let e = capture_run_end(line, d);
                if e > d {
                    Some(line.subrange(d, e))
                } else {
                    None
                }
            } else {
                None
            }
        } else {
            None
        }
    } else {
        None
    }
}

/// The first matching directive's capture, scanning `#` positions left to
/// right from `h`.
pub open spec fn spec_capture_from(line: Seq<char>, h: int, word: Seq<char>) -> Option<Seq<char>>
    decreases line.len() - h when 0 <= h
{
    if h >= line.len() {
        None
    } else if line[h] == '#' && gdlint_at(line, h, word) is Some {
        gdlint_at(line, h, word)
    } else {
        spec_capture_from(line, h + 1, word)
    }
}

pub open spec fn spec_capture(line: Seq<char>, word: Seq<char>) -> Option<Seq<char>> {
    spec_capture_from(line, 0, word)
}

/// Exec mirror of `gdlint_at`.
fn capture_here(line: &str, h: usize, word: &str) -> (r: Option<String>)
    requires
        h < line@.len(),
    ensures
        match r {
            Some(cap) => gdlint_at(line@, h as int, word@) == Some(cap@),
            None => gdlint_at(line@, h as int, word@) is None,
        },
{
    let n = line.unicode_len();
    let a = crate::format::skip_regions::skip_ws_pub(line, h + 1);
    let rest_a = line.substring_char(a, n);
    proof {
        assert(rest_a@ =~= line@.skip(a as int));
        reveal_strlit("gdlint:");
    }
    if !text::str_starts_with(rest_a, "gdlint:") {
        return None;
    }
    let b = crate::format::skip_regions::skip_ws_pub(line, a + 7);
    let rest_b = line.substring_char(b, n);
    proof {
        assert(rest_b@ =~= line@.skip(b as int));
    }
    if !text::str_starts_with(rest_b, word) {
        return None;
    }
    let wl = word.unicode_len();
    let c = crate::format::skip_regions::skip_ws_pub(line, b + wl);
    if !(c < n && line.get_char(c) == '=') {
        return None;
    }
    let d = crate::format::skip_regions::skip_ws_pub(line, c + 1);
    proof {
        lemma_capture_run_end(line@, d as int);
    }
    let mut e: usize = d;
    while e < n && is_capture_char_exec(line.get_char(e))
        invariant
            d <= e <= n,
            n == line@.len(),
            forall|m: int| d <= m < e ==> is_capture_char(line@[m]),
        decreases n - e,
    {
        e += 1;
    }
    proof {
        lemma_capture_run_end_exact(line@, d as int, e as int);
    }
    if e > d {
        let cap = line.substring_char(d, e).to_owned();
        proof {
            assert(cap@ =~= line@.subrange(d as int, e as int));
        }
        Some(cap)
    } else {
        None
    }
}

fn is_capture_char_exec(c: char) -> (r: bool)
    ensures
        r == is_capture_char(c),
{
    ('a' <= c && c <= 'z') || ('0' <= c && c <= '9') || c == '_' || c == '-' || c == ','
}

proof fn lemma_capture_run_end_exact(line: Seq<char>, d: int, e: int)
    requires
        0 <= d <= e <= line.len(),
        forall|m: int| d <= m < e ==> is_capture_char(line[m]),
        e < line.len() ==> !is_capture_char(line[e]),
    ensures
        capture_run_end(line, d) == e,
    decreases e - d,
{
    if d < e {
        lemma_capture_run_end_exact(line, d + 1, e);
    }
}

/// Exec lookup of `spec_capture`.
fn capture(line: &str, word: &str) -> (r: Option<String>)
    ensures
        match r {
            Some(cap) => spec_capture(line@, word@) == Some(cap@),
            None => spec_capture(line@, word@) is None,
        },
{
    let n = line.unicode_len();
    let mut h: usize = 0;
    while h < n
        invariant
            0 <= h <= n,
            n == line@.len(),
            spec_capture(line@, word@) == spec_capture_from(line@, h as int, word@),
        decreases n - h,
    {
        if line.get_char(h) == '#' {
            let got = capture_here(line, h, word);
            if got.is_some() {
                return got;
            }
        }
        h += 1;
    }
    None
}

/// Comma-separated rule names, trimmed, empty parts dropped.
pub open spec fn spec_rule_list(s: Seq<char>) -> Seq<Seq<char>>
    decreases s.len(),
    via spec_rule_list_decreases
{
    let i = first_comma(s);
    let part = spec_trim(s.take(i));
    let head: Seq<Seq<char>> = if part.len() > 0 {
        seq![part]
    } else {
        Seq::empty()
    };
    if i >= s.len() {
        head
    } else {
        head + spec_rule_list(s.skip(i + 1))
    }
}

/// Index of the first comma, or the length.
pub open spec fn first_comma(s: Seq<char>) -> int
    decreases s.len(),
{
    if s.len() == 0 {
        0
    } else if s[0] == ',' {
        0
    } else {
        1 + first_comma(s.skip(1))
    }
}

proof fn lemma_first_comma(s: Seq<char>, k: int)
    requires
        0 <= k <= s.len(),
        forall|j: int| 0 <= j < k ==> s[j] != ',',
        k < s.len() ==> s[k] == ',',
    ensures
        first_comma(s) == k,
    decreases k,
{
    if k > 0 {
        lemma_first_comma(s.skip(1), k - 1);
    }
}

proof fn lemma_first_comma_bound(s: Seq<char>)
    ensures
        0 <= first_comma(s) <= s.len(),
    decreases s.len(),
{
    if s.len() > 0 && s[0] != ',' {
        lemma_first_comma_bound(s.skip(1));
    }
}

#[via_fn]
proof fn spec_rule_list_decreases(s: Seq<char>) {
    lemma_first_comma_bound(s);
}

/// Split a comma-separated rule list.
pub fn parse_rule_list(s: &str) -> (r: Vec<String>)
    ensures
        r.deep_view() == spec_rule_list(s@),
{
    let mut out: Vec<String> = Vec::new();
    let n = s.unicode_len();
    let mut p: usize = 0;
    let mut done: bool = false;
    proof {
        assert(out.deep_view() =~= Seq::<Seq<char>>::empty());
        assert(s@.skip(0) =~= s@);
    }
    while !done
        invariant
            0 <= p <= n,
            n == s@.len(),
            spec_rule_list(s@) == out.deep_view() + (if done {
                Seq::<Seq<char>>::empty()
            } else {
                spec_rule_list(s@.skip(p as int))
            }),
        decreases n - p, (if done {
            0int
        } else {
            1int
        }),
    {
        let ghost rest = s@.skip(p as int);
        let mut i: usize = p;
        while i < n && s.get_char(i) != ','
            invariant
                p <= i <= n,
                n == s@.len(),
                forall|j: int| p <= j < i ==> s@[j] != ',',
            decreases n - i,
        {
            i += 1;
        }
        proof {
            assert forall|j: int| 0 <= j < i - p implies rest[j] != ',' by {
                assert(rest[j] == s@[p + j]);
            }
            if (i as int) < n {
                assert(rest[i - p] == s@[i as int]);
            }
            lemma_first_comma(rest, i - p);
            assert(rest.take(i - p) =~= s@.subrange(p as int, i as int));
        }
        let piece = s.substring_char(p, i);
        let part = text::trim(piece);
        let ghost before = out.deep_view();
        if part.as_str().unicode_len() > 0 {
            out.push(part);
            proof {
                assert(out.deep_view() =~= before.push(spec_trim(rest.take(i - p))));
                assert(before.push(spec_trim(rest.take(i - p))) =~= before + seq![
                    spec_trim(rest.take(i - p)),
                ]);
            }
        }
        if i < n {
            proof {
                assert(rest.skip(i - p + 1) =~= s@.skip(i + 1));
            }
            p = i + 1;
        } else {
            p = n;
            done = true;
        }
    }
    proof {
        assert(spec_rule_list(s@) =~= out.deep_view());
    }
    out
}

/// Remove the first entry with this rule name.
pub open spec fn cur_remove(cur: Seq<(Seq<char>, int)>, rule: Seq<char>) -> Seq<(Seq<char>, int)>
    decreases cur.len(),
{
    if cur.len() == 0 {
        cur
    } else if cur[0].0 == rule {
        cur.drop_first()
    } else {
        seq![cur[0]] + cur_remove(cur.drop_first(), rule)
    }
}

/// The open range start recorded for this rule, if any.
pub open spec fn cur_lookup(cur: Seq<(Seq<char>, int)>, rule: Seq<char>) -> Option<int>
    decreases cur.len(),
{
    if cur.len() == 0 {
        None
    } else if cur[0].0 == rule {
        Some(cur[0].1)
    } else {
        cur_lookup(cur.drop_first(), rule)
    }
}

/// Record a `disable` at `ln` for each rule: drop any previous entry and
/// append the new one.
pub open spec fn apply_disable(
    cur: Seq<(Seq<char>, int)>,
    rules: Seq<Seq<char>>,
    k: int,
    ln: int,
) -> Seq<(Seq<char>, int)>
    decreases rules.len() - k when 0 <= k
{
    if k >= rules.len() {
        cur
    } else {
        apply_disable(cur_remove(cur, rules[k]).push((rules[k], ln)), rules, k + 1, ln)
    }
}

/// The following line number, saturating at the machine bound.
pub open spec fn next_line(ln: int) -> int {
    if ln < usize::MAX {
        ln + 1
    } else {
        ln
    }
}

/// Record an `ignore` at `ln`: each rule is suppressed on `ln` and the
/// following line.
pub open spec fn apply_ignore(
    pairs: Seq<(int, Seq<char>)>,
    rules: Seq<Seq<char>>,
    k: int,
    ln: int,
) -> Seq<(int, Seq<char>)>
    decreases rules.len() - k when 0 <= k
{
    if k >= rules.len() {
        pairs
    } else {
        apply_ignore(pairs.push((ln, rules[k])).push((next_line(ln), rules[k])), rules, k + 1, ln)
    }
}

/// Close the open range of each rule at an `enable` on `ln`.
pub open spec fn apply_enable(
    cur: Seq<(Seq<char>, int)>,
    ranges: Seq<(Seq<char>, int, Option<int>)>,
    rules: Seq<Seq<char>>,
    k: int,
    ln: int,
) -> (Seq<(Seq<char>, int)>, Seq<(Seq<char>, int, Option<int>)>)
    decreases rules.len() - k when 0 <= k
{
    if k >= rules.len() {
        (cur, ranges)
    } else {
        match cur_lookup(cur, rules[k]) {
            Some(start) => apply_enable(
                cur_remove(cur, rules[k]),
                ranges.push((rules[k], start, Some(ln))),
                rules,
                k + 1,
                ln,
            ),
            None => apply_enable(cur, ranges, rules, k + 1, ln),
        }
    }
}

/// The suppression machine over the file's lines.
pub open spec fn supp_machine(
    lines: Seq<Seq<char>>,
    i: int,
    pairs: Seq<(int, Seq<char>)>,
    cur: Seq<(Seq<char>, int)>,
    ranges: Seq<(Seq<char>, int, Option<int>)>,
) -> (Seq<(int, Seq<char>)>, Seq<(Seq<char>, int)>, Seq<(Seq<char>, int, Option<int>)>)
    decreases lines.len() - i when 0 <= i
{
    if i >= lines.len() {
        (pairs, cur, ranges)
    } else {
        let ln = i + 1;
        let line = lines[i];
        let pairs1 = match spec_capture(line, "ignore"@) {
            Some(cap) => apply_ignore(pairs, spec_rule_list(cap), 0, ln),
            None => pairs,
        };
        let cur1 = match spec_capture(line, "disable"@) {
            Some(cap) => apply_disable(cur, spec_rule_list(cap), 0, ln),
            None => cur,
        };
        let st2 = match spec_capture(line, "enable"@) {
            Some(cap) => apply_enable(cur1, ranges, spec_rule_list(cap), 0, ln),
            None => (cur1, ranges),
        };
        supp_machine(lines, i + 1, pairs1, st2.0, st2.1)
    }
}

/// Ranges still open at end of file run to the end.
pub open spec fn close_leftovers(
    cur: Seq<(Seq<char>, int)>,
    ranges: Seq<(Seq<char>, int, Option<int>)>,
) -> Seq<(Seq<char>, int, Option<int>)>
    decreases cur.len(),
{
    if cur.len() == 0 {
        ranges
    } else {
        close_leftovers(cur.drop_first(), ranges.push((cur[0].0, cur[0].1, None)))
    }
}

/// The suppression tables of a source text.
pub open spec fn spec_suppressions(source: Seq<char>) -> (
    Seq<(int, Seq<char>)>,
    Seq<(Seq<char>, int, Option<int>)>,
) {
    let m = supp_machine(spec_lines(source), 0, Seq::empty(), Seq::empty(), Seq::empty());
    (m.0, close_leftovers(m.1, m.2))
}

/// Parsed suppression directives.
#[derive(Debug)]
pub struct Suppressions {
    /// `(line, rule)` pairs from `ignore` directives.
    pub pairs: Vec<(usize, String)>,
    /// `(rule, start, end)` ranges from `disable`/`enable`.
    pub ranges: Vec<(String, usize, Option<usize>)>,
}

impl Suppressions {
    pub open spec fn pairs_view(&self) -> Seq<(int, Seq<char>)> {
        Seq::new(self.pairs@.len(), |k: int| (self.pairs@[k].0 as int, self.pairs@[k].1@))
    }

    pub open spec fn ranges_view(&self) -> Seq<(Seq<char>, int, Option<int>)> {
        Seq::new(
            self.ranges@.len(),
            |k: int|
                (
                    self.ranges@[k].0@,
                    self.ranges@[k].1 as int,
                    match self.ranges@[k].2 {
                        Some(e) => Some(e as int),
                        None => None,
                    },
                ),
        )
    }

    /// Parse suppression directives from source code.
    pub fn parse(source: &str) -> (r: Suppressions)
        ensures
            (r.pairs_view(), r.ranges_view()) == spec_suppressions(source@),
    {
        let lines = text::split_lines(source);
        let ghost lv = spec_lines(source@);
        let n = lines.len();
        let mut pairs: Vec<(usize, String)> = Vec::new();
        let mut cur: Vec<(String, usize)> = Vec::new();
        let mut ranges: Vec<(String, usize, Option<usize>)> = Vec::new();
        let mut i: usize = 0;
        proof {
            assert(view_pairs(pairs@) =~= Seq::<(int, Seq<char>)>::empty());
            assert(view_cur(cur@) =~= Seq::<(Seq<char>, int)>::empty());
            assert(view_ranges(ranges@) =~= Seq::<(Seq<char>, int, Option<int>)>::empty());
        }
        while i < n
            invariant
                0 <= i <= n,
                n == lines@.len(),
                lv == spec_lines(source@),
                lines.deep_view() == lv,
                supp_machine(lv, 0, Seq::empty(), Seq::empty(), Seq::empty()) == supp_machine(
                    lv,
                    i as int,
                    view_pairs(pairs@),
                    view_cur(cur@),
                    view_ranges(ranges@),
                ),
            decreases n - i,
        {
            proof {
                assert(lines@[i as int]@ == lines.deep_view()[i as int]);
            }
            let ghost p0 = view_pairs(pairs@);
            let ghost c0 = view_cur(cur@);
            let ghost r0 = view_ranges(ranges@);
            let line = lines[i].as_str();
            let ln = i + 1;
            proof {
                reveal_strlit("ignore");
                reveal_strlit("disable");
                reveal_strlit("enable");
            }
            if let Some(cap) = capture(line, "ignore") {
                let rules = parse_rule_list(cap.as_str());
                let ghost rv = rules.deep_view();
                let m = rules.len();
                let mut k: usize = 0;
                while k < m
                    invariant
                        0 <= k <= m,
                        m == rules@.len(),
                        rv == rules.deep_view(),
                        ln >= 1,
                        apply_ignore(p0, rv, 0, ln as int) == apply_ignore(
                            view_pairs(pairs@),
                            rv,
                            k as int,
                            ln as int,
                        ),
                    decreases m - k,
                {
                    let ghost before = view_pairs(pairs@);
                    proof {
                        assert(rules@[k as int]@ == rv[k as int]);
                    }
                    pairs.push((ln, rules[k].clone()));
                    let ln2 = if ln < usize::MAX {
                        ln + 1
                    } else {
                        ln
                    };
                    pairs.push((ln2, rules[k].clone()));
                    proof {
                        assert(view_pairs(pairs@) =~= before.push((ln as int, rv[k as int])).push(
                            (next_line(ln as int), rv[k as int]),
                        ));
                    }
                    k += 1;
                }
            }
            let ghost p1 = view_pairs(pairs@);
            if let Some(cap) = capture(line, "disable") {
                let rules = parse_rule_list(cap.as_str());
                let ghost rv = rules.deep_view();
                let m = rules.len();
                let mut k: usize = 0;
                while k < m
                    invariant
                        0 <= k <= m,
                        m == rules@.len(),
                        rv == rules.deep_view(),
                        apply_disable(c0, rv, 0, ln as int) == apply_disable(
                            view_cur(cur@),
                            rv,
                            k as int,
                            ln as int,
                        ),
                    decreases m - k,
                {
                    proof {
                        assert(rules@[k as int]@ == rv[k as int]);
                    }
                    let ghost before = view_cur(cur@);
                    cur_remove_exec(&mut cur, rules[k].as_str());
                    let ghost mid = view_cur(cur@);
                    cur.push((rules[k].clone(), ln));
                    proof {
                        assert(view_cur(cur@) =~= mid.push((rv[k as int], ln as int)));
                    }
                    k += 1;
                }
            }
            let ghost c1 = view_cur(cur@);
            if let Some(cap) = capture(line, "enable") {
                let rules = parse_rule_list(cap.as_str());
                let ghost rv = rules.deep_view();
                let m = rules.len();
                let mut k: usize = 0;
                while k < m
                    invariant
                        0 <= k <= m,
                        m == rules@.len(),
                        rv == rules.deep_view(),
                        apply_enable(c1, r0, rv, 0, ln as int) == apply_enable(
                            view_cur(cur@),
                            view_ranges(ranges@),
                            rv,
                            k as int,
                            ln as int,
                        ),
                    decreases m - k,
                {
                    proof {
                        assert(rules@[k as int]@ == rv[k as int]);
                    }
                    match cur_lookup_exec(&cur, rules[k].as_str()) {
                        Some(start) => {
                            let ghost before_r = view_ranges(ranges@);
                            cur_remove_exec(&mut cur, rules[k].as_str());
                            ranges.push((rules[k].clone(), start, Some(ln)));
                            proof {
                                assert(view_ranges(ranges@) =~= before_r.push(
                                    (rv[k as int], start as int, Some(ln as int)),
                                ));
                            }
                        },
                        None => {},
                    }
                    k += 1;
                }
            }
            i += 1;
        }
        // Close the ranges still open at end of file.
        let ghost c_end = view_cur(cur@);
        let ghost r_end = view_ranges(ranges@);
        let m = cur.len();
        let mut k: usize = 0;
        proof {
            assert(view_cur(cur@).skip(0) =~= c_end);
        }
        while k < m
            invariant
                0 <= k <= m,
                m == cur@.len(),
                c_end == view_cur(cur@),
                close_leftovers(c_end, r_end) == close_leftovers(
                    c_end.skip(k as int),
                    view_ranges(ranges@),
                ),
            decreases m - k,
        {
            proof {
                assert(c_end.skip(k as int)[0] == c_end[k as int]);
                assert(c_end.skip(k as int).drop_first() =~= c_end.skip(k + 1));
                assert(c_end[k as int] == (cur@[k as int].0@, cur@[k as int].1 as int));
            }
            let ghost before_r = view_ranges(ranges@);
            ranges.push((cur[k].0.clone(), cur[k].1, None));
            proof {
                assert(view_ranges(ranges@) =~= before_r.push(
                    (c_end[k as int].0, c_end[k as int].1, None),
                ));
            }
            k += 1;
        }
        let r = Suppressions { pairs, ranges };
        proof {
            assert(c_end.skip(m as int).len() == 0);
            assert(r.pairs_view() =~= view_pairs(r.pairs@));
            assert(r.ranges_view() =~= view_ranges(r.ranges@));
        }
        r
    }

    /// Whether a rule is suppressed on a line.
    pub fn is_suppressed(&self, rule_id: &str, line: usize) -> (r: bool)
        ensures
            r == ((exists|j: int|
                0 <= j < self.pairs_view().len() && (#[trigger] self.pairs_view()[j]) == (
                    line as int,
                    rule_id@,
                )) || (exists|j: int|
                0 <= j < self.ranges_view().len() && (#[trigger] self.ranges_view()[j]).0
                    == rule_id@ && self.ranges_view()[j].1 <= line && (match self.ranges_view()[
                    j].2 {
                    Some(e) => line <= e,
                    None => true,
                }))),
    {
        let n = self.pairs.len();
        let mut j: usize = 0;
        while j < n
            invariant
                0 <= j <= n,
                n == self.pairs@.len(),
                forall|m: int|
                    0 <= m < j ==> (#[trigger] self.pairs_view()[m]) != (line as int, rule_id@),
            decreases n - j,
        {
            proof {
                assert(self.pairs_view()[j as int] == (
                    self.pairs@[j as int].0 as int,
                    self.pairs@[j as int].1@,
                ));
            }
            if self.pairs[j].0 == line && text::str_eq(self.pairs[j].1.as_str(), rule_id) {
                return true;
            }
            j += 1;
        }
        let n = self.ranges.len();
        let mut j: usize = 0;
        while j < n
            invariant
                0 <= j <= n,
                n == self.ranges@.len(),
                forall|m: int|
                    0 <= m < j ==> !((#[trigger] self.ranges_view()[m]).0 == rule_id@
                        && self.ranges_view()[m].1 <= line && (match self.ranges_view()[m].2 {
                        Some(e) => line <= e,
                        None => true,
                    })),
            decreases n - j,
        {
            proof {
                assert(self.ranges_view()[j as int].0 == self.ranges@[j as int].0@);
            }
            let entry = &self.ranges[j];
            if text::str_eq(entry.0.as_str(), rule_id) && entry.1 <= line {
                let hit = match entry.2 {
                    Some(e) => line <= e,
                    None => true,
                };
                if hit {
                    return true;
                }
            }
            j += 1;
        }
        false
    }
}

/// The views of the exec state vectors.
pub open spec fn view_pairs(v: Seq<(usize, String)>) -> Seq<(int, Seq<char>)> {
    Seq::new(v.len(), |k: int| (v[k].0 as int, v[k].1@))
}

pub open spec fn view_cur(v: Seq<(String, usize)>) -> Seq<(Seq<char>, int)> {
    Seq::new(v.len(), |k: int| (v[k].0@, v[k].1 as int))
}

pub open spec fn view_ranges(v: Seq<(String, usize, Option<usize>)>) -> Seq<
    (Seq<char>, int, Option<int>),
> {
    Seq::new(
        v.len(),
        |k: int|
            (
                v[k].0@,
                v[k].1 as int,
                match v[k].2 {
                    Some(e) => Some(e as int),
                    None => None,
                },
            ),
    )
}

/// Remove the first entry with this rule name.
fn cur_remove_exec(cur: &mut Vec<(String, usize)>, rule: &str)
    ensures
        view_cur(final(cur)@) == cur_remove(view_cur(old(cur)@), rule@),
{
    let n = cur.len();
    let mut j: usize = 0;
    while j < n
        invariant
            0 <= j <= n,
            n == cur@.len(),
            cur@ == old(cur)@,
            forall|m: int| 0 <= m < j ==> (#[trigger] cur@[m]).0@ != rule@,
        decreases n - j,
    {
        if text::str_eq(cur[j].0.as_str(), rule) {
            let ghost before = cur@;
            let _ = cur.remove(j);
            proof {
                lemma_cur_remove_first(before, rule@, j as int);
            }
            return ;
        }
        j += 1;
    }
    proof {
        lemma_cur_remove_absent(cur@, rule@);
    }
}

/// Look up the first entry with this rule name.
fn cur_lookup_exec(cur: &Vec<(String, usize)>, rule: &str) -> (r: Option<usize>)
    ensures
        match r {
            Some(start) => cur_lookup(view_cur(cur@), rule@) == Some(start as int),
            None => cur_lookup(view_cur(cur@), rule@) is None,
        },
{
    let n = cur.len();
    let mut j: usize = 0;
    while j < n
        invariant
            0 <= j <= n,
            n == cur@.len(),
            forall|m: int| 0 <= m < j ==> (#[trigger] cur@[m]).0@ != rule@,
        decreases n - j,
    {
        if text::str_eq(cur[j].0.as_str(), rule) {
            proof {
                lemma_cur_lookup_first(cur@, rule@, j as int);
            }
            return Some(cur[j].1);
        }
        j += 1;
    }
    proof {
        lemma_cur_lookup_absent(cur@, rule@);
    }
    None
}

proof fn lemma_cur_remove_first(v: Seq<(String, usize)>, rule: Seq<char>, j: int)
    requires
        0 <= j < v.len(),
        forall|m: int| 0 <= m < j ==> (#[trigger] v[m]).0@ != rule,
        v[j].0@ == rule,
    ensures
        cur_remove(view_cur(v), rule) == view_cur(v.remove(j)),
    decreases j,
{
    if j == 0 {
        assert(view_cur(v)[0].0 == rule);
        assert(view_cur(v).drop_first() =~= view_cur(v.remove(0)));
    } else {
        lemma_cur_remove_first(v.drop_first(), rule, j - 1);
        assert(view_cur(v.drop_first()) =~= view_cur(v).drop_first());
        assert(view_cur(v)[0].0 != rule);
        assert(view_cur(v.drop_first()).drop_first() =~= view_cur(v).drop_first().drop_first());
        assert(v.remove(j) =~= seq![v[0]] + v.drop_first().remove(j - 1));
        assert(cur_remove(view_cur(v), rule) =~= seq![view_cur(v)[0]] + cur_remove(
            view_cur(v).drop_first(),
            rule,
        ));
        assert(view_cur(v.drop_first()) == view_cur(v).drop_first());
        assert(view_cur(v.remove(j)) =~= seq![view_cur(v)[0]] + view_cur(v.drop_first().remove(
            j - 1,
        )));
    }
}

proof fn lemma_cur_remove_absent(v: Seq<(String, usize)>, rule: Seq<char>)
    requires
        forall|m: int| 0 <= m < v.len() ==> (#[trigger] v[m]).0@ != rule,
    ensures
        cur_remove(view_cur(v), rule) == view_cur(v),
    decreases v.len(),
{
    if v.len() > 0 {
        lemma_cur_remove_absent(v.drop_first(), rule);
        assert(view_cur(v.drop_first()) =~= view_cur(v).drop_first());
        assert(cur_remove(view_cur(v), rule) =~= seq![view_cur(v)[0]] + cur_remove(
            view_cur(v).drop_first(),
            rule,
        ));
        assert(seq![view_cur(v)[0]] + view_cur(v).drop_first() =~= view_cur(v));
    }
}

proof fn lemma_cur_lookup_first(v: Seq<(String, usize)>, rule: Seq<char>, j: int)
    requires
        0 <= j < v.len(),
        forall|m: int| 0 <= m < j ==> (#[trigger] v[m]).0@ != rule,
        v[j].0@ == rule,
    ensures
        cur_lookup(view_cur(v), rule) == Some(v[j].1 as int),
    decreases j,
{
    if j == 0 {
        assert(view_cur(v)[0].0 == rule);
    } else {
        lemma_cur_lookup_first(v.drop_first(), rule, j - 1);
        assert(view_cur(v.drop_first()) =~= view_cur(v).drop_first());
        assert(view_cur(v)[0].0 != rule);
        assert(v.drop_first()[j - 1] == v[j]);
    }
}

proof fn lemma_cur_lookup_absent(v: Seq<(String, usize)>, rule: Seq<char>)
    requires
        forall|m: int| 0 <= m < v.len() ==> (#[trigger] v[m]).0@ != rule,
    ensures
        cur_lookup(view_cur(v), rule) is None,
    decreases v.len(),
{
    if v.len() > 0 {
        lemma_cur_lookup_absent(v.drop_first(), rule);
        assert(view_cur(v.drop_first()) =~= view_cur(v).drop_first());
        assert(view_cur(v)[0].0 != rule);
    }
}

} // verus!
