//! Character-level text utilities shared by the formatter and the linter.
//!
//! All reasoning is done over `Seq<char>` views of `String` / `&str`.

use vstd::prelude::*;

verus! {

/// ASCII whitespace, as far as this library is concerned.
pub open spec fn is_space_char(c: char) -> bool {
    c == ' ' || c == '\t' || c == '\n' || c == '\r' || c == '\u{b}' || c == '\u{c}'
}

/// Executable mirror of `is_space_char`.
pub fn is_space(c: char) -> (r: bool)
    ensures
        r == is_space_char(c),
{
    c == ' ' || c == '\t' || c == '\n' || c == '\r' || c == '\u{b}' || c == '\u{c}'
}

/// Number of leading whitespace characters of `s`.
pub open spec fn leading_spaces(s: Seq<char>) -> int
    decreases s.len(),
{
    if s.len() == 0 {
        0
    } else if is_space_char(s[0]) {
        1 + leading_spaces(s.skip(1))
    } else {
        0
    }
}

pub proof fn lemma_leading_spaces_bound(s: Seq<char>)
    ensures
        0 <= leading_spaces(s) <= s.len(),
    decreases s.len(),
{
    if s.len() > 0 && is_space_char(s[0]) {
        lemma_leading_spaces_bound(s.skip(1));
    }
}

/// Number of trailing whitespace characters of `s`.
pub open spec fn trailing_spaces(s: Seq<char>) -> int
    decreases s.len(),
{
    if s.len() == 0 {
        0
    } else if is_space_char(s[s.len() - 1]) {
        1 + trailing_spaces(s.take(s.len() - 1))
    } else {
        0
    }
}

pub proof fn lemma_trailing_spaces_bound(s: Seq<char>)
    ensures
        0 <= trailing_spaces(s) <= s.len(),
    decreases s.len(),
{
    if s.len() > 0 && is_space_char(s[s.len() - 1]) {
        lemma_trailing_spaces_bound(s.take(s.len() - 1));
    }
}

/// The view of `s` with leading and trailing whitespace removed.
pub open spec fn spec_trim(s: Seq<char>) -> Seq<char> {
    let a = leading_spaces(s);
    let rest = s.skip(a);
    rest.take(rest.len() - trailing_spaces(rest))
}

/// The view of `s` with trailing whitespace removed.
pub open spec fn spec_trim_end(s: Seq<char>) -> Seq<char> {
    s.take(s.len() - trailing_spaces(s))
}

/// Index of the first non-whitespace character, i.e. `leading_spaces`.
fn count_leading_spaces(s: &str) -> (r: usize)
    ensures
        r == leading_spaces(s@),
{
    let n = s.unicode_len();
    let mut i: usize = 0;
    proof {
        lemma_leading_spaces_bound(s@);
    }
    while i < n
        invariant
            0 <= i <= n,
            n == s@.len(),
            leading_spaces(s@) >= i,
            forall|j: int| 0 <= j < i ==> is_space_char(s@[j]),
        decreases n - i,
    {
        let c = s.get_char(i);
        if !is_space(c) {
            proof {
                lemma_leading_spaces_prefix(s@, i as int);
            }
            return i;
        }
        proof {
            lemma_leading_spaces_step(s@, i as int);
        }
        i += 1;
    }
    proof {
        lemma_leading_spaces_bound(s@);
    }
    i
}

proof fn lemma_leading_spaces_prefix(s: Seq<char>, i: int)
    requires
        0 <= i < s.len(),
        forall|j: int| 0 <= j < i ==> is_space_char(s[j]),
        !is_space_char(s[i]),
    ensures
        leading_spaces(s) == i,
    decreases i,
{
    if i == 0 {
    } else {
        lemma_leading_spaces_prefix(s.skip(1), i - 1);
    }
}

proof fn lemma_leading_spaces_step(s: Seq<char>, i: int)
    requires
        0 <= i < s.len(),
        forall|j: int| 0 <= j <= i ==> is_space_char(s[j]),
    ensures
        leading_spaces(s) >= i + 1,
    decreases i,
{
    if i == 0 {
        lemma_leading_spaces_bound(s.skip(1));
    } else {
        lemma_leading_spaces_step(s.skip(1), i - 1);
    }
}

proof fn lemma_trailing_spaces_suffix(s: Seq<char>, k: int)
    requires
        0 <= k <= s.len(),
        forall|j: int| k <= j < s.len() ==> is_space_char(s[j]),
        k > 0 ==> !is_space_char(s[k - 1]),
    ensures
        trailing_spaces(s) == s.len() - k,
    decreases s.len(),
{
    if k < s.len() {
        lemma_trailing_spaces_suffix(s.take(s.len() - 1), k);
    }
}

/// Index just past the last non-whitespace character.
fn trimmed_end(s: &str) -> (r: usize)
    ensures
        r == s@.len() - trailing_spaces(s@),
{
    let n = s.unicode_len();
    let mut k: usize = n;
    while k > 0
        invariant
            0 <= k <= n,
            n == s@.len(),
            forall|j: int| k <= j < s@.len() ==> is_space_char(s@[j]),
        decreases k,
    {
        let c = s.get_char(k - 1);
        if !is_space(c) {
            proof {
                lemma_trailing_spaces_suffix(s@, k as int);
            }
            return k;
        }
        k -= 1;
    }
    proof {
        lemma_trailing_spaces_suffix(s@, 0);
    }
    0
}

/// `s` with leading and trailing whitespace removed.
pub fn trim(s: &str) -> (r: String)
    ensures
        r@ == spec_trim(s@),
{
    let a = count_leading_spaces(s);
    let b = trimmed_end(s);
    proof {
        lemma_leading_spaces_bound(s@);
        lemma_trailing_spaces_bound(s@);
    }
    if a >= b {
        proof {
            lemma_trim_empty(s@);
        }
        String::new()
    } else {
        let t = s.substring_char(a, b);
        proof {
            lemma_trim_mid(s@, a as int, b as int);
        }
        t.to_owned()
    }
}

proof fn lemma_skip_trailing(s: Seq<char>, a: int)
    requires
        0 <= a <= s.len() - trailing_spaces(s),
    ensures
        trailing_spaces(s.skip(a)) == trailing_spaces(s),
    decreases s.len(),
{
    lemma_trailing_spaces_bound(s);
    if s.len() > 0 && is_space_char(s[s.len() - 1]) {
        lemma_trailing_spaces_bound(s.take(s.len() - 1));
        if a <= s.len() - 1 {
            assert(s.skip(a).take(s.skip(a).len() - 1) =~= s.take(s.len() - 1).skip(a));
            lemma_skip_trailing(s.take(s.len() - 1), a);
            assert(s.skip(a)[s.skip(a).len() - 1] == s[s.len() - 1]);
        }
    } else {
        if s.len() > 0 && a < s.len() {
            assert(s.skip(a)[s.skip(a).len() - 1] == s[s.len() - 1]);
        }
    }
}

proof fn lemma_trailing_all_spaces(s: Seq<char>)
    ensures
        forall|j: int| s.len() - trailing_spaces(s) <= j < s.len() ==> is_space_char(s[j]),
    decreases s.len(),
{
    lemma_trailing_spaces_bound(s);
    if s.len() > 0 && is_space_char(s[s.len() - 1]) {
        let t = s.take(s.len() - 1);
        lemma_trailing_all_spaces(t);
        lemma_trailing_spaces_bound(t);
        assert forall|j: int| s.len() - trailing_spaces(s) <= j < s.len() implies is_space_char(
            s[j],
        ) by {
            if j < s.len() - 1 {
                assert(t[j] == s[j]);
            }
        }
    }
}

proof fn lemma_trim_empty(s: Seq<char>)
    requires
        leading_spaces(s) >= s.len() - trailing_spaces(s),
    ensures
        spec_trim(s) == Seq::<char>::empty(),
{
    lemma_leading_spaces_bound(s);
    lemma_trailing_spaces_bound(s);
    lemma_trailing_all_spaces(s);
    let a = leading_spaces(s);
    let rest = s.skip(a);
    assert forall|j: int| 0 <= j < rest.len() implies is_space_char(rest[j]) by {
        assert(rest[j] == s[a + j]);
    }
    lemma_trailing_spaces_suffix(rest, 0);
    assert(spec_trim(s) =~= Seq::<char>::empty());
}

proof fn lemma_trim_mid(s: Seq<char>, a: int, b: int)
    requires
        a == leading_spaces(s),
        b == s.len() - trailing_spaces(s),
        a < b,
    ensures
        spec_trim(s) == s.subrange(a, b),
{
    lemma_leading_spaces_bound(s);
    lemma_trailing_spaces_bound(s);
    lemma_skip_trailing(s, a);
    assert(spec_trim(s) =~= s.subrange(a, b));
}

/// `s` with trailing whitespace removed.
pub fn trim_end(s: &str) -> (r: String)
    ensures
        r@ == spec_trim_end(s@),
{
    let b = trimmed_end(s);
    proof {
        lemma_trailing_spaces_bound(s@);
    }
    let t = s.substring_char(0, b);
    proof {
        assert(t@ =~= spec_trim_end(s@));
    }
    t.to_owned()
}

/// `s` holds the two-character sequence `:=` somewhere.
pub open spec fn has_colon_eq(s: Seq<char>) -> bool {
    exists|j: int| 0 <= j && j + 1 < s.len() && #[trigger] s[j] == ':' && s[j + 1] == '='
}

/// Scan for `:=`.
pub fn contains_colon_eq(s: &str) -> (r: bool)
    ensures
        r == has_colon_eq(s@),
{
    let n = s.unicode_len();
    if n < 2 {
        return false;
    }
    let mut j: usize = 0;
    while j + 1 < n
        invariant
            0 <= j,
            j < n,
            n == s@.len(),
            forall|m: int| 0 <= m < j ==> !(#[trigger] s@[m] == ':' && s@[m + 1] == '='),
        decreases n - j,
    {
        if s.get_char(j) == ':' && s.get_char(j + 1) == '=' {
            return true;
        }
        j += 1;
    }
    false
}

/// Character-by-character string equality, usable where no `PartialEq` spec applies.
pub fn str_eq(a: &str, b: &str) -> (r: bool)
    ensures
        r == (a@ == b@),
{
    let na = a.unicode_len();
    let nb = b.unicode_len();
    if na != nb {
        return false;
    }
    let mut i: usize = 0;
    while i < na
        invariant
            0 <= i <= na,
            na == a@.len(),
            na == b@.len(),
            forall|j: int| 0 <= j < i ==> a@[j] == b@[j],
        decreases na - i,
    {
        if a.get_char(i) != b.get_char(i) {
            return false;
        }
        i += 1;
    }
    proof {
        assert(a@ =~= b@);
    }
    true
}

pub open spec fn spec_starts_with(s: Seq<char>, p: Seq<char>) -> bool {
    s.len() >= p.len() && s.subrange(0, p.len() as int) == p
}

pub open spec fn spec_ends_with(s: Seq<char>, p: Seq<char>) -> bool {
    s.len() >= p.len() && s.subrange(s.len() - p.len(), s.len() as int) == p
}

pub fn str_starts_with(s: &str, p: &str) -> (r: bool)
    ensures
        r == spec_starts_with(s@, p@),
{
    let ns = s.unicode_len();
    let np = p.unicode_len();
    if ns < np {
        return false;
    }
    let head = s.substring_char(0, np);
    str_eq(head, p)
}

pub fn str_ends_with(s: &str, p: &str) -> (r: bool)
    ensures
        r == spec_ends_with(s@, p@),
{
    let ns = s.unicode_len();
    let np = p.unicode_len();
    if ns < np {
        return false;
    }
    let tail = s.substring_char(ns - np, ns);
    str_eq(tail, p)
}

/// True when `s` is non-empty and begins with `c`.
pub fn starts_with_char(s: &str, c: char) -> (r: bool)
    ensures
        r == (s@.len() > 0 && s@[0] == c),
{
    if s.unicode_len() == 0 {
        false
    } else {
        s.get_char(0) == c
    }
}

/// True when `s` is non-empty and ends with `c`.
pub fn ends_with_char(s: &str, c: char) -> (r: bool)
    ensures
        r == (s@.len() > 0 && s@[s@.len() - 1] == c),
{
    let n = s.unicode_len();
    if n == 0 {
        false
    } else {
        s.get_char(n - 1) == c
    }
}

pub fn contains_char(s: &str, c: char) -> (r: bool)
    ensures
        r == s@.contains(c),
{
    let n = s.unicode_len();
    let mut i: usize = 0;
    while i < n
        invariant
            0 <= i <= n,
            n == s@.len(),
            forall|j: int| 0 <= j < i ==> s@[j] != c,
        decreases n - i,
    {
        if s.get_char(i) == c {
            return true;
        }
        i += 1;
    }
    false
}

/// `unit` repeated `n` times.
pub open spec fn spec_repeat(unit: Seq<char>, n: int) -> Seq<char>
    decreases n,
{
    if n <= 0 {
        Seq::empty()
    } else {
        spec_repeat(unit, n - 1) + unit
    }
}

pub fn repeat_str(unit: &str, n: usize) -> (r: String)
    ensures
        r@ == spec_repeat(unit@, n as int),
{
    let mut out = String::new();
    let mut i: usize = 0;
    while i < n
        invariant
            0 <= i <= n,
            out@ == spec_repeat(unit@, i as int),
        decreases n - i,
    {
        out.append(unit);
        i += 1;
    }
    out
}

/// Index of the first newline in `s`, or `s.len()` if there is none.
pub open spec fn first_nl(s: Seq<char>) -> int
    decreases s.len(),
{
    if s.len() == 0 {
        0
    } else if s[0] == '\n' {
        0
    } else {
        1 + first_nl(s.skip(1))
    }
}

pub proof fn lemma_first_nl_char(s: Seq<char>, k: int)
    requires
        0 <= k <= s.len(),
        forall|j: int| 0 <= j < k ==> s[j] != '\n',
        k < s.len() ==> s[k] == '\n',
    ensures
        first_nl(s) == k,
    decreases k,
{
    if k > 0 {
        lemma_first_nl_char(s.skip(1), k - 1);
    }
}

pub proof fn lemma_first_nl_bound(s: Seq<char>)
    ensures
        0 <= first_nl(s) <= s.len(),
        first_nl(s) < s.len() ==> s[first_nl(s)] == '\n',
        forall|j: int| 0 <= j < first_nl(s) ==> s[j] != '\n',
    decreases s.len(),
{
    if s.len() > 0 && s[0] != '\n' {
        lemma_first_nl_bound(s.skip(1));
        assert forall|j: int| 0 <= j < first_nl(s) implies s[j] != '\n' by {
            if j > 0 {
                assert(s.skip(1)[j - 1] == s[j]);
            }
        }
    }
}

/// One raw line with a trailing carriage return removed.
pub open spec fn strip_cr(raw: Seq<char>) -> Seq<char> {
    if raw.len() > 0 && raw[raw.len() - 1] == '\r' {
        raw.take(raw.len() - 1)
    } else {
        raw
    }
}

/// The lines of `s`, exactly as `str::lines` yields them.
pub open spec fn spec_lines(s: Seq<char>) -> Seq<Seq<char>>
    decreases s.len(),
    via spec_lines_decreases
{
    if s.len() == 0 {
        Seq::empty()
    } else {
        let i = first_nl(s);
        let line = strip_cr(s.take(i));
        if i >= s.len() {
            seq![line]
        } else {
            seq![line] + spec_lines(s.skip(i + 1))
        }
    }
}

#[via_fn]
proof fn spec_lines_decreases(s: Seq<char>) {
    lemma_first_nl_bound(s);
}

/// Split `s` into its lines.
pub fn split_lines(s: &str) -> (r: Vec<String>)
    ensures
        r.deep_view() == spec_lines(s@),
{
    let n = s.unicode_len();
    let mut out: Vec<String> = Vec::new();
    let mut p: usize = 0;
    proof {
        assert(s@.skip(0) =~= s@);
        assert(out.deep_view() + spec_lines(s@) =~= spec_lines(s@));
    }
    while p < n
        invariant
            0 <= p <= n,
            n == s@.len(),
            spec_lines(s@) == out.deep_view() + spec_lines(s@.skip(p as int)),
        decreases n - p,
    {
        let ghost rest = s@.skip(p as int);
        let mut i: usize = p;
        while i < n && s.get_char(i) != '\n'
            invariant
                p <= i <= n,
                n == s@.len(),
                forall|j: int| p <= j < i ==> s@[j] != '\n',
            decreases n - i,
        {
            i += 1;
        }
        proof {
            assert forall|j: int| 0 <= j < i - p implies rest[j] != '\n' by {
                assert(rest[j] == s@[p + j]);
            }
            if (i as int) < n {
                assert(rest[i - p] == s@[i as int]);
            }
            lemma_first_nl_char(rest, i - p);
        }
        let raw_end = if i > p && s.get_char(i - 1) == '\r' {
            i - 1
        } else {
            i
        };
        let line = s.substring_char(p, raw_end).to_owned();
        proof {
            let raw = rest.take(i - p);
            assert(raw =~= s@.subrange(p as int, i as int));
            if i > p && s@[i - 1] == '\r' {
                assert(raw[raw.len() - 1] == s@[i - 1]);
                assert(strip_cr(raw) =~= s@.subrange(p as int, raw_end as int));
            } else {
                if raw.len() > 0 {
                    assert(raw[raw.len() - 1] == s@[i - 1]);
                }
                assert(strip_cr(raw) =~= s@.subrange(p as int, raw_end as int));
            }
        }
        let ghost prev_dv = out.deep_view();
        out.push(line);
        proof {
            assert(out.deep_view() =~= prev_dv.push(line@));
        }
        if i < n {
            proof {
                assert(rest.skip(i - p + 1) =~= s@.skip(i + 1));
                assert(spec_lines(rest) == seq![strip_cr(rest.take(i - p))] + spec_lines(
                    rest.skip(i - p + 1),
                ));
                assert(prev_dv.push(line@) + spec_lines(s@.skip(i + 1)) =~= prev_dv + spec_lines(
                    rest,
                ));
            }
            p = i + 1;
        } else {
            proof {
                assert(spec_lines(rest) == seq![strip_cr(rest.take(i - p))]);
                assert(prev_dv.push(line@) + spec_lines(s@.skip(n as int)) =~= prev_dv
                    + spec_lines(rest));
            }
            p = n;
        }
    }
    proof {
        assert(s@.skip(p as int).len() == 0);
        assert(out.deep_view() + spec_lines(s@.skip(p as int)) =~= out.deep_view());
    }
    out
}

} // verus!
