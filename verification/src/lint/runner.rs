//! The lint runner: the closed set of rules, applied to one file.

use vstd::prelude::*;

use crate::config::Config;
use crate::lint::context::LintContext;
use crate::lint::diagnostic::{Diagnostic, Severity};
use crate::text;
use crate::tree::SynTree;

verus! {

/// Decimal digits of a number.
pub fn usize_str(n: usize) -> String {
    let mut digits: Vec<char> = Vec::new();
    let mut m = n;
    loop
        decreases m,
    {
        let d = m % 10;
        let c: char = if d == 0 {
            '0'
        } else if d == 1 {
            '1'
        } else if d == 2 {
            '2'
        } else if d == 3 {
            '3'
        } else if d == 4 {
            '4'
        } else if d == 5 {
            '5'
        } else if d == 6 {
            '6'
        } else if d == 7 {
            '7'
        } else if d == 8 {
            '8'
        } else {
            '9'
        };
        digits.push(c);
        m = m / 10;
        if m == 0 {
            break ;
        }
    }
    let mut out = String::new();
    let mut i = digits.len();
    while i > 0
        invariant
            i <= digits@.len(),
        decreases i,
    {
        let c = digits[i - 1];
        let one: &str = if c == '0' {
            "0"
        } else if c == '1' {
            "1"
        } else if c == '2' {
            "2"
        } else if c == '3' {
            "3"
        } else if c == '4' {
            "4"
        } else if c == '5' {
            "5"
        } else if c == '6' {
            "6"
        } else if c == '7' {
            "7"
        } else if c == '8' {
            "8"
        } else {
            "9"
        };
        out.append(one);
        i -= 1;
    }
    out
}

/// Lines should not exceed the maximum visual length.
fn check_max_line_length(ctx: &mut LintContext, config: &Config, max0: usize, tabw: usize)
    ensures
        final(ctx).lines == old(ctx).lines,
        final(ctx).file_path == old(ctx).file_path,
        final(ctx).suppressions == old(ctx).suppressions,
{
    let max = match config.get_int_option("max-line-length", "max", "max_length") {
        Some(v) => if v >= 0 {
            v as usize
        } else {
            max0
        },
        None => max0,
    };
    let severity = config.get_rule_severity("max-line-length", Severity::Warning);
    let n = ctx.lines.len();
    let mut i: usize = 0;
    while i < n
        invariant
            0 <= i <= n,
            n == ctx.lines@.len(),
            ctx.lines == old(ctx).lines,
            ctx.file_path == old(ctx).file_path,
            ctx.suppressions == old(ctx).suppressions,
        decreases n - i,
    {
        let w = visual_len(ctx.lines[i].as_str(), tabw);
        if w > max {
            let mut msg = "Line is ".to_owned();
            msg.append(usize_str(w).as_str());
            msg.append(" characters long (max ");
            msg.append(usize_str(max).as_str());
            msg.append(")");
            let d = Diagnostic::new("max-line-length".to_owned(), severity, msg).with_location(
                i + 1,
                if max < usize::MAX {
                    max + 1
                } else {
                    max
                },
            );
            ctx.report(d);
        }
        i += 1;
    }
}

/// Visual length with tab stops, saturating.
fn visual_len(line: &str, tabw: usize) -> usize {
    let n = line.unicode_len();
    let mut len: usize = 0;
    let mut i: usize = 0;
    while i < n
        invariant
            0 <= i <= n,
            n == line@.len(),
        decreases n - i,
    {
        let c = line.get_char(i);
        if c == '\t' {
            let pad = if tabw > 0 {
                tabw - (len % tabw)
            } else {
                1
            };
            if len <= usize::MAX - pad {
                len += pad;
            }
        } else {
            if len < usize::MAX {
                len += 1;
            }
        }
        i += 1;
    }
    len
}

/// Lines should not end in spaces or tabs.
fn check_trailing_whitespace(ctx: &mut LintContext, config: &Config)
    ensures
        final(ctx).lines == old(ctx).lines,
        final(ctx).file_path == old(ctx).file_path,
        final(ctx).suppressions == old(ctx).suppressions,
{
    let severity = config.get_rule_severity("trailing-whitespace", Severity::Warning);
    let n = ctx.lines.len();
    let mut i: usize = 0;
    while i < n
        invariant
            0 <= i <= n,
            n == ctx.lines@.len(),
            ctx.lines == old(ctx).lines,
            ctx.file_path == old(ctx).file_path,
            ctx.suppressions == old(ctx).suppressions,
        decreases n - i,
    {
        let line = ctx.lines[i].as_str();
        if text::ends_with_char(line, ' ') || text::ends_with_char(line, '\t') {
            let trimmed = text::trim_end(line);
            let d = Diagnostic::new(
                "trailing-whitespace".to_owned(),
                severity,
                "Trailing whitespace".to_owned(),
            ).with_location(i + 1, {
                let tl = trimmed.as_str().unicode_len();
                if tl < usize::MAX {
                    tl + 1
                } else {
                    tl
                }
            });
            ctx.report(d);
        }
        i += 1;
    }
}

/// Indentation should not mix tabs and spaces.
fn check_mixed_tabs_spaces(ctx: &mut LintContext, config: &Config)
    ensures
        final(ctx).lines == old(ctx).lines,
        final(ctx).file_path == old(ctx).file_path,
        final(ctx).suppressions == old(ctx).suppressions,
{
    let severity = config.get_rule_severity("mixed-tabs-spaces", Severity::Warning);
    let n = ctx.lines.len();
    let mut i: usize = 0;
    while i < n
        invariant
            0 <= i <= n,
            n == ctx.lines@.len(),
            ctx.lines == old(ctx).lines,
            ctx.file_path == old(ctx).file_path,
            ctx.suppressions == old(ctx).suppressions,
        decreases n - i,
    {
        let line = ctx.lines[i].as_str();
        let m = line.unicode_len();
        let mut has_tab = false;
        let mut has_space = false;
        let mut j: usize = 0;
        while j < m
            invariant
                0 <= j <= m,
                m == line@.len(),
            decreases m - j,
        {
            let c = line.get_char(j);
            if !text::is_space(c) {
                break ;
            }
            if c == '\t' {
                has_tab = true;
            }
            if c == ' ' {
                has_space = true;
            }
            j += 1;
        }
        if has_tab && has_space {
            let d = Diagnostic::new(
                "mixed-tabs-spaces".to_owned(),
                severity,
                "Mixed tabs and spaces in indentation".to_owned(),
            ).with_location(i + 1, 1);
            ctx.report(d);
        }
        i += 1;
    }
}

/// Files should not exceed the maximum number of lines.
fn check_max_file_lines(ctx: &mut LintContext, config: &Config, max0: usize)
    ensures
        final(ctx).lines == old(ctx).lines,
        final(ctx).file_path == old(ctx).file_path,
        final(ctx).suppressions == old(ctx).suppressions,
{
    let max = match config.get_int_option("max-file-lines", "max", "max_lines") {
        Some(v) => if v >= 0 {
            v as usize
        } else {
            max0
        },
        None => max0,
    };
    let severity = config.get_rule_severity("max-file-lines", Severity::Warning);
    let count = ctx.lines.len();
    if count > max {
        let mut msg = "File has ".to_owned();
        msg.append(usize_str(count).as_str());
        msg.append(" lines (max ");
        msg.append(usize_str(max).as_str());
        msg.append(")");
        let d = Diagnostic::new("max-file-lines".to_owned(), severity, msg).with_location(
            if max < usize::MAX {
                max + 1
            } else {
                max
            },
            1,
        );
        ctx.report(d);
    }
}

/// `pass` is unnecessary when its block holds other statements.
fn check_unnecessary_pass(t: &SynTree, parent: usize, ctx: &mut LintContext, config: &Config)
    requires
        t.wf(),
        parent < t.nodes@.len(),
    ensures
        final(ctx).lines == old(ctx).lines,
        final(ctx).file_path == old(ctx).file_path,
        final(ctx).suppressions == old(ctx).suppressions,
    decreases t.nodes@.len() - parent, 1int,
{
    let severity = config.get_rule_severity("unnecessary-pass", Severity::Warning);
    let is_block = t.kind_is(parent, "body") || t.kind_is(parent, "block");
    let named = t.named_child_count(parent);
    let n = t.child_count(parent);
    let mut k: usize = 0;
    while k < n
        invariant
            0 <= k <= n,
            t.wf(),
            parent < t.nodes@.len(),
            n == t.nodes@[parent as int].children@.len(),
            ctx.lines == old(ctx).lines,
            ctx.file_path == old(ctx).file_path,
            ctx.suppressions == old(ctx).suppressions,
        decreases n - k,
    {
        let c = t.child(parent, k);
        if is_block && named > 1 && t.kind_is(c, "pass_statement") {
            ctx.report_node(
                t,
                c,
                "unnecessary-pass",
                severity,
                "Unnecessary pass statement".to_owned(),
            );
        }
        k += 1;
    }
}

/// A node's direct parameter count, counting the parameter shapes.
fn count_params(t: &SynTree, pn: usize) -> (r: usize)
    requires
        t.wf(),
        pn < t.nodes@.len(),
    ensures
        r <= t.nodes@[pn as int].children@.len(),
{
    let n = t.child_count(pn);
    let mut count: usize = 0;
    let mut k: usize = 0;
    while k < n
        invariant
            0 <= k <= n,
            count <= k,
            t.wf(),
            pn < t.nodes@.len(),
            n == t.nodes@[pn as int].children@.len(),
        decreases n - k,
    {
        let c = t.child(pn, k);
        if t.kind_is(c, "identifier") || t.kind_is(c, "typed_parameter") || t.kind_is(
            c,
            "default_parameter",
        ) || t.kind_is(c, "typed_default_parameter") {
            count += 1;
        }
        k += 1;
    }
    count
}

/// Return statements in a subtree, not descending into nested functions.
fn count_returns(t: &SynTree, i: usize) -> usize
    requires
        t.wf(),
        i < t.nodes@.len(),
    decreases t.nodes@.len() - i, 0int,
{
    let mut count: usize = if t.kind_is(i, "return_statement") {
        1
    } else {
        0
    };
    let n = t.child_count(i);
    let mut k: usize = 0;
    while k < n
        invariant
            0 <= k <= n,
            t.wf(),
            i < t.nodes@.len(),
            n == t.nodes@[i as int].children@.len(),
        decreases n - k,
    {
        let c = t.child(i, k);
        if !t.kind_is(c, "function_definition") {
            let sub = count_returns(t, c);
            if count <= usize::MAX - sub {
                count += sub;
            }
        }
        k += 1;
    }
    count
}

/// Whether a block's last statement always returns.
fn block_ends_with_return(t: &SynTree, b: usize) -> bool
    requires
        t.wf(),
        b < t.nodes@.len(),
    decreases t.nodes@.len() - b, 0int,
{
    let n = t.child_count(b);
    if n == 0 {
        return false;
    }
    let last = t.child(b, n - 1);
    if t.kind_is(last, "return_statement") {
        return true;
    }
    if t.kind_is(last, "if_statement") {
        return all_branches_return(t, last);
    }
    false
}

/// Whether every branch of an `if` returns (and an `else` exists).
fn all_branches_return(t: &SynTree, i: usize) -> bool
    requires
        t.wf(),
        i < t.nodes@.len(),
    decreases t.nodes@.len() - i, 1int,
{
    let body = match crate::format::expressions::get_field_child(t, i, "body") {
        Some(b) => b,
        None => {
            return false;
        },
    };
    if !block_ends_with_return(t, body) {
        return false;
    }
    let mut has_else = false;
    let n = t.child_count(i);
    let mut k: usize = 0;
    let mut ok = true;
    while k < n
        invariant
            0 <= k <= n,
            t.wf(),
            i < t.nodes@.len(),
            n == t.nodes@[i as int].children@.len(),
        decreases n - k,
    {
        let c = t.child(i, k);
        if t.kind_is(c, "elif_clause") || t.kind_is(c, "else_clause") {
            if t.kind_is(c, "else_clause") {
                has_else = true;
            }
            match crate::format::expressions::get_field_child(t, c, "body") {
                Some(b) => {
                    if !block_ends_with_return(t, b) {
                        ok = false;
                    }
                },
                None => {
                    ok = false;
                },
            }
        }
        k += 1;
    }
    ok && has_else
}


/// Naive substring test.
fn contains_sub(s: &str, pat: &str) -> bool {
    let n = s.unicode_len();
    let m = pat.unicode_len();
    if m == 0 {
        return true;
    }
    if m > n {
        return false;
    }
    let mut i: usize = 0;
    while i <= n - m
        invariant
            0 <= i,
            i <= n - m + 1,
            1 <= m <= n,
            n == s@.len(),
            m == pat@.len(),
        decreases n - i,
    {
        let piece = s.substring_char(i, i + m);
        if text::str_eq(piece, pat) {
            return true;
        }
        i += 1;
    }
    false
}

/// Whether the subtree under `i` holds an `identifier` with this text.
fn subtree_has_identifier(t: &SynTree, i: usize, name: &str) -> bool
    requires
        t.wf(),
        i < t.nodes@.len(),
    decreases t.nodes@.len() - i, 0int,
{
    if t.kind_is(i, "identifier") && text::str_eq(t.text(i), name) {
        return true;
    }
    let n = t.child_count(i);
    let mut k: usize = 0;
    while k < n
        invariant
            0 <= k <= n,
            t.wf(),
            i < t.nodes@.len(),
            n == t.nodes@[i as int].children@.len(),
        decreases n - k,
    {
        let c = t.child(i, k);
        if subtree_has_identifier(t, c, name) {
            return true;
        }
        k += 1;
    }
    false
}

/// The comparison shapes the self-comparison rule looks for.
fn looks_like_comparison(node_text: &str) -> bool {
    contains_sub(node_text, "==") || contains_sub(node_text, "!=") || contains_sub(
        node_text,
        "<=",
    ) || contains_sub(node_text, ">=") || (text::contains_char(node_text, '<') && !contains_sub(
        node_text,
        "<<",
    )) || (text::contains_char(node_text, '>') && !contains_sub(node_text, ">>"))
}


/// Character classes for the naming conventions.
pub open spec fn is_lower(c: char) -> bool {
    'a' <= c && c <= 'z'
}

pub open spec fn is_upper(c: char) -> bool {
    'A' <= c && c <= 'Z'
}

pub open spec fn is_digit(c: char) -> bool {
    '0' <= c && c <= '9'
}

/// Scan a tail for a character-class predicate, from index 1 on.
fn tail_matches(s: &str, lower: bool, upper: bool, digit: bool, underscore: bool) -> (r: bool)
    requires
        s@.len() > 0,
{
    let n = s.unicode_len();
    let mut j: usize = 1;
    while j < n
        invariant
            1 <= j <= n,
            n == s@.len(),
            forall|m: int|
                1 <= m < j ==> ((lower && is_lower(#[trigger] s@[m])) || (upper && is_upper(
                    s@[m],
                )) || (digit && is_digit(s@[m])) || (underscore && s@[m] == '_')),
        decreases n - j,
    {
        let c = s.get_char(j);
        let ok = (lower && 'a' <= c && c <= 'z') || (upper && 'A' <= c && c <= 'Z') || (digit
            && '0' <= c && c <= '9') || (underscore && c == '_');
        if !ok {
            return false;
        }
        j += 1;
    }
    true
}

/// Exec test for `is_snake_case`.
pub fn check_snake_case(s: &str) -> bool {
    let n = s.unicode_len();
    if n == 0 {
        return false;
    }
    let core: &str = if s.get_char(0) == '_' {
        s.substring_char(1, n)
    } else {
        s
    };
    let m = core.unicode_len();
    if m == 0 {
        return false;
    }
    let c0 = core.get_char(0);
    if !('a' <= c0 && c0 <= 'z') {
        return false;
    }
    tail_matches(core, true, false, true, true)
}

/// Exec test for `is_pascal_case`.
pub fn check_pascal_case(s: &str) -> bool {
    let n = s.unicode_len();
    if n == 0 {
        return false;
    }
    let c0 = s.get_char(0);
    if !('A' <= c0 && c0 <= 'Z') {
        return false;
    }
    tail_matches(s, true, true, true, false)
}

/// Exec test for `is_constant_case`.
pub fn check_constant_case(s: &str) -> bool {
    let n = s.unicode_len();
    if n == 0 {
        return false;
    }
    let core: &str = if s.get_char(0) == '_' {
        s.substring_char(1, n)
    } else {
        s
    };
    let m = core.unicode_len();
    if m == 0 {
        return false;
    }
    let c0 = core.get_char(0);
    if !('A' <= c0 && c0 <= 'Z') {
        return false;
    }
    tail_matches(core, false, true, true, true)
}

/// `_on_<Node>_<signal>` names count as well-formed signal handlers.
pub open spec fn is_signal_handler(s: Seq<char>) -> bool {
    exists|m: int|
        {
            &&& 5 <= m < s.len()
            &&& s.len() >= 4
            &&& s.subrange(0, 4) == "_on_"@
            &&& #[trigger] s[m] == '_'
            &&& (forall|j: int|
                4 <= j < m ==> (is_lower(#[trigger] s[j]) || is_upper(s[j]) || is_digit(s[j])))
            &&& m + 1 < s.len()
            &&& is_lower(s[m + 1])
            &&& (forall|j: int|
                m + 2 <= j < s.len() ==> (is_lower(#[trigger] s[j]) || is_digit(s[j]) || s[j]
                    == '_'))
        }
}

/// Exec test for `is_signal_handler`.
pub fn check_signal_handler(s: &str) -> (r: bool)
    ensures
        r == is_signal_handler(s@),
{
    let n = s.unicode_len();
    if n < 4 {
        proof {
            assert(!is_signal_handler(s@));
        }
        return false;
    }
    let head = s.substring_char(0, 4);
    proof {
        reveal_strlit("_on_");
        assert(head@ =~= s@.subrange(0, 4));
    }
    if !text::str_eq(head, "_on_") {
        proof {
            assert(!is_signal_handler(s@));
        }
        return false;
    }
    let mut m: usize = 5;
    while m < n
        invariant
            5 <= m,
            m <= n || n < 5,
            n == s@.len(),
            s@.subrange(0, 4) == "_on_"@,
            forall|mm: int|
                5 <= mm < m ==> !({
                    &&& #[trigger] s@[mm] == '_'
                    &&& (forall|j: int|
                        4 <= j < mm ==> (is_lower(#[trigger] s@[j]) || is_upper(s@[j]) || is_digit(
                            s@[j],
                        )))
                    &&& mm + 1 < s@.len()
                    &&& is_lower(s@[mm + 1])
                    &&& (forall|j: int|
                        mm + 2 <= j < s@.len() ==> (is_lower(#[trigger] s@[j]) || is_digit(s@[j])
                            || s@[j] == '_'))
                }),
        decreases n - m,
    {
        let good = check_handler_split(s, m);
        if good {
            proof {
                assert(is_signal_handler(s@));
            }
            return true;
        }
        m += 1;
    }
    proof {
        assert forall|mm: int| 5 <= mm < s@.len() implies !({
            &&& #[trigger] s@[mm] == '_'
            &&& (forall|j: int|
                4 <= j < mm ==> (is_lower(#[trigger] s@[j]) || is_upper(s@[j]) || is_digit(
                    s@[j],
                )))
            &&& mm + 1 < s@.len()
            &&& is_lower(s@[mm + 1])
            &&& (forall|j: int|
                mm + 2 <= j < s@.len() ==> (is_lower(#[trigger] s@[j]) || is_digit(s@[j]) || s@[j]
                    == '_'))
        }) by {}
        assert(!is_signal_handler(s@));
    }
    false
}

/// Whether position `m` splits a signal-handler name correctly.
fn check_handler_split(s: &str, m: usize) -> (r: bool)
    requires
        5 <= m < s@.len(),
    ensures
        r == ({
            &&& s@[m as int] == '_'
            &&& (forall|j: int|
                4 <= j < m ==> (is_lower(#[trigger] s@[j]) || is_upper(s@[j]) || is_digit(s@[j])))
            &&& m + 1 < s@.len()
            &&& is_lower(s@[m + 1])
            &&& (forall|j: int|
                m + 2 <= j < s@.len() ==> (is_lower(#[trigger] s@[j]) || is_digit(s@[j]) || s@[j]
                    == '_'))
        }),
{
    let n = s.unicode_len();
    if s.get_char(m) != '_' {
        return false;
    }
    let mut j: usize = 4;
    while j < m
        invariant
            4 <= j <= m < n,
            n == s@.len(),
            forall|p: int|
                4 <= p < j ==> (is_lower(#[trigger] s@[p]) || is_upper(s@[p]) || is_digit(s@[p])),
        decreases m - j,
    {
        let c = s.get_char(j);
        if !(('a' <= c && c <= 'z') || ('A' <= c && c <= 'Z') || ('0' <= c && c <= '9')) {
            return false;
        }
        j += 1;
    }
    if m + 1 >= n {
        return false;
    }
    let c1 = s.get_char(m + 1);
    if !('a' <= c1 && c1 <= 'z') {
        return false;
    }
    let mut j: usize = m + 2;
    while j < n
        invariant
            m + 2 <= j <= n || j == m + 2,
            j <= n,
            n == s@.len(),
            forall|p: int|
                m + 2 <= p < j ==> (is_lower(#[trigger] s@[p]) || is_digit(s@[p]) || s@[p] == '_'),
        decreases n - j,
    {
        let c = s.get_char(j);
        if !(('a' <= c && c <= 'z') || ('0' <= c && c <= '9') || c == '_') {
            return false;
        }
        j += 1;
    }
    true
}

/// Report a badly named declaration.
fn report_name(
    t: &SynTree,
    node: usize,
    ctx: &mut LintContext,
    config: &Config,
    rule_id: &str,
    what: &str,
    style: &str,
    name: &str,
)
    requires
        t.wf(),
        node < t.nodes@.len(),
    ensures
        final(ctx).lines == old(ctx).lines,
        final(ctx).file_path == old(ctx).file_path,
        final(ctx).suppressions == old(ctx).suppressions,
{
    let severity = config.get_rule_severity(rule_id, Severity::Warning);
    let mut msg = what.to_owned();
    msg.append(" name \"");
    msg.append(name);
    msg.append("\" should be ");
    msg.append(style);
    ctx.report_node(t, node, rule_id, severity, msg);
}


/// The naming-convention rules for one node.
fn check_name_rules(t: &SynTree, i: usize, ctx: &mut LintContext, config: &Config)
    requires
        t.wf(),
        i < t.nodes@.len(),
    ensures
        final(ctx).lines == old(ctx).lines,
        final(ctx).file_path == old(ctx).file_path,
        final(ctx).suppressions == old(ctx).suppressions,
{
        if config.is_rule_enabled("class-name") {
            if t.kind_is(i, "class_name_statement") || t.kind_is(i, "class_definition") {
                if let Some(nn) = crate::format::expressions::get_field_child(t, i, "name") {
                    let name = t.text(nn).to_owned();
                    if !check_pascal_case(name.as_str()) {
                        report_name(
                            t,
                            nn,
                            ctx,
                            config,
                            "class-name",
                            "Class",
                            "PascalCase",
                            name.as_str(),
                        );
                    }
                }
            }
        }
        if config.is_rule_enabled("signal-name") {
            if t.kind_is(i, "signal_statement") {
                if let Some(nn) = crate::format::expressions::get_field_child(t, i, "name") {
                    let name = t.text(nn).to_owned();
                    if !check_snake_case(name.as_str()) {
                        report_name(
                            t,
                            nn,
                            ctx,
                            config,
                            "signal-name",
                            "Signal",
                            "snake_case",
                            name.as_str(),
                        );
                    }
                }
            }
        }
        if config.is_rule_enabled("constant-name") {
            if t.kind_is(i, "const_statement") {
                if let Some(nn) = crate::format::expressions::get_field_child(t, i, "name") {
                    let name = t.text(nn).to_owned();
                    if !check_constant_case(name.as_str()) {
                        report_name(
                            t,
                            nn,
                            ctx,
                            config,
                            "constant-name",
                            "Constant",
                            "UPPER_SNAKE_CASE",
                            name.as_str(),
                        );
                    }
                }
            }
        }
        if config.is_rule_enabled("variable-name") {
            if t.kind_is(i, "variable_statement") {
                if let Some(nn) = crate::format::expressions::get_field_child(t, i, "name") {
                    let name = t.text(nn).to_owned();
                    if !check_snake_case(name.as_str()) {
                        report_name(
                            t,
                            nn,
                            ctx,
                            config,
                            "variable-name",
                            "Variable",
                            "snake_case",
                            name.as_str(),
                        );
                    }
                }
            }
        }
        if config.is_rule_enabled("enum-name") {
            if t.kind_is(i, "enum_definition") {
                if let Some(nn) = crate::format::expressions::get_field_child(t, i, "name") {
                    let name = t.text(nn).to_owned();
                    if !check_pascal_case(name.as_str()) {
                        report_name(
                            t,
                            nn,
                            ctx,
                            config,
                            "enum-name",
                            "Enum",
                            "PascalCase",
                            name.as_str(),
                        );
                    }
                }
            }
        }
        if config.is_rule_enabled("enum-element-name") {
            if t.kind_is(i, "enumerator") {
                let name_node = match crate::format::expressions::get_field_child(t, i, "name") {
                    Some(nn) => Some(nn),
                    None => crate::format::expressions::get_field_child(t, i, "left"),
                };
                if let Some(nn) = name_node {
                    let name = t.text(nn).to_owned();
                    if !check_constant_case(name.as_str()) {
                        report_name(
                            t,
                            nn,
                            ctx,
                            config,
                            "enum-element-name",
                            "Enum element",
                            "UPPER_SNAKE_CASE",
                            name.as_str(),
                        );
                    }
                }
            }
        }
}

/// The expression- and structure-level rules for one node.
#[verifier::rlimit(100)]
fn check_misc_rules(t: &SynTree, i: usize, ctx: &mut LintContext, config: &Config)
    requires
        t.wf(),
        i < t.nodes@.len(),
    ensures
        final(ctx).lines == old(ctx).lines,
        final(ctx).file_path == old(ctx).file_path,
        final(ctx).suppressions == old(ctx).suppressions,
{
        if config.is_rule_enabled("comparison-with-itself") {
            if t.kind_is(i, "binary_operator") || t.kind_is(i, "comparison_operator") {
                if looks_like_comparison(t.text(i)) {
                    let nc = t.named_children(i);
                    if nc.len() >= 2 {
                        let lt = t.text(nc[0]);
                        let rt = t.text(nc[1]);
                        if text::str_eq(lt, rt) && lt.unicode_len() > 0 {
                            let severity = config.get_rule_severity(
                                "comparison-with-itself",
                                Severity::Warning,
                            );
                            let mut msg = "Comparison of \"".to_owned();
                            msg.append(lt);
                            msg.append("\" with itself");
                            ctx.report_node(t, i, "comparison-with-itself", severity, msg);
                        }
                    }
                }
            }
        }
        if config.is_rule_enabled("expression-not-assigned") {
            if t.kind_is(i, "expression_statement") {
                let nc = t.named_children(i);
                if nc.len() > 0 {
                    let e = nc[0];
                    let has_side_effect = t.kind_is(e, "call") || t.kind_is(e, "assignment")
                        || t.kind_is(e, "augmented_assignment") || t.kind_is(
                        e,
                        "await_expression",
                    ) || t.kind_is(e, "yield_expression");
                    if !has_side_effect {
                        let severity = config.get_rule_severity(
                            "expression-not-assigned",
                            Severity::Warning,
                        );
                        let mut msg = "Expression result (".to_owned();
                        msg.append(t.kind(e));
                        msg.append(") is not used");
                        ctx.report_node(t, i, "expression-not-assigned", severity, msg);
                    }
                }
            }
        }
        if config.is_rule_enabled("max-public-methods") {
            if t.kind_is(i, "source") || t.kind_is(i, "source_file") || t.kind_is(
                i,
                "class_definition",
            ) {
                let body: Option<usize> = if t.kind_is(i, "class_definition") {
                    crate::format::expressions::get_field_child(t, i, "body")
                } else {
                    Some(i)
                };
                if let Some(b) = body {
                    let mut public_methods: usize = 0;
                    let bn = t.child_count(b);
                    let mut k: usize = 0;
                    while k < bn
                        invariant
                            0 <= k <= bn,
                            public_methods <= k,
                            t.wf(),
                            b < t.nodes@.len(),
                            bn == t.nodes@[b as int].children@.len(),
                        decreases bn - k,
                    {
                        let c = t.child(b, k);
                        if t.kind_is(c, "function_definition") {
                            if let Some(nn) = crate::format::expressions::get_field_child(
                                t,
                                c,
                                "name",
                            ) {
                                if !text::starts_with_char(t.text(nn), '_') {
                                    public_methods += 1;
                                }
                            }
                        }
                        k += 1;
                    }
                    let max_methods = match config.get_int_option(
                        "max-public-methods",
                        "max",
                        "max_methods",
                    ) {
                        Some(v) => if v >= 0 {
                            v as usize
                        } else {
                            20
                        },
                        None => 20,
                    };
                    if public_methods > max_methods {
                        let severity = config.get_rule_severity(
                            "max-public-methods",
                            Severity::Warning,
                        );
                        let cname: String = if t.kind_is(i, "class_definition") {
                            match crate::format::expressions::get_field_child(t, i, "name") {
                                Some(nn) => t.text(nn).to_owned(),
                                None => "<anonymous>".to_owned(),
                            }
                        } else {
                            "<module>".to_owned()
                        };
                        let mut msg = "Class \"".to_owned();
                        msg.append(cname.as_str());
                        msg.append("\" has ");
                        msg.append(usize_str(public_methods).as_str());
                        msg.append(" public methods (max ");
                        msg.append(usize_str(max_methods).as_str());
                        msg.append(")");
                        ctx.report_node(t, i, "max-public-methods", severity, msg);
                    }
                }
            }
        }
        if config.is_rule_enabled("unused-argument") {
            if t.kind_is(i, "function_definition") {
                let body = crate::format::expressions::get_field_child(t, i, "body");
                if let Some(pn) = crate::format::expressions::get_field_child(t, i, "parameters") {
                    let pc = t.child_count(pn);
                    let mut k: usize = 0;
                    while k < pc
                        invariant
                            0 <= k <= pc,
                            t.wf(),
                            pn < t.nodes@.len(),
                            i < t.nodes@.len(),
                            pc == t.nodes@[pn as int].children@.len(),
                            match body {
                                Some(b) => b < t.nodes@.len(),
                                None => true,
                            },
                            ctx.lines == old(ctx).lines,
                            ctx.file_path == old(ctx).file_path,
                            ctx.suppressions == old(ctx).suppressions,
                        decreases pc - k,
                    {
                        let c = t.child(pn, k);
                        let name_node: Option<usize> = if t.kind_is(c, "identifier") {
                            Some(c)
                        } else if t.kind_is(c, "typed_parameter") {
                            let ncs = t.named_children(c);
                            if ncs.len() > 0 && t.kind_is(ncs[0], "identifier") {
                                Some(ncs[0])
                            } else {
                                None
                            }
                        } else {
                            None
                        };
                        if let Some(nn) = name_node {
                            let pname = t.text(nn).to_owned();
                            if !text::starts_with_char(pname.as_str(), '_') {
                                let used = match body {
                                    Some(b) => subtree_has_identifier(t, b, pname.as_str()),
                                    None => false,
                                };
                                if !used {
                                    let severity = config.get_rule_severity(
                                        "unused-argument",
                                        Severity::Warning,
                                    );
                                    let mut msg = "Unused argument \"".to_owned();
                                    msg.append(pname.as_str());
                                    msg.append("\"");
                                    ctx.report_node(t, nn, "unused-argument", severity, msg);
                                }
                            }
                        }
                        k += 1;
                    }
                }
            }
        }
}


/// A quote character: the boundaries of a load path capture.
pub open spec fn is_quote(c: char) -> bool {
    c == '"' || c == '\''
}

/// First index at or after `i` holding a quote, or the length.
pub open spec fn quote_run_end(line: Seq<char>, i: int) -> int
    decreases line.len() - i when 0 <= i <= line.len()
{
    if i >= line.len() {
        i
    } else if !is_quote(line[i]) {
        quote_run_end(line, i + 1)
    } else {
        i
    }
}

proof fn lemma_quote_run_end(line: Seq<char>, i: int)
    requires
        0 <= i <= line.len(),
    ensures
        i <= quote_run_end(line, i) <= line.len(),
        quote_run_end(line, i) < line.len() ==> is_quote(line[quote_run_end(line, i)]),
        forall|m: int| i <= m < quote_run_end(line, i) ==> !is_quote(#[trigger] line[m]),
    decreases line.len() - i,
{
    if i < line.len() && !is_quote(line[i]) {
        lemma_quote_run_end(line, i + 1);
    }
}

/// A resource-load call suffix starting right after the keyword at `q`:
/// optional whitespace, `(`, optional whitespace, a non-empty quoted path,
/// optional whitespace, `)`.  Yields the path and the index past `)`.
pub open spec fn load_call_at(line: Seq<char>, q: int) -> Option<(Seq<char>, int)> {
    let a = crate::format::skip_regions::first_non_ws(line, q);
    if 0 <= a < line.len() && line[a] == '(' {
        let b = crate::format::skip_regions::first_non_ws(line, a + 1);
        if 0 <= b < line.len() && is_quote(line[b]) {
            let e = quote_run_end(line, b + 1);
            if e > b + 1 && e < line.len() {
                let f = crate::format::skip_regions::first_non_ws(line, e + 1);
                if 0 <= f < line.len() && line[f] == ')' {
                    Some((line.subrange(b + 1, e), f + 1))
                } else {
                    None
                }
            } else {
                None
            }
        } else {
            None
        }
    } else {
        None
    }
}

/// The `load(...)`/`preload(...)` match attempt at position `p`.
pub open spec fn load_match_at(line: Seq<char>, p: int) -> Option<(Seq<char>, int)> {
    if crate::text::spec_starts_with(line.skip(p), "load"@) {
        load_call_at(line, p + 4)
    } else if crate::text::spec_starts_with(line.skip(p), "preload"@) {
        load_call_at(line, p + 7)
    } else {
        None
    }
}

/// All load matches of a line from `p` on — leftmost first, resuming past
/// each match — as `(path, 0-indexed match start)` pairs.
pub open spec fn spec_line_loads(line: Seq<char>, p: int, acc: Seq<(Seq<char>, int)>) -> Seq<
    (Seq<char>, int),
>
    decreases line.len() - p when 0 <= p
{
    if p >= line.len() {
        acc
    } else {
        match load_match_at(line, p) {
            Some(m) => if p < m.1 <= line.len() {
                spec_line_loads(line, m.1, acc.push((m.0, p)))
            } else {
                acc
            },
            None => spec_line_loads(line, p + 1, acc),
        }
    }
}

/// Exec mirror of `load_call_at`.
fn find_load_call(line: &str, q: usize) -> (r: Option<(String, usize)>)
    requires
        q <= line@.len(),
    ensures
        match r {
            Some(m) => load_call_at(line@, q as int) == Some((m.0@, m.1 as int)) && q < m.1
                <= line@.len(),
            None => load_call_at(line@, q as int) is None,
        },
{
    let n = line.unicode_len();
    let a = crate::format::skip_regions::skip_ws_pub(line, q);
    if !(a < n && line.get_char(a) == '(') {
        return None;
    }
    let b = crate::format::skip_regions::skip_ws_pub(line, a + 1);
    if !(b < n && is_quote_exec(line.get_char(b))) {
        return None;
    }
    proof {
        lemma_quote_run_end(line@, b + 1);
    }
    let mut e: usize = b + 1;
    while e < n && !is_quote_exec(line.get_char(e))
        invariant
            b + 1 <= e <= n,
            n == line@.len(),
            forall|m: int| b + 1 <= m < e ==> !is_quote(#[trigger] line@[m]),
        decreases n - e,
    {
        e += 1;
    }
    proof {
        lemma_quote_run_end_exact(line@, b + 1, e as int);
    }
    if !(e > b + 1 && e < n) {
        return None;
    }
    let f = crate::format::skip_regions::skip_ws_pub(line, e + 1);
    if !(f < n && line.get_char(f) == ')') {
        return None;
    }
    let path = line.substring_char(b + 1, e).to_owned();
    proof {
        assert(path@ =~= line@.subrange(b + 1, e as int));
    }
    Some((path, f + 1))
}

fn is_quote_exec(c: char) -> (r: bool)
    ensures
        r == is_quote(c),
{
    c == '"' || c == '\''
}

proof fn lemma_quote_run_end_exact(line: Seq<char>, d: int, e: int)
    requires
        0 <= d <= e <= line.len(),
        forall|m: int| d <= m < e ==> !is_quote(#[trigger] line[m]),
        e < line.len() ==> is_quote(line[e]),
    ensures
        quote_run_end(line, d) == e,
    decreases e - d,
{
    if d < e {
        lemma_quote_run_end_exact(line, d + 1, e);
    }
}

/// Exec mirror of `load_match_at`.
fn find_load_match(line: &str, p: usize) -> (r: Option<(String, usize)>)
    requires
        p < line@.len(),
    ensures
        match r {
            Some(m) => load_match_at(line@, p as int) == Some((m.0@, m.1 as int)) && p < m.1
                <= line@.len(),
            None => load_match_at(line@, p as int) is None,
        },
{
    let n = line.unicode_len();
    let rest = line.substring_char(p, n);
    proof {
        assert(rest@ =~= line@.skip(p as int));
        reveal_strlit("load");
        reveal_strlit("preload");
    }
    if text::str_starts_with(rest, "load") {
        find_load_call(line, p + 4)
    } else if text::str_starts_with(rest, "preload") {
        find_load_call(line, p + 7)
    } else {
        None
    }
}

/// All `(path, 0-indexed column)` load matches of one line.
fn line_loads(line: &str) -> (r: Vec<(String, usize)>)
    ensures
        Seq::new(r@.len(), |k: int| (r@[k].0@, r@[k].1 as int)) == spec_line_loads(
            line@,
            0,
            Seq::empty(),
        ),
{
    let n = line.unicode_len();
    let mut out: Vec<(String, usize)> = Vec::new();
    let mut p: usize = 0;
    proof {
        assert(Seq::new(out@.len(), |k: int| (out@[k].0@, out@[k].1 as int)) =~= Seq::<
            (Seq<char>, int),
        >::empty());
    }
    while p < n
        invariant
            0 <= p <= n,
            n == line@.len(),
            spec_line_loads(line@, 0, Seq::empty()) == spec_line_loads(
                line@,
                p as int,
                Seq::new(out@.len(), |k: int| (out@[k].0@, out@[k].1 as int)),
            ),
        decreases n - p,
    {
        match find_load_match(line, p) {
            Some(m) => {
                let ghost before = Seq::new(out@.len(), |k: int| (out@[k].0@, out@[k].1 as int));
                let next = m.1;
                out.push((m.0, p));
                proof {
                    assert(Seq::new(out@.len(), |k: int| (out@[k].0@, out@[k].1 as int))
                        =~= before.push((out@.last().0@, p as int)));
                }
                p = next;
            },
            None => {
                p += 1;
            },
        }
    }
    out
}

/// The same resource loaded twice in one file is reported at its later
/// occurrences, pointing back at the first.
fn check_duplicated_load(ctx: &mut LintContext, config: &Config)
    ensures
        final(ctx).lines == old(ctx).lines,
        final(ctx).file_path == old(ctx).file_path,
        final(ctx).suppressions == old(ctx).suppressions,
{
    let severity = config.get_rule_severity("duplicated-load", Severity::Warning);
    let mut seen: Vec<(String, usize, usize)> = Vec::new();
    let n = ctx.lines.len();
    let mut i: usize = 0;
    while i < n
        invariant
            0 <= i <= n,
            n == ctx.lines@.len(),
            ctx.lines == old(ctx).lines,
            ctx.file_path == old(ctx).file_path,
            ctx.suppressions == old(ctx).suppressions,
        decreases n - i,
    {
        let matches_here = line_loads(ctx.lines[i].as_str());
        let m = matches_here.len();
        let mut k: usize = 0;
        while k < m
            invariant
                0 <= k <= m,
                i < n,
                n == ctx.lines@.len(),
                m == matches_here@.len(),
                ctx.lines == old(ctx).lines,
                ctx.file_path == old(ctx).file_path,
                ctx.suppressions == old(ctx).suppressions,
            decreases m - k,
        {
            let path = matches_here[k].0.clone();
            let col = matches_here[k].1;
            let mut first: Option<(usize, usize)> = None;
            let sn = seen.len();
            let mut j: usize = 0;
            while j < sn
                invariant
                    0 <= j <= sn,
                    sn == seen@.len(),
                decreases sn - j,
            {
                if text::str_eq(seen[j].0.as_str(), path.as_str()) {
                    first = Some((seen[j].1, seen[j].2));
                    break ;
                }
                j += 1;
            }
            match first {
                Some((first_line, first_col)) => {
                    let mut msg = "Resource \"".to_owned();
                    msg.append(path.as_str());
                    msg.append("\" already loaded at line ");
                    msg.append(usize_str(first_line).as_str());
                    msg.append(":");
                    msg.append(usize_str(first_col).as_str());
                    let d = Diagnostic::new(
                        "duplicated-load".to_owned(),
                        severity,
                        msg,
                    ).with_location(i + 1, if col < usize::MAX {
                        col + 1
                    } else {
                        col
                    });
                    ctx.report(d);
                },
                None => {
                    seen.push((path, i + 1, if col < usize::MAX {
                        col + 1
                    } else {
                        col
                    }));
                },
            }
            k += 1;
        }
        i += 1;
    }
}

/// The walk over every node, applying the per-node rules.
#[verifier::rlimit(100)]
fn check_nodes(t: &SynTree, ctx: &mut LintContext, config: &Config)
    requires
        t.wf(),
    ensures
        final(ctx).lines == old(ctx).lines,
        final(ctx).file_path == old(ctx).file_path,
        final(ctx).suppressions == old(ctx).suppressions,
{
    let max_args = match config.get_int_option("max-function-args", "max", "max_args") {
        Some(v) => if v >= 0 {
            v as usize
        } else {
            10
        },
        None => 10,
    };
    let max_returns = match config.get_int_option("max-returns", "max", "max_returns") {
        Some(v) => if v >= 0 {
            v as usize
        } else {
            6
        },
        None => 6,
    };
    let n = t.len();
    let mut i: usize = 0;
    while i < n
        invariant
            0 <= i <= n,
            t.wf(),
            n == t.nodes@.len(),
            ctx.lines == old(ctx).lines,
            ctx.file_path == old(ctx).file_path,
            ctx.suppressions == old(ctx).suppressions,
        decreases n - i,
    {
        if config.is_rule_enabled("unnecessary-pass") {
            if t.kind_is(i, "body") || t.kind_is(i, "block") {
                check_unnecessary_pass(t, i, ctx, config);
            }
        }
        if t.kind_is(i, "function_definition") {
            let fname: String = match crate::format::expressions::get_field_child(t, i, "name") {
                Some(nn) => t.text(nn).to_owned(),
                None => "<anonymous>".to_owned(),
            };
            if config.is_rule_enabled("function-name") {
                if let Some(nn) = crate::format::expressions::get_field_child(t, i, "name") {
                    let name = t.text(nn).to_owned();
                    if !check_snake_case(name.as_str()) && !check_signal_handler(name.as_str()) {
                        report_name(
                            t,
                            nn,
                            ctx,
                            config,
                            "function-name",
                            "Function",
                            "snake_case",
                            name.as_str(),
                        );
                    }
                }
            }
            if config.is_rule_enabled("max-function-args") {
                if let Some(pn) = crate::format::expressions::get_field_child(t, i, "parameters") {
                    let count = count_params(t, pn);
                    if count > max_args {
                        let severity = config.get_rule_severity(
                            "max-function-args",
                            Severity::Warning,
                        );
                        let mut msg = "Function \"".to_owned();
                        msg.append(fname.as_str());
                        msg.append("\" has ");
                        msg.append(usize_str(count).as_str());
                        msg.append(" arguments (max ");
                        msg.append(usize_str(max_args).as_str());
                        msg.append(")");
                        ctx.report_node(t, i, "max-function-args", severity, msg);
                    }
                }
            }
            if config.is_rule_enabled("max-returns") {
                let return_count = match crate::format::expressions::get_field_child(t, i, "body") {
                    Some(b) => count_returns(t, b),
                    None => 0,
                };
                if return_count > max_returns {
                    let severity = config.get_rule_severity("max-returns", Severity::Warning);
                    let mut msg = "Function \"".to_owned();
                    msg.append(fname.as_str());
                    msg.append("\" has ");
                    msg.append(usize_str(return_count).as_str());
                    msg.append(" return statements (max ");
                    msg.append(usize_str(max_returns).as_str());
                    msg.append(")");
                    ctx.report_node(t, i, "max-returns", severity, msg);
                }
            }
        }
        check_name_rules(t, i, ctx, config);
        check_misc_rules(t, i, ctx, config);
        if t.kind_is(i, "if_statement") {
            let body = crate::format::expressions::get_field_child(t, i, "body");
            if let Some(b) = body {
                if block_ends_with_return(t, b) {
                    let n2 = t.child_count(i);
                    let mut k: usize = 0;
                    let mut all_return = true;
                    while k < n2
                        invariant
                            0 <= k <= n2,
                            t.wf(),
                            i < t.nodes@.len(),
                            n2 == t.nodes@[i as int].children@.len(),
                            ctx.lines == old(ctx).lines,
                            ctx.file_path == old(ctx).file_path,
                            ctx.suppressions == old(ctx).suppressions,
                        decreases n2 - k,
                    {
                        let c = t.child(i, k);
                        if t.kind_is(c, "elif_clause") {
                            if config.is_rule_enabled("no-elif-return") {
                                let severity = config.get_rule_severity(
                                    "no-elif-return",
                                    Severity::Warning,
                                );
                                ctx.report_node(
                                    t,
                                    c,
                                    "no-elif-return",
                                    severity,
                                    "Use 'if' instead of 'elif' when the previous branch returns".to_owned(),
                                );
                            }
                            match crate::format::expressions::get_field_child(t, c, "body") {
                                Some(eb) => {
                                    if !block_ends_with_return(t, eb) {
                                        all_return = false;
                                    }
                                },
                                None => {},
                            }
                        }
                        k += 1;
                    }
                    if all_return && config.is_rule_enabled("no-else-return") {
                        let n3 = t.child_count(i);
                        let mut k: usize = 0;
                        while k < n3
                            invariant
                                0 <= k <= n3,
                                t.wf(),
                                i < t.nodes@.len(),
                                n3 == t.nodes@[i as int].children@.len(),
                                ctx.lines == old(ctx).lines,
                                ctx.file_path == old(ctx).file_path,
                                ctx.suppressions == old(ctx).suppressions,
                            decreases n3 - k,
                        {
                            let c = t.child(i, k);
                            if t.kind_is(c, "else_clause") {
                                let severity = config.get_rule_severity(
                                    "no-else-return",
                                    Severity::Warning,
                                );
                                ctx.report_node(
                                    t,
                                    c,
                                    "no-else-return",
                                    severity,
                                    "Unnecessary 'else' after 'return'".to_owned(),
                                );
                            }
                            k += 1;
                        }
                    }
                }
            }
        }
        i += 1;
    }
}

/// The style-guide order of class members, as the order rule sees one
/// member: a coarser classification than the reorder pass uses.
pub fn order_rank_of(t: &SynTree, c: usize) -> (r: Option<usize>)
    requires
        t.wf(),
        c < t.nodes@.len(),
{
    if t.kind_is(c, "annotation") {
        match crate::format::reorder::get_annotation_name(t, c) {
            Some(nm) => {
                if text::str_eq(nm.as_str(), "tool") {
                    Some(0)
                } else if crate::format::reorder::is_export_annotation(nm.as_str()) {
                    Some(8)
                } else if text::str_eq(nm.as_str(), "onready") {
                    Some(10)
                } else {
                    None
                }
            },
            None => None,
        }
    } else if t.kind_is(c, "class_name_statement") {
        Some(1)
    } else if t.kind_is(c, "extends_statement") {
        Some(2)
    } else if t.kind_is(c, "signal_statement") {
        Some(4)
    } else if t.kind_is(c, "enum_definition") {
        Some(5)
    } else if t.kind_is(c, "const_statement") {
        Some(6)
    } else if t.kind_is(c, "variable_statement") {
        let mods = crate::format::reorder::get_node_modifiers(t, c);
        let m = mods.len();
        let mut k: usize = 0;
        let mut rank: usize = 9;
        while k < m
            invariant
                0 <= k <= m,
                m == mods@.len(),
            decreases m - k,
        {
            if text::str_eq(mods[k].as_str(), "onready") {
                rank = 10;
            } else if crate::format::reorder::is_export_annotation(mods[k].as_str()) && rank == 9 {
                rank = 8;
            } else if text::str_eq(mods[k].as_str(), "static") && rank == 9 {
                rank = 7;
            }
            k += 1;
        }
        Some(rank)
    } else if t.kind_is(c, "function_definition") {
        match crate::format::expressions::get_field_child(t, c, "name") {
            Some(nn) => {
                let name = t.text(nn);
                if is_order_virtual(name) {
                    Some(11)
                } else {
                    Some(12)
                }
            },
            None => Some(12),
        }
    } else if t.kind_is(c, "class_definition") {
        Some(13)
    } else if t.kind_is(c, "comment") {
        if text::str_starts_with(t.text(c), "##") {
            Some(3)
        } else {
            None
        }
    } else {
        None
    }
}

/// The names the order rule treats as engine-virtual methods.
fn is_order_virtual(name: &str) -> bool {
    text::str_eq(name, "_init") || text::str_eq(name, "_ready") || text::str_eq(name, "_process")
        || text::str_eq(name, "_physics_process") || text::str_eq(name, "_enter_tree")
        || text::str_eq(name, "_exit_tree") || text::str_eq(name, "_input") || text::str_eq(
        name,
        "_unhandled_input",
    ) || text::str_eq(name, "_notification") || text::str_eq(name, "_draw") || text::str_eq(
        name,
        "_gui_input",
    )
}

/// The name the order rule prints for a rank.
fn order_rank_name(rank: usize) -> &'static str {
    if rank == 0 {
        "@tool"
    } else if rank == 1 {
        "class_name"
    } else if rank == 2 {
        "extends"
    } else if rank == 3 {
        "doc comment"
    } else if rank == 4 {
        "signal"
    } else if rank == 5 {
        "enum"
    } else if rank == 6 {
        "const"
    } else if rank == 7 {
        "static var"
    } else if rank == 8 {
        "@export var"
    } else if rank == 9 {
        "var"
    } else if rank == 10 {
        "@onready var"
    } else if rank == 11 {
        "virtual method"
    } else if rank == 12 {
        "method"
    } else {
        "inner class"
    }
}

/// Class members should follow the style guide's order; checked for the
/// file scope and recursively for each inner class body.
fn check_definitions_order(t: &SynTree, scope: usize, ctx: &mut LintContext, config: &Config)
    requires
        t.wf(),
        scope < t.nodes@.len(),
    ensures
        final(ctx).lines == old(ctx).lines,
        final(ctx).file_path == old(ctx).file_path,
        final(ctx).suppressions == old(ctx).suppressions,
    decreases t.nodes@.len() - scope,
{
    let severity = config.get_rule_severity("class-definitions-order", Severity::Warning);
    let n = t.child_count(scope);
    let mut last: Option<usize> = None;
    let mut k: usize = 0;
    while k < n
        invariant
            0 <= k <= n,
            t.wf(),
            scope < t.nodes@.len(),
            n == t.nodes@[scope as int].children@.len(),
            ctx.lines == old(ctx).lines,
            ctx.file_path == old(ctx).file_path,
            ctx.suppressions == old(ctx).suppressions,
        decreases n - k,
    {
        let c = t.child(scope, k);
        if let Some(rank) = order_rank_of(t, c) {
            if let Some(prev) = last {
                if rank < prev {
                    let mut msg = order_rank_name(rank).to_owned();
                    msg.append(" should come before ");
                    msg.append(order_rank_name(prev));
                    let d = Diagnostic::new(
                        "class-definitions-order".to_owned(),
                        severity,
                        msg,
                    ).with_location(t.start_line(c), {
                        proof {
                            assert(crate::tree::node_wf(t.nodes@, c as int));
                        }
                        t.nodes[c].start_col + 1
                    });
                    ctx.report(d);
                }
            }
            last = Some(rank);
        }
        if t.kind_is(c, "class_definition") {
            if let Some(b) = crate::format::expressions::get_field_child(t, c, "body") {
                check_definitions_order(t, b, ctx, config);
            }
        }
        k += 1;
    }
}

/// Run every rule over one file: parse it, collect diagnostics, and hand
/// them back; a parse failure is the only error.
pub fn run_linter(source: &str, file_path: &str, config: &Config) -> (r: Result<
    Vec<Diagnostic>,
    String,
>)
    ensures
        crate::parser::parses(source@) <==> r is Ok,
{
    let t = match crate::parser::parse(source) {
        Ok(t) => t,
        Err(e) => {
            return Err(e);
        },
    };
    let mut ctx = LintContext::new(source, file_path);
    if config.is_rule_enabled("max-line-length") {
        check_max_line_length(&mut ctx, config, 100, 4);
    }
    if config.is_rule_enabled("trailing-whitespace") {
        check_trailing_whitespace(&mut ctx, config);
    }
    if config.is_rule_enabled("mixed-tabs-spaces") {
        check_mixed_tabs_spaces(&mut ctx, config);
    }
    if config.is_rule_enabled("max-file-lines") {
        check_max_file_lines(&mut ctx, config, 1000);
    }
    if config.is_rule_enabled("duplicated-load") {
        check_duplicated_load(&mut ctx, config);
    }
    check_nodes(&t, &mut ctx, config);
    if config.is_rule_enabled("class-definitions-order") {
        check_definitions_order(&t, 0, &mut ctx, config);
    }
    Ok(ctx.into_diagnostics())
}

} // verus!
