//! Kind-dispatched node rendering: the source file, declarations with
//! bodies, control flow, and the blank-line policy between siblings.
//!
//! Any node whose start line lies in a skip region, a `match` statement, and
//! any unrecognized kind are copied verbatim from the source.

use vstd::prelude::*;

use crate::format::context::{ctx_stable, out_view, FormatContext};
use crate::format::declarations;
use crate::format::declarations::spec_param_list;
use crate::format::expressions::{
    field_child, format_expression, get_field_child, in_rng, ind_of, spec_expr, Excl,
};
use crate::format::options::FormatOptions;
use crate::format::output::FormattedLine;
use crate::format::skip_regions::SkipRegions;
use crate::format::statements;
use crate::format::statements::pushm;
use crate::format::verbatim::{format_verbatim, spec_verbatim};
use crate::text;
use crate::text::spec_trim;
use crate::tree::{arena_wf, SynNode, SynTree};

verus! {

/// A blank, untagged output record.
pub open spec fn blank_rec() -> (Option<int>, Seq<char>) {
    (None, Seq::<char>::empty())
}

/// `n` blank records.
pub open spec fn blanks(n: int) -> Seq<(Option<int>, Seq<char>)>
    decreases n,
{
    if n <= 0 {
        Seq::empty()
    } else {
        blanks(n - 1).push(blank_rec())
    }
}

/// Trailing blank records of an output view.
pub open spec fn tb_view(s: Seq<(Option<int>, Seq<char>)>) -> int
    decreases s.len(),
{
    if s.len() == 0 {
        0
    } else if s.last().1.len() == 0 {
        1 + tb_view(s.drop_last())
    } else {
        0
    }
}

/// The effect of `push_blank_lines(count)` on an output view.
pub open spec fn push_blanks_view(s: Seq<(Option<int>, Seq<char>)>, count: int) -> Seq<
    (Option<int>, Seq<char>),
> {
    let capped = if count >= 2 {
        2int
    } else {
        count
    };
    let t = tb_view(s);
    let add = if capped >= t {
        capped - t
    } else {
        0
    };
    s + blanks(add)
}

proof fn lemma_blanks(n: int)
    ensures
        blanks(n).len() == if n >= 0 { n } else { 0 },
        forall|j: int| 0 <= j < blanks(n).len() ==> blanks(n)[j] == blank_rec(),
    decreases n,
{
    if n > 0 {
        lemma_blanks(n - 1);
    }
}

proof fn lemma_tb_view(s: Seq<FormattedLine>)
    ensures
        tb_view(out_view(s)) == crate::format::output::spec_trailing_blanks(s),
    decreases s.len(),
{
    if s.len() > 0 {
        assert(out_view(s).drop_last() =~= out_view(s.drop_last()));
        lemma_tb_view(s.drop_last());
    }
}

/// Push up to `count` blank lines, collapsing against what is already there.
fn push_blanks(ctx: &mut FormatContext, count: usize)
    ensures
        ctx_stable(*old(ctx), *final(ctx)),
        out_view(final(ctx).output.lines@) == push_blanks_view(
            out_view(old(ctx).output.lines@),
            count as int,
        ),
{
    ctx.output.push_blank_lines(count);
    proof {
        lemma_tb_view(old(ctx).output.lines@);
        crate::format::output::lemma_trailing_blanks_bound(old(ctx).output.lines@);
        let before = out_view(old(ctx).output.lines@);
        let add = crate::format::output::spec_blanks_to_add(old(ctx).output.lines@, count as int);
        lemma_blanks(add);
        assert forall|j: int| 0 <= j < out_view(ctx.output.lines@).len() implies out_view(
            ctx.output.lines@,
        )[j] == (before + blanks(add))[j] by {
            if j < before.len() {
                assert(ctx.output.lines@[j] == old(ctx).output.lines@[j]);
            } else {
                assert(crate::format::output::is_policy_blank(ctx.output.lines@[j]));
            }
        }
        assert(out_view(ctx.output.lines@) =~= push_blanks_view(
            out_view(old(ctx).output.lines@),
            count as int,
        ));
    }
}

/// Consecutive blank source lines immediately before line `b`, scanning the
/// gap after line `ln - 1`; a non-blank line in the gap resets the count.
pub open spec fn cbl(lines: Seq<Seq<char>>, ln: int, b: int, cnt: int) -> int
    decreases b - ln when ln <= b
{
    if ln >= b {
        cnt
    } else {
        let cnt2 = if 1 <= ln <= lines.len() {
            if spec_trim(lines[ln - 1]).len() == 0 {
                cnt + 1
            } else {
                0
            }
        } else {
            cnt
        };
        cbl(lines, ln + 1, b, cnt2)
    }
}

/// Count blank lines between two source positions (1-indexed line numbers):
/// the consecutive empty lines immediately before `next_start`.
pub open spec fn spec_count_blanks(lines: Seq<Seq<char>>, prev_end: int, next_start: int) -> int {
    if next_start <= prev_end + 1 {
        0
    } else {
        cbl(lines, prev_end + 1, next_start, 0)
    }
}

/// Exec mirror of `spec_count_blanks`.
fn count_source_blank_lines(ctx: &FormatContext, prev_end: usize, next_start: usize) -> (r: usize)
    ensures
        r == spec_count_blanks(ctx.lv(), prev_end as int, next_start as int),
{
    if prev_end == usize::MAX || next_start <= prev_end + 1 {
        if prev_end == usize::MAX {
            return 0;
        }
        return 0;
    }
    let mut cnt: usize = 0;
    let mut ln: usize = prev_end + 1;
    while ln < next_start
        invariant
            prev_end + 1 <= ln <= next_start,
            cnt <= ln,
            spec_count_blanks(ctx.lv(), prev_end as int, next_start as int) == cbl(
                ctx.lv(),
                ln as int,
                next_start as int,
                cnt as int,
            ),
        decreases next_start - ln,
    {
        match ctx.get_source_line(ln) {
            Some(line) => {
                let tr = text::trim(line.as_str());
                if tr.as_str().unicode_len() == 0 {
                    cnt += 1;
                } else {
                    cnt = 0;
                }
            },
            None => {},
        }
        ln += 1;
    }
    cnt
}

/// Kinds that are functions or classes, for the two-blank-line rule.
pub open spec fn is_function_or_class(kind: Seq<char>) -> bool {
    kind == "function_definition"@ || kind == "class_definition"@
}

/// The top-level declaration grouping a kind falls in.
pub open spec fn decl_category(kind: Seq<char>) -> int {
    if kind == "class_name_statement"@ || kind == "extends_statement"@ {
        0
    } else if kind == "signal_statement"@ {
        1
    } else if kind == "enum_definition"@ {
        2
    } else if kind == "const_statement"@ {
        3
    } else if kind == "variable_statement"@ {
        4
    } else {
        99
    }
}

/// Minimum blank lines required between two sibling kinds.
pub open spec fn spec_blank_lines_between(
    prev: Seq<char>,
    next: Seq<char>,
    is_top_level: bool,
) -> int {
    if prev == "comment"@ || next == "comment"@ {
        0
    } else if is_function_or_class(prev) || is_function_or_class(next) {
        if is_top_level {
            2
        } else {
            1
        }
    } else if !is_top_level {
        0
    } else if prev == "annotation"@ {
        0
    } else if next == "annotation"@ {
        1
    } else if decl_category(prev) != decl_category(next) {
        1
    } else {
        0
    }
}

/// Determine the minimum blank lines required between two nodes.
pub fn blank_lines_between(prev: &str, next: &str, is_top_level: bool) -> (r: usize)
    ensures
        r == spec_blank_lines_between(prev@, next@, is_top_level),
{
    if text::str_eq(prev, "comment") || text::str_eq(next, "comment") {
        return 0;
    }
    let prev_fc = text::str_eq(prev, "function_definition") || text::str_eq(
        prev,
        "class_definition",
    );
    let next_fc = text::str_eq(next, "function_definition") || text::str_eq(
        next,
        "class_definition",
    );
    if prev_fc || next_fc {
        return if is_top_level {
            2
        } else {
            1
        };
    }
    if !is_top_level {
        return 0;
    }
    if text::str_eq(prev, "annotation") {
        return 0;
    }
    if text::str_eq(next, "annotation") {
        return 1;
    }
    let pc = decl_category_exec(prev);
    let nc = decl_category_exec(next);
    if pc != nc {
        1
    } else {
        0
    }
}

fn decl_category_exec(kind: &str) -> (r: usize)
    ensures
        r == decl_category(kind@),
{
    if text::str_eq(kind, "class_name_statement") || text::str_eq(kind, "extends_statement") {
        0
    } else if text::str_eq(kind, "signal_statement") {
        1
    } else if text::str_eq(kind, "enum_definition") {
        2
    } else if text::str_eq(kind, "const_statement") {
        3
    } else if text::str_eq(kind, "variable_statement") {
        4
    } else {
        99
    }
}

/// Whether a blank line separates two class members.
pub open spec fn spec_needs_blank_line(prev: Seq<char>, next: Seq<char>) -> bool {
    ||| prev == "function_definition"@
    ||| prev == "class_definition"@
    ||| prev == "enum_definition"@
    ||| next == "function_definition"@
    ||| next == "class_definition"@
    ||| next == "enum_definition"@
}

/// Check if we need a blank line between two class members.
pub fn needs_blank_line(prev: &str, next: &str) -> (r: bool)
    ensures
        r == spec_needs_blank_line(prev@, next@),
{
    text::str_eq(prev, "function_definition") || text::str_eq(prev, "class_definition")
        || text::str_eq(prev, "enum_definition") || text::str_eq(next, "function_definition")
        || text::str_eq(next, "class_definition") || text::str_eq(next, "enum_definition")
}

/// Whether the node has a child of exactly this kind.
pub open spec fn has_child_kind(t: Seq<SynNode>, i: int, kind: Seq<char>) -> bool {
    exists|k: int|
        0 <= k < t[i].children@.len() && t[#[trigger] t[i].children@[k] as int].kind@ == kind
}

/// Exec test for `has_child_kind`.
pub(crate) fn check_child_kind(t: &SynTree, i: usize, kind: &str) -> (r: bool)
    requires
        t.wf(),
        i < t.nodes@.len(),
    ensures
        r == has_child_kind(t.nodes@, i as int, kind@),
{
    let ghost cs = t.nodes@[i as int].children@;
    let n = t.child_count(i);
    let mut k: usize = 0;
    while k < n
        invariant
            0 <= k <= n,
            t.wf(),
            i < t.nodes@.len(),
            cs == t.nodes@[i as int].children@,
            n == cs.len(),
            forall|j: int| 0 <= j < k ==> t.nodes@[#[trigger] cs[j] as int].kind@ != kind@,
        decreases n - k,
    {
        let c = t.child(i, k);
        if t.kind_is(c, kind) {
            return true;
        }
        k += 1;
    }
    false
}

/// Kinds that can stand as an `if` condition, for the positional fallback.
pub open spec fn is_condition_kind(kind: Seq<char>) -> bool {
    ||| kind == "binary_operator"@
    ||| kind == "comparison_operator"@
    ||| kind == "boolean_operator"@
    ||| kind == "identifier"@
    ||| kind == "true"@
    ||| kind == "false"@
    ||| kind == "call"@
    ||| kind == "parenthesized_expression"@
}

/// Exec test for `is_condition_kind`.
pub fn is_condition_node(kind: &str) -> (r: bool)
    ensures
        r == is_condition_kind(kind@),
{
    text::str_eq(kind, "binary_operator") || text::str_eq(kind, "comparison_operator")
        || text::str_eq(kind, "boolean_operator") || text::str_eq(kind, "identifier")
        || text::str_eq(kind, "true") || text::str_eq(kind, "false") || text::str_eq(kind, "call")
        || text::str_eq(kind, "parenthesized_expression")
}

/// Render node `i` onto `acc`: skip regions and unknown kinds go verbatim,
/// everything else to its kind's formatter.
pub open spec fn spec_node(
    t: Seq<SynNode>,
    i: int,
    lines: Seq<Seq<char>>,
    opts: FormatOptions,
    skips: Seq<(int, int)>,
    ind: int,
    acc: Seq<(Option<int>, Seq<char>)>,
) -> Seq<(Option<int>, Seq<char>)>
    decreases t.len() - i, 9int, 0int
        when 0 <= i < t.len() && arena_wf(t)
{
    let kind = t[i].kind@;
    if crate::format::skip_regions::in_skip_ranges(skips, t[i].start_row + 1) {
        spec_verbatim(t, i, lines, acc)
    } else if kind == "source"@ || kind == "source_file"@ {
        spec_children(t, i, 0, None, true, lines, opts, skips, ind, acc)
    } else if kind == "class_definition"@ {
        spec_class_def(t, i, lines, opts, skips, ind, acc)
    } else if kind == "function_definition"@ {
        spec_function_def(t, i, lines, opts, skips, ind, acc)
    } else if kind == "variable_statement"@ {
        declarations::spec_variable(t, i, lines, opts, ind, acc)
    } else if kind == "const_statement"@ {
        declarations::spec_const(t, i, lines, opts, ind, acc)
    } else if kind == "signal_statement"@ {
        declarations::spec_signal(t, i, opts, ind, acc)
    } else if kind == "enum_definition"@ {
        declarations::spec_enum(t, i, opts, ind, acc)
    } else if kind == "extends_statement"@ {
        statements::spec_extends(t, i, opts, ind, acc)
    } else if kind == "class_name_statement"@ {
        statements::spec_class_name(t, i, opts, ind, acc)
    } else if kind == "pass_statement"@ {
        statements::spec_keyword_stmt(t, i, "pass"@, opts, ind, acc)
    } else if kind == "break_statement"@ {
        statements::spec_keyword_stmt(t, i, "break"@, opts, ind, acc)
    } else if kind == "continue_statement"@ {
        statements::spec_keyword_stmt(t, i, "continue"@, opts, ind, acc)
    } else if kind == "return_statement"@ {
        statements::spec_return(t, i, opts, ind, acc)
    } else if kind == "expression_statement"@ {
        statements::spec_expression_stmt(t, i, opts, ind, acc)
    } else if kind == "if_statement"@ {
        spec_if(t, i, lines, opts, skips, ind, acc)
    } else if kind == "for_statement"@ {
        spec_for(t, i, lines, opts, skips, ind, acc)
    } else if kind == "while_statement"@ {
        spec_while(t, i, lines, opts, skips, ind, acc)
    } else if kind == "match_statement"@ {
        spec_verbatim(t, i, lines, acc)
    } else if kind == "annotation"@ {
        statements::spec_annotation(t, i, opts, ind, acc)
    } else if kind == "comment"@ {
        acc
    } else {
        spec_verbatim(t, i, lines, acc)
    }
}

/// Iterate the children of node `i` from position `k` on, inserting the
/// blank lines the policy asks for between consecutive children.  `prev`
/// carries the previous child's kind and 1-indexed end line; `top` caps the
/// blanks at two (file scope) or one (block scope).
pub open spec fn spec_children(
    t: Seq<SynNode>,
    i: int,
    k: int,
    prev: Option<(Seq<char>, int)>,
    top: bool,
    lines: Seq<Seq<char>>,
    opts: FormatOptions,
    skips: Seq<(int, int)>,
    ind: int,
    acc: Seq<(Option<int>, Seq<char>)>,
) -> Seq<(Option<int>, Seq<char>)>
    decreases t.len() - i, 7int, t[i].children@.len() - k
        when 0 <= i < t.len() && arena_wf(t) && 0 <= k
{
    let cs = t[i].children@;
    if k >= cs.len() || !crate::format::expressions::node_ok(t, i) {
        acc
    } else {
        let c = cs[k] as int;
        let acc1 = match prev {
            Some(pv) => {
                let sb = spec_count_blanks(lines, pv.1, t[c].start_row + 1);
                let rb = spec_blank_lines_between(pv.0, t[c].kind@, top);
                let want = if sb >= rb {
                    sb
                } else {
                    rb
                };
                let cap: int = if top {
                    2
                } else {
                    1
                };
                push_blanks_view(
                    acc,
                    if want >= cap {
                        cap
                    } else {
                        want
                    },
                )
            },
            None => acc,
        };
        let acc2 = spec_node(t, c, lines, opts, skips, ind, acc1);
        spec_children(
            t,
            i,
            k + 1,
            Some((t[c].kind@, t[c].end_row + 1)),
            top,
            lines,
            opts,
            skips,
            ind,
            acc2,
        )
    }
}

/// Lines of a class definition: header plus its reindented body.
pub open spec fn spec_class_def(
    t: Seq<SynNode>,
    i: int,
    lines: Seq<Seq<char>>,
    opts: FormatOptions,
    skips: Seq<(int, int)>,
    ind: int,
    acc: Seq<(Option<int>, Seq<char>)>,
) -> Seq<(Option<int>, Seq<char>)>
    decreases t.len() - i, 8int, 0int
        when 0 <= i < t.len() && arena_wf(t)
{
    let ln = t[i].start_row + 1;
    let indstr = ind_of(opts, ind);
    let nm = match field_child(t, i, "name"@) {
        Some(c) => t[c].text@,
        None => "_"@,
    };
    let ext = match field_child(t, i, "extends"@) {
        Some(c) => " extends "@ + t[c].text@,
        None => Seq::empty(),
    };
    let acc1 = pushm(acc, ln as int, indstr + "class "@ + nm + ext + ":"@);
    match field_child(t, i, "body"@) {
        Some(b) => if in_rng(t, i, b) {
            spec_class_body(t, b, lines, opts, skips, ind + 1, acc1)
        } else {
            acc1
        },
        None => acc1,
    }
}

/// Class body: members in order, one blank line around functions, classes
/// and enums.
pub open spec fn spec_class_body(
    t: Seq<SynNode>,
    b: int,
    lines: Seq<Seq<char>>,
    opts: FormatOptions,
    skips: Seq<(int, int)>,
    ind: int,
    acc: Seq<(Option<int>, Seq<char>)>,
) -> Seq<(Option<int>, Seq<char>)>
    decreases t.len() - b, 8int, 2int
        when 0 <= b < t.len() && arena_wf(t)
{
    spec_class_children(t, b, 0, None, lines, opts, skips, ind, acc)
}

pub open spec fn spec_class_children(
    t: Seq<SynNode>,
    b: int,
    k: int,
    prev: Option<Seq<char>>,
    lines: Seq<Seq<char>>,
    opts: FormatOptions,
    skips: Seq<(int, int)>,
    ind: int,
    acc: Seq<(Option<int>, Seq<char>)>,
) -> Seq<(Option<int>, Seq<char>)>
    decreases t.len() - b, 7int, t[b].children@.len() - k
        when 0 <= b < t.len() && arena_wf(t) && 0 <= k
{
    let cs = t[b].children@;
    if k >= cs.len() || !crate::format::expressions::node_ok(t, b) {
        acc
    } else {
        let c = cs[k] as int;
        let acc1 = match prev {
            Some(pk) => if spec_needs_blank_line(pk, t[c].kind@) {
                push_blanks_view(acc, 1)
            } else {
                acc
            },
            None => acc,
        };
        let acc2 = spec_node(t, c, lines, opts, skips, ind, acc1);
        spec_class_children(t, b, k + 1, Some(t[c].kind@), lines, opts, skips, ind, acc2)
    }
}

/// Lines of a function definition: signature plus its body; an empty body
/// becomes a lone `pass`.
pub open spec fn spec_function_def(
    t: Seq<SynNode>,
    i: int,
    lines: Seq<Seq<char>>,
    opts: FormatOptions,
    skips: Seq<(int, int)>,
    ind: int,
    acc: Seq<(Option<int>, Seq<char>)>,
) -> Seq<(Option<int>, Seq<char>)>
    decreases t.len() - i, 8int, 0int
        when 0 <= i < t.len() && arena_wf(t)
{
    let ln = t[i].start_row + 1;
    let indstr = ind_of(opts, ind);
    let is_static = has_child_kind(t, i, "static_keyword"@);
    let nm = match field_child(t, i, "name"@) {
        Some(c) => t[c].text@,
        None => "_"@,
    };
    let params = match field_child(t, i, "parameters"@) {
        Some(pn) => if in_rng(t, i, pn) {
            spec_param_list(t, pn, Excl::NotFuncParam, opts, ind)
        } else {
            Seq::empty()
        },
        None => Seq::empty(),
    };
    let ret = match field_child(t, i, "return_type"@) {
        Some(c) => " -> "@ + t[c].text@,
        None => Seq::empty(),
    };
    let st = if is_static {
        "static "@
    } else {
        Seq::<char>::empty()
    };
    let acc1 = pushm(acc, ln as int, indstr + st + "func "@ + nm + "("@ + params + ")"@ + ret + ":"@);
    match field_child(t, i, "body"@) {
        Some(b) => if in_rng(t, i, b) {
            spec_function_body(t, b, lines, opts, skips, ind + 1, acc1)
        } else {
            acc1
        },
        None => acc1,
    }
}

/// Function body; `pass` when it has no children.
pub open spec fn spec_function_body(
    t: Seq<SynNode>,
    b: int,
    lines: Seq<Seq<char>>,
    opts: FormatOptions,
    skips: Seq<(int, int)>,
    ind: int,
    acc: Seq<(Option<int>, Seq<char>)>,
) -> Seq<(Option<int>, Seq<char>)>
    decreases t.len() - b, 8int, 3int
        when 0 <= b < t.len() && arena_wf(t)
{
    if t[b].children@.len() == 0 {
        acc.push((None, ind_of(opts, ind) + "pass"@))
    } else {
        spec_block(t, b, lines, opts, skips, ind, acc)
    }
}

/// A block of statements (function body, if body, etc.): children in order,
/// at most one blank line between them.
pub open spec fn spec_block(
    t: Seq<SynNode>,
    b: int,
    lines: Seq<Seq<char>>,
    opts: FormatOptions,
    skips: Seq<(int, int)>,
    ind: int,
    acc: Seq<(Option<int>, Seq<char>)>,
) -> Seq<(Option<int>, Seq<char>)>
    decreases t.len() - b, 8int, 2int
        when 0 <= b < t.len() && arena_wf(t)
{
    spec_children(t, b, 0, None, false, lines, opts, skips, ind, acc)
}

/// Lines of an `if` statement; a single-line `if` is copied verbatim.
pub open spec fn spec_if(
    t: Seq<SynNode>,
    i: int,
    lines: Seq<Seq<char>>,
    opts: FormatOptions,
    skips: Seq<(int, int)>,
    ind: int,
    acc: Seq<(Option<int>, Seq<char>)>,
) -> Seq<(Option<int>, Seq<char>)>
    decreases t.len() - i, 8int, 1int
        when 0 <= i < t.len() && arena_wf(t)
{
    let ln = t[i].start_row + 1;
    if t[i].start_row == t[i].end_row {
        if 1 <= ln <= lines.len() {
            pushm(acc, ln as int, lines[ln - 1])
        } else {
            acc
        }
    } else {
        spec_if_multiline(t, i, lines, opts, skips, ind, acc)
    }
}

/// The multi-line rendering of an `if`: header, body, clauses.
pub open spec fn spec_if_multiline(
    t: Seq<SynNode>,
    i: int,
    lines: Seq<Seq<char>>,
    opts: FormatOptions,
    skips: Seq<(int, int)>,
    ind: int,
    acc: Seq<(Option<int>, Seq<char>)>,
) -> Seq<(Option<int>, Seq<char>)>
    decreases t.len() - i, 8int, 0int
        when 0 <= i < t.len() && arena_wf(t)
{
    let ln = t[i].start_row + 1;
    let indstr = ind_of(opts, ind);
    let cond = match field_child(t, i, "condition"@) {
        Some(c) => if in_rng(t, i, c) {
            spec_expr(t, c, opts, ind)
        } else {
            "true"@
        },
        None => "true"@,
    };
    let acc1 = pushm(acc, ln as int, indstr + "if "@ + cond + ":"@);
    let body = match field_child(t, i, "consequence"@) {
        Some(b) => Some(b),
        None => field_child(t, i, "body"@),
    };
    let acc2 = match body {
        Some(b) => if in_rng(t, i, b) {
            spec_block(t, b, lines, opts, skips, ind + 1, acc1)
        } else {
            acc1
        },
        None => spec_if_fallback(t, i, 0, lines, opts, skips, ind, acc1),
    };
    spec_clauses(t, i, 0, lines, opts, skips, ind, acc2)
}

/// Fallback body of an `if` without a body field: every child that is not
/// the keyword, a clause, a condition shape, or the colon, rendered one
/// step deeper.
pub open spec fn spec_if_fallback(
    t: Seq<SynNode>,
    i: int,
    k: int,
    lines: Seq<Seq<char>>,
    opts: FormatOptions,
    skips: Seq<(int, int)>,
    ind: int,
    acc: Seq<(Option<int>, Seq<char>)>,
) -> Seq<(Option<int>, Seq<char>)>
    decreases t.len() - i, 7int, t[i].children@.len() - k
        when 0 <= i < t.len() && arena_wf(t) && 0 <= k
{
    let cs = t[i].children@;
    if k >= cs.len() || !crate::format::expressions::node_ok(t, i) {
        acc
    } else {
        let c = cs[k] as int;
        let kind = t[c].kind@;
        let acc1 = if kind != "if"@ && kind != "elif_clause"@ && kind != "else_clause"@
            && !is_condition_kind(kind) && kind != ":"@ {
            spec_node(t, c, lines, opts, skips, ind + 1, acc)
        } else {
            acc
        };
        spec_if_fallback(t, i, k + 1, lines, opts, skips, ind, acc1)
    }
}

/// The `elif` and `else` clauses of an `if`, in order.
pub open spec fn spec_clauses(
    t: Seq<SynNode>,
    i: int,
    k: int,
    lines: Seq<Seq<char>>,
    opts: FormatOptions,
    skips: Seq<(int, int)>,
    ind: int,
    acc: Seq<(Option<int>, Seq<char>)>,
) -> Seq<(Option<int>, Seq<char>)>
    decreases t.len() - i, 7int, t[i].children@.len() - k
        when 0 <= i < t.len() && arena_wf(t) && 0 <= k
{
    let cs = t[i].children@;
    if k >= cs.len() || !crate::format::expressions::node_ok(t, i) {
        acc
    } else {
        let c = cs[k] as int;
        let kind = t[c].kind@;
        let acc1 = if kind == "elif_clause"@ {
            spec_elif(t, c, lines, opts, skips, ind, acc)
        } else if kind == "else_clause"@ {
            spec_else(t, c, lines, opts, skips, ind, acc)
        } else {
            acc
        };
        spec_clauses(t, i, k + 1, lines, opts, skips, ind, acc1)
    }
}

/// Lines of an `elif` clause.
pub open spec fn spec_elif(
    t: Seq<SynNode>,
    i: int,
    lines: Seq<Seq<char>>,
    opts: FormatOptions,
    skips: Seq<(int, int)>,
    ind: int,
    acc: Seq<(Option<int>, Seq<char>)>,
) -> Seq<(Option<int>, Seq<char>)>
    decreases t.len() - i, 6int, 0int
        when 0 <= i < t.len() && arena_wf(t)
{
    let ln = t[i].start_row + 1;
    let indstr = ind_of(opts, ind);
    let cond = match field_child(t, i, "condition"@) {
        Some(c) => if in_rng(t, i, c) {
            spec_expr(t, c, opts, ind)
        } else {
            "true"@
        },
        None => "true"@,
    };
    let acc1 = pushm(acc, ln as int, indstr + "elif "@ + cond + ":"@);
    let body = match field_child(t, i, "consequence"@) {
        Some(b) => Some(b),
        None => field_child(t, i, "body"@),
    };
    match body {
        Some(b) => if in_rng(t, i, b) {
            spec_block(t, b, lines, opts, skips, ind + 1, acc1)
        } else {
            acc1
        },
        None => spec_elif_fallback(t, i, 0, lines, opts, skips, ind, acc1),
    }
}

/// Fallback body of an `elif` without a body field.
pub open spec fn spec_elif_fallback(
    t: Seq<SynNode>,
    i: int,
    k: int,
    lines: Seq<Seq<char>>,
    opts: FormatOptions,
    skips: Seq<(int, int)>,
    ind: int,
    acc: Seq<(Option<int>, Seq<char>)>,
) -> Seq<(Option<int>, Seq<char>)>
    decreases t.len() - i, 5int, t[i].children@.len() - k
        when 0 <= i < t.len() && arena_wf(t) && 0 <= k
{
    let cs = t[i].children@;
    if k >= cs.len() || !crate::format::expressions::node_ok(t, i) {
        acc
    } else {
        let c = cs[k] as int;
        let kind = t[c].kind@;
        let acc1 = if kind != "elif"@ && !is_condition_kind(kind) && kind != ":"@ {
            spec_node(t, c, lines, opts, skips, ind + 1, acc)
        } else {
            acc
        };
        spec_elif_fallback(t, i, k + 1, lines, opts, skips, ind, acc1)
    }
}

/// Lines of an `else` clause: the header, then its body — the `body` field
/// when present, else the first child that is not the keyword.
pub open spec fn spec_else(
    t: Seq<SynNode>,
    i: int,
    lines: Seq<Seq<char>>,
    opts: FormatOptions,
    skips: Seq<(int, int)>,
    ind: int,
    acc: Seq<(Option<int>, Seq<char>)>,
) -> Seq<(Option<int>, Seq<char>)>
    decreases t.len() - i, 6int, 0int
        when 0 <= i < t.len() && arena_wf(t)
{
    let ln = t[i].start_row + 1;
    let indstr = ind_of(opts, ind);
    let acc1 = pushm(acc, ln as int, indstr + "else:"@);
    match field_child(t, i, "body"@) {
        Some(b) => if in_rng(t, i, b) {
            spec_block(t, b, lines, opts, skips, ind + 1, acc1)
        } else {
            acc1
        },
        None => match crate::format::expressions::first_child_where(
            t,
            i,
            crate::format::expressions::ChildSel::NotElseKw,
        ) {
            Some(c) => if in_rng(t, i, c) {
                spec_block(t, c, lines, opts, skips, ind + 1, acc1)
            } else {
                acc1
            },
            None => acc1,
        },
    }
}

/// Lines of a `for` statement.
pub open spec fn spec_for(
    t: Seq<SynNode>,
    i: int,
    lines: Seq<Seq<char>>,
    opts: FormatOptions,
    skips: Seq<(int, int)>,
    ind: int,
    acc: Seq<(Option<int>, Seq<char>)>,
) -> Seq<(Option<int>, Seq<char>)>
    decreases t.len() - i, 8int, 0int
        when 0 <= i < t.len() && arena_wf(t)
{
    let ln = t[i].start_row + 1;
    let indstr = ind_of(opts, ind);
    let var = match field_child(t, i, "variable"@) {
        Some(c) => t[c].text@,
        None => match field_child(t, i, "left"@) {
            Some(c) => t[c].text@,
            None => "_"@,
        },
    };
    let iter = match field_child(t, i, "value"@) {
        Some(c) => if in_rng(t, i, c) {
            spec_expr(t, c, opts, ind)
        } else {
            "[]"@
        },
        None => match field_child(t, i, "right"@) {
            Some(c) => if in_rng(t, i, c) {
                spec_expr(t, c, opts, ind)
            } else {
                "[]"@
            },
            None => "[]"@,
        },
    };
    let acc1 = pushm(acc, ln as int, indstr + "for "@ + var + " in "@ + iter + ":"@);
    match field_child(t, i, "body"@) {
        Some(b) => if in_rng(t, i, b) {
            spec_block(t, b, lines, opts, skips, ind + 1, acc1)
        } else {
            acc1
        },
        None => acc1,
    }
}

/// Lines of a `while` statement.
pub open spec fn spec_while(
    t: Seq<SynNode>,
    i: int,
    lines: Seq<Seq<char>>,
    opts: FormatOptions,
    skips: Seq<(int, int)>,
    ind: int,
    acc: Seq<(Option<int>, Seq<char>)>,
) -> Seq<(Option<int>, Seq<char>)>
    decreases t.len() - i, 8int, 0int
        when 0 <= i < t.len() && arena_wf(t)
{
    let ln = t[i].start_row + 1;
    let indstr = ind_of(opts, ind);
    let cond = match field_child(t, i, "condition"@) {
        Some(c) => if in_rng(t, i, c) {
            spec_expr(t, c, opts, ind)
        } else {
            "true"@
        },
        None => "true"@,
    };
    let acc1 = pushm(acc, ln as int, indstr + "while "@ + cond + ":"@);
    match field_child(t, i, "body"@) {
        Some(b) => if in_rng(t, i, b) {
            spec_block(t, b, lines, opts, skips, ind + 1, acc1)
        } else {
            acc1
        },
        None => acc1,
    }
}

/// Format a node and its children.
pub fn format_node(t: &SynTree, i: usize, ctx: &mut FormatContext)
    requires
        t.wf(),
        i < t.nodes@.len(),
        old(ctx).indent_level + t.nodes@.len() - i <= usize::MAX,
    ensures
        ctx_stable(*old(ctx), *final(ctx)),
        out_view(final(ctx).output.lines@) == spec_node(
            t.nodes@,
            i as int,
            old(ctx).lv(),
            old(ctx).options,
            old(ctx).skip_regions.view_ranges(),
            old(ctx).indent_level as int,
            out_view(old(ctx).output.lines@),
        ),
    decreases t.nodes@.len() - i, 9int, 0int,
{
    let start_line = t.start_line(i);
    if ctx.is_skipped(start_line) {
        format_verbatim(t, i, ctx);
        return ;
    }
    if t.kind_is(i, "source") || t.kind_is(i, "source_file") {
        format_children(t, i, true, ctx);
    } else if t.kind_is(i, "class_definition") {
        format_class_definition(t, i, ctx);
    } else if t.kind_is(i, "function_definition") {
        format_function_definition(t, i, ctx);
    } else if t.kind_is(i, "variable_statement") {
        declarations::format_variable_statement(t, i, ctx);
    } else if t.kind_is(i, "const_statement") {
        declarations::format_const_statement(t, i, ctx);
    } else if t.kind_is(i, "signal_statement") {
        declarations::format_signal_statement(t, i, ctx);
    } else if t.kind_is(i, "enum_definition") {
        declarations::format_enum_definition(t, i, ctx);
    } else if t.kind_is(i, "extends_statement") {
        statements::format_extends_statement(t, i, ctx);
    } else if t.kind_is(i, "class_name_statement") {
        statements::format_class_name_statement(t, i, ctx);
    } else if t.kind_is(i, "pass_statement") {
        statements::format_pass_statement(t, i, ctx);
    } else if t.kind_is(i, "break_statement") {
        statements::format_break_statement(t, i, ctx);
    } else if t.kind_is(i, "continue_statement") {
        statements::format_continue_statement(t, i, ctx);
    } else if t.kind_is(i, "return_statement") {
        statements::format_return_statement(t, i, ctx);
    } else if t.kind_is(i, "expression_statement") {
        statements::format_expression_statement(t, i, ctx);
    } else if t.kind_is(i, "if_statement") {
        format_if_statement(t, i, ctx);
    } else if t.kind_is(i, "for_statement") {
        format_for_statement(t, i, ctx);
    } else if t.kind_is(i, "while_statement") {
        format_while_statement(t, i, ctx);
    } else if t.kind_is(i, "match_statement") {
        format_match_statement(t, i, ctx);
    } else if t.kind_is(i, "annotation") {
        statements::format_annotation(t, i, ctx);
    } else if t.kind_is(i, "comment") {
        // handled by comment injection
    } else {
        format_verbatim(t, i, ctx);
    }
}

/// Iterate a scope's children with the blank-line policy between them.
fn format_children(t: &SynTree, i: usize, top: bool, ctx: &mut FormatContext)
    requires
        t.wf(),
        i < t.nodes@.len(),
        old(ctx).indent_level + t.nodes@.len() - i <= usize::MAX,
    ensures
        ctx_stable(*old(ctx), *final(ctx)),
        out_view(final(ctx).output.lines@) == spec_children(
            t.nodes@,
            i as int,
            0,
            None,
            top,
            old(ctx).lv(),
            old(ctx).options,
            old(ctx).skip_regions.view_ranges(),
            old(ctx).indent_level as int,
            out_view(old(ctx).output.lines@),
        ),
    decreases t.nodes@.len() - i, 7int, 0int,
{
    proof {
        assert(crate::tree::node_wf(t.nodes@, i as int));
        assert(crate::format::expressions::node_ok(t.nodes@, i as int));
    }
    let n = t.child_count(i);
    let mut k: usize = 0;
    let mut prev: Option<(String, usize)> = None;
    while k < n
        invariant
            0 <= k <= n,
            t.wf(),
            i < t.nodes@.len(),
            n == t.nodes@[i as int].children@.len(),
            old(ctx).indent_level + t.nodes@.len() - i <= usize::MAX,
            ctx_stable(*old(ctx), *ctx),
            spec_children(
                t.nodes@,
                i as int,
                0,
                None,
                top,
                old(ctx).lv(),
                old(ctx).options,
                old(ctx).skip_regions.view_ranges(),
                old(ctx).indent_level as int,
                out_view(old(ctx).output.lines@),
            ) == spec_children(
                t.nodes@,
                i as int,
                k as int,
                match prev {
                    Some(pv) => Some((pv.0@, pv.1 as int)),
                    None => None,
                },
                top,
                old(ctx).lv(),
                old(ctx).options,
                old(ctx).skip_regions.view_ranges(),
                old(ctx).indent_level as int,
                out_view(ctx.output.lines@),
            ),
        decreases n - k,
    {
        proof {
            assert(crate::tree::node_wf(t.nodes@, i as int));
            assert(crate::format::expressions::node_ok(t.nodes@, i as int));
        }
        let c = t.child(i, k);
        match &prev {
            Some(pv) => {
                let child_start = t.start_line(c);
                let sb = count_source_blank_lines(ctx, pv.1, child_start);
                let rb = blank_lines_between(pv.0.as_str(), t.kind(c), top);
                let want = if sb >= rb {
                    sb
                } else {
                    rb
                };
                let cap: usize = if top {
                    2
                } else {
                    1
                };
                let amount = if want >= cap {
                    cap
                } else {
                    want
                };
                push_blanks(ctx, amount);
            },
            None => {},
        }
        format_node(t, c, ctx);
        let pk = t.kind(c).to_owned();
        let pe = t.end_line(c);
        prev = Some((pk, pe));
        k += 1;
    }
}

/// Format class definition.
pub fn format_class_definition(t: &SynTree, i: usize, ctx: &mut FormatContext)
    requires
        t.wf(),
        i < t.nodes@.len(),
        old(ctx).indent_level + t.nodes@.len() - i <= usize::MAX,
    ensures
        ctx_stable(*old(ctx), *final(ctx)),
        out_view(final(ctx).output.lines@) == spec_class_def(
            t.nodes@,
            i as int,
            old(ctx).lv(),
            old(ctx).options,
            old(ctx).skip_regions.view_ranges(),
            old(ctx).indent_level as int,
            out_view(old(ctx).output.lines@),
        ),
    decreases t.nodes@.len() - i, 8int, 0int,
{
    let line = t.start_line(i);
    let indent = ctx.indent_str();
    let nm: String = match get_field_child(t, i, "name") {
        Some(c) => t.text(c).to_owned(),
        None => "_".to_owned(),
    };
    let ext: String = match get_field_child(t, i, "extends") {
        Some(c) => " extends ".to_owned().concat(t.text(c)),
        None => String::new(),
    };
    let content = indent.concat("class ").concat(nm.as_str()).concat(ext.as_str()).concat(":");
    let ghost before = out_view(ctx.output.lines@);
    ctx.output.push_mapped(content, line);
    proof {
        assert(out_view(ctx.output.lines@) =~= pushm(
            before,
            t.nodes@[i as int].start_row + 1,
            out_view(ctx.output.lines@).last().1,
        ));
    }
    if let Some(b) = get_field_child(t, i, "body") {
        ctx.indent();
        format_class_children(t, b, ctx);
        ctx.dedent();
    }
}

/// Format a class body with blank lines between member groups.
fn format_class_children(t: &SynTree, b: usize, ctx: &mut FormatContext)
    requires
        t.wf(),
        b < t.nodes@.len(),
        old(ctx).indent_level + t.nodes@.len() - b <= usize::MAX,
    ensures
        ctx_stable(*old(ctx), *final(ctx)),
        out_view(final(ctx).output.lines@) == spec_class_body(
            t.nodes@,
            b as int,
            old(ctx).lv(),
            old(ctx).options,
            old(ctx).skip_regions.view_ranges(),
            old(ctx).indent_level as int,
            out_view(old(ctx).output.lines@),
        ),
    decreases t.nodes@.len() - b, 8int, 2int,
{
    proof {
        assert(crate::tree::node_wf(t.nodes@, b as int));
        assert(crate::format::expressions::node_ok(t.nodes@, b as int));
    }
    let n = t.child_count(b);
    let mut k: usize = 0;
    let mut prev: Option<String> = None;
    while k < n
        invariant
            0 <= k <= n,
            t.wf(),
            b < t.nodes@.len(),
            n == t.nodes@[b as int].children@.len(),
            old(ctx).indent_level + t.nodes@.len() - b <= usize::MAX,
            ctx_stable(*old(ctx), *ctx),
            spec_class_children(
                t.nodes@,
                b as int,
                0,
                None,
                old(ctx).lv(),
                old(ctx).options,
                old(ctx).skip_regions.view_ranges(),
                old(ctx).indent_level as int,
                out_view(old(ctx).output.lines@),
            ) == spec_class_children(
                t.nodes@,
                b as int,
                k as int,
                match prev {
                    Some(pv) => Some(pv@),
                    None => None,
                },
                old(ctx).lv(),
                old(ctx).options,
                old(ctx).skip_regions.view_ranges(),
                old(ctx).indent_level as int,
                out_view(ctx.output.lines@),
            ),
        decreases n - k,
    {
        proof {
            assert(crate::tree::node_wf(t.nodes@, b as int));
            assert(crate::format::expressions::node_ok(t.nodes@, b as int));
        }
        let c = t.child(b, k);
        match &prev {
            Some(pv) => {
                if needs_blank_line(pv.as_str(), t.kind(c)) {
                    push_blanks(ctx, 1);
                }
            },
            None => {},
        }
        format_node(t, c, ctx);
        let pk = t.kind(c).to_owned();
        prev = Some(pk);
        k += 1;
    }
}

/// Format function definition.
pub fn format_function_definition(t: &SynTree, i: usize, ctx: &mut FormatContext)
    requires
        t.wf(),
        i < t.nodes@.len(),
        old(ctx).indent_level + t.nodes@.len() - i <= usize::MAX,
    ensures
        ctx_stable(*old(ctx), *final(ctx)),
        out_view(final(ctx).output.lines@) == spec_function_def(
            t.nodes@,
            i as int,
            old(ctx).lv(),
            old(ctx).options,
            old(ctx).skip_regions.view_ranges(),
            old(ctx).indent_level as int,
            out_view(old(ctx).output.lines@),
        ),
    decreases t.nodes@.len() - i, 8int, 0int,
{
    let line = t.start_line(i);
    let indent = ctx.indent_str();
    let is_static = check_child_kind(t, i, "static_keyword");
    let nm: String = match get_field_child(t, i, "name") {
        Some(c) => t.text(c).to_owned(),
        None => "_".to_owned(),
    };
    let params: String = match get_field_child(t, i, "parameters") {
        Some(pn) => declarations::format_param_list(
            t,
            pn,
            Excl::NotFuncParam,
            &ctx.options,
            ctx.indent_level,
        ),
        None => String::new(),
    };
    let ret: String = match get_field_child(t, i, "return_type") {
        Some(c) => " -> ".to_owned().concat(t.text(c)),
        None => String::new(),
    };
    let st: &str = if is_static {
        "static "
    } else {
        ""
    };
    proof {
        reveal_strlit("static ");
        reveal_strlit("");
        assert(""@ =~= Seq::<char>::empty());
    }
    let content = indent.concat(st).concat("func ").concat(nm.as_str()).concat("(").concat(
        params.as_str(),
    ).concat(")").concat(ret.as_str()).concat(":");
    let ghost before = out_view(ctx.output.lines@);
    ctx.output.push_mapped(content, line);
    proof {
        assert(out_view(ctx.output.lines@) =~= pushm(
            before,
            t.nodes@[i as int].start_row + 1,
            out_view(ctx.output.lines@).last().1,
        ));
    }
    if let Some(b) = get_field_child(t, i, "body") {
        ctx.indent();
        format_function_body(t, b, ctx);
        ctx.dedent();
    }
}

/// Format function body; an empty one becomes `pass`.
fn format_function_body(t: &SynTree, b: usize, ctx: &mut FormatContext)
    requires
        t.wf(),
        b < t.nodes@.len(),
        old(ctx).indent_level + t.nodes@.len() - b <= usize::MAX,
    ensures
        ctx_stable(*old(ctx), *final(ctx)),
        out_view(final(ctx).output.lines@) == spec_function_body(
            t.nodes@,
            b as int,
            old(ctx).lv(),
            old(ctx).options,
            old(ctx).skip_regions.view_ranges(),
            old(ctx).indent_level as int,
            out_view(old(ctx).output.lines@),
        ),
    decreases t.nodes@.len() - b, 8int, 3int,
{
    if t.child_count(b) == 0 {
        let content = ctx.indent_str().concat("pass");
        let ghost before = out_view(ctx.output.lines@);
        ctx.output.push_line(content);
        proof {
            assert(out_view(ctx.output.lines@) =~= before.push(
                (None, out_view(ctx.output.lines@).last().1),
            ));
        }
        return ;
    }
    format_block(t, b, ctx);
}

/// Format a block of statements (function body, if body, etc.).
pub fn format_block(t: &SynTree, b: usize, ctx: &mut FormatContext)
    requires
        t.wf(),
        b < t.nodes@.len(),
        old(ctx).indent_level + t.nodes@.len() - b <= usize::MAX,
    ensures
        ctx_stable(*old(ctx), *final(ctx)),
        out_view(final(ctx).output.lines@) == spec_block(
            t.nodes@,
            b as int,
            old(ctx).lv(),
            old(ctx).options,
            old(ctx).skip_regions.view_ranges(),
            old(ctx).indent_level as int,
            out_view(old(ctx).output.lines@),
        ),
    decreases t.nodes@.len() - b, 8int, 2int,
{
    format_children(t, b, false, ctx);
}

/// Format if statement; single-line `if`s are preserved verbatim.
pub fn format_if_statement(t: &SynTree, i: usize, ctx: &mut FormatContext)
    requires
        t.wf(),
        i < t.nodes@.len(),
        old(ctx).indent_level + t.nodes@.len() - i <= usize::MAX,
    ensures
        ctx_stable(*old(ctx), *final(ctx)),
        out_view(final(ctx).output.lines@) == spec_if(
            t.nodes@,
            i as int,
            old(ctx).lv(),
            old(ctx).options,
            old(ctx).skip_regions.view_ranges(),
            old(ctx).indent_level as int,
            out_view(old(ctx).output.lines@),
        ),
    decreases t.nodes@.len() - i, 8int, 1int,
{
    proof {
        assert(crate::tree::node_wf(t.nodes@, i as int));
    }
    let line = t.start_line(i);
    if t.nodes[i].start_row == t.nodes[i].end_row {
        let content = match ctx.get_source_line(line) {
            Some(s) => Some(s.clone()),
            None => None,
        };
        let ghost before = out_view(ctx.output.lines@);
        if let Some(content) = content {
            ctx.output.push_mapped(content, line);
            proof {
                assert(out_view(ctx.output.lines@) =~= pushm(
                    before,
                    line as int,
                    old(ctx).lv()[line - 1],
                ));
            }
        }
        return ;
    }
    format_if_multiline(t, i, ctx);
}

/// The multi-line `if` rendering.
#[verifier::rlimit(100)]
fn format_if_multiline(t: &SynTree, i: usize, ctx: &mut FormatContext)
    requires
        t.wf(),
        i < t.nodes@.len(),
        old(ctx).indent_level + t.nodes@.len() - i <= usize::MAX,
    ensures
        ctx_stable(*old(ctx), *final(ctx)),
        out_view(final(ctx).output.lines@) == spec_if_multiline(
            t.nodes@,
            i as int,
            old(ctx).lv(),
            old(ctx).options,
            old(ctx).skip_regions.view_ranges(),
            old(ctx).indent_level as int,
            out_view(old(ctx).output.lines@),
        ),
    decreases t.nodes@.len() - i, 8int, 0int,
{
    let line = t.start_line(i);
    let indent = ctx.indent_str();
    let cond: String = match get_field_child(t, i, "condition") {
        Some(c) => format_expression(t, c, &ctx.options, ctx.indent_level),
        None => "true".to_owned(),
    };
    let content = indent.concat("if ").concat(cond.as_str()).concat(":");
    let ghost before = out_view(ctx.output.lines@);
    ctx.output.push_mapped(content, line);
    proof {
        assert(out_view(ctx.output.lines@) =~= pushm(
            before,
            t.nodes@[i as int].start_row + 1,
            out_view(ctx.output.lines@).last().1,
        ));
    }
    let body = match get_field_child(t, i, "consequence") {
        Some(b) => Some(b),
        None => get_field_child(t, i, "body"),
    };
    match body {
        Some(b) => {
            ctx.indent();
            format_block(t, b, ctx);
            ctx.dedent();
        },
        None => {
            format_if_fallback(t, i, ctx);
        },
    }
    format_clauses(t, i, ctx);
}

/// The `if` body fallback: render non-clause, non-condition children one
/// step deeper.
fn format_if_fallback(t: &SynTree, i: usize, ctx: &mut FormatContext)
    requires
        t.wf(),
        i < t.nodes@.len(),
        old(ctx).indent_level + t.nodes@.len() - i <= usize::MAX,
    ensures
        ctx_stable(*old(ctx), *final(ctx)),
        out_view(final(ctx).output.lines@) == spec_if_fallback(
            t.nodes@,
            i as int,
            0,
            old(ctx).lv(),
            old(ctx).options,
            old(ctx).skip_regions.view_ranges(),
            old(ctx).indent_level as int,
            out_view(old(ctx).output.lines@),
        ),
    decreases t.nodes@.len() - i, 7int, 1int,
{
    proof {
        assert(crate::tree::node_wf(t.nodes@, i as int));
        assert(crate::format::expressions::node_ok(t.nodes@, i as int));
    }
    let n = t.child_count(i);
    let mut k: usize = 0;
    while k < n
        invariant
            0 <= k <= n,
            t.wf(),
            i < t.nodes@.len(),
            n == t.nodes@[i as int].children@.len(),
            old(ctx).indent_level + t.nodes@.len() - i <= usize::MAX,
            ctx_stable(*old(ctx), *ctx),
            spec_if_fallback(
                t.nodes@,
                i as int,
                0,
                old(ctx).lv(),
                old(ctx).options,
                old(ctx).skip_regions.view_ranges(),
                old(ctx).indent_level as int,
                out_view(old(ctx).output.lines@),
            ) == spec_if_fallback(
                t.nodes@,
                i as int,
                k as int,
                old(ctx).lv(),
                old(ctx).options,
                old(ctx).skip_regions.view_ranges(),
                old(ctx).indent_level as int,
                out_view(ctx.output.lines@),
            ),
        decreases n - k,
    {
        proof {
            assert(crate::tree::node_wf(t.nodes@, i as int));
            assert(crate::format::expressions::node_ok(t.nodes@, i as int));
        }
        let c = t.child(i, k);
        let kind_ok = !t.kind_is(c, "if") && !t.kind_is(c, "elif_clause") && !t.kind_is(
            c,
            "else_clause",
        ) && !is_condition_node(t.kind(c)) && !t.kind_is(c, ":");
        if kind_ok {
            ctx.indent();
            format_node(t, c, ctx);
            ctx.dedent();
        }
        k += 1;
    }
}

/// Render the `elif` and `else` clauses of an `if`, in order.
fn format_clauses(t: &SynTree, i: usize, ctx: &mut FormatContext)
    requires
        t.wf(),
        i < t.nodes@.len(),
        old(ctx).indent_level + t.nodes@.len() - i <= usize::MAX,
    ensures
        ctx_stable(*old(ctx), *final(ctx)),
        out_view(final(ctx).output.lines@) == spec_clauses(
            t.nodes@,
            i as int,
            0,
            old(ctx).lv(),
            old(ctx).options,
            old(ctx).skip_regions.view_ranges(),
            old(ctx).indent_level as int,
            out_view(old(ctx).output.lines@),
        ),
    decreases t.nodes@.len() - i, 7int, 2int,
{
    proof {
        assert(crate::tree::node_wf(t.nodes@, i as int));
        assert(crate::format::expressions::node_ok(t.nodes@, i as int));
    }
    let n = t.child_count(i);
    let mut k: usize = 0;
    while k < n
        invariant
            0 <= k <= n,
            t.wf(),
            i < t.nodes@.len(),
            n == t.nodes@[i as int].children@.len(),
            old(ctx).indent_level + t.nodes@.len() - i <= usize::MAX,
            ctx_stable(*old(ctx), *ctx),
            spec_clauses(
                t.nodes@,
                i as int,
                0,
                old(ctx).lv(),
                old(ctx).options,
                old(ctx).skip_regions.view_ranges(),
                old(ctx).indent_level as int,
                out_view(old(ctx).output.lines@),
            ) == spec_clauses(
                t.nodes@,
                i as int,
                k as int,
                old(ctx).lv(),
                old(ctx).options,
                old(ctx).skip_regions.view_ranges(),
                old(ctx).indent_level as int,
                out_view(ctx.output.lines@),
            ),
        decreases n - k,
    {
        proof {
            assert(crate::tree::node_wf(t.nodes@, i as int));
            assert(crate::format::expressions::node_ok(t.nodes@, i as int));
        }
        let c = t.child(i, k);
        if t.kind_is(c, "elif_clause") {
            format_elif_clause(t, c, ctx);
        } else if t.kind_is(c, "else_clause") {
            format_else_clause(t, c, ctx);
        }
        k += 1;
    }
}

/// Format elif clause.
fn format_elif_clause(t: &SynTree, i: usize, ctx: &mut FormatContext)
    requires
        t.wf(),
        i < t.nodes@.len(),
        old(ctx).indent_level + t.nodes@.len() - i <= usize::MAX,
    ensures
        ctx_stable(*old(ctx), *final(ctx)),
        out_view(final(ctx).output.lines@) == spec_elif(
            t.nodes@,
            i as int,
            old(ctx).lv(),
            old(ctx).options,
            old(ctx).skip_regions.view_ranges(),
            old(ctx).indent_level as int,
            out_view(old(ctx).output.lines@),
        ),
    decreases t.nodes@.len() - i, 6int, 0int,
{
    let line = t.start_line(i);
    let indent = ctx.indent_str();
    let cond: String = match get_field_child(t, i, "condition") {
        Some(c) => format_expression(t, c, &ctx.options, ctx.indent_level),
        None => "true".to_owned(),
    };
    let content = indent.concat("elif ").concat(cond.as_str()).concat(":");
    let ghost before = out_view(ctx.output.lines@);
    ctx.output.push_mapped(content, line);
    proof {
        assert(out_view(ctx.output.lines@) =~= pushm(
            before,
            t.nodes@[i as int].start_row + 1,
            out_view(ctx.output.lines@).last().1,
        ));
    }
    let body = match get_field_child(t, i, "consequence") {
        Some(b) => Some(b),
        None => get_field_child(t, i, "body"),
    };
    match body {
        Some(b) => {
            ctx.indent();
            format_block(t, b, ctx);
            ctx.dedent();
        },
        None => {
            format_elif_fallback(t, i, ctx);
        },
    }
}

/// The `elif` body fallback.
fn format_elif_fallback(t: &SynTree, i: usize, ctx: &mut FormatContext)
    requires
        t.wf(),
        i < t.nodes@.len(),
        old(ctx).indent_level + t.nodes@.len() - i <= usize::MAX,
    ensures
        ctx_stable(*old(ctx), *final(ctx)),
        out_view(final(ctx).output.lines@) == spec_elif_fallback(
            t.nodes@,
            i as int,
            0,
            old(ctx).lv(),
            old(ctx).options,
            old(ctx).skip_regions.view_ranges(),
            old(ctx).indent_level as int,
            out_view(old(ctx).output.lines@),
        ),
    decreases t.nodes@.len() - i, 5int, 1int,
{
    proof {
        assert(crate::tree::node_wf(t.nodes@, i as int));
        assert(crate::format::expressions::node_ok(t.nodes@, i as int));
    }
    let n = t.child_count(i);
    let mut k: usize = 0;
    while k < n
        invariant
            0 <= k <= n,
            t.wf(),
            i < t.nodes@.len(),
            n == t.nodes@[i as int].children@.len(),
            old(ctx).indent_level + t.nodes@.len() - i <= usize::MAX,
            ctx_stable(*old(ctx), *ctx),
            spec_elif_fallback(
                t.nodes@,
                i as int,
                0,
                old(ctx).lv(),
                old(ctx).options,
                old(ctx).skip_regions.view_ranges(),
                old(ctx).indent_level as int,
                out_view(old(ctx).output.lines@),
            ) == spec_elif_fallback(
                t.nodes@,
                i as int,
                k as int,
                old(ctx).lv(),
                old(ctx).options,
                old(ctx).skip_regions.view_ranges(),
                old(ctx).indent_level as int,
                out_view(ctx.output.lines@),
            ),
        decreases n - k,
    {
        proof {
            assert(crate::tree::node_wf(t.nodes@, i as int));
            assert(crate::format::expressions::node_ok(t.nodes@, i as int));
        }
        let c = t.child(i, k);
        let kind_ok = !t.kind_is(c, "elif") && !is_condition_node(t.kind(c)) && !t.kind_is(c, ":");
        if kind_ok {
            ctx.indent();
            format_node(t, c, ctx);
            ctx.dedent();
        }
        k += 1;
    }
}

/// Format else clause.
fn format_else_clause(t: &SynTree, i: usize, ctx: &mut FormatContext)
    requires
        t.wf(),
        i < t.nodes@.len(),
        old(ctx).indent_level + t.nodes@.len() - i <= usize::MAX,
    ensures
        ctx_stable(*old(ctx), *final(ctx)),
        out_view(final(ctx).output.lines@) == spec_else(
            t.nodes@,
            i as int,
            old(ctx).lv(),
            old(ctx).options,
            old(ctx).skip_regions.view_ranges(),
            old(ctx).indent_level as int,
            out_view(old(ctx).output.lines@),
        ),
    decreases t.nodes@.len() - i, 6int, 0int,
{
    let line = t.start_line(i);
    let content = ctx.indent_str().concat("else:");
    let ghost before = out_view(ctx.output.lines@);
    ctx.output.push_mapped(content, line);
    proof {
        assert(out_view(ctx.output.lines@) =~= pushm(
            before,
            t.nodes@[i as int].start_row + 1,
            out_view(ctx.output.lines@).last().1,
        ));
    }
    match get_field_child(t, i, "body") {
        Some(b) => {
            ctx.indent();
            format_block(t, b, ctx);
            ctx.dedent();
        },
        None => {
            match crate::format::expressions::first_child_sel(
                t,
                i,
                crate::format::expressions::ChildSel::NotElseKw,
            ) {
                Some(c) => {
                    ctx.indent();
                    format_block(t, c, ctx);
                    ctx.dedent();
                },
                None => {},
            }
        },
    }
}

/// Format for statement.
pub fn format_for_statement(t: &SynTree, i: usize, ctx: &mut FormatContext)
    requires
        t.wf(),
        i < t.nodes@.len(),
        old(ctx).indent_level + t.nodes@.len() - i <= usize::MAX,
    ensures
        ctx_stable(*old(ctx), *final(ctx)),
        out_view(final(ctx).output.lines@) == spec_for(
            t.nodes@,
            i as int,
            old(ctx).lv(),
            old(ctx).options,
            old(ctx).skip_regions.view_ranges(),
            old(ctx).indent_level as int,
            out_view(old(ctx).output.lines@),
        ),
    decreases t.nodes@.len() - i, 8int, 0int,
{
    let line = t.start_line(i);
    let indent = ctx.indent_str();
    let var: String = match get_field_child(t, i, "variable") {
        Some(c) => t.text(c).to_owned(),
        None => match get_field_child(t, i, "left") {
            Some(c) => t.text(c).to_owned(),
            None => "_".to_owned(),
        },
    };
    let iter: String = match get_field_child(t, i, "value") {
        Some(c) => format_expression(t, c, &ctx.options, ctx.indent_level),
        None => match get_field_child(t, i, "right") {
            Some(c) => format_expression(t, c, &ctx.options, ctx.indent_level),
            None => "[]".to_owned(),
        },
    };
    let content = indent.concat("for ").concat(var.as_str()).concat(" in ").concat(
        iter.as_str(),
    ).concat(":");
    let ghost before = out_view(ctx.output.lines@);
    ctx.output.push_mapped(content, line);
    proof {
        assert(out_view(ctx.output.lines@) =~= pushm(
            before,
            t.nodes@[i as int].start_row + 1,
            out_view(ctx.output.lines@).last().1,
        ));
    }
    if let Some(b) = get_field_child(t, i, "body") {
        ctx.indent();
        format_block(t, b, ctx);
        ctx.dedent();
    }
}

/// Format while statement.
pub fn format_while_statement(t: &SynTree, i: usize, ctx: &mut FormatContext)
    requires
        t.wf(),
        i < t.nodes@.len(),
        old(ctx).indent_level + t.nodes@.len() - i <= usize::MAX,
    ensures
        ctx_stable(*old(ctx), *final(ctx)),
        out_view(final(ctx).output.lines@) == spec_while(
            t.nodes@,
            i as int,
            old(ctx).lv(),
            old(ctx).options,
            old(ctx).skip_regions.view_ranges(),
            old(ctx).indent_level as int,
            out_view(old(ctx).output.lines@),
        ),
    decreases t.nodes@.len() - i, 8int, 0int,
{
    let line = t.start_line(i);
    let indent = ctx.indent_str();
    let cond: String = match get_field_child(t, i, "condition") {
        Some(c) => format_expression(t, c, &ctx.options, ctx.indent_level),
        None => "true".to_owned(),
    };
    let content = indent.concat("while ").concat(cond.as_str()).concat(":");
    let ghost before = out_view(ctx.output.lines@);
    ctx.output.push_mapped(content, line);
    proof {
        assert(out_view(ctx.output.lines@) =~= pushm(
            before,
            t.nodes@[i as int].start_row + 1,
            out_view(ctx.output.lines@).last().1,
        ));
    }
    if let Some(b) = get_field_child(t, i, "body") {
        ctx.indent();
        format_block(t, b, ctx);
        ctx.dedent();
    }
}

/// Format match statement: copied verbatim to preserve every pattern shape.
pub fn format_match_statement(t: &SynTree, i: usize, ctx: &mut FormatContext)
    requires
        t.wf(),
        i < t.nodes@.len(),
    ensures
        ctx_stable(*old(ctx), *final(ctx)),
        out_view(final(ctx).output.lines@) == spec_verbatim(
            t.nodes@,
            i as int,
            old(ctx).lv(),
            out_view(old(ctx).output.lines@),
        ),
{
    format_verbatim(t, i, ctx);
}

} // verus!
