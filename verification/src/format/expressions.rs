//! The expression formatter: canonical single-line (or, for trailing-comma
//! containers, multi-line) text for one expression node.
//!
//! Every executable function here returns exactly the text that the spec
//! functions of the same names define over the tree arena.

use vstd::prelude::*;

use crate::format::options::FormatOptions;
use crate::text;
use crate::text::{spec_repeat, spec_trim};
use crate::tree::{arena_wf, SynNode, SynTree};

verus! {

/// The indent string at level `ind`.
pub open spec fn ind_of(opts: FormatOptions, ind: int) -> Seq<char> {
    spec_repeat(opts.indent_style.unit(), ind)
}

/// Whether the container node `i` has a comma immediately before its closing
/// bracket: the trailing-comma rendering directive.
pub open spec fn spec_has_trailing_comma(t: Seq<SynNode>, i: int) -> bool {
    let cs = t[i].children@;
    exists|k: int|
        {
            &&& 0 <= k < cs.len()
            &&& is_close_bracket(t[cs[k] as int].kind@)
            &&& (forall|m: int| k < m < cs.len() ==> !is_close_bracket(t[#[trigger] cs[m] as int].kind@))
            &&& k > 0
            &&& t[cs[k - 1] as int].kind@ == ","@
        }
}

pub open spec fn is_close_bracket(kind: Seq<char>) -> bool {
    kind == "]"@ || kind == "}"@ || kind == ")"@
}

/// Check if a container node has a trailing comma before its closing bracket.
pub fn has_trailing_comma(t: &SynTree, i: usize) -> (r: bool)
    requires
        t.wf(),
        i < t.nodes@.len(),
    ensures
        r == spec_has_trailing_comma(t.nodes@, i as int),
{
    let ghost cs = t.nodes@[i as int].children@;
    let n = t.child_count(i);
    let mut k: usize = n;
    while k > 0
        invariant
            0 <= k <= n,
            t.wf(),
            i < t.nodes@.len(),
            cs == t.nodes@[i as int].children@,
            n == cs.len(),
            forall|m: int| k <= m < cs.len() ==> !is_close_bracket(t.nodes@[#[trigger] cs[m] as int].kind@),
        decreases k,
    {
        let c = t.child(i, k - 1);
        let closes = t.kind_is(c, "]") || t.kind_is(c, "}") || t.kind_is(c, ")");
        if closes {
            if k - 1 > 0 {
                let prev = t.child(i, k - 2);
                let r = t.kind_is(prev, ",");
                proof {
                    if r {
                        assert(spec_has_trailing_comma(t.nodes@, i as int)) by {
                            assert({
                                &&& 0 <= k - 1 < cs.len()
                                &&& is_close_bracket(t.nodes@[cs[k - 1] as int].kind@)
                                &&& (forall|m: int|
                                    k - 1 < m < cs.len() ==> !is_close_bracket(
                                        t.nodes@[#[trigger] cs[m] as int].kind@,
                                    ))
                                &&& k - 1 > 0
                                &&& t.nodes@[cs[k - 2] as int].kind@ == ","@
                            });
                        }
                    } else {
                        assert forall|j: int|
                            {
                                &&& 0 <= j < cs.len()
                                &&& is_close_bracket(t.nodes@[cs[j] as int].kind@)
                                &&& (forall|m: int|
                                    j < m < cs.len() ==> !is_close_bracket(
                                        t.nodes@[#[trigger] cs[m] as int].kind@,
                                    ))
                            } implies !(j > 0 && t.nodes@[cs[j - 1] as int].kind@ == ","@) by {
                            assert(j == k - 1);
                        }
                    }
                }
                return r;
            } else {
                proof {
                    assert forall|j: int|
                        {
                            &&& 0 <= j < cs.len()
                            &&& is_close_bracket(t.nodes@[cs[j] as int].kind@)
                            &&& (forall|m: int|
                                j < m < cs.len() ==> !is_close_bracket(
                                    t.nodes@[#[trigger] cs[m] as int].kind@,
                                ))
                        } implies !(j > 0) by {
                        assert(j == k - 1);
                    }
                }
                return false;
            }
        }
        k -= 1;
    }
    false
}

/// All child indices of node `i` point forward and stay in bounds.  True of
/// every node of a well-formed arena; conjoined into branch conditions so
/// that each recursive call's termination is visible from its path.
pub open spec fn node_ok(t: Seq<SynNode>, i: int) -> bool {
    forall|k: int|
        0 <= k < t[i].children@.len() ==> i < #[trigger] t[i].children@[k] < t.len()
}

/// `c` is a valid descendant index for recursion from `i`.
pub open spec fn in_rng(t: Seq<SynNode>, i: int, c: int) -> bool {
    i < c < t.len()
}

/// Kinds that take their source text verbatim in expression position.
pub open spec fn is_textual_kind(kind: Seq<char>) -> bool {
    ||| kind == "integer"@
    ||| kind == "float"@
    ||| kind == "string"@
    ||| kind == "true"@
    ||| kind == "false"@
    ||| kind == "null"@
    ||| kind == "identifier"@
    ||| kind == "name"@
}

/// The canonical text of the expression rooted at node `i`.
pub open spec fn spec_expr(t: Seq<SynNode>, i: int, opts: FormatOptions, ind: int) -> Seq<char>
    decreases t.len() - i, 9int, 0int
        when 0 <= i < t.len() && arena_wf(t)
{
    let kind = t[i].kind@;
    if is_textual_kind(kind) {
        t[i].text@
    } else if kind == "self"@ {
        "self"@
    } else if kind == "binary_operator"@ {
        spec_binary(t, i, opts, ind)
    } else if kind == "unary_operator"@ {
        spec_unary(t, i, opts, ind)
    } else if kind == "comparison_operator"@ {
        spec_comparison(t, i, opts, ind)
    } else if kind == "boolean_operator"@ {
        spec_boolean(t, i, opts, ind)
    } else if kind == "call"@ {
        spec_call(t, i, opts, ind)
    } else if kind == "attribute"@ {
        spec_attribute(t, i, opts, ind)
    } else if kind == "subscript"@ {
        spec_subscript(t, i, opts, ind)
    } else if kind == "array"@ {
        spec_array(t, i, opts, ind)
    } else if kind == "dictionary"@ {
        spec_dictionary(t, i, opts, ind)
    } else if kind == "parenthesized_expression"@ {
        spec_parenthesized(t, i, opts, ind)
    } else if kind == "assignment"@ {
        spec_assignment(t, i, opts, ind)
    } else if kind == "augmented_assignment"@ {
        spec_augmented(t, i, opts, ind)
    } else if kind == "conditional_expression"@ || kind == "ternary_expression"@ {
        spec_ternary(t, i, opts, ind)
    } else if kind == "lambda"@ {
        t[i].text@
    } else if kind == "cast"@ {
        spec_cast(t, i, opts, ind)
    } else if kind == "await"@ || kind == "await_expression"@ {
        spec_await(t, i, opts, ind)
    } else if kind == "get_node"@ {
        t[i].text@
    } else {
        t[i].text@
    }
}

/// First child of `i` carrying field label `name`, if any.
pub open spec fn field_child(t: Seq<SynNode>, i: int, name: Seq<char>) -> Option<int> {
    let cs = t[i].children@;
    if exists|k: int| 0 <= k < cs.len() && field_is(t, #[trigger] cs[k] as int, name) {
        let k = choose|k: int|
            0 <= k < cs.len() && field_is(t, #[trigger] cs[k] as int, name) && forall|j: int|
                0 <= j < k ==> !field_is(t, #[trigger] cs[j] as int, name);
        Some(cs[k] as int)
    } else {
        None
    }
}

pub open spec fn field_is(t: Seq<SynNode>, c: int, name: Seq<char>) -> bool {
    match t[c].field {
        Some(f) => f@ == name,
        None => false,
    }
}

/// Exec lookup of `field_child`.
pub fn get_field_child(t: &SynTree, i: usize, name: &str) -> (r: Option<usize>)
    requires
        t.wf(),
        i < t.nodes@.len(),
    ensures
        match r {
            Some(c) => field_child(t.nodes@, i as int, name@) == Some(c as int) && i < c
                < t.nodes@.len(),
            None => field_child(t.nodes@, i as int, name@) is None,
        },
{
    let r = t.child_by_field(i, name);
    proof {
        let cs = t.nodes@[i as int].children@;
        match r {
            Some(c) => {
                let k = choose|k: int|
                    0 <= k < cs.len() && cs[k] == c && forall|j: int|
                        0 <= j < k ==> t.field_of(#[trigger] cs[j] as int) != Some(name@);
                assert(field_is(t.nodes@, cs[k] as int, name@));
                assert forall|j: int| 0 <= j < k implies !field_is(
                    t.nodes@,
                    #[trigger] cs[j] as int,
                    name@,
                ) by {
                    assert(t.field_of(cs[j] as int) != Some(name@));
                }
                let k2 = choose|k2: int|
                    0 <= k2 < cs.len() && field_is(t.nodes@, #[trigger] cs[k2] as int, name@)
                        && forall|j: int| 0 <= j < k2 ==> !field_is(t.nodes@, #[trigger] cs[j] as int, name@);
                assert(field_is(t.nodes@, cs[k2] as int, name@));
                if k2 < k {
                    assert(!field_is(t.nodes@, cs[k2] as int, name@));
                }
                if k < k2 {
                    assert(!field_is(t.nodes@, cs[k] as int, name@));
                }
                assert(k2 == k);
            },
            None => {
                assert forall|k: int| 0 <= k < cs.len() implies !field_is(
                    t.nodes@,
                    #[trigger] cs[k] as int,
                    name@,
                ) by {
                    assert(t.field_of(cs[k] as int) != Some(name@));
                }
            },
        }
    }
    r
}

/// `a + " " + b + " " + c`.
pub open spec fn sp3(a: Seq<char>, b: Seq<char>, c: Seq<char>) -> Seq<char> {
    a + " "@ + b + " "@ + c
}

/// Binary operation: by the `left`/`operator`/`right` fields when present,
/// else by child position, special-casing `not in` and `is not`.
pub open spec fn spec_binary(t: Seq<SynNode>, i: int, opts: FormatOptions, ind: int) -> Seq<char>
    decreases t.len() - i, 8int, 0int
        when 0 <= i < t.len() && arena_wf(t)
{
    let cs = t[i].children@;
    let fl = field_child(t, i, "left"@);
    let fo = field_child(t, i, "operator"@);
    let fr = field_child(t, i, "right"@);
    if fl is Some && fo is Some && fr is Some && in_rng(t, i, fl->0) && in_rng(t, i, fr->0) {
        sp3(
            spec_expr(t, fl->0, opts, ind),
            t[fo->0].text@,
            spec_expr(t, fr->0, opts, ind),
        )
    } else if node_ok(t, i) && cs.len() == 4 && t[cs[1] as int].kind@ == "not"@ && t[cs[2] as int].kind@
        == "in"@ {
        sp3(spec_expr(t, cs[0] as int, opts, ind), "not in"@, spec_expr(t, cs[3] as int, opts, ind))
    } else if node_ok(t, i) && cs.len() == 4 && t[cs[1] as int].kind@ == "is"@ && t[cs[2] as int].kind@
        == "not"@ {
        sp3(spec_expr(t, cs[0] as int, opts, ind), "is not"@, spec_expr(t, cs[3] as int, opts, ind))
    } else if node_ok(t, i) && cs.len() >= 3 {
        sp3(
            spec_expr(t, cs[0] as int, opts, ind),
            spec_trim(t[cs[1] as int].text@),
            spec_expr(t, cs[2] as int, opts, ind),
        )
    } else {
        t[i].text@
    }
}

/// Unary operation: `not x` keeps a space, `-x` and `~x` do not.
pub open spec fn spec_unary(t: Seq<SynNode>, i: int, opts: FormatOptions, ind: int) -> Seq<char>
    decreases t.len() - i, 8int, 0int
        when 0 <= i < t.len() && arena_wf(t)
{
    let cs = t[i].children@;
    if node_ok(t, i) && cs.len() >= 2 {
        let op = t[cs[0] as int].text@;
        let operand = spec_expr(t, cs[1] as int, opts, ind);
        if op == "not"@ {
            "not "@ + operand
        } else {
            op + operand
        }
    } else {
        t[i].text@
    }
}

/// Chained comparison: operands and operators joined with single spaces.
pub open spec fn spec_comparison_parts(
    t: Seq<SynNode>,
    i: int,
    k: int,
    opts: FormatOptions,
    ind: int,
    acc: Seq<char>,
) -> Seq<char>
    decreases t.len() - i, 7int, t[i].children@.len() - k
        when 0 <= i < t.len() && arena_wf(t) && 0 <= k
{
    let cs = t[i].children@;
    if k >= cs.len() || !node_ok(t, i) {
        acc
    } else {
        let part = if k % 2 == 0 {
            spec_expr(t, cs[k] as int, opts, ind)
        } else {
            t[cs[k] as int].text@
        };
        let acc2 = if k == 0 {
            part
        } else {
            acc + " "@ + part
        };
        spec_comparison_parts(t, i, k + 1, opts, ind, acc2)
    }
}

pub open spec fn spec_comparison(t: Seq<SynNode>, i: int, opts: FormatOptions, ind: int) -> Seq<
    char,
>
    decreases t.len() - i, 8int, 0int
        when 0 <= i < t.len() && arena_wf(t)
{
    spec_comparison_parts(t, i, 0, opts, ind, Seq::empty())
}

/// Boolean operation by fields, or the raw text.
pub open spec fn spec_boolean(t: Seq<SynNode>, i: int, opts: FormatOptions, ind: int) -> Seq<char>
    decreases t.len() - i, 8int, 0int
        when 0 <= i < t.len() && arena_wf(t)
{
    let fl = field_child(t, i, "left"@);
    let fo = field_child(t, i, "operator"@);
    let fr = field_child(t, i, "right"@);
    if fl is Some && fo is Some && fr is Some && in_rng(t, i, fl->0) && in_rng(t, i, fr->0) {
        sp3(
            spec_expr(t, fl->0, opts, ind),
            t[fo->0].text@,
            spec_expr(t, fr->0, opts, ind),
        )
    } else {
        t[i].text@
    }
}

/// Attribute access `obj.attr`.
pub open spec fn spec_attribute(t: Seq<SynNode>, i: int, opts: FormatOptions, ind: int) -> Seq<char>
    decreases t.len() - i, 8int, 0int
        when 0 <= i < t.len() && arena_wf(t)
{
    let fo = field_child(t, i, "object"@);
    let fa = field_child(t, i, "attribute"@);
    if fo is Some && fa is Some && in_rng(t, i, fo->0) {
        spec_expr(t, fo->0, opts, ind) + "."@ + t[fa->0].text@
    } else {
        t[i].text@
    }
}

/// Subscript access `arr[idx]`.
pub open spec fn spec_subscript(t: Seq<SynNode>, i: int, opts: FormatOptions, ind: int) -> Seq<char>
    decreases t.len() - i, 8int, 0int
        when 0 <= i < t.len() && arena_wf(t)
{
    let fv = field_child(t, i, "value"@);
    let fs = field_child(t, i, "subscript"@);
    if fv is Some && fs is Some && in_rng(t, i, fv->0) && in_rng(t, i, fs->0) {
        spec_expr(t, fv->0, opts, ind) + "["@ + spec_expr(t, fs->0, opts, ind) + "]"@
    } else {
        t[i].text@
    }
}

/// Parenthesized expression `(expr)`: first child that is not a paren.
pub open spec fn spec_parenthesized(t: Seq<SynNode>, i: int, opts: FormatOptions, ind: int) -> Seq<
    char,
>
    decreases t.len() - i, 8int, 0int
        when 0 <= i < t.len() && arena_wf(t)
{
    match first_child_where(t, i, ChildSel::NotParen) {
        Some(c) => if in_rng(t, i, c) {
            "("@ + spec_expr(t, c, opts, ind) + ")"@
        } else {
            t[i].text@
        },
        None => t[i].text@,
    }
}

pub open spec fn is_paren(t: Seq<SynNode>, c: int) -> bool {
    t[c].kind@ == "("@ || t[c].kind@ == ")"@
}

/// Assignment `x = y`.
pub open spec fn spec_assignment(t: Seq<SynNode>, i: int, opts: FormatOptions, ind: int) -> Seq<
    char,
>
    decreases t.len() - i, 8int, 0int
        when 0 <= i < t.len() && arena_wf(t)
{
    let fl = field_child(t, i, "left"@);
    let fr = field_child(t, i, "right"@);
    if fl is Some && fr is Some && in_rng(t, i, fl->0) && in_rng(t, i, fr->0) {
        spec_expr(t, fl->0, opts, ind) + " = "@ + spec_expr(t, fr->0, opts, ind)
    } else {
        t[i].text@
    }
}

/// Augmented assignment `x += y`.
pub open spec fn spec_augmented(t: Seq<SynNode>, i: int, opts: FormatOptions, ind: int) -> Seq<char>
    decreases t.len() - i, 8int, 0int
        when 0 <= i < t.len() && arena_wf(t)
{
    let fl = field_child(t, i, "left"@);
    let fo = field_child(t, i, "operator"@);
    let fr = field_child(t, i, "right"@);
    if fl is Some && fo is Some && fr is Some && in_rng(t, i, fl->0) && in_rng(t, i, fr->0) {
        sp3(
            spec_expr(t, fl->0, opts, ind),
            t[fo->0].text@,
            spec_expr(t, fr->0, opts, ind),
        )
    } else {
        t[i].text@
    }
}

/// Ternary `value_if_true if cond else value_if_false`.
pub open spec fn spec_ternary(t: Seq<SynNode>, i: int, opts: FormatOptions, ind: int) -> Seq<char>
    decreases t.len() - i, 8int, 0int
        when 0 <= i < t.len() && arena_wf(t)
{
    let cs = t[i].children@;
    let ft = field_child(t, i, "true"@);
    let fc = field_child(t, i, "condition"@);
    let ff = field_child(t, i, "false"@);
    if ft is Some && fc is Some && ff is Some && in_rng(t, i, ft->0) && in_rng(t, i, fc->0)
        && in_rng(t, i, ff->0) {
        spec_expr(t, ft->0, opts, ind) + " if "@ + spec_expr(t, fc->0, opts, ind) + " else "@
            + spec_expr(t, ff->0, opts, ind)
    } else if node_ok(t, i) && cs.len() >= 5 {
        spec_expr(t, cs[0] as int, opts, ind) + " if "@ + spec_expr(t, cs[2] as int, opts, ind)
            + " else "@ + spec_expr(t, cs[4] as int, opts, ind)
    } else {
        t[i].text@
    }
}

/// Type cast `x as Type`.
pub open spec fn spec_cast(t: Seq<SynNode>, i: int, opts: FormatOptions, ind: int) -> Seq<char>
    decreases t.len() - i, 8int, 0int
        when 0 <= i < t.len() && arena_wf(t)
{
    let fv = field_child(t, i, "value"@);
    let ft = field_child(t, i, "type"@);
    if fv is Some && ft is Some && in_rng(t, i, fv->0) {
        spec_expr(t, fv->0, opts, ind) + " as "@ + t[ft->0].text@
    } else {
        t[i].text@
    }
}

/// Await expression: first child that is not the keyword.
pub open spec fn spec_await(t: Seq<SynNode>, i: int, opts: FormatOptions, ind: int) -> Seq<char>
    decreases t.len() - i, 8int, 0int
        when 0 <= i < t.len() && arena_wf(t)
{
    match first_child_where(t, i, ChildSel::NotAwaitKw) {
        Some(c) => if in_rng(t, i, c) {
            "await "@ + spec_expr(t, c, opts, ind)
        } else {
            t[i].text@
        },
        None => t[i].text@,
    }
}

/// Join parts with a separator.
pub open spec fn join_with(parts: Seq<Seq<char>>, sep: Seq<char>) -> Seq<char>
    decreases parts.len(),
{
    if parts.len() == 0 {
        Seq::empty()
    } else if parts.len() == 1 {
        parts[0]
    } else {
        join_with(parts.drop_last(), sep) + sep + parts.last()
    }
}

/// The punctuation a container filters out of its child list.
#[derive(Clone, Copy, PartialEq, Eq, Structural)]
pub enum Excl {
    /// `[`, `]`, `,`
    Brackets,
    /// `{`, `}`, `,`
    Braces,
    /// `(`, `)`, `,`
    Parens,
    /// `:`
    Colon,
    /// Everything that is not an `annotation` node.
    NotAnnotation,
    /// Everything that is not an enum member.
    NotEnumEntry,
    /// Everything that is not a signal parameter shape.
    NotSignalParam,
    /// Everything that is not a function parameter shape.
    NotFuncParam,
}

pub open spec fn excl_hits(e: Excl, kind: Seq<char>) -> bool {
    match e {
        Excl::Brackets => excl_array(kind),
        Excl::Braces => excl_brace(kind),
        Excl::Parens => excl_paren_comma(kind),
        Excl::Colon => kind == ":"@,
        Excl::NotAnnotation => kind != "annotation"@,
        Excl::NotEnumEntry => kind != "enum_entry"@ && kind != "enumerator"@,
        Excl::NotSignalParam => !(kind == "identifier"@ || kind == "name"@ || kind
            == "typed_parameter"@ || kind == "typed_identifier"@ || kind == "parameter"@),
        Excl::NotFuncParam => !(kind == "parameter"@ || kind == "typed_parameter"@ || kind
            == "default_parameter"@ || kind == "typed_default_parameter"@ || kind == "identifier"@
            || kind == "typed_identifier"@),
    }
}

/// Exec test for `excl_hits`.
pub fn excl_test(e: Excl, kind: &str) -> (r: bool)
    ensures
        r == excl_hits(e, kind@),
{
    match e {
        Excl::Brackets => text::str_eq(kind, "[") || text::str_eq(kind, "]") || text::str_eq(
            kind,
            ",",
        ),
        Excl::Braces => text::str_eq(kind, "{") || text::str_eq(kind, "}") || text::str_eq(
            kind,
            ",",
        ),
        Excl::Parens => text::str_eq(kind, "(") || text::str_eq(kind, ")") || text::str_eq(
            kind,
            ",",
        ),
        Excl::Colon => text::str_eq(kind, ":"),
        Excl::NotAnnotation => !text::str_eq(kind, "annotation"),
        Excl::NotEnumEntry => !(text::str_eq(kind, "enum_entry") || text::str_eq(
            kind,
            "enumerator",
        )),
        Excl::NotSignalParam => !(text::str_eq(kind, "identifier") || text::str_eq(kind, "name")
            || text::str_eq(kind, "typed_parameter") || text::str_eq(kind, "typed_identifier")
            || text::str_eq(kind, "parameter")),
        Excl::NotFuncParam => !(text::str_eq(kind, "parameter") || text::str_eq(
            kind,
            "typed_parameter",
        ) || text::str_eq(kind, "default_parameter") || text::str_eq(
            kind,
            "typed_default_parameter",
        ) || text::str_eq(kind, "identifier") || text::str_eq(kind, "typed_identifier")),
    }
}

/// Children of `i` whose kind the exclusion filter does not hit, from child
/// position `k` on, appended to `acc`.
pub open spec fn spec_filter_children(
    t: Seq<SynNode>,
    i: int,
    k: int,
    excl: Excl,
    acc: Seq<int>,
) -> Seq<int>
    decreases t.len() - i, 6int, t[i].children@.len() - k
        when 0 <= i < t.len() && arena_wf(t) && 0 <= k
{
    let cs = t[i].children@;
    if k >= cs.len() {
        acc
    } else if excl_hits(excl, t[cs[k] as int].kind@) {
        spec_filter_children(t, i, k + 1, excl, acc)
    } else {
        spec_filter_children(t, i, k + 1, excl, acc.push(cs[k] as int))
    }
}

/// The indices of a `Vec<usize>` as mathematical integers.
pub open spec fn idxs(v: Seq<usize>) -> Seq<int> {
    Seq::new(v.len(), |k: int| v[k] as int)
}

/// Exec mirror of `spec_filter_children` from position 0.
pub fn filter_children(t: &SynTree, i: usize, e: Excl) -> (r: Vec<usize>)
    requires
        t.wf(),
        i < t.nodes@.len(),
    ensures
        idxs(r@) == spec_filter_children(t.nodes@, i as int, 0, e, Seq::empty()),
        forall|j: int| 0 <= j < r@.len() ==> i < #[trigger] r@[j] < t.nodes@.len(),
{
    let n = t.child_count(i);
    let mut out: Vec<usize> = Vec::new();
    let mut k: usize = 0;
    proof {
        assert(idxs(out@) =~= Seq::<int>::empty());
    }
    while k < n
        invariant
            0 <= k <= n,
            t.wf(),
            i < t.nodes@.len(),
            n == t.nodes@[i as int].children@.len(),
            spec_filter_children(t.nodes@, i as int, 0, e, Seq::empty()) == spec_filter_children(
                t.nodes@,
                i as int,
                k as int,
                e,
                idxs(out@),
            ),
            forall|j: int| 0 <= j < out@.len() ==> i < #[trigger] out@[j] < t.nodes@.len(),
        decreases n - k,
    {
        let c = t.child(i, k);
        let ghost before = out@;
        if !excl_test(e, t.kind(c)) {
            out.push(c);
            proof {
                assert(idxs(out@) =~= idxs(before).push(c as int));
            }
        }
        k += 1;
    }
    out
}

/// The filtered children's formatted expressions.
pub open spec fn spec_exprs_of(
    t: Seq<SynNode>,
    picked: Seq<int>,
    opts: FormatOptions,
    ind: int,
    lo: int,
) -> Seq<Seq<char>>
    decreases t.len() - lo, 7int, picked.len()
        when 0 <= lo < t.len() && arena_wf(t)
{
    if picked.len() == 0 {
        Seq::empty()
    } else if forall|j: int| 0 <= j < picked.len() ==> lo < #[trigger] picked[j] < t.len() {
        spec_exprs_of(t, picked.drop_last(), opts, ind, lo) + seq![
            spec_expr(t, picked.last(), opts, ind),
        ]
    } else {
        Seq::empty()
    }
}

pub open spec fn excl_array(kind: Seq<char>) -> bool {
    kind == "["@ || kind == "]"@ || kind == ","@
}

pub open spec fn excl_brace(kind: Seq<char>) -> bool {
    kind == "{"@ || kind == "}"@ || kind == ","@
}

pub open spec fn excl_paren_comma(kind: Seq<char>) -> bool {
    kind == "("@ || kind == ")"@ || kind == ","@
}

/// The multi-line argument block: one argument per line, tab-indented one
/// step past the call's indent, each with a trailing comma.
pub open spec fn spec_ml_args(args: Seq<Seq<char>>, inner: Seq<char>) -> Seq<char>
    decreases args.len(),
{
    if args.len() == 0 {
        Seq::empty()
    } else {
        spec_ml_args(args.drop_last(), inner) + inner + args.last() + ",\n"@
    }
}

/// A call rendered multi-line under the trailing-comma directive.
pub open spec fn spec_call_ml(
    func: Seq<char>,
    args: Seq<Seq<char>>,
    opts: FormatOptions,
    ind: int,
) -> Seq<char> {
    let indstr = ind_of(opts, ind);
    func + "(\n"@ + spec_ml_args(args, indstr + "\t"@) + indstr + ")"@
}

/// `func` applied to an argument list, single-line or multi-line.
pub open spec fn spec_call_with(
    func: Seq<char>,
    args: Seq<Seq<char>>,
    trailing: bool,
    opts: FormatOptions,
    ind: int,
) -> Seq<char> {
    if args.len() == 0 {
        func + "()"@
    } else if trailing {
        spec_call_ml(func, args, opts, ind)
    } else {
        func + "("@ + join_with(args, ", "@) + ")"@
    }
}

pub open spec fn is_args_kind(kind: Seq<char>) -> bool {
    kind == "argument_list"@ || kind == "arguments"@
}

/// Which child a positional fallback looks for.
#[derive(Clone, Copy, PartialEq, Eq, Structural)]
pub enum ChildSel {
    /// First child that is not `(`, `)` or `,`: the function part of a call.
    FuncPart,
    /// First child of kind `argument_list` or `arguments`.
    ArgsPart,
    /// First child that is not `(` or `)`.
    NotParen,
    /// First child whose kind is not the `await` keyword.
    NotAwaitKw,
    /// First child whose kind is not the `extends` keyword.
    NotExtendsKw,
    /// First child whose kind is not the `return` keyword.
    NotReturnKw,
    /// First child of kind `identifier` or `name`.
    NameLike,
    /// First child of kind `annotations`.
    AnnotationsNode,
    /// First child of kind `identifier`.
    IdentifierKind,
    /// First child of kind `type`.
    TypeKind,
    /// A named child that is neither an identifier nor a type: a default
    /// value in a parameter.
    DefaultValue,
    /// First child whose kind is not the `else` keyword.
    NotElseKw,
}

pub open spec fn sel_hits(sel: ChildSel, t: Seq<SynNode>, c: int) -> bool {
    match sel {
        ChildSel::FuncPart => not_call_punct(t, c),
        ChildSel::ArgsPart => is_args_node(t, c),
        ChildSel::NotParen => !is_paren(t, c),
        ChildSel::NotAwaitKw => t[c].kind@ != "await"@,
        ChildSel::NotExtendsKw => t[c].kind@ != "extends"@,
        ChildSel::NotReturnKw => t[c].kind@ != "return"@,
        ChildSel::NameLike => t[c].kind@ == "identifier"@ || t[c].kind@ == "name"@,
        ChildSel::AnnotationsNode => t[c].kind@ == "annotations"@,
        ChildSel::IdentifierKind => t[c].kind@ == "identifier"@,
        ChildSel::TypeKind => t[c].kind@ == "type"@,
        ChildSel::DefaultValue => t[c].named && t[c].kind@ != "identifier"@ && t[c].kind@
            != "type"@,
        ChildSel::NotElseKw => t[c].kind@ != "else"@,
    }
}

/// First child of `i` that the selector hits, if any.
pub open spec fn first_child_where(t: Seq<SynNode>, i: int, sel: ChildSel) -> Option<int> {
    let cs = t[i].children@;
    if exists|k: int| 0 <= k < cs.len() && sel_hits(sel, t, #[trigger] cs[k] as int) {
        let k = choose|k: int|
            0 <= k < cs.len() && sel_hits(sel, t, #[trigger] cs[k] as int) && forall|j: int|
                0 <= j < k ==> !sel_hits(sel, t, #[trigger] cs[j] as int);
        Some(cs[k] as int)
    } else {
        None
    }
}

/// Direct-children argument fallback of a call without an argument-list
/// node: every child that is not punctuation, an identifier, an attribute,
/// or the function node itself.
pub open spec fn spec_direct_args(
    t: Seq<SynNode>,
    i: int,
    k: int,
    func_c: int,
    opts: FormatOptions,
    ind: int,
    acc: Seq<Seq<char>>,
) -> Seq<Seq<char>>
    decreases t.len() - i, 6int, t[i].children@.len() - k
        when 0 <= i < t.len() && arena_wf(t) && 0 <= k
{
    let cs = t[i].children@;
    if k >= cs.len() || !node_ok(t, i) {
        acc
    } else {
        let c = cs[k] as int;
        let kind = t[c].kind@;
        if kind == "("@ || kind == ")"@ || kind == ","@ || kind == "identifier"@ || kind
            == "attribute"@ || c == func_c {
            spec_direct_args(t, i, k + 1, func_c, opts, ind, acc)
        } else {
            spec_direct_args(t, i, k + 1, func_c, opts, ind, acc.push(spec_expr(t, c, opts, ind)))
        }
    }
}

pub open spec fn not_call_punct(t: Seq<SynNode>, c: int) -> bool {
    t[c].kind@ != "("@ && t[c].kind@ != ")"@ && t[c].kind@ != ","@
}

pub open spec fn is_args_node(t: Seq<SynNode>, c: int) -> bool {
    is_args_kind(t[c].kind@)
}

/// Function or method call.
pub open spec fn spec_call(t: Seq<SynNode>, i: int, opts: FormatOptions, ind: int) -> Seq<char>
    decreases t.len() - i, 8int, 0int
        when 0 <= i < t.len() && arena_wf(t)
{
    let src = t[i].text@;
    if src.contains('#') {
        src
    } else {
        let trailing = match field_child(t, i, "arguments"@) {
            Some(a) => spec_has_trailing_comma(t, a),
            None => false,
        };
        let ff = field_child(t, i, "function"@);
        let fa = field_child(t, i, "arguments"@);
        if ff is Some && fa is Some && in_rng(t, i, ff->0) && in_rng(t, i, fa->0) {
            let func = spec_expr(t, ff->0, opts, ind);
            let picked = spec_filter_children(
                t,
                fa->0,
                0,
                Excl::Parens,
                Seq::empty(),
            );
            let args = spec_exprs_of(t, picked, opts, ind, fa->0);
            spec_call_with(func, args, trailing, opts, ind)
        } else if ff is Some && in_rng(t, i, ff->0) {
            spec_expr(t, ff->0, opts, ind) + "()"@
        } else {
            let fn_c = first_child_where(t, i, ChildSel::FuncPart);
            let an_c = first_child_where(t, i, ChildSel::ArgsPart);
            match fn_c {
                Some(fc) => if in_rng(t, i, fc) {
                    let func = spec_expr(t, fc, opts, ind);
                    match an_c {
                        Some(ac) => if in_rng(t, i, ac) {
                            let picked = spec_filter_children(
                                t,
                                ac,
                                0,
                                Excl::Parens,
                                Seq::empty(),
                            );
                            let args = spec_exprs_of(t, picked, opts, ind, ac);
                            spec_call_with(func, args, trailing, opts, ind)
                        } else {
                            src
                        },
                        None => {
                            let args = spec_direct_args(t, i, 0, fc, opts, ind, Seq::empty());
                            spec_call_with(func, args, trailing, opts, ind)
                        },
                    }
                } else {
                    src
                },
                None => src,
            }
        }
    }
}

/// Array literal: single-line, or one element per line under the
/// trailing-comma directive; arrays holding `#` are copied verbatim.
pub open spec fn spec_array(t: Seq<SynNode>, i: int, opts: FormatOptions, ind: int) -> Seq<char>
    decreases t.len() - i, 8int, 0int
        when 0 <= i < t.len() && arena_wf(t)
{
    let src = t[i].text@;
    if src.contains('#') {
        src
    } else {
        let picked = spec_filter_children(t, i, 0, Excl::Brackets, Seq::empty());
        let elements = spec_exprs_of(t, picked, opts, ind, i);
        if elements.len() == 0 {
            "[]"@
        } else if spec_has_trailing_comma(t, i) {
            let indstr = ind_of(opts, ind);
            let inner = indstr + opts.indent_style.unit();
            "[\n"@ + inner + join_with(elements, ",\n"@ + inner) + ",\n"@ + indstr + "]"@
        } else {
            "["@ + join_with(elements, ", "@) + "]"@
        }
    }
}

/// The trailing-comma directive on arrays: a `#`-free, non-empty array
/// literal renders multi-line — one element per line, trailing comma kept,
/// bracket at the parent's indent — exactly when a comma stands
/// immediately before its closing bracket; otherwise it renders
/// single-line, comma-space-joined.
pub proof fn lemma_trailing_comma_directive_array(
    t: Seq<SynNode>,
    i: int,
    opts: FormatOptions,
    ind: int,
)
    requires
        0 <= i < t.len(),
        arena_wf(t),
        t[i].kind@ == "array"@,
        !t[i].text@.contains('#'),
        spec_exprs_of(
            t,
            spec_filter_children(t, i, 0, Excl::Brackets, Seq::empty()),
            opts,
            ind,
            i,
        ).len() > 0,
    ensures
        ({
            let elements = spec_exprs_of(
                t,
                spec_filter_children(t, i, 0, Excl::Brackets, Seq::empty()),
                opts,
                ind,
                i,
            );
            let indstr = ind_of(opts, ind);
            let inner = indstr + opts.indent_style.unit();
            spec_expr(t, i, opts, ind) == if spec_has_trailing_comma(t, i) {
                "[\n"@ + inner + join_with(elements, ",\n"@ + inner) + ",\n"@ + indstr + "]"@
            } else {
                "["@ + join_with(elements, ", "@) + "]"@
            }
        }),
{
    reveal_strlit("integer");
    reveal_strlit("float");
    reveal_strlit("string");
    reveal_strlit("true");
    reveal_strlit("false");
    reveal_strlit("null");
    reveal_strlit("identifier");
    reveal_strlit("name");
    reveal_strlit("self");
    reveal_strlit("binary_operator");
    reveal_strlit("unary_operator");
    reveal_strlit("comparison_operator");
    reveal_strlit("boolean_operator");
    reveal_strlit("call");
    reveal_strlit("attribute");
    reveal_strlit("subscript");
    reveal_strlit("array");
    reveal_strlit("dictionary");
    assert("array"@ != "float"@) by {
        assert("array"@[0] == 'a');
        assert("float"@[0] == 'f');
    }
    assert("array"@ != "false"@) by {
        assert("array"@[0] == 'a');
        assert("false"@[0] == 'f');
    }
    assert("integer"@.len() == 7);
    assert("float"@.len() == 5);
    assert("string"@.len() == 6);
    assert("true"@.len() == 4);
    assert("false"@.len() == 5);
    assert("null"@.len() == 4);
    assert("identifier"@.len() == 10);
    assert("name"@.len() == 4);
    assert("self"@.len() == 4);
    assert("binary_operator"@.len() == 15);
    assert("unary_operator"@.len() == 14);
    assert("comparison_operator"@.len() == 19);
    assert("boolean_operator"@.len() == 16);
    assert("call"@.len() == 4);
    assert("attribute"@.len() == 9);
    assert("subscript"@.len() == 9);
    assert("array"@.len() == 5);
    assert("dictionary"@.len() == 10);
    assert(spec_expr(t, i, opts, ind) == spec_array(t, i, opts, ind));
}

/// The trailing-comma directive on dictionaries: a `#`-free, non-empty
/// dictionary literal renders multi-line under the comma directive, else
/// single-line with a space after `{` and before `}`.
pub proof fn lemma_trailing_comma_directive_dict(
    t: Seq<SynNode>,
    i: int,
    opts: FormatOptions,
    ind: int,
)
    requires
        0 <= i < t.len(),
        arena_wf(t),
        t[i].kind@ == "dictionary"@,
        !t[i].text@.contains('#'),
        spec_pairs_of(
            t,
            spec_filter_children(t, i, 0, Excl::Braces, Seq::empty()),
            opts,
            ind,
            i,
        ).len() > 0,
    ensures
        ({
            let pairs = spec_pairs_of(
                t,
                spec_filter_children(t, i, 0, Excl::Braces, Seq::empty()),
                opts,
                ind,
                i,
            );
            let indstr = ind_of(opts, ind);
            let inner = indstr + opts.indent_style.unit();
            spec_expr(t, i, opts, ind) == if spec_has_trailing_comma(t, i) {
                "{\n"@ + inner + join_with(pairs, ",\n"@ + inner) + ",\n"@ + indstr + "}"@
            } else {
                "{ "@ + join_with(pairs, ", "@) + " }"@
            }
        }),
{
    reveal_strlit("integer");
    reveal_strlit("float");
    reveal_strlit("string");
    reveal_strlit("true");
    reveal_strlit("false");
    reveal_strlit("null");
    reveal_strlit("identifier");
    reveal_strlit("name");
    reveal_strlit("self");
    reveal_strlit("binary_operator");
    reveal_strlit("unary_operator");
    reveal_strlit("comparison_operator");
    reveal_strlit("boolean_operator");
    reveal_strlit("call");
    reveal_strlit("attribute");
    reveal_strlit("subscript");
    reveal_strlit("array");
    reveal_strlit("dictionary");
    assert("integer"@.len() == 7);
    assert("float"@.len() == 5);
    assert("string"@.len() == 6);
    assert("true"@.len() == 4);
    assert("false"@.len() == 5);
    assert("null"@.len() == 4);
    assert("identifier"@.len() == 10);
    assert("name"@.len() == 4);
    assert("self"@.len() == 4);
    assert("binary_operator"@.len() == 15);
    assert("unary_operator"@.len() == 14);
    assert("comparison_operator"@.len() == 19);
    assert("boolean_operator"@.len() == 16);
    assert("call"@.len() == 4);
    assert("attribute"@.len() == 9);
    assert("subscript"@.len() == 9);
    assert("array"@.len() == 5);
    assert("dictionary"@.len() == 10);
    assert("dictionary"@ != "identifier"@) by {
        assert("dictionary"@[0] == 'd');
        assert("identifier"@[0] == 'i');
    }
    assert(spec_expr(t, i, opts, ind) == spec_dictionary(t, i, opts, ind));
}

/// Dictionary key-value pair `key: value`.
pub open spec fn spec_pair(t: Seq<SynNode>, i: int, opts: FormatOptions, ind: int) -> Seq<char>
    decreases t.len() - i, 8int, 0int
        when 0 <= i < t.len() && arena_wf(t)
{
    let fk = field_child(t, i, "key"@);
    let fv = field_child(t, i, "value"@);
    if fk is Some && fv is Some && in_rng(t, i, fk->0) && in_rng(t, i, fv->0) {
        spec_expr(t, fk->0, opts, ind) + ": "@ + spec_expr(t, fv->0, opts, ind)
    } else {
        let picked = spec_filter_children(t, i, 0, Excl::Colon, Seq::empty());
        if picked.len() >= 2 && in_rng(t, i, picked[0]) && in_rng(t, i, picked[1]) {
            spec_expr(t, picked[0], opts, ind) + ": "@ + spec_expr(t, picked[1], opts, ind)
        } else {
            t[i].text@
        }
    }
}

/// The filtered children rendered as dictionary pairs.
pub open spec fn spec_pairs_of(
    t: Seq<SynNode>,
    picked: Seq<int>,
    opts: FormatOptions,
    ind: int,
    lo: int,
) -> Seq<Seq<char>>
    decreases t.len() - lo, 7int, picked.len()
        when 0 <= lo < t.len() && arena_wf(t)
{
    if picked.len() == 0 {
        Seq::empty()
    } else if forall|j: int| 0 <= j < picked.len() ==> lo < #[trigger] picked[j] < t.len() {
        spec_pairs_of(t, picked.drop_last(), opts, ind, lo) + seq![
            spec_pair(t, picked.last(), opts, ind),
        ]
    } else {
        Seq::empty()
    }
}

/// Dictionary literal: `{ a: 1, b: 2 }` single-line, one pair per line under
/// the trailing-comma directive; dictionaries holding `#` stay verbatim.
pub open spec fn spec_dictionary(t: Seq<SynNode>, i: int, opts: FormatOptions, ind: int) -> Seq<
    char,
>
    decreases t.len() - i, 8int, 0int
        when 0 <= i < t.len() && arena_wf(t)
{
    let src = t[i].text@;
    if src.contains('#') {
        src
    } else {
        let picked = spec_filter_children(t, i, 0, Excl::Braces, Seq::empty());
        let pairs = spec_pairs_of(t, picked, opts, ind, i);
        if pairs.len() == 0 {
            "{}"@
        } else if spec_has_trailing_comma(t, i) {
            let indstr = ind_of(opts, ind);
            let inner = indstr + opts.indent_style.unit();
            "{\n"@ + inner + join_with(pairs, ",\n"@ + inner) + ",\n"@ + indstr + "}"@
        } else {
            "{ "@ + join_with(pairs, ", "@) + " }"@
        }
    }
}

/// The indent string at level `ind`.
pub fn indent_text(opts: &FormatOptions, ind: usize) -> (r: String)
    ensures
        r@ == ind_of(*opts, ind as int),
{
    let unit = opts.indent_style.as_str();
    text::repeat_str(unit.as_str(), ind)
}

/// Exec test for `sel_hits`.
fn sel_test(t: &SynTree, c: usize, sel: ChildSel) -> (r: bool)
    requires
        t.wf(),
        c < t.nodes@.len(),
    ensures
        r == sel_hits(sel, t.nodes@, c as int),
{
    match sel {
        ChildSel::FuncPart => !(t.kind_is(c, "(") || t.kind_is(c, ")") || t.kind_is(c, ",")),
        ChildSel::ArgsPart => t.kind_is(c, "argument_list") || t.kind_is(c, "arguments"),
        ChildSel::NotParen => !(t.kind_is(c, "(") || t.kind_is(c, ")")),
        ChildSel::NotAwaitKw => !t.kind_is(c, "await"),
        ChildSel::NotExtendsKw => !t.kind_is(c, "extends"),
        ChildSel::NotReturnKw => !t.kind_is(c, "return"),
        ChildSel::NameLike => t.kind_is(c, "identifier") || t.kind_is(c, "name"),
        ChildSel::AnnotationsNode => t.kind_is(c, "annotations"),
        ChildSel::IdentifierKind => t.kind_is(c, "identifier"),
        ChildSel::TypeKind => t.kind_is(c, "type"),
        ChildSel::DefaultValue => t.is_named(c) && !t.kind_is(c, "identifier") && !t.kind_is(
            c,
            "type",
        ),
        ChildSel::NotElseKw => !t.kind_is(c, "else"),
    }
}

/// Exec lookup of `first_child_where`.
pub(crate) fn first_child_sel(t: &SynTree, i: usize, sel: ChildSel) -> (r: Option<usize>)
    requires
        t.wf(),
        i < t.nodes@.len(),
    ensures
        match r {
            Some(c) => first_child_where(t.nodes@, i as int, sel) == Some(c as int) && i < c
                < t.nodes@.len(),
            None => first_child_where(t.nodes@, i as int, sel) is None,
        },
{
    let ghost cs = t.nodes@[i as int].children@;
    let n = t.child_count(i);
    let mut k: usize = 0;
    while k < n
        invariant
            0 <= k <= n,
            t.wf(),
            i < t.nodes@.len(),
            cs == t.nodes@[i as int].children@,
            n == cs.len(),
            forall|j: int| 0 <= j < k ==> !sel_hits(sel, t.nodes@, #[trigger] cs[j] as int),
        decreases n - k,
    {
        let c = t.child(i, k);
        if sel_test(t, c, sel) {
            proof {
                assert(0 <= k < cs.len() && sel_hits(sel, t.nodes@, cs[k as int] as int)
                    && forall|j: int| 0 <= j < k ==> !sel_hits(sel, t.nodes@, #[trigger] cs[j] as int));
                let k2 = choose|k2: int|
                    0 <= k2 < cs.len() && sel_hits(sel, t.nodes@, #[trigger] cs[k2] as int)
                        && forall|j: int|
                        0 <= j < k2 ==> !sel_hits(sel, t.nodes@, #[trigger] cs[j] as int);
                if k2 < k {
                    assert(!sel_hits(sel, t.nodes@, cs[k2] as int));
                }
                if (k as int) < k2 {
                    assert(!sel_hits(sel, t.nodes@, cs[k as int] as int));
                }
                assert(k2 == k);
            }
            return Some(c);
        }
        k += 1;
    }
    None
}

/// Last child of `i` that the selector hits, if any.
pub open spec fn last_child_where(t: Seq<SynNode>, i: int, sel: ChildSel) -> Option<int> {
    let cs = t[i].children@;
    if exists|k: int| 0 <= k < cs.len() && sel_hits(sel, t, #[trigger] cs[k] as int) {
        let k = choose|k: int|
            0 <= k < cs.len() && sel_hits(sel, t, #[trigger] cs[k] as int) && forall|j: int|
                k < j < cs.len() ==> !sel_hits(sel, t, #[trigger] cs[j] as int);
        Some(cs[k] as int)
    } else {
        None
    }
}

/// Exec lookup of `last_child_where`.
pub(crate) fn last_child_sel(t: &SynTree, i: usize, sel: ChildSel) -> (r: Option<usize>)
    requires
        t.wf(),
        i < t.nodes@.len(),
    ensures
        match r {
            Some(c) => last_child_where(t.nodes@, i as int, sel) == Some(c as int) && i < c
                < t.nodes@.len(),
            None => last_child_where(t.nodes@, i as int, sel) is None,
        },
{
    let ghost cs = t.nodes@[i as int].children@;
    let n = t.child_count(i);
    let mut k: usize = n;
    while k > 0
        invariant
            0 <= k <= n,
            t.wf(),
            i < t.nodes@.len(),
            cs == t.nodes@[i as int].children@,
            n == cs.len(),
            forall|j: int| k <= j < cs.len() ==> !sel_hits(sel, t.nodes@, #[trigger] cs[j] as int),
        decreases k,
    {
        let c = t.child(i, k - 1);
        if sel_test(t, c, sel) {
            proof {
                assert(0 <= k - 1 < cs.len() && sel_hits(sel, t.nodes@, cs[k - 1] as int)
                    && forall|j: int|
                    k - 1 < j < cs.len() ==> !sel_hits(sel, t.nodes@, #[trigger] cs[j] as int));
                let k2 = choose|k2: int|
                    0 <= k2 < cs.len() && sel_hits(sel, t.nodes@, #[trigger] cs[k2] as int)
                        && forall|j: int|
                        k2 < j < cs.len() ==> !sel_hits(sel, t.nodes@, #[trigger] cs[j] as int);
                if k2 < k - 1 {
                    assert(!sel_hits(sel, t.nodes@, cs[k2] as int));
                }
                if k - 1 < k2 {
                    assert(!sel_hits(sel, t.nodes@, cs[k - 1] as int));
                }
                assert(k2 == k - 1);
            }
            return Some(c);
        }
        k -= 1;
    }
    None
}

/// Join rendered parts with a separator.
pub(crate) fn join_strs(parts: &Vec<String>, sep: &str) -> (r: String)
    ensures
        r@ == join_with(parts.deep_view(), sep@),
{
    let ghost pv = parts.deep_view();
    let n = parts.len();
    let mut out = String::new();
    let mut k: usize = 0;
    proof {
        assert(pv.take(0) =~= Seq::<Seq<char>>::empty());
    }
    while k < n
        invariant
            0 <= k <= n,
            n == parts@.len(),
            pv == parts.deep_view(),
            out@ == join_with(pv.take(k as int), sep@),
        decreases n - k,
    {
        proof {
            assert(pv.take(k + 1).drop_last() =~= pv.take(k as int));
            assert(pv.take(k + 1).last() == parts@[k as int]@);
        }
        if k > 0 {
            out.append(sep);
        }
        out.append(parts[k].as_str());
        proof {
            if k == 0 {
                assert(join_with(pv.take(1), sep@) == pv.take(1)[0]);
            }
        }
        k += 1;
    }
    proof {
        assert(pv.take(n as int) =~= pv);
    }
    out
}

/// The multi-line argument block of a call.
fn ml_args_text(args: &Vec<String>, inner: &str) -> (r: String)
    ensures
        r@ == spec_ml_args(args.deep_view(), inner@),
{
    let ghost av = args.deep_view();
    let n = args.len();
    let mut out = String::new();
    let mut k: usize = 0;
    proof {
        assert(av.take(0) =~= Seq::<Seq<char>>::empty());
    }
    while k < n
        invariant
            0 <= k <= n,
            n == args@.len(),
            av == args.deep_view(),
            out@ == spec_ml_args(av.take(k as int), inner@),
        decreases n - k,
    {
        proof {
            assert(av.take(k + 1).drop_last() =~= av.take(k as int));
            assert(av.take(k + 1).last() == args@[k as int]@);
        }
        out.append(inner);
        out.append(args[k].as_str());
        out.append(",\n");
        proof {
            reveal_strlit(",\n");
        }
        k += 1;
    }
    proof {
        assert(av.take(n as int) =~= av);
    }
    out
}

/// Render `func` applied to `args`, single-line or multi-line.
fn call_with(func: String, args: &Vec<String>, trailing: bool, opts: &FormatOptions, ind: usize) -> (r:
    String)
    ensures
        r@ == spec_call_with(func@, args.deep_view(), trailing, *opts, ind as int),
{
    if args.len() == 0 {
        proof {
            assert(args.deep_view().len() == 0);
        }
        func.concat("()")
    } else if trailing {
        proof {
            assert(args.deep_view().len() == args@.len());
        }
        let indstr = indent_text(opts, ind);
        let inner = indent_text(opts, ind).concat("\t");
        proof {
            reveal_strlit("\t");
            assert("\t"@ =~= seq!['\t']);
        }
        let block = ml_args_text(args, inner.as_str());
        func.concat("(\n").concat(block.as_str()).concat(indstr.as_str()).concat(")")
    } else {
        proof {
            assert(args.deep_view().len() == args@.len());
        }
        let joined = join_strs(args, ", ");
        func.concat("(").concat(joined.as_str()).concat(")")
    }
}

/// Format the expressions of an already-filtered child index list.
#[verifier::rlimit(60)]
fn exprs_of(t: &SynTree, picked: &Vec<usize>, opts: &FormatOptions, ind: usize, lo: usize) -> (r:
    Vec<String>)
    requires
        t.wf(),
        lo < t.nodes@.len(),
        forall|j: int| 0 <= j < picked@.len() ==> lo < #[trigger] picked@[j] < t.nodes@.len(),
    ensures
        r.deep_view() == spec_exprs_of(t.nodes@, idxs(picked@), *opts, ind as int, lo as int),
    decreases t.nodes@.len() - lo, 7int, 0int,
{
    let n = picked.len();
    let mut out: Vec<String> = Vec::new();
    let mut k: usize = 0;
    proof {
        assert(idxs(picked@.take(0)) =~= Seq::<int>::empty());
        assert(out.deep_view() =~= Seq::<Seq<char>>::empty());
    }
    while k < n
        invariant
            0 <= k <= n,
            t.wf(),
            lo < t.nodes@.len(),
            n == picked@.len(),
            forall|j: int| 0 <= j < picked@.len() ==> lo < #[trigger] picked@[j] < t.nodes@.len(),
            out.deep_view() == spec_exprs_of(
                t.nodes@,
                idxs(picked@.take(k as int)),
                *opts,
                ind as int,
                lo as int,
            ),
        decreases n - k,
    {
        let c = picked[k];
        let e = format_expression(t, c, opts, ind);
        let ghost before = out.deep_view();
        out.push(e);
        proof {
            let pk1 = idxs(picked@.take(k + 1));
            assert(pk1.drop_last() =~= idxs(picked@.take(k as int)));
            assert(pk1.last() == picked@[k as int] as int);
            assert forall|j: int| 0 <= j < pk1.len() implies lo < #[trigger] pk1[j]
                < t.nodes@.len() by {
                assert(pk1[j] == picked@[j] as int);
            }
            assert(out.deep_view() =~= before.push(
                spec_expr(t.nodes@, picked@[k as int] as int, *opts, ind as int),
            ));
            assert(out.deep_view() =~= spec_exprs_of(
                t.nodes@,
                idxs(picked@.take(k as int)),
                *opts,
                ind as int,
                lo as int,
            ) + seq![spec_expr(t.nodes@, pk1.last(), *opts, ind as int)]);
        }
        k += 1;
    }
    proof {
        assert(picked@.take(n as int) =~= picked@);
    }
    out
}

/// Format the pairs of an already-filtered child index list.
#[verifier::rlimit(60)]
fn pairs_of(t: &SynTree, picked: &Vec<usize>, opts: &FormatOptions, ind: usize, lo: usize) -> (r:
    Vec<String>)
    requires
        t.wf(),
        lo < t.nodes@.len(),
        forall|j: int| 0 <= j < picked@.len() ==> lo < #[trigger] picked@[j] < t.nodes@.len(),
    ensures
        r.deep_view() == spec_pairs_of(t.nodes@, idxs(picked@), *opts, ind as int, lo as int),
    decreases t.nodes@.len() - lo, 7int, 1int,
{
    let n = picked.len();
    let mut out: Vec<String> = Vec::new();
    let mut k: usize = 0;
    proof {
        assert(idxs(picked@.take(0)) =~= Seq::<int>::empty());
        assert(out.deep_view() =~= Seq::<Seq<char>>::empty());
    }
    while k < n
        invariant
            0 <= k <= n,
            t.wf(),
            lo < t.nodes@.len(),
            n == picked@.len(),
            forall|j: int| 0 <= j < picked@.len() ==> lo < #[trigger] picked@[j] < t.nodes@.len(),
            out.deep_view() == spec_pairs_of(
                t.nodes@,
                idxs(picked@.take(k as int)),
                *opts,
                ind as int,
                lo as int,
            ),
        decreases n - k,
    {
        let c = picked[k];
        let e = format_pair(t, c, opts, ind);
        let ghost before = out.deep_view();
        out.push(e);
        proof {
            let pk1 = idxs(picked@.take(k + 1));
            assert(pk1.drop_last() =~= idxs(picked@.take(k as int)));
            assert(pk1.last() == picked@[k as int] as int);
            assert forall|j: int| 0 <= j < pk1.len() implies lo < #[trigger] pk1[j]
                < t.nodes@.len() by {
                assert(pk1[j] == picked@[j] as int);
            }
            assert(out.deep_view() =~= before.push(
                spec_pair(t.nodes@, picked@[k as int] as int, *opts, ind as int),
            ));
            assert(out.deep_view() =~= spec_pairs_of(
                t.nodes@,
                idxs(picked@.take(k as int)),
                *opts,
                ind as int,
                lo as int,
            ) + seq![spec_pair(t.nodes@, pk1.last(), *opts, ind as int)]);
        }
        k += 1;
    }
    proof {
        assert(picked@.take(n as int) =~= picked@);
    }
    out
}

/// Format an expression and return it as a string.
pub fn format_expression(t: &SynTree, i: usize, opts: &FormatOptions, ind: usize) -> (r: String)
    requires
        t.wf(),
        i < t.nodes@.len(),
    ensures
        r@ == spec_expr(t.nodes@, i as int, *opts, ind as int),
    decreases t.nodes@.len() - i, 9int, 0int,
{
    if t.kind_is(i, "integer") || t.kind_is(i, "float") || t.kind_is(i, "string") || t.kind_is(
        i,
        "true",
    ) || t.kind_is(i, "false") || t.kind_is(i, "null") || t.kind_is(i, "identifier") || t.kind_is(
        i,
        "name",
    ) {
        t.text(i).to_owned()
    } else if t.kind_is(i, "self") {
        "self".to_owned()
    } else if t.kind_is(i, "binary_operator") {
        format_binary(t, i, opts, ind)
    } else if t.kind_is(i, "unary_operator") {
        format_unary(t, i, opts, ind)
    } else if t.kind_is(i, "comparison_operator") {
        format_comparison(t, i, opts, ind)
    } else if t.kind_is(i, "boolean_operator") {
        format_boolean(t, i, opts, ind)
    } else if t.kind_is(i, "call") {
        format_call(t, i, opts, ind)
    } else if t.kind_is(i, "attribute") {
        format_attribute(t, i, opts, ind)
    } else if t.kind_is(i, "subscript") {
        format_subscript(t, i, opts, ind)
    } else if t.kind_is(i, "array") {
        format_array(t, i, opts, ind)
    } else if t.kind_is(i, "dictionary") {
        format_dictionary(t, i, opts, ind)
    } else if t.kind_is(i, "parenthesized_expression") {
        format_parenthesized(t, i, opts, ind)
    } else if t.kind_is(i, "assignment") {
        format_assignment(t, i, opts, ind)
    } else if t.kind_is(i, "augmented_assignment") {
        format_augmented(t, i, opts, ind)
    } else if t.kind_is(i, "conditional_expression") || t.kind_is(i, "ternary_expression") {
        format_ternary(t, i, opts, ind)
    } else if t.kind_is(i, "lambda") {
        t.text(i).to_owned()
    } else if t.kind_is(i, "cast") {
        format_cast(t, i, opts, ind)
    } else if t.kind_is(i, "await") || t.kind_is(i, "await_expression") {
        format_await(t, i, opts, ind)
    } else if t.kind_is(i, "get_node") {
        t.text(i).to_owned()
    } else {
        t.text(i).to_owned()
    }
}

/// `{a} {b} {c}`.
fn sp3_text(a: String, b: &str, c: &str) -> (r: String)
    ensures
        r@ == sp3(a@, b@, c@),
{
    proof {
        reveal_strlit(" ");
    }
    a.concat(" ").concat(b).concat(" ").concat(c)
}

fn format_binary(t: &SynTree, i: usize, opts: &FormatOptions, ind: usize) -> (r: String)
    requires
        t.wf(),
        i < t.nodes@.len(),
    ensures
        r@ == spec_binary(t.nodes@, i as int, *opts, ind as int),
    decreases t.nodes@.len() - i, 8int, 0int,
{
    proof {
        assert(crate::tree::node_wf(t.nodes@, i as int));
        assert(node_ok(t.nodes@, i as int));
    }
    let fl = get_field_child(t, i, "left");
    let fo = get_field_child(t, i, "operator");
    let fr = get_field_child(t, i, "right");
    if let (Some(l), Some(o), Some(rr)) = (fl, fo, fr) {
        let lt = format_expression(t, l, opts, ind);
        let rt = format_expression(t, rr, opts, ind);
        return sp3_text(lt, t.text(o), rt.as_str());
    }
    let n = t.child_count(i);
    if n == 4 {
        let c1 = t.child(i, 1);
        let c2 = t.child(i, 2);
        if t.kind_is(c1, "not") && t.kind_is(c2, "in") {
            let c0 = t.child(i, 0);
            let c3 = t.child(i, 3);
            let lt = format_expression(t, c0, opts, ind);
            let rt = format_expression(t, c3, opts, ind);
            return sp3_text(lt, "not in", rt.as_str());
        }
        if t.kind_is(c1, "is") && t.kind_is(c2, "not") {
            let c0 = t.child(i, 0);
            let c3 = t.child(i, 3);
            let lt = format_expression(t, c0, opts, ind);
            let rt = format_expression(t, c3, opts, ind);
            return sp3_text(lt, "is not", rt.as_str());
        }
    }
    if n >= 3 {
        let c0 = t.child(i, 0);
        let c1 = t.child(i, 1);
        let c2 = t.child(i, 2);
        let lt = format_expression(t, c0, opts, ind);
        let op = text::trim(t.text(c1));
        let rt = format_expression(t, c2, opts, ind);
        return sp3_text(lt, op.as_str(), rt.as_str());
    }
    t.text(i).to_owned()
}

fn format_unary(t: &SynTree, i: usize, opts: &FormatOptions, ind: usize) -> (r: String)
    requires
        t.wf(),
        i < t.nodes@.len(),
    ensures
        r@ == spec_unary(t.nodes@, i as int, *opts, ind as int),
    decreases t.nodes@.len() - i, 8int, 0int,
{
    proof {
        assert(crate::tree::node_wf(t.nodes@, i as int));
        assert(node_ok(t.nodes@, i as int));
    }
    let n = t.child_count(i);
    if n >= 2 {
        let c0 = t.child(i, 0);
        let c1 = t.child(i, 1);
        let operand = format_expression(t, c1, opts, ind);
        if text::str_eq(t.text(c0), "not") {
            "not ".to_owned().concat(operand.as_str())
        } else {
            t.text(c0).to_owned().concat(operand.as_str())
        }
    } else {
        t.text(i).to_owned()
    }
}

fn format_comparison(t: &SynTree, i: usize, opts: &FormatOptions, ind: usize) -> (r: String)
    requires
        t.wf(),
        i < t.nodes@.len(),
    ensures
        r@ == spec_comparison(t.nodes@, i as int, *opts, ind as int),
    decreases t.nodes@.len() - i, 8int, 0int,
{
    proof {
        assert(crate::tree::node_wf(t.nodes@, i as int));
        assert(node_ok(t.nodes@, i as int));
    }
    let n = t.child_count(i);
    let mut out = String::new();
    let mut k: usize = 0;
    while k < n
        invariant
            0 <= k <= n,
            t.wf(),
            i < t.nodes@.len(),
            n == t.nodes@[i as int].children@.len(),
            spec_comparison(t.nodes@, i as int, *opts, ind as int) == spec_comparison_parts(
                t.nodes@,
                i as int,
                k as int,
                *opts,
                ind as int,
                out@,
            ),
        decreases n - k,
    {
        proof {
            assert(crate::tree::node_wf(t.nodes@, i as int));
            assert(node_ok(t.nodes@, i as int));
        }
        let c = t.child(i, k);
        let part = if k % 2 == 0 {
            format_expression(t, c, opts, ind)
        } else {
            t.text(c).to_owned()
        };
        if k == 0 {
            out = part;
        } else {
            proof {
                reveal_strlit(" ");
            }
            out = out.concat(" ").concat(part.as_str());
        }
        k += 1;
    }
    out
}

fn format_boolean(t: &SynTree, i: usize, opts: &FormatOptions, ind: usize) -> (r: String)
    requires
        t.wf(),
        i < t.nodes@.len(),
    ensures
        r@ == spec_boolean(t.nodes@, i as int, *opts, ind as int),
    decreases t.nodes@.len() - i, 8int, 0int,
{
    let fl = get_field_child(t, i, "left");
    let fo = get_field_child(t, i, "operator");
    let fr = get_field_child(t, i, "right");
    if let (Some(l), Some(o), Some(rr)) = (fl, fo, fr) {
        let lt = format_expression(t, l, opts, ind);
        let rt = format_expression(t, rr, opts, ind);
        sp3_text(lt, t.text(o), rt.as_str())
    } else {
        t.text(i).to_owned()
    }
}

fn format_attribute(t: &SynTree, i: usize, opts: &FormatOptions, ind: usize) -> (r: String)
    requires
        t.wf(),
        i < t.nodes@.len(),
    ensures
        r@ == spec_attribute(t.nodes@, i as int, *opts, ind as int),
    decreases t.nodes@.len() - i, 8int, 0int,
{
    let fo = get_field_child(t, i, "object");
    let fa = get_field_child(t, i, "attribute");
    if let (Some(o), Some(a)) = (fo, fa) {
        let ot = format_expression(t, o, opts, ind);
        proof {
            reveal_strlit(".");
        }
        ot.concat(".").concat(t.text(a))
    } else {
        t.text(i).to_owned()
    }
}

fn format_subscript(t: &SynTree, i: usize, opts: &FormatOptions, ind: usize) -> (r: String)
    requires
        t.wf(),
        i < t.nodes@.len(),
    ensures
        r@ == spec_subscript(t.nodes@, i as int, *opts, ind as int),
    decreases t.nodes@.len() - i, 8int, 0int,
{
    let fv = get_field_child(t, i, "value");
    let fs = get_field_child(t, i, "subscript");
    if let (Some(v), Some(s)) = (fv, fs) {
        let vt = format_expression(t, v, opts, ind);
        let st = format_expression(t, s, opts, ind);
        vt.concat("[").concat(st.as_str()).concat("]")
    } else {
        t.text(i).to_owned()
    }
}

fn format_parenthesized(t: &SynTree, i: usize, opts: &FormatOptions, ind: usize) -> (r: String)
    requires
        t.wf(),
        i < t.nodes@.len(),
    ensures
        r@ == spec_parenthesized(t.nodes@, i as int, *opts, ind as int),
    decreases t.nodes@.len() - i, 8int, 0int,
{
    match first_child_sel(t, i, ChildSel::NotParen) {
        Some(c) => {
            let et = format_expression(t, c, opts, ind);
            "(".to_owned().concat(et.as_str()).concat(")")
        },
        None => t.text(i).to_owned(),
    }
}

fn format_assignment(t: &SynTree, i: usize, opts: &FormatOptions, ind: usize) -> (r: String)
    requires
        t.wf(),
        i < t.nodes@.len(),
    ensures
        r@ == spec_assignment(t.nodes@, i as int, *opts, ind as int),
    decreases t.nodes@.len() - i, 8int, 0int,
{
    let fl = get_field_child(t, i, "left");
    let fr = get_field_child(t, i, "right");
    if let (Some(l), Some(rr)) = (fl, fr) {
        let lt = format_expression(t, l, opts, ind);
        let rt = format_expression(t, rr, opts, ind);
        lt.concat(" = ").concat(rt.as_str())
    } else {
        t.text(i).to_owned()
    }
}

fn format_augmented(t: &SynTree, i: usize, opts: &FormatOptions, ind: usize) -> (r: String)
    requires
        t.wf(),
        i < t.nodes@.len(),
    ensures
        r@ == spec_augmented(t.nodes@, i as int, *opts, ind as int),
    decreases t.nodes@.len() - i, 8int, 0int,
{
    let fl = get_field_child(t, i, "left");
    let fo = get_field_child(t, i, "operator");
    let fr = get_field_child(t, i, "right");
    if let (Some(l), Some(o), Some(rr)) = (fl, fo, fr) {
        let lt = format_expression(t, l, opts, ind);
        let rt = format_expression(t, rr, opts, ind);
        sp3_text(lt, t.text(o), rt.as_str())
    } else {
        t.text(i).to_owned()
    }
}

fn format_ternary(t: &SynTree, i: usize, opts: &FormatOptions, ind: usize) -> (r: String)
    requires
        t.wf(),
        i < t.nodes@.len(),
    ensures
        r@ == spec_ternary(t.nodes@, i as int, *opts, ind as int),
    decreases t.nodes@.len() - i, 8int, 0int,
{
    proof {
        assert(crate::tree::node_wf(t.nodes@, i as int));
        assert(node_ok(t.nodes@, i as int));
    }
    let ft = get_field_child(t, i, "true");
    let fc = get_field_child(t, i, "condition");
    let ff = get_field_child(t, i, "false");
    if let (Some(tv), Some(cv), Some(fv)) = (ft, fc, ff) {
        let tt = format_expression(t, tv, opts, ind);
        let ct = format_expression(t, cv, opts, ind);
        let et = format_expression(t, fv, opts, ind);
        return tt.concat(" if ").concat(ct.as_str()).concat(" else ").concat(et.as_str());
    }
    let n = t.child_count(i);
    if n >= 5 {
        let c0 = t.child(i, 0);
        let c2 = t.child(i, 2);
        let c4 = t.child(i, 4);
        let tt = format_expression(t, c0, opts, ind);
        let ct = format_expression(t, c2, opts, ind);
        let et = format_expression(t, c4, opts, ind);
        tt.concat(" if ").concat(ct.as_str()).concat(" else ").concat(et.as_str())
    } else {
        t.text(i).to_owned()
    }
}

fn format_cast(t: &SynTree, i: usize, opts: &FormatOptions, ind: usize) -> (r: String)
    requires
        t.wf(),
        i < t.nodes@.len(),
    ensures
        r@ == spec_cast(t.nodes@, i as int, *opts, ind as int),
    decreases t.nodes@.len() - i, 8int, 0int,
{
    let fv = get_field_child(t, i, "value");
    let ft = get_field_child(t, i, "type");
    if let (Some(v), Some(ty)) = (fv, ft) {
        let vt = format_expression(t, v, opts, ind);
        vt.concat(" as ").concat(t.text(ty))
    } else {
        t.text(i).to_owned()
    }
}

fn format_await(t: &SynTree, i: usize, opts: &FormatOptions, ind: usize) -> (r: String)
    requires
        t.wf(),
        i < t.nodes@.len(),
    ensures
        r@ == spec_await(t.nodes@, i as int, *opts, ind as int),
    decreases t.nodes@.len() - i, 8int, 0int,
{
    match first_child_sel(t, i, ChildSel::NotAwaitKw) {
        Some(c) => {
            let et = format_expression(t, c, opts, ind);
            "await ".to_owned().concat(et.as_str())
        },
        None => t.text(i).to_owned(),
    }
}

#[verifier::rlimit(60)]
fn format_call(t: &SynTree, i: usize, opts: &FormatOptions, ind: usize) -> (r: String)
    requires
        t.wf(),
        i < t.nodes@.len(),
    ensures
        r@ == spec_call(t.nodes@, i as int, *opts, ind as int),
    decreases t.nodes@.len() - i, 8int, 0int,
{
    let src = t.text(i);
    if text::contains_char(src, '#') {
        return src.to_owned();
    }
    let trailing = match get_field_child(t, i, "arguments") {
        Some(a) => has_trailing_comma(t, a),
        None => false,
    };
    let ff = get_field_child(t, i, "function");
    let fa = get_field_child(t, i, "arguments");
    if let (Some(f), Some(a)) = (ff, fa) {
        let func = format_expression(t, f, opts, ind);
        let picked = filter_children(t, a, Excl::Parens);
        let args = exprs_of(t, &picked, opts, ind, a);
        return call_with(func, &args, trailing, opts, ind);
    }
    if let Some(f) = ff {
        let func = format_expression(t, f, opts, ind);
        return func.concat("()");
    }
    let fn_c = first_child_sel(t, i, ChildSel::FuncPart);
    let an_c = first_child_sel(t, i, ChildSel::ArgsPart);
    match fn_c {
        Some(f) => {
            let func = format_expression(t, f, opts, ind);
            match an_c {
                Some(a) => {
                    let picked = filter_children(t, a, Excl::Parens);
                    let args = exprs_of(t, &picked, opts, ind, a);
                    call_with(func, &args, trailing, opts, ind)
                },
                None => {
                    let args = direct_args(t, i, f, opts, ind);
                    call_with(func, &args, trailing, opts, ind)
                },
            }
        },
        None => t.text(i).to_owned(),
    }
}

/// Collect call arguments straight from the call's children.
fn direct_args(t: &SynTree, i: usize, func_c: usize, opts: &FormatOptions, ind: usize) -> (r: Vec<
    String,
>)
    requires
        t.wf(),
        i < t.nodes@.len(),
    ensures
        r.deep_view() == spec_direct_args(
            t.nodes@,
            i as int,
            0,
            func_c as int,
            *opts,
            ind as int,
            Seq::empty(),
        ),
    decreases t.nodes@.len() - i, 7int, 2int,
{
    proof {
        assert(crate::tree::node_wf(t.nodes@, i as int));
        assert(node_ok(t.nodes@, i as int));
    }
    let n = t.child_count(i);
    let mut out: Vec<String> = Vec::new();
    let mut k: usize = 0;
    proof {
        assert(out.deep_view() =~= Seq::<Seq<char>>::empty());
    }
    while k < n
        invariant
            0 <= k <= n,
            t.wf(),
            i < t.nodes@.len(),
            n == t.nodes@[i as int].children@.len(),
            spec_direct_args(
                t.nodes@,
                i as int,
                0,
                func_c as int,
                *opts,
                ind as int,
                Seq::empty(),
            ) == spec_direct_args(
                t.nodes@,
                i as int,
                k as int,
                func_c as int,
                *opts,
                ind as int,
                out.deep_view(),
            ),
        decreases n - k,
    {
        proof {
            assert(crate::tree::node_wf(t.nodes@, i as int));
            assert(node_ok(t.nodes@, i as int));
        }
        let c = t.child(i, k);
        let skip = t.kind_is(c, "(") || t.kind_is(c, ")") || t.kind_is(c, ",") || t.kind_is(
            c,
            "identifier",
        ) || t.kind_is(c, "attribute") || c == func_c;
        if !skip {
            let e = format_expression(t, c, opts, ind);
            let ghost before = out.deep_view();
            out.push(e);
            proof {
                assert(out.deep_view() =~= before.push(
                    spec_expr(t.nodes@, c as int, *opts, ind as int),
                ));
            }
        }
        k += 1;
    }
    out
}

/// Format array literal.
fn format_array(t: &SynTree, i: usize, opts: &FormatOptions, ind: usize) -> (r: String)
    requires
        t.wf(),
        i < t.nodes@.len(),
    ensures
        r@ == spec_array(t.nodes@, i as int, *opts, ind as int),
    decreases t.nodes@.len() - i, 8int, 0int,
{
    let src = t.text(i);
    if text::contains_char(src, '#') {
        return src.to_owned();
    }
    let picked = filter_children(t, i, Excl::Brackets);
    let elements = exprs_of(t, &picked, opts, ind, i);
    proof {
        assert(elements.deep_view().len() == elements@.len());
    }
    if elements.len() == 0 {
        return "[]".to_owned();
    }
    if has_trailing_comma(t, i) {
        let indstr = indent_text(opts, ind);
        let unit = opts.indent_style.as_str();
        let inner = indent_text(opts, ind).concat(unit.as_str());
        let sep = ",\n".to_owned().concat(inner.as_str());
        let joined = join_strs(&elements, sep.as_str());
        proof {
            reveal_strlit(",\n");
        }
        "[\n".to_owned().concat(inner.as_str()).concat(joined.as_str()).concat(",\n").concat(
            indstr.as_str(),
        ).concat("]")
    } else {
        let joined = join_strs(&elements, ", ");
        "[".to_owned().concat(joined.as_str()).concat("]")
    }
}

/// Format a dictionary key-value pair.
fn format_pair(t: &SynTree, i: usize, opts: &FormatOptions, ind: usize) -> (r: String)
    requires
        t.wf(),
        i < t.nodes@.len(),
    ensures
        r@ == spec_pair(t.nodes@, i as int, *opts, ind as int),
    decreases t.nodes@.len() - i, 8int, 0int,
{
    let fk = get_field_child(t, i, "key");
    let fv = get_field_child(t, i, "value");
    if let (Some(k), Some(v)) = (fk, fv) {
        let kt = format_expression(t, k, opts, ind);
        let vt = format_expression(t, v, opts, ind);
        return kt.concat(": ").concat(vt.as_str());
    }
    let picked = filter_children(t, i, Excl::Colon);
    proof {
        assert(idxs(picked@).len() == picked@.len());
        if picked@.len() >= 2 {
            assert(idxs(picked@)[0] == picked@[0] as int);
            assert(idxs(picked@)[1] == picked@[1] as int);
        }
    }
    if picked.len() >= 2 {
        let kt = format_expression(t, picked[0], opts, ind);
        let vt = format_expression(t, picked[1], opts, ind);
        kt.concat(": ").concat(vt.as_str())
    } else {
        t.text(i).to_owned()
    }
}

/// Format dictionary literal.
fn format_dictionary(t: &SynTree, i: usize, opts: &FormatOptions, ind: usize) -> (r: String)
    requires
        t.wf(),
        i < t.nodes@.len(),
    ensures
        r@ == spec_dictionary(t.nodes@, i as int, *opts, ind as int),
    decreases t.nodes@.len() - i, 8int, 0int,
{
    let src = t.text(i);
    if text::contains_char(src, '#') {
        return src.to_owned();
    }
    let picked = filter_children(t, i, Excl::Braces);
    let pairs = pairs_of(t, &picked, opts, ind, i);
    proof {
        assert(pairs.deep_view().len() == pairs@.len());
    }
    if pairs.len() == 0 {
        return "{}".to_owned();
    }
    if has_trailing_comma(t, i) {
        let indstr = indent_text(opts, ind);
        let unit = opts.indent_style.as_str();
        let inner = indent_text(opts, ind).concat(unit.as_str());
        let sep = ",\n".to_owned().concat(inner.as_str());
        let joined = join_strs(&pairs, sep.as_str());
        proof {
            reveal_strlit(",\n");
        }
        "{\n".to_owned().concat(inner.as_str()).concat(joined.as_str()).concat(",\n").concat(
            indstr.as_str(),
        ).concat("}")
    } else {
        let joined = join_strs(&pairs, ", ");
        "{ ".to_owned().concat(joined.as_str()).concat(" }")
    }
}

} // verus!
