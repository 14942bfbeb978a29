//! Declarations without a nested body: `signal`, `var`, `const`, `enum`,
//! and the parameter shapes shared with function signatures.

use vstd::prelude::*;

use crate::format::context::{ctx_stable, out_view, FormatContext};
use crate::format::expressions::{
    field_child, filter_children, first_child_sel, first_child_where, format_expression,
    get_field_child, idxs, in_rng, ind_of, join_strs, join_with, last_child_sel,
    last_child_where, node_ok, spec_expr, spec_filter_children, ChildSel, Excl,
};
use crate::format::options::FormatOptions;
use crate::format::statements::pushm;
use crate::format::verbatim::{format_verbatim, spec_verbatim};
use crate::text;
use crate::text::{has_colon_eq, spec_trim, spec_trim_end};
use crate::tree::{arena_wf, named_children_of, SynNode, SynTree};

verus! {

/// A parameter in one of its four shapes: bare, typed, defaulted, or typed
/// and defaulted.
pub open spec fn spec_param_typed(t: Seq<SynNode>, p: int) -> Seq<char> {
    let nm = match field_child(t, p, "name"@) {
        Some(c) => t[c].text@,
        None => {
            let nc = named_children_of(t, p);
            if nc.len() > 0 && t[nc[0] as int].kind@ == "identifier"@ {
                t[nc[0] as int].text@
            } else {
                "_"@
            }
        },
    };
    let ty = match field_child(t, p, "type"@) {
        Some(c) => ": "@ + spec_trim(t[c].text@),
        None => Seq::empty(),
    };
    nm + ty
}

pub open spec fn spec_param_default(t: Seq<SynNode>, p: int, opts: FormatOptions, ind: int) -> Seq<
    char,
>
    decreases t.len() - p, 8int, 1int
        when 0 <= p < t.len() && arena_wf(t)
{
    let nc = named_children_of(t, p);
    let nm = if nc.len() > 0 && t[nc[0] as int].kind@ == "identifier"@ {
        t[nc[0] as int].text@
    } else {
        "_"@
    };
    let dv = if nc.len() > 0 && t[nc[nc.len() - 1] as int].kind@ != "identifier"@ && in_rng(
        t,
        p,
        nc[nc.len() - 1] as int,
    ) {
        spec_expr(t, nc[nc.len() - 1] as int, opts, ind)
    } else {
        "null"@
    };
    nm + " = "@ + dv
}

pub open spec fn spec_param_typed_default(
    t: Seq<SynNode>,
    p: int,
    opts: FormatOptions,
    ind: int,
) -> Seq<char>
    decreases t.len() - p, 8int, 1int
        when 0 <= p < t.len() && arena_wf(t)
{
    let nm = match first_child_where(t, p, ChildSel::IdentifierKind) {
        Some(c) => t[c].text@,
        None => "_"@,
    };
    let ty = match first_child_where(t, p, ChildSel::TypeKind) {
        Some(c) => ": "@ + spec_trim(t[c].text@),
        None => Seq::empty(),
    };
    let dv = match last_child_where(t, p, ChildSel::DefaultValue) {
        Some(c) => if in_rng(t, p, c) {
            spec_expr(t, c, opts, ind)
        } else {
            "null"@
        },
        None => "null"@,
    };
    nm + ty + " = "@ + dv
}

pub open spec fn spec_parameter(t: Seq<SynNode>, p: int, opts: FormatOptions, ind: int) -> Seq<char>
    decreases t.len() - p, 8int, 3int
        when 0 <= p < t.len() && arena_wf(t)
{
    let kind = t[p].kind@;
    if kind == "identifier"@ {
        t[p].text@
    } else if kind == "typed_parameter"@ || kind == "typed_identifier"@ {
        spec_param_typed(t, p)
    } else if kind == "default_parameter"@ {
        spec_param_default(t, p, opts, ind)
    } else if kind == "typed_default_parameter"@ {
        spec_param_typed_default(t, p, opts, ind)
    } else {
        spec_trim(t[p].text@)
    }
}

/// Typed parameter `name: Type`.
fn format_param_typed(t: &SynTree, p: usize) -> (r: String)
    requires
        t.wf(),
        p < t.nodes@.len(),
    ensures
        r@ == spec_param_typed(t.nodes@, p as int),
{
    let nm: String = match get_field_child(t, p, "name") {
        Some(c) => t.text(c).to_owned(),
        None => {
            let nc = t.named_children(p);
            if nc.len() > 0 && t.kind_is(nc[0], "identifier") {
                t.text(nc[0]).to_owned()
            } else {
                "_".to_owned()
            }
        },
    };
    match get_field_child(t, p, "type") {
        Some(c) => {
            let ty = text::trim(t.text(c));
            nm.concat(": ").concat(ty.as_str())
        },
        None => nm,
    }
}

/// Defaulted parameter `name = value`.
fn format_param_default(t: &SynTree, p: usize, opts: &FormatOptions, ind: usize) -> (r: String)
    requires
        t.wf(),
        p < t.nodes@.len(),
    ensures
        r@ == spec_param_default(t.nodes@, p as int, *opts, ind as int),
    decreases t.nodes@.len() - p, 8int, 1int,
{
    let nc = t.named_children(p);
    let nm: String = if nc.len() > 0 && t.kind_is(nc[0], "identifier") {
        t.text(nc[0]).to_owned()
    } else {
        "_".to_owned()
    };
    let dv: String = if nc.len() > 0 && !t.kind_is(nc[nc.len() - 1], "identifier") {
        format_expression(t, nc[nc.len() - 1], opts, ind)
    } else {
        "null".to_owned()
    };
    nm.concat(" = ").concat(dv.as_str())
}

/// Typed and defaulted parameter `name: Type = value`.
#[verifier::rlimit(100)]
fn format_param_typed_default(t: &SynTree, p: usize, opts: &FormatOptions, ind: usize) -> (r:
    String)
    requires
        t.wf(),
        p < t.nodes@.len(),
    ensures
        r@ == spec_param_typed_default(t.nodes@, p as int, *opts, ind as int),
    decreases t.nodes@.len() - p, 8int, 1int,
{
    let nm: String = match first_child_sel(t, p, ChildSel::IdentifierKind) {
        Some(c) => t.text(c).to_owned(),
        None => "_".to_owned(),
    };
    let with_ty: String = match first_child_sel(t, p, ChildSel::TypeKind) {
        Some(c) => {
            let ty = text::trim(t.text(c));
            nm.concat(": ").concat(ty.as_str())
        },
        None => nm,
    };
    let dv: String = match last_child_sel(t, p, ChildSel::DefaultValue) {
        Some(c) => format_expression(t, c, opts, ind),
        None => "null".to_owned(),
    };
    with_ty.concat(" = ").concat(dv.as_str())
}

/// Format a single parameter.
pub fn format_parameter(t: &SynTree, p: usize, opts: &FormatOptions, ind: usize) -> (r: String)
    requires
        t.wf(),
        p < t.nodes@.len(),
    ensures
        r@ == spec_parameter(t.nodes@, p as int, *opts, ind as int),
    decreases t.nodes@.len() - p, 8int, 3int,
{
    if t.kind_is(p, "identifier") {
        t.text(p).to_owned()
    } else if t.kind_is(p, "typed_parameter") || t.kind_is(p, "typed_identifier") {
        format_param_typed(t, p)
    } else if t.kind_is(p, "default_parameter") {
        format_param_default(t, p, opts, ind)
    } else if t.kind_is(p, "typed_default_parameter") {
        format_param_typed_default(t, p, opts, ind)
    } else {
        let b = text::trim(t.text(p));
        b
    }
}

/// The formatted parameters of an already-filtered child index list.
pub open spec fn spec_params_of(
    t: Seq<SynNode>,
    picked: Seq<int>,
    opts: FormatOptions,
    ind: int,
    lo: int,
) -> Seq<Seq<char>>
    decreases t.len() - lo, 7int, picked.len()
        when 0 <= lo < t.len() && arena_wf(t)
{
    if picked.len() == 0 {
        Seq::empty()
    } else if forall|j: int| 0 <= j < picked.len() ==> lo < #[trigger] picked[j] < t.len() {
        spec_params_of(t, picked.drop_last(), opts, ind, lo) + seq![
            spec_parameter(t, picked.last(), opts, ind),
        ]
    } else {
        Seq::empty()
    }
}

/// Format the parameters of an already-filtered child index list.
#[verifier::rlimit(60)]
pub fn params_of(t: &SynTree, picked: &Vec<usize>, opts: &FormatOptions, ind: usize, lo: usize) -> (r:
    Vec<String>)
    requires
        t.wf(),
        lo < t.nodes@.len(),
        forall|j: int| 0 <= j < picked@.len() ==> lo < #[trigger] picked@[j] < t.nodes@.len(),
    ensures
        r.deep_view() == spec_params_of(t.nodes@, idxs(picked@), *opts, ind as int, lo as int),
    decreases t.nodes@.len() - lo, 7int, 4int,
{
    let n = picked.len();
    let mut out: Vec<String> = Vec::new();
    let mut k: usize = 0;
    proof {
        assert(idxs(picked@.take(0)) =~= Seq::<int>::empty());
        assert(out.deep_view() =~= Seq::<Seq<char>>::empty());
    }
    while k < n
        invariant
            0 <= k <= n,
            t.wf(),
            lo < t.nodes@.len(),
            n == picked@.len(),
            forall|j: int| 0 <= j < picked@.len() ==> lo < #[trigger] picked@[j] < t.nodes@.len(),
            out.deep_view() == spec_params_of(
                t.nodes@,
                idxs(picked@.take(k as int)),
                *opts,
                ind as int,
                lo as int,
            ),
        decreases n - k,
    {
        let c = picked[k];
        let e = format_parameter(t, c, opts, ind);
        let ghost before = out.deep_view();
        out.push(e);
        proof {
            let pk1 = idxs(picked@.take(k + 1));
            assert(pk1.drop_last() =~= idxs(picked@.take(k as int)));
            assert(pk1.last() == picked@[k as int] as int);
            assert forall|j: int| 0 <= j < pk1.len() implies lo < #[trigger] pk1[j]
                < t.nodes@.len() by {
                assert(pk1[j] == picked@[j] as int);
            }
            assert(out.deep_view() =~= before.push(
                spec_parameter(t.nodes@, picked@[k as int] as int, *opts, ind as int),
            ));
            assert(out.deep_view() =~= spec_params_of(
                t.nodes@,
                idxs(picked@.take(k as int)),
                *opts,
                ind as int,
                lo as int,
            ) + seq![spec_parameter(t.nodes@, pk1.last(), *opts, ind as int)]);
        }
        k += 1;
    }
    proof {
        assert(picked@.take(n as int) =~= picked@);
    }
    out
}

/// The joined parameter list of a parameters node.
pub open spec fn spec_param_list(t: Seq<SynNode>, pn: int, e: Excl, opts: FormatOptions, ind: int) -> Seq<
    char,
>
    decreases t.len() - pn, 8int, 4int
        when 0 <= pn < t.len() && arena_wf(t)
{
    let picked = spec_filter_children(t, pn, 0, e, Seq::empty());
    join_with(spec_params_of(t, picked, opts, ind, pn), ", "@)
}

/// Join the filtered parameters of node `pn`.
pub fn format_param_list(t: &SynTree, pn: usize, e: Excl, opts: &FormatOptions, ind: usize) -> (r:
    String)
    requires
        t.wf(),
        pn < t.nodes@.len(),
    ensures
        r@ == spec_param_list(t.nodes@, pn as int, e, *opts, ind as int),
    decreases t.nodes@.len() - pn, 8int, 4int,
{
    let picked = filter_children(t, pn, e);
    let parts = params_of(t, &picked, opts, ind, pn);
    join_strs(&parts, ", ")
}

/// Lines of a `signal` statement.
pub open spec fn spec_signal(
    t: Seq<SynNode>,
    i: int,
    opts: FormatOptions,
    ind: int,
    acc: Seq<(Option<int>, Seq<char>)>,
) -> Seq<(Option<int>, Seq<char>)>
    decreases t.len() - i, 9int, 0int
        when 0 <= i < t.len() && arena_wf(t)
{
    let ln = t[i].start_row + 1;
    let indstr = ind_of(opts, ind);
    let nm = match field_child(t, i, "name"@) {
        Some(c) => t[c].text@,
        None => "_"@,
    };
    let params = match field_child(t, i, "parameters"@) {
        Some(pn) => if in_rng(t, i, pn) {
            "("@ + spec_param_list(t, pn, Excl::NotSignalParam, opts, ind) + ")"@
        } else {
            Seq::empty()
        },
        None => Seq::empty(),
    };
    pushm(acc, ln as int, indstr + "signal "@ + nm + params)
}

/// Format signal statement: `signal my_signal` or `signal s(a, b)`.
pub fn format_signal_statement(t: &SynTree, i: usize, ctx: &mut FormatContext)
    requires
        t.wf(),
        i < t.nodes@.len(),
    ensures
        ctx_stable(*old(ctx), *final(ctx)),
        out_view(final(ctx).output.lines@) == spec_signal(
            t.nodes@,
            i as int,
            old(ctx).options,
            old(ctx).indent_level as int,
            out_view(old(ctx).output.lines@),
        ),
{
    let line = t.start_line(i);
    let indent = ctx.indent_str();
    let nm: String = match get_field_child(t, i, "name") {
        Some(c) => t.text(c).to_owned(),
        None => "_".to_owned(),
    };
    let params: String = match get_field_child(t, i, "parameters") {
        Some(pn) => {
            let inner = format_param_list(t, pn, Excl::NotSignalParam, &ctx.options, ctx.indent_level);
            "(".to_owned().concat(inner.as_str()).concat(")")
        },
        None => String::new(),
    };
    let content = indent.concat("signal ").concat(nm.as_str()).concat(params.as_str());
    let ghost before = out_view(ctx.output.lines@);
    ctx.output.push_mapped(content, line);
    proof {
        assert(out_view(ctx.output.lines@) =~= pushm(
            before,
            t.nodes@[i as int].start_row + 1,
            out_view(ctx.output.lines@).last().1,
        ));
    }
}

/// Whether the node has a `setget` child.
pub open spec fn has_setget(t: Seq<SynNode>, i: int) -> bool {
    exists|k: int|
        0 <= k < t[i].children@.len() && t[#[trigger] t[i].children@[k] as int].kind@ == "setget"@
}

/// Exec test for `has_setget`.
fn check_setget(t: &SynTree, i: usize) -> (r: bool)
    requires
        t.wf(),
        i < t.nodes@.len(),
    ensures
        r == has_setget(t.nodes@, i as int),
{
    let ghost cs = t.nodes@[i as int].children@;
    let n = t.child_count(i);
    let mut k: usize = 0;
    while k < n
        invariant
            0 <= k <= n,
            t.wf(),
            i < t.nodes@.len(),
            cs == t.nodes@[i as int].children@,
            n == cs.len(),
            forall|j: int| 0 <= j < k ==> t.nodes@[#[trigger] cs[j] as int].kind@ != "setget"@,
        decreases n - k,
    {
        let c = t.child(i, k);
        if t.kind_is(c, "setget") {
            return true;
        }
        k += 1;
    }
    false
}

/// The annotation prefix of a variable: the trimmed texts of the annotation
/// children of the node's `annotations` child, joined with single spaces and
/// followed by one space; empty if there are none.
pub open spec fn trimmed_texts_of(t: Seq<SynNode>, picked: Seq<int>) -> Seq<Seq<char>>
    decreases picked.len(),
{
    if picked.len() == 0 {
        Seq::empty()
    } else {
        trimmed_texts_of(t, picked.drop_last()) + seq![spec_trim(t[picked.last()].text@)]
    }
}

pub open spec fn spec_annotation_prefix(t: Seq<SynNode>, i: int) -> Seq<char> {
    match first_child_where(t, i, ChildSel::AnnotationsNode) {
        Some(a) => if in_rng(t, i, a) {
            let picked = spec_filter_children(t, a, 0, Excl::NotAnnotation, Seq::empty());
            let texts = trimmed_texts_of(t, picked);
            if texts.len() == 0 {
                Seq::empty()
            } else {
                join_with(texts, " "@) + " "@
            }
        } else {
            Seq::empty()
        },
        None => Seq::empty(),
    }
}

/// Exec mirror of `spec_annotation_prefix`.
fn annotation_prefix(t: &SynTree, i: usize) -> (r: String)
    requires
        t.wf(),
        i < t.nodes@.len(),
    ensures
        r@ == spec_annotation_prefix(t.nodes@, i as int),
{
    match first_child_sel(t, i, ChildSel::AnnotationsNode) {
        Some(a) => {
            let picked = filter_children(t, a, Excl::NotAnnotation);
            let n = picked.len();
            let mut texts: Vec<String> = Vec::new();
            let mut k: usize = 0;
            proof {
                assert(idxs(picked@.take(0)) =~= Seq::<int>::empty());
                assert(texts.deep_view() =~= Seq::<Seq<char>>::empty());
            }
            while k < n
                invariant
                    0 <= k <= n,
                    t.wf(),
                    n == picked@.len(),
                    forall|j: int| 0 <= j < picked@.len() ==> #[trigger] picked@[j] < t.nodes@.len(),
                    texts.deep_view() == trimmed_texts_of(t.nodes@, idxs(picked@.take(k as int))),
                decreases n - k,
            {
                let e = text::trim(t.text(picked[k]));
                let ghost before = texts.deep_view();
                texts.push(e);
                proof {
                    let pk1 = idxs(picked@.take(k + 1));
                    assert(pk1.drop_last() =~= idxs(picked@.take(k as int)));
                    assert(pk1.last() == picked@[k as int] as int);
                    assert(texts.deep_view() =~= before.push(
                        spec_trim(t.nodes@[picked@[k as int] as int].text@),
                    ));
                }
                k += 1;
            }
            proof {
                assert(picked@.take(n as int) =~= picked@);
                assert(texts.deep_view().len() == texts@.len());
            }
            if texts.len() == 0 {
                String::new()
            } else {
                let joined = join_strs(&texts, " ");
                joined.concat(" ")
            }
        },
        None => String::new(),
    }
}

/// Lines of a `var` statement: verbatim when it is multi-line and carries a
/// getter/setter block or a `#`, else a single canonical line.
pub open spec fn spec_variable(
    t: Seq<SynNode>,
    i: int,
    lines: Seq<Seq<char>>,
    opts: FormatOptions,
    ind: int,
    acc: Seq<(Option<int>, Seq<char>)>,
) -> Seq<(Option<int>, Seq<char>)>
    decreases t.len() - i, 9int, 0int
        when 0 <= i < t.len() && arena_wf(t)
{
    let ln = t[i].start_row + 1;
    let indstr = ind_of(opts, ind);
    let multiline = t[i].start_row != t[i].end_row;
    if multiline && (has_setget(t, i) || t[i].text@.contains('#')) {
        spec_verbatim(t, i, lines, acc)
    } else {
        let ann = spec_annotation_prefix(t, i);
        let st = if crate::format::nodes::has_child_kind(t, i, "static_keyword"@) {
            "static "@
        } else {
            Seq::<char>::empty()
        };
        let nm = match field_child(t, i, "name"@) {
            Some(c) => t[c].text@,
            None => "_"@,
        };
        if has_colon_eq(t[i].text@) {
            let value = match field_child(t, i, "value"@) {
                Some(v) => if in_rng(t, i, v) {
                    spec_expr(t, v, opts, ind)
                } else {
                    Seq::empty()
                },
                None => Seq::empty(),
            };
            pushm(acc, ln as int, indstr + ann + st + "var "@ + nm + " := "@ + value)
        } else {
            let ty = match field_child(t, i, "type"@) {
                Some(c) => ": "@ + spec_trim(t[c].text@),
                None => Seq::empty(),
            };
            let value = match field_child(t, i, "value"@) {
                Some(v) => if in_rng(t, i, v) {
                    " = "@ + spec_expr(t, v, opts, ind)
                } else {
                    Seq::empty()
                },
                None => Seq::empty(),
            };
            pushm(acc, ln as int, indstr + ann + st + "var "@ + nm + ty + value)
        }
    }
}

/// Format variable statement: `var x = 1`, `var x: int = 1`, `var x := 1`.
#[verifier::rlimit(100)]
pub fn format_variable_statement(t: &SynTree, i: usize, ctx: &mut FormatContext)
    requires
        t.wf(),
        i < t.nodes@.len(),
    ensures
        ctx_stable(*old(ctx), *final(ctx)),
        out_view(final(ctx).output.lines@) == spec_variable(
            t.nodes@,
            i as int,
            old(ctx).lv(),
            old(ctx).options,
            old(ctx).indent_level as int,
            out_view(old(ctx).output.lines@),
        ),
{
    proof {
        assert(crate::tree::node_wf(t.nodes@, i as int));
    }
    let line = t.start_line(i);
    let indent = ctx.indent_str();
    let multiline = t.nodes[i].start_row != t.nodes[i].end_row;
    if multiline && (check_setget(t, i) || text::contains_char(t.text(i), '#')) {
        format_verbatim(t, i, ctx);
        return ;
    }
    let ann = annotation_prefix(t, i);
    let st: &str = if crate::format::nodes::check_child_kind(t, i, "static_keyword") {
        "static "
    } else {
        ""
    };
    proof {
        reveal_strlit("static ");
        reveal_strlit("");
        assert(""@ =~= Seq::<char>::empty());
    }
    let nm: String = match get_field_child(t, i, "name") {
        Some(c) => t.text(c).to_owned(),
        None => "_".to_owned(),
    };
    let ghost before = out_view(ctx.output.lines@);
    if text::contains_colon_eq(t.text(i)) {
        let value: String = match get_field_child(t, i, "value") {
            Some(v) => format_expression(t, v, &ctx.options, ctx.indent_level),
            None => String::new(),
        };
        let content = indent.concat(ann.as_str()).concat(st).concat("var ").concat(
            nm.as_str(),
        ).concat(" := ").concat(value.as_str());
        ctx.output.push_mapped(content, line);
    } else {
        let ty: String = match get_field_child(t, i, "type") {
            Some(c) => {
                let tt = text::trim(t.text(c));
                ": ".to_owned().concat(tt.as_str())
            },
            None => String::new(),
        };
        let value: String = match get_field_child(t, i, "value") {
            Some(v) => {
                let e = format_expression(t, v, &ctx.options, ctx.indent_level);
                " = ".to_owned().concat(e.as_str())
            },
            None => String::new(),
        };
        let content = indent.concat(ann.as_str()).concat(st).concat("var ").concat(
            nm.as_str(),
        ).concat(ty.as_str()).concat(value.as_str());
        ctx.output.push_mapped(content, line);
    }
    proof {
        assert(out_view(ctx.output.lines@) =~= pushm(
            before,
            t.nodes@[i as int].start_row + 1,
            out_view(ctx.output.lines@).last().1,
        ));
    }
}

/// Lines of a `const` statement: verbatim when multi-line, else one line.
pub open spec fn spec_const(
    t: Seq<SynNode>,
    i: int,
    lines: Seq<Seq<char>>,
    opts: FormatOptions,
    ind: int,
    acc: Seq<(Option<int>, Seq<char>)>,
) -> Seq<(Option<int>, Seq<char>)>
    decreases t.len() - i, 9int, 0int
        when 0 <= i < t.len() && arena_wf(t)
{
    if t[i].start_row != t[i].end_row {
        spec_verbatim(t, i, lines, acc)
    } else {
        let ln = t[i].start_row + 1;
        let indstr = ind_of(opts, ind);
        let nm = match field_child(t, i, "name"@) {
            Some(c) => t[c].text@,
            None => "_"@,
        };
        if has_colon_eq(t[i].text@) {
            let value = match field_child(t, i, "value"@) {
                Some(v) => if in_rng(t, i, v) {
                    spec_expr(t, v, opts, ind)
                } else {
                    Seq::empty()
                },
                None => Seq::empty(),
            };
            pushm(acc, ln as int, indstr + "const "@ + nm + " := "@ + value)
        } else {
            let ty = match field_child(t, i, "type"@) {
                Some(c) => ": "@ + t[c].text@,
                None => Seq::empty(),
            };
            let value = match field_child(t, i, "value"@) {
                Some(v) => if in_rng(t, i, v) {
                    " = "@ + spec_expr(t, v, opts, ind)
                } else {
                    Seq::empty()
                },
                None => Seq::empty(),
            };
            pushm(acc, ln as int, indstr + "const "@ + nm + ty + value)
        }
    }
}

/// Format const statement: `const X = 1` or `const X: int = 1`.
pub fn format_const_statement(t: &SynTree, i: usize, ctx: &mut FormatContext)
    requires
        t.wf(),
        i < t.nodes@.len(),
    ensures
        ctx_stable(*old(ctx), *final(ctx)),
        out_view(final(ctx).output.lines@) == spec_const(
            t.nodes@,
            i as int,
            old(ctx).lv(),
            old(ctx).options,
            old(ctx).indent_level as int,
            out_view(old(ctx).output.lines@),
        ),
{
    proof {
        assert(crate::tree::node_wf(t.nodes@, i as int));
    }
    if t.nodes[i].start_row != t.nodes[i].end_row {
        format_verbatim(t, i, ctx);
        return ;
    }
    let line = t.start_line(i);
    let indent = ctx.indent_str();
    let nm: String = match get_field_child(t, i, "name") {
        Some(c) => t.text(c).to_owned(),
        None => "_".to_owned(),
    };
    let ghost before = out_view(ctx.output.lines@);
    if text::contains_colon_eq(t.text(i)) {
        let value: String = match get_field_child(t, i, "value") {
            Some(v) => format_expression(t, v, &ctx.options, ctx.indent_level),
            None => String::new(),
        };
        let content = indent.concat("const ").concat(nm.as_str()).concat(" := ").concat(
            value.as_str(),
        );
        ctx.output.push_mapped(content, line);
    } else {
        let ty: String = match get_field_child(t, i, "type") {
            Some(c) => ": ".to_owned().concat(t.text(c)),
            None => String::new(),
        };
        let value: String = match get_field_child(t, i, "value") {
            Some(v) => {
                let e = format_expression(t, v, &ctx.options, ctx.indent_level);
                " = ".to_owned().concat(e.as_str())
            },
            None => String::new(),
        };
        let content = indent.concat("const ").concat(nm.as_str()).concat(ty.as_str()).concat(
            value.as_str(),
        );
        ctx.output.push_mapped(content, line);
    }
    proof {
        assert(out_view(ctx.output.lines@) =~= pushm(
            before,
            t.nodes@[i as int].start_row + 1,
            out_view(ctx.output.lines@).last().1,
        ));
    }
}

/// The source text ends (after trimming) with `close` directly preceded —
/// whitespace aside — by a comma.
pub open spec fn spec_trailing_comma_before(s: Seq<char>, close: char) -> bool {
    let tr = spec_trim(s);
    &&& tr.len() > 0
    &&& tr[tr.len() - 1] == close
    &&& {
        let before = spec_trim_end(tr.take(tr.len() - 1));
        before.len() > 0 && before[before.len() - 1] == ','
    }
}

/// Check if source has a trailing comma before the specified closing bracket.
pub fn has_trailing_comma_before(source: &str, close: char) -> (r: bool)
    ensures
        r == spec_trailing_comma_before(source@, close),
{
    let trimmed = text::trim(source);
    if !text::ends_with_char(trimmed.as_str(), close) {
        return false;
    }
    let n = trimmed.as_str().unicode_len();
    let head = trimmed.as_str().substring_char(0, n - 1);
    proof {
        assert(head@ =~= spec_trim(source@).take(spec_trim(source@).len() - 1));
    }
    let before = text::trim_end(head);
    text::ends_with_char(before.as_str(), ',')
}

/// One enum member: its name, and its value when it has one.
pub open spec fn spec_enum_member(t: Seq<SynNode>, c: int, opts: FormatOptions, ind: int) -> Seq<
    char,
>
    decreases t.len() - c, 8int, 1int
        when 0 <= c < t.len() && arena_wf(t)
{
    let nm = match field_child(t, c, "name"@) {
        Some(n) => t[n].text@,
        None => t[c].text@,
    };
    match field_child(t, c, "value"@) {
        Some(v) => if in_rng(t, c, v) {
            nm + " = "@ + spec_expr(t, v, opts, ind)
        } else {
            nm
        },
        None => nm,
    }
}

/// Format a single enum member.
fn format_enum_member(t: &SynTree, c: usize, opts: &FormatOptions, ind: usize) -> (r: String)
    requires
        t.wf(),
        c < t.nodes@.len(),
    ensures
        r@ == spec_enum_member(t.nodes@, c as int, *opts, ind as int),
    decreases t.nodes@.len() - c, 8int, 1int,
{
    let nm: String = match get_field_child(t, c, "name") {
        Some(n) => t.text(n).to_owned(),
        None => t.text(c).to_owned(),
    };
    match get_field_child(t, c, "value") {
        Some(v) => {
            let e = format_expression(t, v, opts, ind);
            nm.concat(" = ").concat(e.as_str())
        },
        None => nm,
    }
}

/// The formatted members of an already-filtered child index list.
pub open spec fn spec_members_of(
    t: Seq<SynNode>,
    picked: Seq<int>,
    opts: FormatOptions,
    ind: int,
    lo: int,
) -> Seq<Seq<char>>
    decreases t.len() - lo, 7int, picked.len()
        when 0 <= lo < t.len() && arena_wf(t)
{
    if picked.len() == 0 {
        Seq::empty()
    } else if forall|j: int| 0 <= j < picked.len() ==> lo < #[trigger] picked[j] < t.len() {
        spec_members_of(t, picked.drop_last(), opts, ind, lo) + seq![
            spec_enum_member(t, picked.last(), opts, ind),
        ]
    } else {
        Seq::empty()
    }
}

/// Format the members of an already-filtered child index list.
#[verifier::rlimit(60)]
fn members_of(t: &SynTree, picked: &Vec<usize>, opts: &FormatOptions, ind: usize, lo: usize) -> (r:
    Vec<String>)
    requires
        t.wf(),
        lo < t.nodes@.len(),
        forall|j: int| 0 <= j < picked@.len() ==> lo < #[trigger] picked@[j] < t.nodes@.len(),
    ensures
        r.deep_view() == spec_members_of(t.nodes@, idxs(picked@), *opts, ind as int, lo as int),
    decreases t.nodes@.len() - lo, 7int, 5int,
{
    let n = picked.len();
    let mut out: Vec<String> = Vec::new();
    let mut k: usize = 0;
    proof {
        assert(idxs(picked@.take(0)) =~= Seq::<int>::empty());
        assert(out.deep_view() =~= Seq::<Seq<char>>::empty());
    }
    while k < n
        invariant
            0 <= k <= n,
            t.wf(),
            lo < t.nodes@.len(),
            n == picked@.len(),
            forall|j: int| 0 <= j < picked@.len() ==> lo < #[trigger] picked@[j] < t.nodes@.len(),
            out.deep_view() == spec_members_of(
                t.nodes@,
                idxs(picked@.take(k as int)),
                *opts,
                ind as int,
                lo as int,
            ),
        decreases n - k,
    {
        let c = picked[k];
        let e = format_enum_member(t, c, opts, ind);
        let ghost before = out.deep_view();
        out.push(e);
        proof {
            let pk1 = idxs(picked@.take(k + 1));
            assert(pk1.drop_last() =~= idxs(picked@.take(k as int)));
            assert(pk1.last() == picked@[k as int] as int);
            assert forall|j: int| 0 <= j < pk1.len() implies lo < #[trigger] pk1[j]
                < t.nodes@.len() by {
                assert(pk1[j] == picked@[j] as int);
            }
            assert(out.deep_view() =~= before.push(
                spec_enum_member(t.nodes@, picked@[k as int] as int, *opts, ind as int),
            ));
            assert(out.deep_view() =~= spec_members_of(
                t.nodes@,
                idxs(picked@.take(k as int)),
                *opts,
                ind as int,
                lo as int,
            ) + seq![spec_enum_member(t.nodes@, pk1.last(), *opts, ind as int)]);
        }
        k += 1;
    }
    proof {
        assert(picked@.take(n as int) =~= picked@);
    }
    out
}

/// The unmapped member lines of a multi-line enum body, each one step
/// further indented and comma-terminated.
pub open spec fn spec_member_lines(
    members: Seq<Seq<char>>,
    inner: Seq<char>,
    acc: Seq<(Option<int>, Seq<char>)>,
) -> Seq<(Option<int>, Seq<char>)>
    decreases members.len(),
{
    if members.len() == 0 {
        acc
    } else {
        spec_member_lines(members.drop_last(), inner, acc).push(
            (None, inner + members.last() + ","@),
        )
    }
}

/// Lines of an `enum` definition: single-line, or one member per line under
/// the trailing-comma directive.
pub open spec fn spec_enum(
    t: Seq<SynNode>,
    i: int,
    opts: FormatOptions,
    ind: int,
    acc: Seq<(Option<int>, Seq<char>)>,
) -> Seq<(Option<int>, Seq<char>)>
    decreases t.len() - i, 9int, 0int
        when 0 <= i < t.len() && arena_wf(t)
{
    let ln = t[i].start_row + 1;
    let indstr = ind_of(opts, ind);
    let nm = match field_child(t, i, "name"@) {
        Some(c) => " "@ + t[c].text@,
        None => Seq::empty(),
    };
    match field_child(t, i, "body"@) {
        Some(b) => if in_rng(t, i, b) {
            let picked = spec_filter_children(t, b, 0, Excl::NotEnumEntry, Seq::empty());
            let members = spec_members_of(t, picked, opts, ind, b);
            if members.len() == 0 {
                pushm(acc, ln as int, indstr + "enum"@ + nm + " {}"@)
            } else if spec_trailing_comma_before(t[i].text@, '}') {
                let inner = indstr + opts.indent_style.unit();
                let acc1 = pushm(acc, ln as int, indstr + "enum"@ + nm + " {"@);
                let acc2 = spec_member_lines(members, inner, acc1);
                acc2.push((None, indstr + "}"@))
            } else {
                pushm(
                    acc,
                    ln as int,
                    indstr + "enum"@ + nm + " { "@ + join_with(members, ", "@) + " }"@,
                )
            }
        } else {
            pushm(acc, ln as int, indstr + "enum"@ + nm + " {}"@)
        },
        None => pushm(acc, ln as int, indstr + "enum"@ + nm + " {}"@),
    }
}

/// Format enum definition.
#[verifier::rlimit(100)]
pub fn format_enum_definition(t: &SynTree, i: usize, ctx: &mut FormatContext)
    requires
        t.wf(),
        i < t.nodes@.len(),
    ensures
        ctx_stable(*old(ctx), *final(ctx)),
        out_view(final(ctx).output.lines@) == spec_enum(
            t.nodes@,
            i as int,
            old(ctx).options,
            old(ctx).indent_level as int,
            out_view(old(ctx).output.lines@),
        ),
{
    let line = t.start_line(i);
    let indent = ctx.indent_str();
    let nm: String = match get_field_child(t, i, "name") {
        Some(c) => " ".to_owned().concat(t.text(c)),
        None => String::new(),
    };
    let ghost before = out_view(ctx.output.lines@);
    match get_field_child(t, i, "body") {
        Some(b) => {
            let picked = filter_children(t, b, Excl::NotEnumEntry);
            let members = members_of(t, &picked, &ctx.options, ctx.indent_level, b);
            proof {
                assert(members.deep_view().len() == members@.len());
            }
            if members.len() == 0 {
                let content = indent.concat("enum").concat(nm.as_str()).concat(" {}");
                ctx.output.push_mapped(content, line);
                proof {
                    assert(out_view(ctx.output.lines@) =~= pushm(
                        before,
                        t.nodes@[i as int].start_row + 1,
                        out_view(ctx.output.lines@).last().1,
                    ));
                }
            } else if has_trailing_comma_before(t.text(i), '}') {
                let unit = ctx.options.indent_style.as_str();
                let inner = ctx.indent_str().concat(unit.as_str());
                let header = indent.concat("enum").concat(nm.as_str()).concat(" {");
                ctx.output.push_mapped(header, line);
                let ghost acc1 = out_view(ctx.output.lines@);
                proof {
                    assert(acc1 =~= pushm(before, t.nodes@[i as int].start_row + 1, acc1.last().1));
                }
                let ghost mv = members.deep_view();
                let m = members.len();
                let mut k: usize = 0;
                proof {
                    assert(spec_member_lines(mv.take(0), inner@, acc1) == acc1);
                }
                while k < m
                    invariant
                        0 <= k <= m,
                        m == members@.len(),
                        mv == members.deep_view(),
                        inner@ == ind_of(old(ctx).options, old(ctx).indent_level as int)
                            + old(ctx).options.indent_style.unit(),
                        ctx_stable(*old(ctx), *ctx),
                        out_view(ctx.output.lines@) == spec_member_lines(
                            mv.take(k as int),
                            inner@,
                            acc1,
                        ),
                    decreases m - k,
                {
                    proof {
                        assert(mv.take(k + 1).drop_last() =~= mv.take(k as int));
                        assert(mv.take(k + 1).last() == members@[k as int]@);
                    }
                    let row = inner.as_str().to_owned().concat(members[k].as_str()).concat(",");
                    let ghost cur = out_view(ctx.output.lines@);
                    ctx.output.push_line(row);
                    proof {
                        assert(out_view(ctx.output.lines@) =~= cur.push(
                            (None, out_view(ctx.output.lines@).last().1),
                        ));
                    }
                    k += 1;
                }
                proof {
                    assert(mv.take(m as int) =~= mv);
                }
                let closer = ctx.indent_str().concat("}");
                let ghost cur = out_view(ctx.output.lines@);
                ctx.output.push_line(closer);
                proof {
                    assert(out_view(ctx.output.lines@) =~= cur.push(
                        (None, out_view(ctx.output.lines@).last().1),
                    ));
                }
            } else {
                let joined = join_strs(&members, ", ");
                let content = indent.concat("enum").concat(nm.as_str()).concat(" { ").concat(
                    joined.as_str(),
                ).concat(" }");
                ctx.output.push_mapped(content, line);
                proof {
                    assert(out_view(ctx.output.lines@) =~= pushm(
                        before,
                        t.nodes@[i as int].start_row + 1,
                        out_view(ctx.output.lines@).last().1,
                    ));
                }
            }
        },
        None => {
            let content = indent.concat("enum").concat(nm.as_str()).concat(" {}");
            ctx.output.push_mapped(content, line);
            proof {
                assert(out_view(ctx.output.lines@) =~= pushm(
                    before,
                    t.nodes@[i as int].start_row + 1,
                    out_view(ctx.output.lines@).last().1,
                ));
            }
        },
    }
}

} // verus!
