//! Simple statements: `extends`, `class_name`, `pass`, `break`, `continue`,
//! `return`, expression statements, and annotations.

use vstd::prelude::*;

use crate::format::context::{ctx_stable, out_view, FormatContext};
use crate::format::expressions::{
    field_child, first_child_sel, first_child_where, format_expression, in_rng, ind_of, spec_expr,
    ChildSel,
};
use crate::format::options::FormatOptions;
use crate::text;
use crate::text::spec_trim;
use crate::tree::{arena_wf, SynNode, SynTree};

verus! {

/// One output record appended for a mapped line.
pub open spec fn pushm(
    acc: Seq<(Option<int>, Seq<char>)>,
    ln: int,
    content: Seq<char>,
) -> Seq<(Option<int>, Seq<char>)> {
    acc.push((Some(ln), content))
}

/// The node the `extends` keyword is applied to:
/// the `value` field, then the `type` field, then the first child that is
/// not the keyword itself.
pub open spec fn extends_type_node(t: Seq<SynNode>, i: int) -> Option<int> {
    match field_child(t, i, "value"@) {
        Some(c) => Some(c),
        None => match field_child(t, i, "type"@) {
            Some(c) => Some(c),
            None => first_child_where(t, i, ChildSel::NotExtendsKw),
        },
    }
}

/// Lines of an `extends` statement.
pub open spec fn spec_extends(
    t: Seq<SynNode>,
    i: int,
    opts: FormatOptions,
    ind: int,
    acc: Seq<(Option<int>, Seq<char>)>,
) -> Seq<(Option<int>, Seq<char>)> {
    let ln = t[i].start_row + 1;
    let indstr = ind_of(opts, ind);
    match extends_type_node(t, i) {
        Some(tn) => pushm(acc, ln as int, indstr + "extends "@ + spec_trim(t[tn].text@)),
        None => pushm(acc, ln as int, indstr + spec_trim(t[i].text@)),
    }
}

/// Format extends statement: `extends Node2D`.
pub fn format_extends_statement(t: &SynTree, i: usize, ctx: &mut FormatContext)
    requires
        t.wf(),
        i < t.nodes@.len(),
    ensures
        ctx_stable(*old(ctx), *final(ctx)),
        out_view(final(ctx).output.lines@) == spec_extends(
            t.nodes@,
            i as int,
            old(ctx).options,
            old(ctx).indent_level as int,
            out_view(old(ctx).output.lines@),
        ),
{
    let line = t.start_line(i);
    let indent = ctx.indent_str();
    let tn = match get_extends_type_node(t, i) {
        Some(tn) => Some(tn),
        None => None,
    };
    let ghost before = out_view(ctx.output.lines@);
    match tn {
        Some(tn) => {
            let ty = text::trim(t.text(tn));
            let content = indent.concat("extends ").concat(ty.as_str());
            ctx.output.push_mapped(content, line);
        },
        None => {
            let body = text::trim(t.text(i));
            let content = indent.concat(body.as_str());
            ctx.output.push_mapped(content, line);
        },
    }
    proof {
        assert(out_view(ctx.output.lines@) =~= pushm(
            before,
            t.nodes@[i as int].start_row + 1,
            out_view(ctx.output.lines@).last().1,
        ));
    }
}

/// Exec lookup of `extends_type_node`.
fn get_extends_type_node(t: &SynTree, i: usize) -> (r: Option<usize>)
    requires
        t.wf(),
        i < t.nodes@.len(),
    ensures
        match r {
            Some(c) => extends_type_node(t.nodes@, i as int) == Some(c as int) && i < c
                < t.nodes@.len(),
            None => extends_type_node(t.nodes@, i as int) is None,
        },
{
    match crate::format::expressions::get_field_child(t, i, "value") {
        Some(c) => Some(c),
        None => match crate::format::expressions::get_field_child(t, i, "type") {
            Some(c) => Some(c),
            None => first_child_sel(t, i, ChildSel::NotExtendsKw),
        },
    }
}

/// The name node of a `class_name` statement.
pub open spec fn class_name_node(t: Seq<SynNode>, i: int) -> Option<int> {
    match field_child(t, i, "name"@) {
        Some(c) => Some(c),
        None => first_child_where(t, i, ChildSel::NameLike),
    }
}

/// Lines of a `class_name` statement.
pub open spec fn spec_class_name(
    t: Seq<SynNode>,
    i: int,
    opts: FormatOptions,
    ind: int,
    acc: Seq<(Option<int>, Seq<char>)>,
) -> Seq<(Option<int>, Seq<char>)> {
    let ln = t[i].start_row + 1;
    let indstr = ind_of(opts, ind);
    match class_name_node(t, i) {
        Some(nn) => pushm(acc, ln as int, indstr + "class_name "@ + spec_trim(t[nn].text@)),
        None => pushm(acc, ln as int, indstr + spec_trim(t[i].text@)),
    }
}

/// Format class_name statement: `class_name MyClass`.
pub fn format_class_name_statement(t: &SynTree, i: usize, ctx: &mut FormatContext)
    requires
        t.wf(),
        i < t.nodes@.len(),
    ensures
        ctx_stable(*old(ctx), *final(ctx)),
        out_view(final(ctx).output.lines@) == spec_class_name(
            t.nodes@,
            i as int,
            old(ctx).options,
            old(ctx).indent_level as int,
            out_view(old(ctx).output.lines@),
        ),
{
    let line = t.start_line(i);
    let indent = ctx.indent_str();
    let nn = match crate::format::expressions::get_field_child(t, i, "name") {
        Some(c) => Some(c),
        None => first_child_sel(t, i, ChildSel::NameLike),
    };
    let ghost before = out_view(ctx.output.lines@);
    match nn {
        Some(nn) => {
            let name = text::trim(t.text(nn));
            let content = indent.concat("class_name ").concat(name.as_str());
            ctx.output.push_mapped(content, line);
        },
        None => {
            let body = text::trim(t.text(i));
            let content = indent.concat(body.as_str());
            ctx.output.push_mapped(content, line);
        },
    }
    proof {
        assert(out_view(ctx.output.lines@) =~= pushm(
            before,
            t.nodes@[i as int].start_row + 1,
            out_view(ctx.output.lines@).last().1,
        ));
    }
}

/// Lines of a keyword-only statement (`pass`, `break`, `continue`).
pub open spec fn spec_keyword_stmt(
    t: Seq<SynNode>,
    i: int,
    word: Seq<char>,
    opts: FormatOptions,
    ind: int,
    acc: Seq<(Option<int>, Seq<char>)>,
) -> Seq<(Option<int>, Seq<char>)> {
    pushm(acc, t[i].start_row + 1, ind_of(opts, ind) + word)
}

/// Push `indent + word` mapped to the statement's line.
fn format_keyword_stmt(t: &SynTree, i: usize, word: &str, ctx: &mut FormatContext)
    requires
        t.wf(),
        i < t.nodes@.len(),
    ensures
        ctx_stable(*old(ctx), *final(ctx)),
        out_view(final(ctx).output.lines@) == spec_keyword_stmt(
            t.nodes@,
            i as int,
            word@,
            old(ctx).options,
            old(ctx).indent_level as int,
            out_view(old(ctx).output.lines@),
        ),
{
    let line = t.start_line(i);
    let content = ctx.indent_str().concat(word);
    let ghost before = out_view(ctx.output.lines@);
    ctx.output.push_mapped(content, line);
    proof {
        assert(out_view(ctx.output.lines@) =~= pushm(
            before,
            t.nodes@[i as int].start_row + 1,
            out_view(ctx.output.lines@).last().1,
        ));
    }
}

/// Format pass statement.
pub fn format_pass_statement(t: &SynTree, i: usize, ctx: &mut FormatContext)
    requires
        t.wf(),
        i < t.nodes@.len(),
    ensures
        ctx_stable(*old(ctx), *final(ctx)),
        out_view(final(ctx).output.lines@) == spec_keyword_stmt(
            t.nodes@,
            i as int,
            "pass"@,
            old(ctx).options,
            old(ctx).indent_level as int,
            out_view(old(ctx).output.lines@),
        ),
{
    format_keyword_stmt(t, i, "pass", ctx);
}

/// Format break statement.
pub fn format_break_statement(t: &SynTree, i: usize, ctx: &mut FormatContext)
    requires
        t.wf(),
        i < t.nodes@.len(),
    ensures
        ctx_stable(*old(ctx), *final(ctx)),
        out_view(final(ctx).output.lines@) == spec_keyword_stmt(
            t.nodes@,
            i as int,
            "break"@,
            old(ctx).options,
            old(ctx).indent_level as int,
            out_view(old(ctx).output.lines@),
        ),
{
    format_keyword_stmt(t, i, "break", ctx);
}

/// Format continue statement.
pub fn format_continue_statement(t: &SynTree, i: usize, ctx: &mut FormatContext)
    requires
        t.wf(),
        i < t.nodes@.len(),
    ensures
        ctx_stable(*old(ctx), *final(ctx)),
        out_view(final(ctx).output.lines@) == spec_keyword_stmt(
            t.nodes@,
            i as int,
            "continue"@,
            old(ctx).options,
            old(ctx).indent_level as int,
            out_view(old(ctx).output.lines@),
        ),
{
    format_keyword_stmt(t, i, "continue", ctx);
}

/// Lines of a `return` statement.
pub open spec fn spec_return(
    t: Seq<SynNode>,
    i: int,
    opts: FormatOptions,
    ind: int,
    acc: Seq<(Option<int>, Seq<char>)>,
) -> Seq<(Option<int>, Seq<char>)> {
    let ln = t[i].start_row + 1;
    let indstr = ind_of(opts, ind);
    match first_child_where(t, i, ChildSel::NotReturnKw) {
        Some(c) => if in_rng(t, i, c) {
            pushm(acc, ln as int, indstr + "return "@ + spec_expr(t, c, opts, ind))
        } else {
            pushm(acc, ln as int, indstr + "return"@)
        },
        None => pushm(acc, ln as int, indstr + "return"@),
    }
}

/// Format return statement: `return` or `return value`.
pub fn format_return_statement(t: &SynTree, i: usize, ctx: &mut FormatContext)
    requires
        t.wf(),
        i < t.nodes@.len(),
    ensures
        ctx_stable(*old(ctx), *final(ctx)),
        out_view(final(ctx).output.lines@) == spec_return(
            t.nodes@,
            i as int,
            old(ctx).options,
            old(ctx).indent_level as int,
            out_view(old(ctx).output.lines@),
        ),
{
    let line = t.start_line(i);
    let indent = ctx.indent_str();
    let ghost before = out_view(ctx.output.lines@);
    match first_child_sel(t, i, ChildSel::NotReturnKw) {
        Some(c) => {
            let expr = format_expression(t, c, &ctx.options, ctx.indent_level);
            let content = indent.concat("return ").concat(expr.as_str());
            ctx.output.push_mapped(content, line);
        },
        None => {
            let content = indent.concat("return");
            ctx.output.push_mapped(content, line);
        },
    }
    proof {
        assert(out_view(ctx.output.lines@) =~= pushm(
            before,
            t.nodes@[i as int].start_row + 1,
            out_view(ctx.output.lines@).last().1,
        ));
    }
}

/// Lines of an expression statement: nothing when the node has no children.
pub open spec fn spec_expression_stmt(
    t: Seq<SynNode>,
    i: int,
    opts: FormatOptions,
    ind: int,
    acc: Seq<(Option<int>, Seq<char>)>,
) -> Seq<(Option<int>, Seq<char>)> {
    let ln = t[i].start_row + 1;
    let cs = t[i].children@;
    if cs.len() > 0 && in_rng(t, i, cs[0] as int) {
        pushm(acc, ln as int, ind_of(opts, ind) + spec_expr(t, cs[0] as int, opts, ind))
    } else {
        acc
    }
}

/// Format expression statement (standalone expression).
pub fn format_expression_statement(t: &SynTree, i: usize, ctx: &mut FormatContext)
    requires
        t.wf(),
        i < t.nodes@.len(),
    ensures
        ctx_stable(*old(ctx), *final(ctx)),
        out_view(final(ctx).output.lines@) == spec_expression_stmt(
            t.nodes@,
            i as int,
            old(ctx).options,
            old(ctx).indent_level as int,
            out_view(old(ctx).output.lines@),
        ),
{
    let line = t.start_line(i);
    let ghost before = out_view(ctx.output.lines@);
    if t.child_count(i) > 0 {
        let c = t.child(i, 0);
        let expr = format_expression(t, c, &ctx.options, ctx.indent_level);
        let content = ctx.indent_str().concat(expr.as_str());
        ctx.output.push_mapped(content, line);
        proof {
            assert(out_view(ctx.output.lines@) =~= pushm(
                before,
                t.nodes@[i as int].start_row + 1,
                out_view(ctx.output.lines@).last().1,
            ));
        }
    }
}

/// Lines of an annotation: `@export`, `@onready`, and friends.
pub open spec fn spec_annotation(
    t: Seq<SynNode>,
    i: int,
    opts: FormatOptions,
    ind: int,
    acc: Seq<(Option<int>, Seq<char>)>,
) -> Seq<(Option<int>, Seq<char>)> {
    pushm(acc, t[i].start_row + 1, ind_of(opts, ind) + spec_trim(t[i].text@))
}

/// Format annotation: `@export`, `@onready`, etc.
pub fn format_annotation(t: &SynTree, i: usize, ctx: &mut FormatContext)
    requires
        t.wf(),
        i < t.nodes@.len(),
    ensures
        ctx_stable(*old(ctx), *final(ctx)),
        out_view(final(ctx).output.lines@) == spec_annotation(
            t.nodes@,
            i as int,
            old(ctx).options,
            old(ctx).indent_level as int,
            out_view(old(ctx).output.lines@),
        ),
{
    let line = t.start_line(i);
    let body = text::trim(t.text(i));
    let content = ctx.indent_str().concat(body.as_str());
    let ghost before = out_view(ctx.output.lines@);
    ctx.output.push_mapped(content, line);
    proof {
        assert(out_view(ctx.output.lines@) =~= pushm(
            before,
            t.nodes@[i as int].start_row + 1,
            out_view(ctx.output.lines@).last().1,
        ));
    }
}

} // verus!
