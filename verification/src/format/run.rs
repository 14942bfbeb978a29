//! The formatter entry point: parse, render, reinject comments, assemble.

use vstd::prelude::*;

use crate::format::comments::{spec_inline, spec_standalone, Comments};
use crate::format::context::{out_view, FormatContext};
use crate::format::nodes::{format_node, spec_node};
use crate::format::options::FormatOptions;
use crate::format::output::{
    content_views, join_nl, spec_inject_full, spec_render, strip_trailing_empty, FormattedLine,
};
use crate::format::skip_regions::{spec_skip_ranges, SkipRegions};
use crate::parser;
use crate::parser::{gdscript_parse, parses};
use crate::text::spec_lines;
use crate::tree::SynNode;

verus! {

/// The error a formatting run can produce.
#[derive(Debug)]
pub enum FormatError {
    /// The source did not parse.
    Parse(String),
}

impl FormatError {
    /// A human-readable description of the error.
    pub fn message(&self) -> (r: String)
        ensures
            r@ == "Parse error: "@ + (match self {
                FormatError::Parse(m) => m@,
            }),
    {
        match self {
            FormatError::Parse(m) => "Parse error: ".to_owned().concat(m.as_str()),
        }
    }
}

/// The final string of an output view: trailing blank lines stripped,
/// contents joined with newlines, one trailing newline when asked for.
pub open spec fn render_view(v: Seq<(Option<int>, Seq<char>)>, trailing_newline: bool) -> Seq<
    char,
> {
    let joined = join_nl(strip_trailing_empty(Seq::new(v.len(), |k: int| v[k].1)));
    if trailing_newline && joined.len() > 0 {
        joined + seq!['\n']
    } else {
        joined
    }
}

proof fn lemma_render_view(s: Seq<FormattedLine>, tn: bool)
    ensures
        spec_render(s, tn) == render_view(out_view(s), tn),
{
    assert(content_views(s) =~= Seq::new(out_view(s).len(), |k: int| out_view(s)[k].1));
}

/// The canonically formatted text of a parsed source: the rendered line
/// records, comments reinjected, assembled into one string.
pub open spec fn spec_format(source: Seq<char>, nodes: Seq<SynNode>, opts: FormatOptions) -> Seq<
    char,
> {
    let lines = spec_lines(source);
    let rendered = spec_node(nodes, 0, lines, opts, spec_skip_ranges(source), 0, Seq::empty());
    let injected = spec_inject_full(rendered, spec_standalone(source), spec_inline(source), lines);
    render_view(injected, opts.trailing_newline)
}

/// Format GDScript source code according to the style guide's layout.  This
/// does not reorder declarations; `reorder_source` is a separate pass.
pub fn run_formatter(source: &str, options: &FormatOptions) -> (r: Result<String, FormatError>)
    ensures
        parses(source@) <==> r is Ok,
        match r {
            Ok(out) => out@ == spec_format(source@, gdscript_parse(source@)->0, *options),
            Err(e) => !parses(source@),
        },
{
    let tree = match parser::parse(source) {
        Ok(t) => t,
        Err(e) => {
            return Err(FormatError::Parse(e));
        },
    };
    let comments = Comments::extract(source);
    let skip_regions = SkipRegions::parse(source);
    let mut ctx = FormatContext::new(source, options, skip_regions);
    proof {
        assert(out_view(ctx.output.lines@) =~= Seq::<(Option<int>, Seq<char>)>::empty());
    }
    let node_count = tree.len();
    proof {
        assert(ctx.indent_level + tree.nodes@.len() - 0 == node_count);
    }
    format_node(&tree, 0, &mut ctx);
    ctx.output.inject_comments(&comments, source);
    let out = ctx.output.to_string(options);
    proof {
        lemma_render_view(ctx.output.lines@, options.trailing_newline);
    }
    Ok(out)
}

} // verus!
