//! Verbatim fallback: a node rendered by copying its original source lines
//! unchanged, each tagged with its true source line number.

use vstd::prelude::*;

use crate::format::context::{ctx_stable, out_view, FormatContext};
use crate::format::statements::pushm;
use crate::tree::{SynNode, SynTree};

verus! {

/// Copy rows `row..=endrow` (0-indexed) of the source onto `acc`; rows
/// outside the line table are dropped.
pub open spec fn spec_verbatim_rows(
    lines: Seq<Seq<char>>,
    row: int,
    endrow: int,
    acc: Seq<(Option<int>, Seq<char>)>,
) -> Seq<(Option<int>, Seq<char>)>
    decreases endrow + 1 - row when row >= 0
{
    if row > endrow {
        acc
    } else {
        let ln = row + 1;
        let acc2 = if 1 <= ln <= lines.len() {
            pushm(acc, ln, lines[ln - 1])
        } else {
            acc
        };
        spec_verbatim_rows(lines, row + 1, endrow, acc2)
    }
}

/// The verbatim rendering of node `i`: its rows copied from the source.
pub open spec fn spec_verbatim(
    t: Seq<SynNode>,
    i: int,
    lines: Seq<Seq<char>>,
    acc: Seq<(Option<int>, Seq<char>)>,
) -> Seq<(Option<int>, Seq<char>)> {
    spec_verbatim_rows(lines, t[i].start_row as int, t[i].end_row as int, acc)
}

/// Output a node verbatim from source (for skipped regions or unhandled
/// nodes).
pub fn format_verbatim(t: &SynTree, i: usize, ctx: &mut FormatContext)
    requires
        t.wf(),
        i < t.nodes@.len(),
    ensures
        ctx_stable(*old(ctx), *final(ctx)),
        out_view(final(ctx).output.lines@) == spec_verbatim(
            t.nodes@,
            i as int,
            old(ctx).lv(),
            out_view(old(ctx).output.lines@),
        ),
{
    proof {
        assert(crate::tree::node_wf(t.nodes@, i as int));
    }
    let start = t.nodes[i].start_row;
    let end = t.nodes[i].end_row;
    let ghost before = out_view(ctx.output.lines@);
    let mut row: usize = start;
    while row <= end
        invariant
            start <= row <= end + 1,
            end < crate::tree::row_bound(),
            t.wf(),
            i < t.nodes@.len(),
            ctx_stable(*old(ctx), *ctx),
            spec_verbatim_rows(old(ctx).lv(), start as int, end as int, before)
                == spec_verbatim_rows(old(ctx).lv(), row as int, end as int, out_view(
                ctx.output.lines@,
            )),
        decreases end + 1 - row,
    {
        let ln = row + 1;
        let content = match ctx.get_source_line(ln) {
            Some(s) => Some(s.clone()),
            None => None,
        };
        let ghost cur = out_view(ctx.output.lines@);
        if let Some(content) = content {
            ctx.output.push_mapped(content, ln);
            proof {
                assert(out_view(ctx.output.lines@) =~= pushm(
                    cur,
                    ln as int,
                    old(ctx).lv()[ln - 1],
                ));
            }
        }
        row += 1;
    }
    proof {
        assert(spec_verbatim_rows(old(ctx).lv(), row as int, end as int, out_view(
            ctx.output.lines@,
        )) == out_view(ctx.output.lines@));
    }
}

} // verus!
