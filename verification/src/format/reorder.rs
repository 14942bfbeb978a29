//! Declaration reordering: classify the members of a scope, stable-sort
//! them into the style guide's order, and rebuild the text.
//!
//! Comments and export annotations immediately preceding a declaration move
//! with it.  A file whose top-level order is already correct is returned
//! byte-identical; a file with any top-level declaration inside a skip
//! region is returned unmodified entirely.

use vstd::prelude::*;

use crate::format::run::FormatError;
use crate::format::skip_regions::{spec_skip_ranges, SkipRegions};
use crate::parser;
use crate::parser::{gdscript_parse, parses};
use crate::text;
use crate::text::{spec_lines, spec_starts_with, spec_trim};
use crate::tree::{arena_wf, SynNode, SynTree};

verus! {

/// Classification of class members for reordering.  The order of variants
/// determines sort priority (lower = earlier in file).
#[derive(Debug, Clone, Copy, PartialEq, Eq, PartialOrd, Ord, Structural)]
pub enum MemberKind {
    Tool,
    Icon,
    StaticUnload,
    ClassName,
    Extends,
    Signal,
    Enum,
    Const,
    StaticVar,
    ExportVar,
    Var,
    OnreadyVar,
    StaticInit,
    StaticMethod,
    VirtualInit,
    VirtualEnterTree,
    VirtualReady,
    VirtualProcess,
    VirtualPhysicsProcess,
    VirtualOther,
    OverriddenCustomMethod,
    Method,
    InnerClass,
}

impl MemberKind {
    /// Sort rank; agrees with the variant declaration order.
    pub open spec fn spec_rank(self) -> int {
        match self {
            MemberKind::Tool => 0,
            MemberKind::Icon => 1,
            MemberKind::StaticUnload => 2,
            MemberKind::ClassName => 3,
            MemberKind::Extends => 4,
            MemberKind::Signal => 5,
            MemberKind::Enum => 6,
            MemberKind::Const => 7,
            MemberKind::StaticVar => 8,
            MemberKind::ExportVar => 9,
            MemberKind::Var => 10,
            MemberKind::OnreadyVar => 11,
            MemberKind::StaticInit => 12,
            MemberKind::StaticMethod => 13,
            MemberKind::VirtualInit => 14,
            MemberKind::VirtualEnterTree => 15,
            MemberKind::VirtualReady => 16,
            MemberKind::VirtualProcess => 17,
            MemberKind::VirtualPhysicsProcess => 18,
            MemberKind::VirtualOther => 19,
            MemberKind::OverriddenCustomMethod => 20,
            MemberKind::Method => 21,
            MemberKind::InnerClass => 22,
        }
    }

    /// Exec rank.
    pub fn rank(self) -> (r: usize)
        ensures
            r == self.spec_rank(),
    {
        match self {
            MemberKind::Tool => 0,
            MemberKind::Icon => 1,
            MemberKind::StaticUnload => 2,
            MemberKind::ClassName => 3,
            MemberKind::Extends => 4,
            MemberKind::Signal => 5,
            MemberKind::Enum => 6,
            MemberKind::Const => 7,
            MemberKind::StaticVar => 8,
            MemberKind::ExportVar => 9,
            MemberKind::Var => 10,
            MemberKind::OnreadyVar => 11,
            MemberKind::StaticInit => 12,
            MemberKind::StaticMethod => 13,
            MemberKind::VirtualInit => 14,
            MemberKind::VirtualEnterTree => 15,
            MemberKind::VirtualReady => 16,
            MemberKind::VirtualProcess => 17,
            MemberKind::VirtualPhysicsProcess => 18,
            MemberKind::VirtualOther => 19,
            MemberKind::OverriddenCustomMethod => 20,
            MemberKind::Method => 21,
            MemberKind::InnerClass => 22,
        }
    }

    /// A header kind: no blank lines between these.
    pub open spec fn spec_is_header(self) -> bool {
        self.spec_rank() <= 4
    }

    /// Check if this is a header kind.
    pub fn is_header(&self) -> (r: bool)
        ensures
            r == self.spec_is_header(),
    {
        self.rank() <= 4
    }

    /// A function-like kind: two blank lines around these.
    pub open spec fn spec_is_function_like(self) -> bool {
        self.spec_rank() >= 12
    }

    /// Check if this is a function-like kind.
    pub fn is_function_like(&self) -> (r: bool)
        ensures
            r == self.spec_is_function_like(),
    {
        self.rank() >= 12
    }
}

/// A declaration with its source text and metadata.
#[derive(Debug)]
pub struct Declaration {
    /// The kind of member for sorting.
    pub kind: MemberKind,
    /// The text of the declaration, including any preceding comments and
    /// annotations judged attached.
    pub text: String,
    /// Original position for stable sorting.
    pub original_index: usize,
    /// Whether this declaration has a leading doc comment (`##`).
    pub has_doc_comment: bool,
    /// Whether this declaration has a leading section annotation.
    pub has_section_annotation: bool,
}

/// A declaration as a mathematical record.
pub open spec fn decl_view(d: Declaration) -> (MemberKind, Seq<char>, int, bool, bool) {
    (d.kind, d.text@, d.original_index as int, d.has_doc_comment, d.has_section_annotation)
}

pub open spec fn decls_view(s: Seq<Declaration>) -> Seq<(MemberKind, Seq<char>, int, bool, bool)> {
    Seq::new(s.len(), |k: int| decl_view(s[k]))
}

/// Strict sort order on declaration records: by kind rank, then by
/// original index.
pub open spec fn view_lt(
    a: (MemberKind, Seq<char>, int, bool, bool),
    b: (MemberKind, Seq<char>, int, bool, bool),
) -> bool {
    a.0.spec_rank() < b.0.spec_rank() || (a.0.spec_rank() == b.0.spec_rank() && a.2 < b.2)
}

/// Stable insertion of `x` into a sorted record list: `x` goes before the
/// first strictly greater element, hence after everything equal to it.
pub open spec fn spec_insert_decl(
    s: Seq<(MemberKind, Seq<char>, int, bool, bool)>,
    x: (MemberKind, Seq<char>, int, bool, bool),
) -> Seq<(MemberKind, Seq<char>, int, bool, bool)>
    decreases s.len(),
{
    if s.len() == 0 {
        seq![x]
    } else if view_lt(x, s[0]) {
        seq![x] + s
    } else {
        seq![s[0]] + spec_insert_decl(s.drop_first(), x)
    }
}

/// The stable sort of a record list: each element inserted, in order, into
/// the sorted list of its predecessors.
pub open spec fn spec_sort_decls(s: Seq<(MemberKind, Seq<char>, int, bool, bool)>) -> Seq<
    (MemberKind, Seq<char>, int, bool, bool),
>
    decreases s.len(),
{
    if s.len() == 0 {
        s
    } else {
        spec_insert_decl(spec_sort_decls(s.drop_last()), s.last())
    }
}

/// Where the stable insertion lands: before the first strictly greater
/// element.
proof fn lemma_insert_decl_at(
    s: Seq<(MemberKind, Seq<char>, int, bool, bool)>,
    x: (MemberKind, Seq<char>, int, bool, bool),
    pos: int,
)
    requires
        0 <= pos <= s.len(),
        forall|j: int| 0 <= j < pos ==> !view_lt(x, #[trigger] s[j]),
        pos < s.len() ==> view_lt(x, s[pos]),
    ensures
        spec_insert_decl(s, x) == s.take(pos) + seq![x] + s.skip(pos),
    decreases pos,
{
    if s.len() == 0 {
        assert(s.take(0) + seq![x] + s.skip(0) =~= seq![x]);
    } else if pos == 0 {
        assert(s.take(0) + seq![x] + s.skip(0) =~= seq![x] + s);
    } else {
        assert(!view_lt(x, s[0]));
        lemma_insert_decl_at(s.drop_first(), x, pos - 1);
        assert(s.drop_first().take(pos - 1) =~= s.take(pos).drop_first());
        assert(s.drop_first().skip(pos - 1) =~= s.skip(pos));
        assert(seq![s[0]] + (s.drop_first().take(pos - 1) + seq![x] + s.drop_first().skip(pos - 1))
            =~= s.take(pos) + seq![x] + s.skip(pos));
    }
}

/// Insertion keeps the length and never introduces a kind.
proof fn lemma_insert_decl_kinds(
    s: Seq<(MemberKind, Seq<char>, int, bool, bool)>,
    x: (MemberKind, Seq<char>, int, bool, bool),
)
    ensures
        spec_insert_decl(s, x).len() == s.len() + 1,
        forall|j: int|
            0 <= j < spec_insert_decl(s, x).len() ==> ((#[trigger] spec_insert_decl(s, x)[j]) == x
                || exists|m: int| 0 <= m < s.len() && s[m] == spec_insert_decl(s, x)[j]),
    decreases s.len(),
{
    if s.len() == 0 {
    } else if view_lt(x, s[0]) {
    } else {
        lemma_insert_decl_kinds(s.drop_first(), x);
        let r = spec_insert_decl(s, x);
        assert forall|j: int| 0 <= j < r.len() implies ((#[trigger] r[j]) == x || exists|m: int|
            0 <= m < s.len() && s[m] == r[j]) by {
            if j == 0 {
                assert(s[0] == r[0]);
            } else {
                let inner = spec_insert_decl(s.drop_first(), x);
                assert(r[j] == inner[j - 1]);
                if inner[j - 1] != x {
                    let m = choose|m: int|
                        0 <= m < s.drop_first().len() && s.drop_first()[m] == inner[j - 1];
                    assert(s[m + 1] == r[j]);
                }
            }
        }
    }
}

/// Sorting keeps the length and the elements.
pub proof fn lemma_sort_decls_elems(s: Seq<(MemberKind, Seq<char>, int, bool, bool)>)
    ensures
        spec_sort_decls(s).len() == s.len(),
        forall|j: int|
            0 <= j < spec_sort_decls(s).len() ==> exists|m: int|
                0 <= m < s.len() && s[m] == #[trigger] spec_sort_decls(s)[j],
    decreases s.len(),
{
    if s.len() > 0 {
        lemma_sort_decls_elems(s.drop_last());
        lemma_insert_decl_kinds(spec_sort_decls(s.drop_last()), s.last());
        let r = spec_sort_decls(s);
        assert forall|j: int| 0 <= j < r.len() implies exists|m: int|
            0 <= m < s.len() && s[m] == #[trigger] r[j] by {
            if r[j] == s.last() {
                assert(s[s.len() - 1] == r[j]);
            } else {
                let m0 = choose|m0: int|
                    0 <= m0 < spec_sort_decls(s.drop_last()).len() && spec_sort_decls(
                        s.drop_last(),
                    )[m0] == r[j];
                let m = choose|m: int|
                    0 <= m < s.drop_last().len() && s.drop_last()[m] == spec_sort_decls(
                        s.drop_last(),
                    )[m0];
                assert(s[m] == r[j]);
            }
        }
    }
}

/// Classify a function name as a virtual-method kind.
pub open spec fn spec_classify_virtual(name: Seq<char>) -> MemberKind {
    if name == "_init"@ {
        MemberKind::VirtualInit
    } else if name == "_enter_tree"@ {
        MemberKind::VirtualEnterTree
    } else if name == "_ready"@ {
        MemberKind::VirtualReady
    } else if name == "_process"@ {
        MemberKind::VirtualProcess
    } else if name == "_physics_process"@ {
        MemberKind::VirtualPhysicsProcess
    } else if name == "_exit_tree"@ || name == "_input"@ || name == "_unhandled_input"@ || name
        == "_notification"@ || name == "_draw"@ || name == "_gui_input"@ || name
        == "_unhandled_key_input"@ || name == "_shortcut_input"@ || name
        == "_get_configuration_warnings"@ || name == "_get_configuration_warning"@ {
        MemberKind::VirtualOther
    } else if name.len() > 0 && name[0] == '_' {
        MemberKind::OverriddenCustomMethod
    } else {
        MemberKind::Method
    }
}

/// Classify a function as a virtual method kind.
pub fn classify_virtual_method(name: &str) -> (r: MemberKind)
    ensures
        r == spec_classify_virtual(name@),
{
    if text::str_eq(name, "_init") {
        MemberKind::VirtualInit
    } else if text::str_eq(name, "_enter_tree") {
        MemberKind::VirtualEnterTree
    } else if text::str_eq(name, "_ready") {
        MemberKind::VirtualReady
    } else if text::str_eq(name, "_process") {
        MemberKind::VirtualProcess
    } else if text::str_eq(name, "_physics_process") {
        MemberKind::VirtualPhysicsProcess
    } else if text::str_eq(name, "_exit_tree") || text::str_eq(name, "_input") || text::str_eq(
        name,
        "_unhandled_input",
    ) || text::str_eq(name, "_notification") || text::str_eq(name, "_draw") || text::str_eq(
        name,
        "_gui_input",
    ) || text::str_eq(name, "_unhandled_key_input") || text::str_eq(name, "_shortcut_input")
        || text::str_eq(name, "_get_configuration_warnings") || text::str_eq(
        name,
        "_get_configuration_warning",
    ) {
        MemberKind::VirtualOther
    } else if text::starts_with_char(name, '_') {
        MemberKind::OverriddenCustomMethod
    } else {
        MemberKind::Method
    }
}

/// An `export`-family annotation name.
pub open spec fn spec_is_export_annotation(name: Seq<char>) -> bool {
    name == "export"@ || spec_starts_with(name, "export_"@)
}

/// Check if an annotation is an export variant.
pub fn is_export_annotation(name: &str) -> (r: bool)
    ensures
        r == spec_is_export_annotation(name@),
{
    text::str_eq(name, "export") || text::str_starts_with(name, "export_")
}

/// A standalone file-level annotation.
pub open spec fn spec_is_standalone_annotation(name: Seq<char>) -> bool {
    name == "tool"@ || name == "icon"@ || name == "static_unload"@
}

/// Check if an annotation is standalone (not attached to a declaration).
pub fn is_standalone_annotation(name: &str) -> (r: bool)
    ensures
        r == spec_is_standalone_annotation(name@),
{
    text::str_eq(name, "tool") || text::str_eq(name, "icon") || text::str_eq(name, "static_unload")
}

/// A section-marker annotation.
pub open spec fn spec_is_section_annotation(name: Seq<char>) -> bool {
    name == "export_category"@ || name == "export_group"@ || name == "export_subgroup"@
}

/// Check if an annotation is a section marker.
pub fn is_section_annotation(name: &str) -> (r: bool)
    ensures
        r == spec_is_section_annotation(name@),
{
    text::str_eq(name, "export_category") || text::str_eq(name, "export_group") || text::str_eq(
        name,
        "export_subgroup",
    )
}

/// The text of lines `start..=end` (1-indexed), each with a newline.
pub open spec fn spec_lines_text(lines: Seq<Seq<char>>, start: int, end: int) -> Seq<char>
    decreases end + 1 - start when start >= 1
{
    if start > end || start > lines.len() {
        Seq::empty()
    } else {
        lines[start - 1] + seq!['\n'] + spec_lines_text(lines, start + 1, end)
    }
}

/// Get the text from a range of lines (1-indexed, inclusive).
pub fn get_lines_text(lines: &Vec<String>, start: usize, end: usize) -> (r: String)
    requires
        start >= 1,
        end < usize::MAX,
    ensures
        r@ == spec_lines_text(lines.deep_view(), start as int, end as int),
{
    let mut out = String::new();
    let mut i: usize = start;
    let n = lines.len();
    while i <= end && i <= n
        invariant
            start <= i,
            i <= end + 1 || start > end,
            n == lines@.len(),
            start >= 1,
            end < usize::MAX,
            spec_lines_text(lines.deep_view(), start as int, end as int) == out@
                + spec_lines_text(lines.deep_view(), i as int, end as int),
        decreases end + 1 - i,
    {
        proof {
            assert(lines@[i - 1]@ == lines.deep_view()[i - 1]);
        }
        out.append(lines[i - 1].as_str());
        out.append("\n");
        proof {
            reveal_strlit("\n");
            assert("\n"@ =~= seq!['\n']);
        }
        i += 1;
    }
    proof {
        assert(spec_lines_text(lines.deep_view(), i as int, end as int) == Seq::<char>::empty());
        assert(out@ + Seq::<char>::empty() =~= out@);
    }
    out
}

/// The name of an annotation node: its first `identifier` child's text.
pub open spec fn spec_annotation_name(t: Seq<SynNode>, c: int) -> Option<Seq<char>> {
    match crate::format::expressions::first_child_where(
        t,
        c,
        crate::format::expressions::ChildSel::IdentifierKind,
    ) {
        Some(n) => Some(t[n].text@),
        None => None,
    }
}

/// Extract the annotation name from an annotation node.
pub fn get_annotation_name(t: &SynTree, c: usize) -> (r: Option<String>)
    requires
        t.wf(),
        c < t.nodes@.len(),
    ensures
        match r {
            Some(nm) => spec_annotation_name(t.nodes@, c as int) == Some(nm@),
            None => spec_annotation_name(t.nodes@, c as int) is None,
        },
{
    match crate::format::expressions::first_child_sel(
        t,
        c,
        crate::format::expressions::ChildSel::IdentifierKind,
    ) {
        Some(n) => Some(t.text(n).to_owned()),
        None => None,
    }
}

/// Whether a function node carries the `static` keyword.
pub open spec fn spec_is_static_function(t: Seq<SynNode>, i: int) -> bool {
    crate::format::nodes::has_child_kind(t, i, "static_keyword"@)
}

/// The annotation names and modifiers found inside a node, in child order:
/// names under an `annotations` wrapper, direct `annotation` children, and
/// `static` for a `static_keyword` child.
pub open spec fn spec_node_modifiers(t: Seq<SynNode>, i: int, k: int, acc: Seq<Seq<char>>) -> Seq<
    Seq<char>,
>
    decreases t.len() - i, 3int, t[i].children@.len() - k
        when 0 <= i < t.len() && arena_wf(t) && 0 <= k
{
    let cs = t[i].children@;
    if k >= cs.len() || !crate::format::expressions::node_ok(t, i) {
        acc
    } else {
        let c = cs[k] as int;
        let acc2 = if t[c].kind@ == "annotations"@ {
            spec_wrapper_annotations(t, c, 0, acc)
        } else if t[c].kind@ == "annotation"@ {
            match spec_annotation_name(t, c) {
                Some(nm) => acc.push(nm),
                None => acc,
            }
        } else if t[c].kind@ == "static_keyword"@ {
            acc.push("static"@)
        } else {
            acc
        };
        spec_node_modifiers(t, i, k + 1, acc2)
    }
}

/// The names of the `annotation` children of an `annotations` wrapper.
pub open spec fn spec_wrapper_annotations(t: Seq<SynNode>, a: int, k: int, acc: Seq<Seq<char>>) -> Seq<
    Seq<char>,
>
    decreases t.len() - a, 3int, t[a].children@.len() - k
        when 0 <= a < t.len() && arena_wf(t) && 0 <= k
{
    let cs = t[a].children@;
    if k >= cs.len() || !crate::format::expressions::node_ok(t, a) {
        acc
    } else {
        let c = cs[k] as int;
        let acc2 = if t[c].kind@ == "annotation"@ {
            match spec_annotation_name(t, c) {
                Some(nm) => acc.push(nm),
                None => acc,
            }
        } else {
            acc
        };
        spec_wrapper_annotations(t, a, k + 1, acc2)
    }
}

/// Get annotations and modifiers from inside a node.
pub fn get_node_modifiers(t: &SynTree, i: usize) -> (r: Vec<String>)
    requires
        t.wf(),
        i < t.nodes@.len(),
    ensures
        r.deep_view() == spec_node_modifiers(t.nodes@, i as int, 0, Seq::empty()),
{
    proof {
        assert(crate::tree::node_wf(t.nodes@, i as int));
        assert(crate::format::expressions::node_ok(t.nodes@, i as int));
    }
    let mut out: Vec<String> = Vec::new();
    let n = t.child_count(i);
    let mut k: usize = 0;
    proof {
        assert(out.deep_view() =~= Seq::<Seq<char>>::empty());
    }
    while k < n
        invariant
            0 <= k <= n,
            t.wf(),
            i < t.nodes@.len(),
            n == t.nodes@[i as int].children@.len(),
            spec_node_modifiers(t.nodes@, i as int, 0, Seq::empty()) == spec_node_modifiers(
                t.nodes@,
                i as int,
                k as int,
                out.deep_view(),
            ),
        decreases n - k,
    {
        proof {
            assert(crate::tree::node_wf(t.nodes@, i as int));
            assert(crate::format::expressions::node_ok(t.nodes@, i as int));
        }
        let c = t.child(i, k);
        if t.kind_is(c, "annotations") {
            let ghost pre = out.deep_view();
            collect_wrapper_annotations(t, c, &mut out);
        } else if t.kind_is(c, "annotation") {
            if let Some(nm) = get_annotation_name(t, c) {
                let ghost pre = out.deep_view();
                out.push(nm);
                proof {
                    assert(out.deep_view() =~= pre.push(out.deep_view().last()));
                }
            }
        } else if t.kind_is(c, "static_keyword") {
            let ghost pre = out.deep_view();
            out.push("static".to_owned());
            proof {
                assert(out.deep_view() =~= pre.push("static"@));
            }
        }
        k += 1;
    }
    out
}

/// Append the names of the wrapper's annotation children.
fn collect_wrapper_annotations(t: &SynTree, a: usize, out: &mut Vec<String>)
    requires
        t.wf(),
        a < t.nodes@.len(),
    ensures
        final(out).deep_view() == spec_wrapper_annotations(
            t.nodes@,
            a as int,
            0,
            old(out).deep_view(),
        ),
{
    proof {
        assert(crate::tree::node_wf(t.nodes@, a as int));
        assert(crate::format::expressions::node_ok(t.nodes@, a as int));
    }
    let n = t.child_count(a);
    let mut k: usize = 0;
    while k < n
        invariant
            0 <= k <= n,
            t.wf(),
            a < t.nodes@.len(),
            n == t.nodes@[a as int].children@.len(),
            spec_wrapper_annotations(t.nodes@, a as int, 0, old(out).deep_view())
                == spec_wrapper_annotations(t.nodes@, a as int, k as int, out.deep_view()),
        decreases n - k,
    {
        proof {
            assert(crate::tree::node_wf(t.nodes@, a as int));
            assert(crate::format::expressions::node_ok(t.nodes@, a as int));
        }
        let c = t.child(a, k);
        if t.kind_is(c, "annotation") {
            if let Some(nm) = get_annotation_name(t, c) {
                let ghost pre = out.deep_view();
                out.push(nm);
                proof {
                    assert(out.deep_view() =~= pre.push(out.deep_view().last()));
                }
            }
        }
        k += 1;
    }
}

/// The variable sub-kind given its modifiers: onready > export > static >
/// plain.
pub open spec fn spec_var_kind(mods: Seq<Seq<char>>) -> MemberKind {
    if exists|j: int| 0 <= j < mods.len() && mods[j] == "onready"@ {
        MemberKind::OnreadyVar
    } else if exists|j: int| 0 <= j < mods.len() && spec_is_export_annotation(#[trigger] mods[j]) {
        MemberKind::ExportVar
    } else if exists|j: int| 0 <= j < mods.len() && mods[j] == "static"@ {
        MemberKind::StaticVar
    } else {
        MemberKind::Var
    }
}

/// Pick the variable sub-kind from its modifiers.
fn var_kind_of(mods: &Vec<String>) -> (r: MemberKind)
    ensures
        r == spec_var_kind(mods.deep_view()),
{
    let ghost mv = mods.deep_view();
    let n = mods.len();
    let mut has_onready = false;
    let mut has_export = false;
    let mut has_static = false;
    let mut j: usize = 0;
    while j < n
        invariant
            0 <= j <= n,
            n == mods@.len(),
            mv == mods.deep_view(),
            has_onready == exists|m: int| 0 <= m < j && mv[m] == "onready"@,
            has_export == exists|m: int|
                0 <= m < j && spec_is_export_annotation(#[trigger] mv[m]),
            has_static == exists|m: int| 0 <= m < j && mv[m] == "static"@,
        decreases n - j,
    {
        proof {
            assert(mods@[j as int]@ == mv[j as int]);
        }
        if text::str_eq(mods[j].as_str(), "onready") {
            has_onready = true;
        }
        if is_export_annotation(mods[j].as_str()) {
            has_export = true;
        }
        if text::str_eq(mods[j].as_str(), "static") {
            has_static = true;
        }
        proof {
            if has_onready && !(exists|m: int| 0 <= m < j + 1 && mv[m] == "onready"@) {
                assert(false);
            }
        }
        j += 1;
    }
    if has_onready {
        MemberKind::OnreadyVar
    } else if has_export {
        MemberKind::ExportVar
    } else if has_static {
        MemberKind::StaticVar
    } else {
        MemberKind::Var
    }
}

/// The member kind of a non-annotation child, if it is a declaration.
pub open spec fn spec_member_kind(t: Seq<SynNode>, c: int) -> Option<MemberKind>
    decreases t.len() - c, 4int, 0int
        when 0 <= c < t.len() && arena_wf(t)
{
    let kind = t[c].kind@;
    if kind == "class_name_statement"@ {
        Some(MemberKind::ClassName)
    } else if kind == "extends_statement"@ {
        Some(MemberKind::Extends)
    } else if kind == "signal_statement"@ {
        Some(MemberKind::Signal)
    } else if kind == "enum_definition"@ {
        Some(MemberKind::Enum)
    } else if kind == "const_statement"@ {
        Some(MemberKind::Const)
    } else if kind == "variable_statement"@ {
        Some(spec_var_kind(spec_node_modifiers(t, c, 0, Seq::empty())))
    } else if kind == "function_definition"@ {
        let name = match crate::format::expressions::field_child(t, c, "name"@) {
            Some(n) => t[n].text@,
            None => Seq::empty(),
        };
        if spec_is_static_function(t, c) {
            if name == "_static_init"@ {
                Some(MemberKind::StaticInit)
            } else {
                Some(MemberKind::StaticMethod)
            }
        } else {
            Some(spec_classify_virtual(name))
        }
    } else if kind == "constructor_definition"@ {
        Some(MemberKind::VirtualInit)
    } else if kind == "class_definition"@ {
        Some(MemberKind::InnerClass)
    } else {
        None
    }
}

/// Exec mirror of `spec_member_kind`.
fn member_kind_of(t: &SynTree, c: usize) -> (r: Option<MemberKind>)
    requires
        t.wf(),
        c < t.nodes@.len(),
    ensures
        r == spec_member_kind(t.nodes@, c as int),
{
    if t.kind_is(c, "class_name_statement") {
        Some(MemberKind::ClassName)
    } else if t.kind_is(c, "extends_statement") {
        Some(MemberKind::Extends)
    } else if t.kind_is(c, "signal_statement") {
        Some(MemberKind::Signal)
    } else if t.kind_is(c, "enum_definition") {
        Some(MemberKind::Enum)
    } else if t.kind_is(c, "const_statement") {
        Some(MemberKind::Const)
    } else if t.kind_is(c, "variable_statement") {
        let mods = get_node_modifiers(t, c);
        Some(var_kind_of(&mods))
    } else if t.kind_is(c, "function_definition") {
        let name: String = match crate::format::expressions::get_field_child(t, c, "name") {
            Some(n) => t.text(n).to_owned(),
            None => String::new(),
        };
        if crate::format::nodes::check_child_kind(t, c, "static_keyword") {
            if text::str_eq(name.as_str(), "_static_init") {
                Some(MemberKind::StaticInit)
            } else {
                Some(MemberKind::StaticMethod)
            }
        } else {
            Some(classify_virtual_method(name.as_str()))
        }
    } else if t.kind_is(c, "constructor_definition") {
        Some(MemberKind::VirtualInit)
    } else if t.kind_is(c, "class_definition") {
        Some(MemberKind::InnerClass)
    } else {
        None
    }
}

/// Whether, after child position `j`, a `variable_statement` comes before
/// the next major declaration: an orphaned section marker looks ahead.
pub open spec fn spec_has_following_var(t: Seq<SynNode>, scope: int, j: int) -> bool
    decreases t[scope].children@.len() - j when 0 <= j
{
    let cs = t[scope].children@;
    if j >= cs.len() || !crate::format::expressions::node_ok(t, scope) {
        false
    } else {
        let kind = t[cs[j] as int].kind@;
        if kind == "variable_statement"@ {
            true
        } else if kind == "function_definition"@ || kind == "class_definition"@ || kind
            == "signal_statement"@ || kind == "enum_definition"@ || kind == "const_statement"@ {
            false
        } else {
            spec_has_following_var(t, scope, j + 1)
        }
    }
}

/// The backward walk of an orphaned section annotation: pull in preceding
/// column-zero comments, at most one blank line apart; `j` is the next
/// position to look at, counting down.
pub open spec fn spec_walk_orphan(
    t: Seq<SynNode>,
    scope: int,
    j: int,
    start_line: int,
    has_doc: bool,
    processed: Set<int>,
) -> (int, bool, Set<int>)
    decreases j + 1 when j < t[scope].children@.len()
{
    let cs = t[scope].children@;
    if j < 0 || !crate::format::expressions::node_ok(t, scope) {
        (start_line, has_doc, processed)
    } else if processed.contains(j) {
        (start_line, has_doc, processed)
    } else {
        let p = cs[j] as int;
        if t[p].kind@ == "comment"@ {
            if t[p].start_col != 0 {
                (start_line, has_doc, processed)
            } else {
                let prev_end = t[p].end_row + 1;
                if prev_end + 2 >= start_line {
                    let contiguous = prev_end + 1 >= start_line;
                    let hd = has_doc || (contiguous && spec_starts_with(t[p].text@, "##"@));
                    spec_walk_orphan(
                        t,
                        scope,
                        j - 1,
                        t[p].start_row + 1,
                        hd,
                        processed.insert(j),
                    )
                } else {
                    (start_line, has_doc, processed)
                }
            }
        } else {
            (start_line, has_doc, processed)
        }
    }
}

/// The backward walk of a classified declaration: pull in contiguous
/// export-family annotations and nearby column-zero comments (looser for
/// function-like kinds, to allow short section headers).
pub open spec fn spec_walk_attach(
    t: Seq<SynNode>,
    scope: int,
    j: int,
    start_line: int,
    has_doc: bool,
    has_sec: bool,
    processed: Set<int>,
    fn_like: bool,
) -> (int, bool, bool, Set<int>)
    decreases j + 1 when j < t[scope].children@.len()
{
    let cs = t[scope].children@;
    if j < 0 || !crate::format::expressions::node_ok(t, scope) {
        (start_line, has_doc, has_sec, processed)
    } else if processed.contains(j) {
        (start_line, has_doc, has_sec, processed)
    } else {
        let p = cs[j] as int;
        if t[p].kind@ == "annotation"@ {
            match spec_annotation_name(t, p) {
                Some(nm) => if spec_is_export_annotation(nm) && !spec_is_standalone_annotation(nm)
                    && t[p].end_row + 2 >= start_line {
                    spec_walk_attach(
                        t,
                        scope,
                        j - 1,
                        t[p].start_row + 1,
                        has_doc,
                        has_sec || spec_is_section_annotation(nm),
                        processed.insert(j),
                        fn_like,
                    )
                } else {
                    (start_line, has_doc, has_sec, processed)
                },
                None => (start_line, has_doc, has_sec, processed),
            }
        } else if t[p].kind@ == "comment"@ {
            if t[p].start_col != 0 {
                (start_line, has_doc, has_sec, processed)
            } else {
                let prev_end = t[p].end_row + 1;
                let contiguous = prev_end + 1 >= start_line;
                let near = prev_end + 2 >= start_line;
                let header = fn_like && prev_end + 3 >= start_line;
                if contiguous || near || header {
                    let hd = has_doc || (contiguous && spec_starts_with(t[p].text@, "##"@));
                    spec_walk_attach(
                        t,
                        scope,
                        j - 1,
                        t[p].start_row + 1,
                        hd,
                        has_sec,
                        processed.insert(j),
                        fn_like,
                    )
                } else {
                    (start_line, has_doc, has_sec, processed)
                }
            }
        } else {
            (start_line, has_doc, has_sec, processed)
        }
    }
}

/// Extract the declarations of a scope, child position `k` onward.
pub open spec fn spec_extract(
    t: Seq<SynNode>,
    scope: int,
    k: int,
    oi: int,
    processed: Set<int>,
    src: Seq<Seq<char>>,
    skips: Seq<(int, int)>,
    acc: Seq<(MemberKind, Seq<char>, int, bool, bool)>,
) -> Seq<(MemberKind, Seq<char>, int, bool, bool)>
    decreases t[scope].children@.len() - k when 0 <= k
{
    let cs = t[scope].children@;
    if k >= cs.len() || !crate::format::expressions::node_ok(t, scope) {
        acc
    } else {
        let c = cs[k] as int;
        let start_ln = t[c].start_row + 1;
        let end_ln = t[c].end_row + 1;
        if crate::format::skip_regions::in_skip_ranges(skips, start_ln) {
            spec_extract(t, scope, k + 1, oi, processed, src, skips, acc)
        } else if t[c].kind@ == "annotation"@ {
            match spec_annotation_name(t, c) {
                Some(nm) => if spec_is_standalone_annotation(nm) {
                    let kind = if nm == "tool"@ {
                        MemberKind::Tool
                    } else if nm == "icon"@ {
                        MemberKind::Icon
                    } else {
                        MemberKind::StaticUnload
                    };
                    let txt = spec_lines_text(src, start_ln, end_ln);
                    spec_extract(
                        t,
                        scope,
                        k + 1,
                        oi + 1,
                        processed.insert(k),
                        src,
                        skips,
                        acc.push((kind, txt, oi, false, false)),
                    )
                } else if spec_is_section_annotation(nm) && !spec_has_following_var(
                    t,
                    scope,
                    k + 1,
                ) {
                    let w = spec_walk_orphan(t, scope, k - 1, start_ln, false, processed);
                    let txt = spec_lines_text(src, w.0, end_ln);
                    spec_extract(
                        t,
                        scope,
                        k + 1,
                        oi + 1,
                        w.2.insert(k),
                        src,
                        skips,
                        acc.push((MemberKind::Var, txt, oi, w.1, true)),
                    )
                } else {
                    spec_extract(t, scope, k + 1, oi, processed, src, skips, acc)
                },
                None => spec_extract(t, scope, k + 1, oi, processed, src, skips, acc),
            }
        } else {
            match spec_member_kind(t, c) {
                Some(kind) => {
                    let w = spec_walk_attach(
                        t,
                        scope,
                        k - 1,
                        start_ln,
                        false,
                        false,
                        processed,
                        kind.spec_is_function_like(),
                    );
                    let txt = spec_lines_text(src, w.0, end_ln);
                    spec_extract(
                        t,
                        scope,
                        k + 1,
                        oi + 1,
                        w.3,
                        src,
                        skips,
                        acc.push((kind, txt, oi, w.1, w.2)),
                    )
                },
                None => spec_extract(t, scope, k + 1, oi, processed, src, skips, acc),
            }
        }
    }
}

/// Exec mirror of `spec_walk_orphan`, from position `k - 1` down.
fn walk_orphan(
    t: &SynTree,
    scope: usize,
    k: usize,
    start0: usize,
    processed: &mut Vec<usize>,
) -> (r: (usize, bool))
    requires
        t.wf(),
        scope < t.nodes@.len(),
        k <= t.nodes@[scope as int].children@.len(),
        start0 >= 1,
    ensures
        r.0 >= 1,
        ({
            let w = spec_walk_orphan(
                t.nodes@,
                scope as int,
                k - 1,
                start0 as int,
                false,
                crate::format::output::set_of(old(processed)@),
            );
            r.0 == w.0 && r.1 == w.1 && crate::format::output::set_of(final(processed)@) == w.2
        }),
{
    let mut j: usize = k;
    let mut sl: usize = start0;
    let mut hd: bool = false;
    let mut done: bool = false;
    while !done
        invariant
            0 <= j <= k <= t.nodes@[scope as int].children@.len(),
            t.wf(),
            scope < t.nodes@.len(),
            sl >= 1,
            spec_walk_orphan(
                t.nodes@,
                scope as int,
                k - 1,
                start0 as int,
                false,
                crate::format::output::set_of(old(processed)@),
            ) == if done {
                (sl as int, hd, crate::format::output::set_of(processed@))
            } else {
                spec_walk_orphan(
                    t.nodes@,
                    scope as int,
                    j - 1,
                    sl as int,
                    hd,
                    crate::format::output::set_of(processed@),
                )
            },
        decreases j, (if done {
            0int
        } else {
            1int
        }),
    {
        proof {
            assert(crate::tree::node_wf(t.nodes@, scope as int));
            assert(crate::format::expressions::node_ok(t.nodes@, scope as int));
        }
        if j == 0 {
            done = true;
        } else {
            let p_idx = j - 1;
            if crate::format::output::idx_contains(processed, p_idx) {
                done = true;
            } else {
                let p = t.child(scope, p_idx);
                proof {
                    assert(crate::tree::node_wf(t.nodes@, p as int));
                }
                if t.kind_is(p, "comment") {
                    if t.nodes[p].start_col != 0 {
                        done = true;
                    } else {
                        let prev_end = t.end_line(p);
                        if prev_end + 2 >= sl {
                            let contiguous = prev_end + 1 >= sl;
                            if contiguous && text::str_starts_with(t.text(p), "##") {
                                hd = true;
                            }
                            sl = t.start_line(p);
                            let ghost before = processed@;
                            processed.push(p_idx);
                            proof {
                                crate::format::output::lemma_set_of_push(before, p_idx);
                            }
                            j -= 1;
                        } else {
                            done = true;
                        }
                    }
                } else {
                    done = true;
                }
            }
        }
    }
    (sl, hd)
}

/// Exec mirror of `spec_walk_attach`, from position `k - 1` down.
#[verifier::rlimit(100)]
fn walk_attach(
    t: &SynTree,
    scope: usize,
    k: usize,
    start0: usize,
    fn_like: bool,
    processed: &mut Vec<usize>,
) -> (r: (usize, bool, bool))
    requires
        t.wf(),
        scope < t.nodes@.len(),
        k <= t.nodes@[scope as int].children@.len(),
        start0 >= 1,
    ensures
        r.0 >= 1,
        ({
            let w = spec_walk_attach(
                t.nodes@,
                scope as int,
                k - 1,
                start0 as int,
                false,
                false,
                crate::format::output::set_of(old(processed)@),
                fn_like,
            );
            r.0 == w.0 && r.1 == w.1 && r.2 == w.2 && crate::format::output::set_of(
                final(processed)@,
            ) == w.3
        }),
{
    let mut j: usize = k;
    let mut sl: usize = start0;
    let mut hd: bool = false;
    let mut hs: bool = false;
    let mut done: bool = false;
    while !done
        invariant
            0 <= j <= k <= t.nodes@[scope as int].children@.len(),
            t.wf(),
            scope < t.nodes@.len(),
            sl >= 1,
            spec_walk_attach(
                t.nodes@,
                scope as int,
                k - 1,
                start0 as int,
                false,
                false,
                crate::format::output::set_of(old(processed)@),
                fn_like,
            ) == if done {
                (sl as int, hd, hs, crate::format::output::set_of(processed@))
            } else {
                spec_walk_attach(
                    t.nodes@,
                    scope as int,
                    j - 1,
                    sl as int,
                    hd,
                    hs,
                    crate::format::output::set_of(processed@),
                    fn_like,
                )
            },
        decreases j, (if done {
            0int
        } else {
            1int
        }),
    {
        proof {
            assert(crate::tree::node_wf(t.nodes@, scope as int));
            assert(crate::format::expressions::node_ok(t.nodes@, scope as int));
        }
        if j == 0 {
            done = true;
        } else {
            let p_idx = j - 1;
            if crate::format::output::idx_contains(processed, p_idx) {
                done = true;
            } else {
                let p = t.child(scope, p_idx);
                proof {
                    assert(crate::tree::node_wf(t.nodes@, p as int));
                }
                if t.kind_is(p, "annotation") {
                    let nm = get_annotation_name(t, p);
                    match nm {
                        Some(nm) => {
                            let prev_end = t.end_line(p);
                            if is_export_annotation(nm.as_str()) && !is_standalone_annotation(
                                nm.as_str(),
                            ) && prev_end + 1 >= sl {
                                if is_section_annotation(nm.as_str()) {
                                    hs = true;
                                }
                                sl = t.start_line(p);
                                let ghost before = processed@;
                                processed.push(p_idx);
                                proof {
                                    crate::format::output::lemma_set_of_push(before, p_idx);
                                }
                                j -= 1;
                            } else {
                                done = true;
                            }
                        },
                        None => {
                            done = true;
                        },
                    }
                } else if t.kind_is(p, "comment") {
                    if t.nodes[p].start_col != 0 {
                        done = true;
                    } else {
                        let prev_end = t.end_line(p);
                        let contiguous = prev_end + 1 >= sl;
                        let near = prev_end + 2 >= sl;
                        let header = fn_like && prev_end + 3 >= sl;
                        if contiguous || near || header {
                            if contiguous && text::str_starts_with(t.text(p), "##") {
                                hd = true;
                            }
                            sl = t.start_line(p);
                            let ghost before = processed@;
                            processed.push(p_idx);
                            proof {
                                crate::format::output::lemma_set_of_push(before, p_idx);
                            }
                            j -= 1;
                        } else {
                            done = true;
                        }
                    }
                } else {
                    done = true;
                }
            }
        }
    }
    (sl, hd, hs)
}

/// Exec lookahead for `spec_has_following_var`.
fn has_following_var(t: &SynTree, scope: usize, j: usize) -> (r: bool)
    requires
        t.wf(),
        scope < t.nodes@.len(),
    ensures
        r == spec_has_following_var(t.nodes@, scope as int, j as int),
    decreases t.nodes@[scope as int].children@.len() - j,
{
    proof {
        assert(crate::tree::node_wf(t.nodes@, scope as int));
        assert(crate::format::expressions::node_ok(t.nodes@, scope as int));
    }
    let n = t.child_count(scope);
    if j >= n {
        return false;
    }
    let c = t.child(scope, j);
    if t.kind_is(c, "variable_statement") {
        true
    } else if t.kind_is(c, "function_definition") || t.kind_is(c, "class_definition") || t.kind_is(
        c,
        "signal_statement",
    ) || t.kind_is(c, "enum_definition") || t.kind_is(c, "const_statement") {
        false
    } else {
        has_following_var(t, scope, j + 1)
    }
}

/// Extract the declarations of a scope.
#[verifier::rlimit(100)]
pub fn extract_declarations(
    t: &SynTree,
    scope: usize,
    src_lines: &Vec<String>,
    skips: &SkipRegions,
) -> (r: Vec<Declaration>)
    requires
        t.wf(),
        scope < t.nodes@.len(),
    ensures
        decls_view(r@) == spec_extract(
            t.nodes@,
            scope as int,
            0,
            0,
            Set::empty(),
            src_lines.deep_view(),
            skips.view_ranges(),
            Seq::empty(),
        ),
{
    proof {
        assert(crate::tree::node_wf(t.nodes@, scope as int));
        assert(crate::format::expressions::node_ok(t.nodes@, scope as int));
    }
    let n = t.child_count(scope);
    let mut out: Vec<Declaration> = Vec::new();
    let mut processed: Vec<usize> = Vec::new();
    let mut oi: usize = 0;
    let mut k: usize = 0;
    proof {
        assert(decls_view(out@) =~= Seq::<(MemberKind, Seq<char>, int, bool, bool)>::empty());
        assert(crate::format::output::set_of(processed@) =~= Set::<int>::empty());
    }
    while k < n
        invariant
            0 <= k <= n,
            oi <= k,
            t.wf(),
            scope < t.nodes@.len(),
            n == t.nodes@[scope as int].children@.len(),
            spec_extract(
                t.nodes@,
                scope as int,
                0,
                0,
                Set::empty(),
                src_lines.deep_view(),
                skips.view_ranges(),
                Seq::empty(),
            ) == spec_extract(
                t.nodes@,
                scope as int,
                k as int,
                oi as int,
                crate::format::output::set_of(processed@),
                src_lines.deep_view(),
                skips.view_ranges(),
                decls_view(out@),
            ),
        decreases n - k,
    {
        proof {
            assert(crate::tree::node_wf(t.nodes@, scope as int));
            assert(crate::format::expressions::node_ok(t.nodes@, scope as int));
        }
        let c = t.child(scope, k);
        proof {
            assert(crate::tree::node_wf(t.nodes@, c as int));
        }
        let start_ln = t.start_line(c);
        let end_ln = t.end_line(c);
        if skips.is_skipped(start_ln) {
            k += 1;
            continue ;
        }
        if t.kind_is(c, "annotation") {
            let nm = get_annotation_name(t, c);
            match nm {
                Some(nm) => {
                    if is_standalone_annotation(nm.as_str()) {
                        let kind = if text::str_eq(nm.as_str(), "tool") {
                            MemberKind::Tool
                        } else if text::str_eq(nm.as_str(), "icon") {
                            MemberKind::Icon
                        } else {
                            MemberKind::StaticUnload
                        };
                        let txt = get_lines_text(src_lines, start_ln, end_ln);
                        let ghost before = decls_view(out@);
                        let ghost before_p = crate::format::output::set_of(processed@);
                        out.push(
                            Declaration {
                                kind,
                                text: txt,
                                original_index: oi,
                                has_doc_comment: false,
                                has_section_annotation: false,
                            },
                        );
                        let ghost before_pv = processed@;
                        processed.push(k);
                        proof {
                            crate::format::output::lemma_set_of_push(before_pv, k);
                            assert(decls_view(out@) =~= before.push(
                                (
                                    kind,
                                    out@.last().text@,
                                    oi as int,
                                    false,
                                    false,
                                ),
                            ));
                        }
                        oi += 1;
                    } else if is_section_annotation(nm.as_str()) && !has_following_var(
                        t,
                        scope,
                        k + 1,
                    ) {
                        let w = walk_orphan(t, scope, k, start_ln, &mut processed);
                        let txt = get_lines_text(src_lines, w.0, end_ln);
                        let ghost before = decls_view(out@);
                        out.push(
                            Declaration {
                                kind: MemberKind::Var,
                                text: txt,
                                original_index: oi,
                                has_doc_comment: w.1,
                                has_section_annotation: true,
                            },
                        );
                        let ghost before_pv = processed@;
                        processed.push(k);
                        proof {
                            crate::format::output::lemma_set_of_push(before_pv, k);
                            assert(decls_view(out@) =~= before.push(
                                (
                                    MemberKind::Var,
                                    out@.last().text@,
                                    oi as int,
                                    w.1,
                                    true,
                                ),
                            ));
                        }
                        oi += 1;
                    }
                },
                None => {},
            }
            k += 1;
            continue ;
        }
        match member_kind_of(t, c) {
            Some(kind) => {
                let w = walk_attach(t, scope, k, start_ln, kind.is_function_like(), &mut processed);
                let txt = get_lines_text(src_lines, w.0, end_ln);
                let ghost before = decls_view(out@);
                out.push(
                    Declaration {
                        kind,
                        text: txt,
                        original_index: oi,
                        has_doc_comment: w.1,
                        has_section_annotation: w.2,
                    },
                );
                proof {
                    assert(decls_view(out@) =~= before.push(
                        (kind, out@.last().text@, oi as int, w.1, w.2),
                    ));
                }
                oi += 1;
            },
            None => {},
        }
        k += 1;
    }
    out
}

/// Strict sort order: by kind rank, then by original index.
pub open spec fn decl_lt(a: Declaration, b: Declaration) -> bool {
    a.kind.spec_rank() < b.kind.spec_rank() || (a.kind.spec_rank() == b.kind.spec_rank()
        && a.original_index < b.original_index)
}

/// The list is sorted by `(kind rank, original index)`.
pub open spec fn decls_sorted(s: Seq<Declaration>) -> bool {
    forall|a: int, b: int| 0 <= a < b < s.len() ==> !decl_lt(#[trigger] s[b], #[trigger] s[a])
}

/// Exec test for `decl_lt`.
fn decl_before(a: &Declaration, b: &Declaration) -> (r: bool)
    ensures
        r == decl_lt(*a, *b),
{
    let ra = a.kind.rank();
    let rb = b.kind.rank();
    ra < rb || (ra == rb && a.original_index < b.original_index)
}

/// Sort declarations by `MemberKind`, preserving original order within the
/// same kind: the output is an ordered permutation of the input, and an
/// already-ordered input comes back unchanged.
pub fn sort_declarations(decls: &mut Vec<Declaration>)
    ensures
        final(decls)@.to_multiset() == old(decls)@.to_multiset(),
        final(decls)@.len() == old(decls)@.len(),
        decls_sorted(final(decls)@),
        decls_sorted(old(decls)@) ==> final(decls)@ == old(decls)@,
        decls_view(final(decls)@) == spec_sort_decls(decls_view(old(decls)@)),
{
    let n = decls.len();
    if n == 0 {
        proof {
            assert(decls_view(decls@) =~= spec_sort_decls(decls_view(decls@)));
        }
        return ;
    }
    let mut i: usize = 1;
    proof {
        let v1 = decls_view(old(decls)@.take(1));
        assert(v1.len() == 1);
        assert(v1.drop_last() =~= Seq::<(MemberKind, Seq<char>, int, bool, bool)>::empty());
        assert(spec_sort_decls(v1.drop_last()) =~= Seq::<
            (MemberKind, Seq<char>, int, bool, bool),
        >::empty());
        assert(spec_sort_decls(v1) == spec_insert_decl(spec_sort_decls(v1.drop_last()), v1.last()));
        assert(spec_sort_decls(v1) =~= seq![v1.last()]);
        assert(v1.last() == decl_view(old(decls)@[0]));
        assert(decls_view(decls@.take(1)) =~= seq![decl_view(old(decls)@[0])]);
    }
    while i < n
        invariant
            1 <= i <= n,
            n == decls@.len(),
            decls@.len() == old(decls)@.len(),
            decls@.to_multiset() == old(decls)@.to_multiset(),
            decls_sorted(decls@.take(i as int)),
            decls_sorted(old(decls)@) ==> decls@ == old(decls)@,
            decls@.skip(i as int) == old(decls)@.skip(i as int),
            decls_view(decls@.take(i as int)) == spec_sort_decls(
                decls_view(old(decls)@.take(i as int)),
            ),
        decreases n - i,
    {
        proof {
            assert(decls@[i as int] == old(decls)@[i as int]) by {
                assert(decls@.skip(i as int)[0] == decls@[i as int]);
                assert(old(decls)@.skip(i as int)[0] == old(decls)@[i as int]);
            }
        }
        // Find the stable insertion position for element i in the sorted
        // prefix 0..i.
        let mut pos: usize = 0;
        while pos < i && !decl_before(&decls[i], &decls[pos])
            invariant
                0 <= pos <= i < decls@.len(),
                forall|j: int| 0 <= j < pos ==> !decl_lt(decls@[i as int], #[trigger] decls@[j]),
            decreases i - pos,
        {
            pos += 1;
        }
        let ghost before = decls@;
        if pos < i {
            let x = decls.remove(i);
            decls.insert(pos, x);
            proof {
                broadcast use vstd::seq_lib::group_to_multiset_ensures;

                let removed = before.remove(i as int);
                assert(removed.to_multiset() =~= before.to_multiset().remove(before[i as int]));
                let inserted = removed.insert(pos as int, before[i as int]);
                assert(inserted.remove(pos as int) =~= removed);
                assert(inserted[pos as int] == before[i as int]);
                assert(inserted.remove(pos as int).to_multiset() =~= inserted.to_multiset().remove(
                    inserted[pos as int],
                ));
                assert(inserted.to_multiset().count(before[i as int]) > 0) by {
                    assert(inserted[pos as int] == before[i as int]);
                    assert(inserted.contains(before[i as int]));
                }
                assert(inserted.to_multiset() =~= before.to_multiset());
                assert(decls@ == inserted);
                // The new prefix of length i + 1 is sorted.
                assert forall|a: int, b: int|
                    0 <= a < b < i + 1 implies !decl_lt(
                    #[trigger] decls@.take(i + 1)[b],
                    #[trigger] decls@.take(i + 1)[a],
                ) by {
                    if b < pos {
                        assert(decls@[a] == before[a] && decls@[b] == before[b]);
                        assert(before.take(i as int)[a] == before[a]);
                        assert(before.take(i as int)[b] == before[b]);
                    } else if a < pos && b == pos {
                        assert(decls@[b] == before[i as int]);
                        assert(decls@[a] == before[a]);
                    } else if a < pos && b > pos {
                        assert(decls@[a] == before[a] && decls@[b] == before[b - 1]);
                        assert(before.take(i as int)[a] == before[a]);
                        assert(before.take(i as int)[b - 1] == before[b - 1]);
                    } else if a == pos {
                        assert(decls@[a] == before[i as int]);
                        assert(decls@[b] == before[b - 1]);
                        assert(!(!decl_lt(decls@[a], before[pos as int])));
                        assert(before.take(i as int)[pos as int] == before[pos as int]);
                        assert(before.take(i as int)[b - 1] == before[b - 1]);
                    } else {
                        assert(decls@[a] == before[a - 1] && decls@[b] == before[b - 1]);
                        assert(before.take(i as int)[a - 1] == before[a - 1]);
                        assert(before.take(i as int)[b - 1] == before[b - 1]);
                    }
                }
                // A sorted input never reaches this branch.
                if decls_sorted(old(decls)@) {
                    assert(before == old(decls)@);
                    assert(decl_lt(before[i as int], before[pos as int]));
                    assert(false);
                }
                // The new prefix is the stable insertion of the element.
                lemma_sort_step(before, decls@, old(decls)@, i as int, pos as int);
                assert(decls@.skip(i + 1) =~= old(decls)@.skip(i + 1)) by {
                    assert forall|j: int|
                        0 <= j < decls@.skip(i + 1).len() implies #[trigger] decls@.skip(i + 1)[j]
                        == old(decls)@.skip(i + 1)[j] by {
                        assert(decls@[i + 1 + j] == before[i + 1 + j]);
                        assert(before.skip(i as int)[1 + j] == before[i + 1 + j]);
                        assert(old(decls)@.skip(i as int)[1 + j] == old(decls)@[i + 1 + j]);
                    }
                }
            }
        } else {
            proof {
                lemma_sort_step(before, decls@, old(decls)@, i as int, pos as int);
                assert(decls@.skip(i + 1) =~= old(decls)@.skip(i + 1)) by {
                    assert forall|j: int|
                        0 <= j < decls@.skip(i + 1).len() implies #[trigger] decls@.skip(i + 1)[j]
                        == old(decls)@.skip(i + 1)[j] by {
                        assert(decls@.skip(i as int)[1 + j] == decls@[i + 1 + j]);
                        assert(old(decls)@.skip(i as int)[1 + j] == old(decls)@[i + 1 + j]);
                    }
                }
                assert forall|a: int, b: int|
                    0 <= a < b < i + 1 implies !decl_lt(
                    #[trigger] decls@.take(i + 1)[b],
                    #[trigger] decls@.take(i + 1)[a],
                ) by {
                    if b < i {
                        assert(decls@.take(i as int)[a] == decls@[a]);
                        assert(decls@.take(i as int)[b] == decls@[b]);
                    }
                }
            }
        }
        i += 1;
    }
    proof {
        assert(decls@.take(decls@.len() as int) =~= decls@);
        assert(old(decls)@.take(old(decls)@.len() as int) =~= old(decls)@);
    }
}

/// One insertion-sort step at the view level: inserting element `i` of the
/// source at the scanned position turns the sorted prefix of length `i`
/// into the sorted prefix of length `i + 1`.
proof fn lemma_sort_step(
    before: Seq<Declaration>,
    after: Seq<Declaration>,
    source: Seq<Declaration>,
    i: int,
    pos: int,
)
    requires
        0 <= pos <= i < before.len(),
        before.len() == source.len(),
        after.len() == before.len(),
        before[i] == source[i],
        decls_view(before.take(i)) == spec_sort_decls(decls_view(source.take(i))),
        forall|j: int| 0 <= j < pos ==> !decl_lt(before[i], #[trigger] before[j]),
        pos < i ==> decl_lt(before[i], before[pos]),
        pos < i ==> after == before.remove(i).insert(pos, before[i]),
        pos == i ==> after == before,
    ensures
        decls_view(after.take(i + 1)) == spec_sort_decls(decls_view(source.take(i + 1))),
{
    let x = decl_view(source[i]);
    let sorted_prefix = decls_view(before.take(i));
    assert(decls_view(source.take(i + 1)).drop_last() =~= decls_view(source.take(i)));
    assert(decls_view(source.take(i + 1)).last() == x);
    assert(spec_sort_decls(decls_view(source.take(i + 1))) == spec_insert_decl(sorted_prefix, x));
    assert forall|j: int| 0 <= j < pos implies !view_lt(x, #[trigger] sorted_prefix[j]) by {
        assert(sorted_prefix[j] == decl_view(before.take(i)[j]));
        assert(before.take(i)[j] == before[j]);
        assert(!decl_lt(before[i], before[j]));
    }
    if pos < i {
        assert(view_lt(x, sorted_prefix[pos])) by {
            assert(sorted_prefix[pos] == decl_view(before[pos]));
        }
    }
    lemma_insert_decl_at(sorted_prefix, x, pos);
    assert(decls_view(after.take(i + 1)) =~= sorted_prefix.take(pos) + seq![x]
        + sorted_prefix.skip(pos)) by {
        assert forall|j: int| 0 <= j < i + 1 implies decls_view(after.take(i + 1))[j] == (
        sorted_prefix.take(pos) + seq![x] + sorted_prefix.skip(pos))[j] by {
            if j < pos {
                assert(after[j] == before[j]);
                assert(sorted_prefix[j] == decl_view(before.take(i)[j]));
            } else if j == pos {
                assert(after[j] == before[i]);
            } else {
                assert(after[j] == before[j - 1]);
                assert(sorted_prefix[j - 1] == decl_view(before.take(i)[j - 1]));
            }
        }
    }
}

/// Two declarations of equal kind keep their source order after sorting:
/// in a sorted list, equal-kind members stand by ascending original index.
pub proof fn lemma_reorder_stability(s: Seq<Declaration>, a: int, b: int)
    requires
        decls_sorted(s),
        0 <= a < b < s.len(),
        s[a].kind == s[b].kind,
    ensures
        s[a].original_index <= s[b].original_index,
{
    assert(!decl_lt(s[b], s[a]));
}

/// Minimum blank lines between two adjacent reordered declaration records.
pub open spec fn spec_decl_blanks(
    prev: (MemberKind, Seq<char>, int, bool, bool),
    next: (MemberKind, Seq<char>, int, bool, bool),
) -> int {
    if prev.0.spec_is_header() && next.0.spec_is_header() {
        0
    } else if prev.0.spec_is_function_like() || next.0.spec_is_function_like() {
        2
    } else if next.3 || next.4 {
        1
    } else if prev.0 == next.0 {
        0
    } else {
        1
    }
}

/// Determine blank lines needed between two declarations.
pub fn blank_lines_between(prev: &Declaration, next: &Declaration) -> (r: usize)
    ensures
        r == spec_decl_blanks(decl_view(*prev), decl_view(*next)),
{
    if prev.kind.is_header() && next.kind.is_header() {
        0
    } else if prev.kind.is_function_like() || next.kind.is_function_like() {
        2
    } else if next.has_doc_comment || next.has_section_annotation {
        1
    } else if prev.kind.rank() == next.kind.rank() {
        proof {
            assert(prev.kind == next.kind) by {
                assert(prev.kind.spec_rank() == next.kind.spec_rank());
            }
        }
        0
    } else {
        proof {
            assert(prev.kind != next.kind);
        }
        1
    }
}

/// The reconstructed source of a declaration record list from position `k`
/// on: texts in order, separated by the blank-line rule's newlines.
pub open spec fn spec_reconstruct(
    s: Seq<(MemberKind, Seq<char>, int, bool, bool)>,
    k: int,
    acc: Seq<char>,
) -> Seq<char>
    decreases s.len() - k when 0 <= k
{
    if k >= s.len() {
        acc
    } else {
        let gap = if k > 0 {
            crate::text::spec_repeat(seq!['\n'], spec_decl_blanks(s[k - 1], s[k]))
        } else {
            Seq::<char>::empty()
        };
        spec_reconstruct(s, k + 1, acc + gap + s[k].1)
    }
}

/// Reconstruct source from sorted declarations.
pub fn reconstruct_source(decls: &Vec<Declaration>) -> (r: String)
    ensures
        r@ == spec_reconstruct(decls_view(decls@), 0, Seq::empty()),
{
    let n = decls.len();
    let mut out = String::new();
    let mut k: usize = 0;
    while k < n
        invariant
            0 <= k <= n,
            n == decls@.len(),
            spec_reconstruct(decls_view(decls@), 0, Seq::empty()) == spec_reconstruct(
                decls_view(decls@),
                k as int,
                out@,
            ),
        decreases n - k,
    {
        if k > 0 {
            let blanks = blank_lines_between(&decls[k - 1], &decls[k]);
            let gap = text::repeat_str("\n", blanks);
            proof {
                reveal_strlit("\n");
                assert("\n"@ =~= seq!['\n']);
            }
            out.append(gap.as_str());
        }
        out.append(decls[k].text.as_str());
        k += 1;
    }
    out
}

/// UTF-8 length of one character.
pub open spec fn utf8_len_of(c: char) -> int {
    if (c as u32) < 0x80 {
        1
    } else if (c as u32) < 0x800 {
        2
    } else if (c as u32) < 0x10000 {
        3
    } else {
        4
    }
}

/// The number of whole characters of `line` that fit in `bc` bytes.
pub open spec fn spec_char_col(line: Seq<char>, bc: int) -> int
    decreases line.len(),
{
    if line.len() == 0 || bc < utf8_len_of(line[0]) {
        0
    } else {
        1 + spec_char_col(line.skip(1), bc - utf8_len_of(line[0]))
    }
}

/// The text before the position `(row, bytecol)`: whole lines, then the
/// row's prefix.
pub open spec fn spec_text_before(lines: Seq<Seq<char>>, row: int, bc: int) -> Seq<char> {
    let whole = spec_lines_text(lines, 1, row);
    if 0 <= row < lines.len() {
        whole + lines[row].take(spec_char_col(lines[row], bc))
    } else {
        whole
    }
}

/// Exec mirror of `spec_text_before`.
fn text_before(lines: &Vec<String>, row: usize, bytecol: usize) -> (r: String)
    requires
        row < usize::MAX,
    ensures
        r@ == spec_text_before(lines.deep_view(), row as int, bytecol as int),
{
    let mut out = get_lines_text(lines, 1, row);
    if row < lines.len() {
        proof {
            assert(lines@[row as int]@ == lines.deep_view()[row as int]);
        }
        let line = lines[row].as_str();
        let n = line.unicode_len();
        let ghost lv = line@;
        let mut i: usize = 0;
        let mut used: usize = 0;
        let mut stop = false;
        proof {
            assert(lv.skip(0) =~= lv);
        }
        while i < n && !stop
            invariant
                0 <= i <= n,
                n == lv.len(),
                lv == line@,
                used <= bytecol || used == 0,
                stop ==> spec_char_col(lv, bytecol as int) == i,
                !stop ==> spec_char_col(lv, bytecol as int) == i + spec_char_col(
                    lv.skip(i as int),
                    bytecol - used,
                ),
            decreases n - i, (if stop {
                0int
            } else {
                1int
            }),
        {
            let c = line.get_char(i);
            let w: usize = if (c as u32) < 0x80 {
                1
            } else if (c as u32) < 0x800 {
                2
            } else if (c as u32) < 0x10000 {
                3
            } else {
                4
            };
            proof {
                assert(lv.skip(i as int)[0] == lv[i as int]);
                assert(lv.skip(i as int).skip(1) =~= lv.skip(i + 1));
            }
            if bytecol >= used && w <= bytecol - used {
                used = used + w;
                i += 1;
            } else {
                proof {
                    assert(spec_char_col(lv.skip(i as int), bytecol - used) == 0);
                }
                stop = true;
            }
        }
        proof {
            if !stop {
                assert(lv.skip(i as int).len() == 0);
                assert(spec_char_col(lv, bytecol as int) == i);
            }
        }
        let head = line.substring_char(0, i);
        proof {
            assert(head@ =~= lv.take(i as int));
        }
        out.append(head);
    }
    out
}

/// First arena index at or after `j` holding a `class_definition`; the
/// arena is in preorder, so this is the depth-first first class node.
pub open spec fn first_class_index(nodes: Seq<SynNode>, j: int) -> Option<int>
    decreases nodes.len() - j when 0 <= j
{
    if j >= nodes.len() {
        None
    } else if nodes[j].kind@ == "class_definition"@ {
        Some(j)
    } else {
        first_class_index(nodes, j + 1)
    }
}

/// First arena index of a `class_definition` node, if any.
fn find_class_def(t: &SynTree) -> (r: Option<usize>)
    requires
        t.wf(),
    ensures
        match r {
            Some(c) => first_class_index(t.nodes@, 0) == Some(c as int) && c < t.nodes@.len(),
            None => first_class_index(t.nodes@, 0) is None,
        },
{
    let n = t.len();
    let mut j: usize = 0;
    while j < n
        invariant
            0 <= j <= n,
            t.wf(),
            n == t.nodes@.len(),
            first_class_index(t.nodes@, 0) == first_class_index(t.nodes@, j as int),
        decreases n - j,
    {
        if t.kind_is(j, "class_definition") {
            return Some(j);
        }
        j += 1;
    }
    None
}

/// Whether any top-level child of the root starts inside a skip region.
fn any_top_level_skipped(t: &SynTree, skips: &SkipRegions) -> (r: bool)
    requires
        t.wf(),
    ensures
        r == exists|k: int|
            0 <= k < t.nodes@[0].children@.len() && crate::format::skip_regions::in_skip_ranges(
                skips.view_ranges(),
                t.nodes@[#[trigger] t.nodes@[0].children@[k] as int].start_row + 1,
            ),
{
    proof {
        assert(crate::tree::node_wf(t.nodes@, 0));
    }
    let n = t.child_count(0);
    let mut k: usize = 0;
    while k < n
        invariant
            0 <= k <= n,
            t.wf(),
            n == t.nodes@[0].children@.len(),
            forall|m: int|
                0 <= m < k ==> !crate::format::skip_regions::in_skip_ranges(
                    skips.view_ranges(),
                    t.nodes@[#[trigger] t.nodes@[0].children@[m] as int].start_row + 1,
                ),
        decreases n - k,
    {
        let c = t.child(0, k);
        let start_line = t.start_line(c);
        if skips.is_skipped(start_line) {
            return true;
        }
        k += 1;
    }
    false
}

/// The extracted top-level declarations of a parsed source.
pub open spec fn spec_top_decls(source: Seq<char>, nodes: Seq<SynNode>) -> Seq<
    (MemberKind, Seq<char>, int, bool, bool),
> {
    spec_extract(
        nodes,
        0,
        0,
        0,
        Set::empty(),
        spec_lines(source),
        spec_skip_ranges(source),
        Seq::empty(),
    )
}

/// Whether some top-level child of the root lies in a skip region.
pub open spec fn spec_top_skipped(source: Seq<char>, nodes: Seq<SynNode>) -> bool {
    exists|k: int|
        0 <= k < nodes[0].children@.len() && crate::format::skip_regions::in_skip_ranges(
            spec_skip_ranges(source),
            nodes[#[trigger] nodes[0].children@[k] as int].start_row + 1,
        )
}

/// The recursion bound handed to the inner-class rewrites; no class can
/// nest deeper than the source is long.
pub open spec fn spec_top_fuel(source: Seq<char>) -> int {
    if source.len() < usize::MAX {
        source.len() as int + 1
    } else {
        source.len() as int
    }
}

/// The reordered output of a parsed source with extracted declarations:
/// the stable sort of the extraction, inner classes rewritten recursively,
/// reassembled with the blank-line rule and a final newline — or the input
/// itself when nothing moved and no inner class changed.  `None` stands for
/// an inner class body that failed to re-parse.
pub open spec fn spec_reorder_output(source: Seq<char>, nodes: Seq<SynNode>) -> Option<Seq<char>> {
    let decls = spec_top_decls(source, nodes);
    let sorted = spec_sort_decls(decls);
    match spec_rebuild_decls(sorted, 0, spec_skip_ranges(source), spec_top_fuel(source)) {
        None => None,
        Some(rb) => {
            let top_reordered = exists|m: int|
                0 <= m < sorted.len() && (#[trigger] sorted[m]).2 != decls[m].2;
            let inner_changed = exists|m: int|
                0 <= m < rb.len() && (#[trigger] rb[m]).1 != sorted[m].1;
            if !top_reordered && !inner_changed {
                Some(source)
            } else {
                let rebuilt = spec_reconstruct(rb, 0, Seq::empty());
                if rebuilt.len() > 0 && rebuilt[rebuilt.len() - 1] == '\n' {
                    Some(rebuilt)
                } else {
                    Some(rebuilt + seq!['\n'])
                }
            }
        },
    }
}

/// The inner-class reorder as a function of the text: parse, find the
/// first class node and its body, re-parse the body, extract and
/// stable-sort its declarations, recursively rewrite nested inner classes,
/// and rebuild header plus body.  `None` stands for a parse failure;
/// exhausted fuel returns the text unchanged.
pub open spec fn spec_reorder_inner(text: Seq<char>, skips: Seq<(int, int)>, fuel: int) -> Option<
    Seq<char>,
>
    decreases fuel, 2int, 0int when fuel >= 0
{
    if fuel == 0 {
        Some(text)
    } else {
        match gdscript_parse(text) {
            None => None,
            Some(nodes) => if !arena_wf(nodes) {
                None
            } else {
                match first_class_index(nodes, 0) {
                    None => Some(text),
                    Some(cd) => match crate::format::expressions::field_child(nodes, cd, "body"@) {
                        None => Some(text),
                        Some(b) => if 0 <= b < nodes.len() {
                            spec_reorder_body(text, nodes, b, skips, fuel)
                        } else {
                            Some(text)
                        },
                    },
                }
            },
        }
    }
}

/// The reorder of one class body: extract, sort, rewrite nested classes,
/// and reassemble the class header with the rebuilt body.
pub open spec fn spec_reorder_body(
    text: Seq<char>,
    nodes: Seq<SynNode>,
    b: int,
    skips: Seq<(int, int)>,
    fuel: int,
) -> Option<Seq<char>>
    decreases fuel, 1int, 0int when fuel >= 1 && 0 <= b < nodes.len()
{
    let body_text = nodes[b].text@;
    match gdscript_parse(body_text) {
        None => None,
        Some(bnodes) => if !arena_wf(bnodes) {
            None
        } else {
            let decls = spec_extract(
                bnodes,
                0,
                0,
                0,
                Set::empty(),
                spec_lines(body_text),
                skips,
                Seq::empty(),
            );
            if decls.len() == 0 {
                Some(text)
            } else {
                match spec_rebuild_decls(spec_sort_decls(decls), 0, skips, fuel - 1) {
                    None => None,
                    Some(rb) => Some(
                        spec_text_before(
                            spec_lines(text),
                            nodes[b].start_row as int,
                            nodes[b].start_col as int,
                        ) + seq!['\n'] + spec_reconstruct(rb, 0, Seq::empty()),
                    ),
                }
            }
        },
    }
}

/// Rewrite the inner-class texts of a declaration record list, each with
/// `f` units of fuel; `None` when any rewrite hits a parse failure.
pub open spec fn spec_rebuild_decls(
    s: Seq<(MemberKind, Seq<char>, int, bool, bool)>,
    k: int,
    skips: Seq<(int, int)>,
    f: int,
) -> Option<Seq<(MemberKind, Seq<char>, int, bool, bool)>>
    decreases f, 3int, s.len() - k when f >= 0 && 0 <= k
{
    if k >= s.len() {
        Some(Seq::empty())
    } else {
        let elem = s[k];
        let new_text = if elem.0 == MemberKind::InnerClass {
            spec_reorder_inner(elem.1, skips, f)
        } else {
            Some(elem.1)
        };
        match new_text {
            None => None,
            Some(tx) => match spec_rebuild_decls(s, k + 1, skips, f) {
                None => None,
                Some(rest) => Some(seq![(elem.0, tx, elem.2, elem.3, elem.4)] + rest),
            },
        }
    }
}

/// Reordering itself never raises an error: when the rebuild of a
/// declaration list fails, the failure traces to a specific inner-class
/// element whose own recursive rewrite hit a parse failure.
pub proof fn lemma_rebuild_err_source(
    s: Seq<(MemberKind, Seq<char>, int, bool, bool)>,
    k: int,
    skips: Seq<(int, int)>,
    f: int,
)
    requires
        0 <= k,
        f >= 0,
        spec_rebuild_decls(s, k, skips, f) is None,
    ensures
        exists|j: int|
            k <= j < s.len() && (#[trigger] s[j]).0 == MemberKind::InnerClass
                && spec_reorder_inner(s[j].1, skips, f) is None,
    decreases s.len() - k,
{
    if k < s.len() {
        let elem = s[k];
        if elem.0 == MemberKind::InnerClass && spec_reorder_inner(elem.1, skips, f) is None {
            assert(s[k].0 == MemberKind::InnerClass && spec_reorder_inner(s[k].1, skips, f)
                is None);
        } else {
            lemma_rebuild_err_source(s, k + 1, skips, f);
            let j = choose|j: int|
                k + 1 <= j < s.len() && (#[trigger] s[j]).0 == MemberKind::InnerClass
                    && spec_reorder_inner(s[j].1, skips, f) is None;
            assert(s[j].0 == MemberKind::InnerClass && spec_reorder_inner(s[j].1, skips, f)
                is None);
        }
    }
}

/// Reorder the body of an inner class, recursively, spending one unit of
/// fuel per nesting level.
fn reorder_inner_class(class_text: &str, skips: &SkipRegions, fuel: usize) -> (r: Result<
    String,
    FormatError,
>)
    ensures
        match spec_reorder_inner(class_text@, skips.view_ranges(), fuel as int) {
            Some(t) => r matches Ok(out) && out@ == t,
            None => r is Err,
        },
    decreases fuel,
{
    let ghost skipsv = skips.view_ranges();
    if fuel == 0 {
        return Ok(class_text.to_owned());
    }
    let t = match parser::parse(class_text) {
        Ok(t) => t,
        Err(e) => {
            return Err(FormatError::Parse(e));
        },
    };
    let class_node = match find_class_def(&t) {
        Some(c) => c,
        None => {
            return Ok(class_text.to_owned());
        },
    };
    let body = match crate::format::expressions::get_field_child(&t, class_node, "body") {
        Some(b) => b,
        None => {
            return Ok(class_text.to_owned());
        },
    };
    let class_lines = text::split_lines(class_text);
    proof {
        assert(crate::tree::node_wf(t.nodes@, body as int));
    }
    let header = text_before(&class_lines, t.nodes[body].start_row, t.nodes[body].start_col);
    let body_text = t.text(body).to_owned();
    let body_tree = match parser::parse(body_text.as_str()) {
        Ok(bt) => bt,
        Err(e) => {
            return Err(FormatError::Parse(e));
        },
    };
    let body_lines = text::split_lines(body_text.as_str());
    let mut decls = extract_declarations(&body_tree, 0, &body_lines, skips);
    let ghost dv = decls_view(decls@);
    proof {
        assert(dv == spec_extract(
            body_tree.nodes@,
            0,
            0,
            0,
            Set::empty(),
            spec_lines(body_text@),
            skipsv,
            Seq::empty(),
        ));
    }
    if decls.len() == 0 {
        proof {
            assert(dv.len() == 0);
        }
        return Ok(class_text.to_owned());
    }
    sort_declarations(&mut decls);
    let ghost sv = decls_view(decls@);
    proof {
        assert(sv == spec_sort_decls(dv));
    }
    let n = decls.len();
    let mut k: usize = 0;
    let mut rebuilt: Vec<Declaration> = Vec::new();
    proof {
        assert(decls_view(rebuilt@) =~= Seq::<(MemberKind, Seq<char>, int, bool, bool)>::empty());
        if spec_rebuild_decls(sv, 0, skipsv, fuel - 1) is Some {
            let rest = spec_rebuild_decls(sv, 0, skipsv, fuel - 1)->0;
            assert(decls_view(rebuilt@) + rest =~= rest);
        }
    }
    while k < n
        invariant
            0 <= k <= n,
            n == decls@.len(),
            fuel >= 1,
            sv == decls_view(decls@),
            skipsv == skips.view_ranges(),
            spec_reorder_inner(class_text@, skipsv, fuel as int) == spec_reorder_body(
                class_text@,
                t.nodes@,
                body as int,
                skipsv,
                fuel as int,
            ),
            spec_reorder_body(class_text@, t.nodes@, body as int, skipsv, fuel as int) == (
            match spec_rebuild_decls(sv, 0, skipsv, fuel - 1) {
                None => None,
                Some(rb) => Some(
                    spec_text_before(
                        spec_lines(class_text@),
                        t.nodes@[body as int].start_row as int,
                        t.nodes@[body as int].start_col as int,
                    ) + seq!['\n'] + spec_reconstruct(rb, 0, Seq::empty()),
                ),
            }),
            spec_rebuild_decls(sv, 0, skipsv, fuel - 1) == (match spec_rebuild_decls(
                sv,
                k as int,
                skipsv,
                fuel - 1,
            ) {
                None => None::<Seq<(MemberKind, Seq<char>, int, bool, bool)>>,
                Some(rest) => Some(decls_view(rebuilt@) + rest),
            }),
            header@ == spec_text_before(
                spec_lines(class_text@),
                t.nodes@[body as int].start_row as int,
                t.nodes@[body as int].start_col as int,
            ),
        decreases n - k,
    {
        let d = &decls[k];
        proof {
            assert(sv[k as int] == decl_view(decls@[k as int]));
        }
        let new_text: String = if matches!(d.kind, MemberKind::InnerClass) {
            match reorder_inner_class(d.text.as_str(), skips, fuel - 1) {
                Ok(tx) => tx,
                Err(e) => {
                    proof {
                        assert(spec_reorder_inner(sv[k as int].1, skipsv, (fuel - 1) as int)
                            is None);
                        assert(spec_rebuild_decls(sv, k as int, skipsv, fuel - 1) is None);
                    }
                    return Err(e);
                },
            }
        } else {
            d.text.clone()
        };
        proof {
            if sv[k as int].0 == MemberKind::InnerClass {
                assert(spec_reorder_inner(sv[k as int].1, skipsv, (fuel - 1) as int) == Some(
                    new_text@,
                ));
            }
        }
        let ghost before_rb = decls_view(rebuilt@);
        rebuilt.push(
            Declaration {
                kind: d.kind,
                text: new_text,
                original_index: d.original_index,
                has_doc_comment: d.has_doc_comment,
                has_section_annotation: d.has_section_annotation,
            },
        );
        proof {
            let elem = sv[k as int];
            assert(decls_view(rebuilt@) =~= before_rb.push(
                (elem.0, decls_view(rebuilt@).last().1, elem.2, elem.3, elem.4),
            ));
            if spec_rebuild_decls(sv, k + 1, skipsv, fuel - 1) is Some {
                let rest = spec_rebuild_decls(sv, k + 1, skipsv, fuel - 1)->0;
                assert(before_rb.push((elem.0, decls_view(rebuilt@).last().1, elem.2, elem.3,
                    elem.4)) + rest =~= before_rb + (seq![
                    (elem.0, decls_view(rebuilt@).last().1, elem.2, elem.3, elem.4),
                ] + rest));
            }
        }
        k += 1;
    }
    proof {
        assert(spec_rebuild_decls(sv, n as int, skipsv, fuel - 1) == Some(Seq::<
            (MemberKind, Seq<char>, int, bool, bool),
        >::empty()));
        assert(decls_view(rebuilt@) + Seq::<(MemberKind, Seq<char>, int, bool, bool)>::empty()
            =~= decls_view(rebuilt@));
    }
    let mut out = header;
    out.append("\n");
    proof {
        reveal_strlit("\n");
        assert("\n"@ =~= seq!['\n']);
    }
    let tail = reconstruct_source(&rebuilt);
    out.append(tail.as_str());
    Ok(out)
}

/// One rebuild step: pushing the rewritten element turns the suffix
/// equation at `k` into the one at `k + 1`.
proof fn lemma_rebuild_step(
    before: Seq<(MemberKind, Seq<char>, int, bool, bool)>,
    now: Seq<(MemberKind, Seq<char>, int, bool, bool)>,
    sv: Seq<(MemberKind, Seq<char>, int, bool, bool)>,
    k: int,
    pushed_text: Seq<char>,
    skips: Seq<(int, int)>,
    f: int,
)
    requires
        0 <= k < sv.len(),
        f >= 0,
        now == before.push((sv[k].0, pushed_text, sv[k].2, sv[k].3, sv[k].4)),
        (if sv[k].0 == MemberKind::InnerClass {
            spec_reorder_inner(sv[k].1, skips, f)
        } else {
            Some(sv[k].1)
        }) == Some(pushed_text),
    ensures
        (match spec_rebuild_decls(sv, k, skips, f) {
            None => None::<Seq<(MemberKind, Seq<char>, int, bool, bool)>>,
            Some(rest) => Some(before + rest),
        }) == (match spec_rebuild_decls(sv, k + 1, skips, f) {
            None => None::<Seq<(MemberKind, Seq<char>, int, bool, bool)>>,
            Some(rest) => Some(now + rest),
        }),
{
    if spec_rebuild_decls(sv, k + 1, skips, f) is Some {
        let rest = spec_rebuild_decls(sv, k + 1, skips, f)->0;
        assert(before + (seq![(sv[k].0, pushed_text, sv[k].2, sv[k].3, sv[k].4)] + rest) =~= now
            + rest);
    }
}

/// The changed-inner-text flag tracks the extended range exactly.
proof fn maintain_inner_flag(
    before: Seq<(MemberKind, Seq<char>, int, bool, bool)>,
    now: Seq<(MemberKind, Seq<char>, int, bool, bool)>,
    sv: Seq<(MemberKind, Seq<char>, int, bool, bool)>,
    k: int,
    was: bool,
    flag: bool,
    changed_here: bool,
)
    requires
        0 <= k < sv.len(),
        before.len() == k,
        now == before.push((sv[k].0, now[k].1, sv[k].2, sv[k].3, sv[k].4)),
        now[k].1 == sv[k].1 <==> !changed_here,
        was == exists|m: int| 0 <= m < k && (#[trigger] before[m]).1 != sv[m].1,
        flag == (was || changed_here),
    ensures
        flag == exists|m: int| 0 <= m < k + 1 && (#[trigger] now[m]).1 != sv[m].1,
{
    if flag {
        if was {
            let m = choose|m: int| 0 <= m < k && (#[trigger] before[m]).1 != sv[m].1;
            assert(now[m].1 != sv[m].1);
        } else {
            assert(now[k].1 != sv[k].1);
        }
    } else {
        assert forall|m: int| 0 <= m < k + 1 implies !((#[trigger] now[m]).1 != sv[m].1) by {
            if m < k {
                assert(now[m] == before[m]);
            }
        }
    }
}

/// Reorder declarations in source according to the style guide's order:
/// the extracted declarations, stable-sorted, inner classes rewritten
/// recursively, reassembled under the blank-line rule.  An already-ordered
/// file whose inner classes need no rewrite comes back byte-identical; a
/// file with a skipped top-level declaration, or without declarations, is
/// returned unmodified.
#[verifier::rlimit(100)]
pub fn reorder_source(source: &str) -> (r: Result<String, FormatError>)
    ensures
        spec_trim(source@).len() == 0 ==> (r matches Ok(out) && out@ == source@),
        spec_trim(source@).len() > 0 && !parses(source@) ==> r is Err,
        spec_trim(source@).len() > 0 && parses(source@) ==> {
            let nodes = gdscript_parse(source@)->0;
            if spec_top_skipped(source@, nodes) {
                r matches Ok(out) && out@ == source@
            } else if spec_top_decls(source@, nodes).len() == 0 {
                r matches Ok(out) && out@ == source@
            } else {
                match spec_reorder_output(source@, nodes) {
                    Some(t) => r matches Ok(out) && out@ == t,
                    None => r is Err,
                }
            }
        },
        spec_trim(source@).len() > 0 && parses(source@) && (forall|j: int|
            0 <= j < spec_top_decls(source@, gdscript_parse(source@)->0).len()
                ==> (#[trigger] spec_top_decls(source@, gdscript_parse(source@)->0)[j]).0
                != MemberKind::InnerClass) ==> r is Ok,
{
    let trimmed = text::trim(source);
    if trimmed.as_str().unicode_len() == 0 {
        return Ok(source.to_owned());
    }
    let t = match parser::parse(source) {
        Ok(t) => t,
        Err(e) => {
            return Err(FormatError::Parse(e));
        },
    };
    let skips = SkipRegions::parse(source);
    let ghost skipsv = skips.view_ranges();
    if any_top_level_skipped(&t, &skips) {
        return Ok(source.to_owned());
    }
    let src_lines = text::split_lines(source);
    let decls = extract_declarations(&t, 0, &src_lines, &skips);
    let ghost dvv = decls_view(decls@);
    proof {
        assert(dvv == spec_top_decls(source@, t.nodes@));
    }
    if decls.len() == 0 {
        proof {
            assert(dvv.len() == 0);
        }
        return Ok(source.to_owned());
    }
    // Remember the source order, then stable-sort.
    let n = decls.len();
    let mut orig_idx: Vec<usize> = Vec::new();
    let mut k: usize = 0;
    while k < n
        invariant
            0 <= k <= n,
            n == decls@.len(),
            orig_idx@.len() == k,
            forall|m: int| 0 <= m < k ==> orig_idx@[m] == decls@[m].original_index,
        decreases n - k,
    {
        orig_idx.push(decls[k].original_index);
        k += 1;
    }
    let ghost dv0 = decls@;
    let mut sorted = decls;
    sort_declarations(&mut sorted);
    let ghost sv = decls_view(sorted@);
    proof {
        assert(sv == spec_sort_decls(dvv));
        lemma_sort_decls_elems(dvv);
        assert(sv.len() == n);
    }
    let mut top_level_reordered = false;
    let mut k: usize = 0;
    while k < n
        invariant
            0 <= k <= n,
            n == sorted@.len(),
            n == orig_idx@.len(),
            n == dv0.len(),
            sv == decls_view(sorted@),
            dvv == decls_view(dv0),
            forall|m: int| 0 <= m < n ==> orig_idx@[m] == dv0[m].original_index,
            top_level_reordered == exists|m: int|
                0 <= m < k && (#[trigger] sv[m]).2 != dvv[m].2,
        decreases n - k,
    {
        proof {
            assert(sv[k as int] == decl_view(sorted@[k as int]));
            assert(dvv[k as int] == decl_view(dv0[k as int]));
        }
        if sorted[k].original_index != orig_idx[k] {
            top_level_reordered = true;
        }
        k += 1;
    }
    // Rewrite inner class bodies recursively.
    let source_len = source.unicode_len();
    let fuel = if source_len < usize::MAX {
        source_len + 1
    } else {
        source_len
    };
    proof {
        assert(fuel as int == spec_top_fuel(source@));
    }
    let mut any_inner_reordered = false;
    let mut rebuilt: Vec<Declaration> = Vec::new();
    let mut k: usize = 0;
    proof {
        assert(decls_view(rebuilt@) =~= Seq::<(MemberKind, Seq<char>, int, bool, bool)>::empty());
        if spec_rebuild_decls(sv, 0, skipsv, fuel as int) is Some {
            let rest = spec_rebuild_decls(sv, 0, skipsv, fuel as int)->0;
            assert(decls_view(rebuilt@) + rest =~= rest);
        }
    }
    while k < n
        invariant
            0 <= k <= n,
            n == sorted@.len(),
            n == dv0.len(),
            spec_trim(source@).len() > 0,
            parses(source@),
            gdscript_parse(source@) == Some(t.nodes@),
            !spec_top_skipped(source@, t.nodes@),
            sv == decls_view(sorted@),
            dvv == decls_view(dv0),
            dvv == spec_top_decls(source@, t.nodes@),
            dvv.len() == n,
            sv == spec_sort_decls(dvv),
            skipsv == skips.view_ranges(),
            skipsv == spec_skip_ranges(source@),
            fuel as int == spec_top_fuel(source@),
            spec_rebuild_decls(sv, 0, skipsv, fuel as int) == (match spec_rebuild_decls(
                sv,
                k as int,
                skipsv,
                fuel as int,
            ) {
                None => None::<Seq<(MemberKind, Seq<char>, int, bool, bool)>>,
                Some(rest) => Some(decls_view(rebuilt@) + rest),
            }),
            decls_view(rebuilt@).len() == k,
            any_inner_reordered == exists|m: int|
                0 <= m < k && (#[trigger] decls_view(rebuilt@)[m]).1 != sv[m].1,
            top_level_reordered == exists|m: int|
                0 <= m < n && (#[trigger] sv[m]).2 != dvv[m].2,
        decreases n - k,
    {
        let d = &sorted[k];
        proof {
            assert(sv[k as int] == decl_view(sorted@[k as int]));
        }
        let ghost before_rb = decls_view(rebuilt@);
        let ghost was_reordered = any_inner_reordered;
        if matches!(d.kind, MemberKind::InnerClass) {
            let new_text = match reorder_inner_class(d.text.as_str(), &skips, fuel) {
                Ok(tx) => tx,
                Err(e) => {
                    proof {
                        assert(spec_reorder_inner(sv[k as int].1, skipsv, fuel as int) is None);
                        assert(spec_rebuild_decls(sv, k as int, skipsv, fuel as int) is None);
                        assert(spec_reorder_output(source@, t.nodes@) is None);
                        // The no-inner-class premise is contradicted by this
                        // very element.
                        assert(sv[k as int].0 == MemberKind::InnerClass);
                        lemma_sort_decls_elems(dvv);
                        let m = choose|m: int| 0 <= m < dvv.len() && dvv[m] == sv[k as int];
                        assert(dvv[m].0 == MemberKind::InnerClass);
                    }
                    return Err(e);
                },
            };
            proof {
                assert(spec_reorder_inner(sv[k as int].1, skipsv, fuel as int) == Some(new_text@));
            }
            let changed_here = !text::str_eq(new_text.as_str(), d.text.as_str());
            if changed_here {
                any_inner_reordered = true;
            }
            let ghost pushed_text = new_text@;
            rebuilt.push(
                Declaration {
                    kind: d.kind,
                    text: new_text,
                    original_index: d.original_index,
                    has_doc_comment: d.has_doc_comment,
                    has_section_annotation: d.has_section_annotation,
                },
            );
            proof {
                assert(decls_view(rebuilt@) =~= before_rb.push(
                    (sv[k as int].0, pushed_text, sv[k as int].2, sv[k as int].3, sv[k as int].4),
                ));
                lemma_rebuild_step(
                    before_rb,
                    decls_view(rebuilt@),
                    sv,
                    k as int,
                    pushed_text,
                    skipsv,
                    fuel as int,
                );
                maintain_inner_flag(
                    before_rb,
                    decls_view(rebuilt@),
                    sv,
                    k as int,
                    was_reordered,
                    any_inner_reordered,
                    pushed_text != sv[k as int].1,
                );
            }
        } else {
            let ghost pushed_text = d.text@;
            rebuilt.push(
                Declaration {
                    kind: d.kind,
                    text: d.text.clone(),
                    original_index: d.original_index,
                    has_doc_comment: d.has_doc_comment,
                    has_section_annotation: d.has_section_annotation,
                },
            );
            proof {
                assert(decls_view(rebuilt@) =~= before_rb.push(
                    (sv[k as int].0, pushed_text, sv[k as int].2, sv[k as int].3, sv[k as int].4),
                ));
                lemma_rebuild_step(
                    before_rb,
                    decls_view(rebuilt@),
                    sv,
                    k as int,
                    pushed_text,
                    skipsv,
                    fuel as int,
                );
                maintain_inner_flag(
                    before_rb,
                    decls_view(rebuilt@),
                    sv,
                    k as int,
                    was_reordered,
                    any_inner_reordered,
                    false,
                );
            }
        }
        k += 1;
    }
    let ghost rbv = decls_view(rebuilt@);
    proof {
        assert(spec_rebuild_decls(sv, n as int, skipsv, fuel as int) == Some(Seq::<
            (MemberKind, Seq<char>, int, bool, bool),
        >::empty()));
        assert(rbv + Seq::<(MemberKind, Seq<char>, int, bool, bool)>::empty() =~= rbv);
        assert(spec_rebuild_decls(sv, 0, skipsv, fuel as int) == Some(rbv));
    }
    if !top_level_reordered && !any_inner_reordered {
        proof {
            assert(spec_reorder_output(source@, t.nodes@) == Some(source@));
        }
        return Ok(source.to_owned());
    }
    let mut result = reconstruct_source(&rebuilt);
    if !text::ends_with_char(result.as_str(), '\n') {
        result.append("\n");
        proof {
            reveal_strlit("\n");
            assert("\n"@ =~= seq!['\n']);
        }
    }
    proof {
        assert(spec_reorder_output(source@, t.nodes@) == Some(result@));
    }
    Ok(result)
}

} // verus!
