//! Boundary to the external GDScript parser.
//!
//! Parsing is the one step of this library that outside code performs.  The
//! result of the external call is given a name (`gdscript_parse`), the raw
//! arena it hands back is validated by `SynTree::from_nodes`, and everything
//! after that point is verified against the validated tree alone.

use vstd::prelude::*;

use crate::tree::{SynNode, SynTree};

verus! {

/// The flat preorder arena that the external parser produces for a source
/// text, or `None` when parsing fails.  The parse is a pure function of the
/// source text alone.
pub uninterp spec fn gdscript_parse(source: Seq<char>) -> Option<Seq<SynNode>>;

#[verifier::external_type_specification]
#[verifier::external_body]
pub struct ExNode<'a>(tree_sitter::Node<'a>);

/// Relies on tree_sitter::Node's accessors `kind`, `utf8_text`, `is_named`,
/// `start_position` and `end_position`: copies one node's tags and positions
/// into a plain record.
#[verifier::external_body]
fn copy_node(node: tree_sitter::Node<'_>, source: &str, field: Option<String>) -> SynNode {
    SynNode {
        kind: node.kind().to_string(),
        text: node.utf8_text(source.as_bytes()).unwrap_or("").to_string(),
        named: node.is_named(),
        field,
        start_row: node.start_position().row,
        start_col: node.start_position().column,
        end_row: node.end_position().row,
        end_col: node.end_position().column,
        children: Vec::new(),
    }
}

/// Relies on tree_sitter::Node's `child_count`, `child` and
/// `field_name_for_child`: flattens the subtree under `node` into `out` in
/// preorder, recording each child's arena index and field label.
#[verifier::external_body]
fn collect_subtree(node: tree_sitter::Node<'_>, source: &str, field: Option<String>, out: &mut Vec<
    SynNode,
>) {
    let idx = out.len();
    out.push(copy_node(node, source, field));
    for i in 0..node.child_count() {
        if let Some(child) = node.child(i) {
            let child_idx = out.len();
            out[idx].children.push(child_idx);
            let child_field = node.field_name_for_child(i).map(|f| f.to_string());
            collect_subtree(child, source, child_field, out);
        }
    }
}

/// Relies on tree_sitter::Parser::parse with the grammar of
/// tree_sitter_gdscript::LANGUAGE: the parse result is a function of the
/// source text alone, here flattened to the named arena.
#[verifier::external_body]
fn parse_to_arena(source: &str) -> (r: Option<Vec<SynNode>>)
    ensures
        match r {
            Some(v) => gdscript_parse(source@) == Some(v@),
            None => gdscript_parse(source@) is None,
        },
{
    let mut parser = tree_sitter::Parser::new();
    let language: tree_sitter::Language = tree_sitter_gdscript::LANGUAGE.into();
    if parser.set_language(&language).is_err() {
        return None;
    }
    let tree = parser.parse(source, None)?;
    let mut out = Vec::new();
    collect_subtree(tree.root_node(), source, None, &mut out);
    Some(out)
}

/// True when the source parses and the arena the parser produced is
/// well-formed; everything downstream works on such trees only.
pub open spec fn parses(source: Seq<char>) -> bool {
    match gdscript_parse(source) {
        Some(nodes) => crate::tree::arena_wf(nodes),
        None => false,
    }
}

/// Parse GDScript source into a validated syntax tree.
pub fn parse(source: &str) -> (r: Result<SynTree, String>)
    ensures
        match r {
            Ok(t) => {
                &&& parses(source@)
                &&& gdscript_parse(source@) == Some(t.nodes@)
                &&& t.wf()
            },
            Err(_) => !parses(source@),
        },
{
    match parse_to_arena(source) {
        None => Err("Failed to parse source".to_owned()),
        Some(nodes) => match SynTree::from_nodes(nodes) {
            Some(t) => Ok(t),
            None => Err("Failed to parse source".to_owned()),
        },
    }
}

} // verus!
