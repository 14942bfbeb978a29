//! The library's own model of a parsed GDScript syntax tree.
//!
//! The external parser's tree is flattened, in preorder, into an arena of
//! plain nodes: kind tag, source text, row/column range, named flag, optional
//! field label, and child indices.  Every index of a well-formed tree points
//! forward, which gives all tree walks an obvious termination measure.

use vstd::prelude::*;

verus! {

/// One syntax node, as handed over by the parser boundary.
pub struct SynNode {
    /// Grammar category, e.g. `"variable_statement"`.
    pub kind: String,
    /// The exact source text this node spans.
    pub text: String,
    /// Whether the parser classifies the node as named.
    pub named: bool,
    /// Field label of this node within its parent, if any.
    pub field: Option<String>,
    /// 0-indexed row of the first character.
    pub start_row: usize,
    /// 0-indexed column of the first character.
    pub start_col: usize,
    /// 0-indexed row of the position just past the node.
    pub end_row: usize,
    /// 0-indexed column of the position just past the node.
    pub end_col: usize,
    /// Arena indices of the children, in source order.
    pub children: Vec<usize>,
}

/// Upper bound on rows and columns a well-formed tree may carry; keeps
/// 1-indexing and small sums free of overflow.
pub open spec fn row_bound() -> int {
    0x1000_0000
}

/// Well-formedness of the node at arena index `i`.
pub open spec fn node_wf(nodes: Seq<SynNode>, i: int) -> bool {
    &&& forall|k: int|
        0 <= k < nodes[i].children@.len() ==> i < #[trigger] nodes[i].children@[k] < nodes.len()
    &&& forall|k: int|
        0 < k < nodes[i].children@.len() ==> #[trigger] nodes[i].children@[k] > nodes[i].children@[
            k - 1]
    &&& nodes[i].start_row <= nodes[i].end_row < row_bound()
    &&& nodes[i].start_col < row_bound()
    &&& nodes[i].end_col < row_bound()
}

/// Well-formedness of a whole arena: non-empty, every child index points
/// strictly forward and stays in bounds, and positions are small.
pub open spec fn arena_wf(nodes: Seq<SynNode>) -> bool {
    &&& nodes.len() >= 1
    &&& forall|i: int| 0 <= i < nodes.len() ==> node_wf(nodes, i)
}

/// The named children of node `i`, in order.
pub open spec fn named_children_of(nodes: Seq<SynNode>, i: int) -> Seq<usize> {
    nodes[i].children@.filter(|c: usize| nodes[c as int].named)
}

/// A validated syntax tree; the root is arena index 0.
pub struct SynTree {
    pub nodes: Vec<SynNode>,
}

/// Check one node's indices and positions.
fn check_node(nodes: &Vec<SynNode>, i: usize) -> (r: bool)
    requires
        i < nodes@.len(),
    ensures
        r == node_wf(nodes@, i as int),
{
    let n = nodes.len();
    let node = &nodes[i];
    if !(node.start_row <= node.end_row && node.end_row < 0x1000_0000 && node.start_col
        < 0x1000_0000 && node.end_col < 0x1000_0000) {
        return false;
    }
    let m = node.children.len();
    let mut k: usize = 0;
    while k < m
        invariant
            0 <= k <= m,
            m == node.children@.len(),
            i < nodes@.len(),
            n == nodes@.len(),
            node == nodes@[i as int],
            forall|j: int| 0 <= j < k ==> i < #[trigger] node.children@[j] < n,
            forall|j: int| 0 < j < k ==> #[trigger] node.children@[j] > node.children@[j - 1],
        decreases m - k,
    {
        let c = node.children[k];
        if !(c > i && c < n) {
            return false;
        }
        if k > 0 && !(c > node.children[k - 1]) {
            return false;
        }
        k += 1;
    }
    true
}

impl SynTree {
    pub open spec fn wf(&self) -> bool {
        arena_wf(self.nodes@)
    }

    pub open spec fn len_spec(&self) -> int {
        self.nodes@.len() as int
    }

    /// Validate a flat arena; `Some` exactly when it is well-formed.
    pub fn from_nodes(nodes: Vec<SynNode>) -> (r: Option<SynTree>)
        ensures
            match r {
                Some(t) => t.nodes@ == nodes@ && t.wf(),
                None => !arena_wf(nodes@),
            },
    {
        let n = nodes.len();
        if n == 0 {
            return None;
        }
        let mut i: usize = 0;
        while i < n
            invariant
                0 <= i <= n,
                n == nodes@.len(),
                forall|j: int| 0 <= j < i ==> node_wf(nodes@, j),
            decreases n - i,
        {
            if !check_node(&nodes, i) {
                return None;
            }
            i += 1;
        }
        Some(SynTree { nodes })
    }

    /// Number of nodes in the arena.
    pub fn len(&self) -> (r: usize)
        ensures
            r == self.nodes@.len(),
    {
        self.nodes.len()
    }

    /// The kind tag of node `i`.
    pub fn kind(&self, i: usize) -> (r: &str)
        requires
            i < self.nodes@.len(),
        ensures
            r@ == self.nodes@[i as int].kind@,
    {
        self.nodes[i].kind.as_str()
    }

    /// True when node `i` has kind `k`.
    pub fn kind_is(&self, i: usize, k: &str) -> (r: bool)
        requires
            i < self.nodes@.len(),
        ensures
            r == (self.nodes@[i as int].kind@ == k@),
    {
        crate::text::str_eq(self.nodes[i].kind.as_str(), k)
    }

    /// The exact source text of node `i`.
    pub fn text(&self, i: usize) -> (r: &str)
        requires
            i < self.nodes@.len(),
        ensures
            r@ == self.nodes@[i as int].text@,
    {
        self.nodes[i].text.as_str()
    }

    /// 1-indexed line on which node `i` starts.
    pub fn start_line(&self, i: usize) -> (r: usize)
        requires
            self.wf(),
            i < self.nodes@.len(),
        ensures
            r == self.nodes@[i as int].start_row + 1,
    {
        proof {
            assert(node_wf(self.nodes@, i as int));
        }
        self.nodes[i].start_row + 1
    }

    /// 1-indexed line on which node `i` ends.
    pub fn end_line(&self, i: usize) -> (r: usize)
        requires
            self.wf(),
            i < self.nodes@.len(),
        ensures
            r == self.nodes@[i as int].end_row + 1,
    {
        proof {
            assert(node_wf(self.nodes@, i as int));
        }
        self.nodes[i].end_row + 1
    }

    /// Number of children of node `i`.
    pub fn child_count(&self, i: usize) -> (r: usize)
        requires
            i < self.nodes@.len(),
        ensures
            r == self.nodes@[i as int].children@.len(),
    {
        self.nodes[i].children.len()
    }

    /// The `k`-th child of node `i`.
    pub fn child(&self, i: usize, k: usize) -> (r: usize)
        requires
            self.wf(),
            i < self.nodes@.len(),
            k < self.nodes@[i as int].children@.len(),
        ensures
            r == self.nodes@[i as int].children@[k as int],
            i < r < self.nodes@.len(),
    {
        proof {
            assert(node_wf(self.nodes@, i as int));
        }
        self.nodes[i].children[k]
    }

    /// Whether node `i` is named.
    pub fn is_named(&self, i: usize) -> (r: bool)
        requires
            i < self.nodes@.len(),
        ensures
            r == self.nodes@[i as int].named,
    {
        self.nodes[i].named
    }

    /// The field label of child index `c`, if the parser gave it one.
    pub open spec fn field_of(&self, c: int) -> Option<Seq<char>> {
        match self.nodes@[c].field {
            Some(f) => Some(f@),
            None => None,
        }
    }

    /// First child of node `i` whose field label is `name`.
    pub fn child_by_field(&self, i: usize, name: &str) -> (r: Option<usize>)
        requires
            self.wf(),
            i < self.nodes@.len(),
        ensures
            match r {
                Some(c) => {
                    &&& i < c < self.nodes@.len()
                    &&& self.field_of(c as int) == Some(name@)
                    &&& exists|k: int|
                        0 <= k < self.nodes@[i as int].children@.len() && self.nodes@[
                            i as int].children@[k] == c && forall|j: int|
                            0 <= j < k ==> self.field_of(
                                #[trigger] self.nodes@[i as int].children@[j] as int,
                            ) != Some(name@)
                },
                None => forall|k: int|
                    0 <= k < self.nodes@[i as int].children@.len() ==> self.field_of(
                        #[trigger] self.nodes@[i as int].children@[k] as int,
                    ) != Some(name@),
            },
    {
        proof {
            assert(node_wf(self.nodes@, i as int));
        }
        let m = self.nodes[i].children.len();
        let mut k: usize = 0;
        while k < m
            invariant
                0 <= k <= m,
                self.wf(),
                i < self.nodes@.len(),
                m == self.nodes@[i as int].children@.len(),
                forall|j: int|
                    0 <= j < k ==> self.field_of(
                        #[trigger] self.nodes@[i as int].children@[j] as int,
                    ) != Some(name@),
            decreases m - k,
        {
            proof {
                assert(node_wf(self.nodes@, i as int));
            }
            let c = self.nodes[i].children[k];
            let found = match &self.nodes[c].field {
                Some(f) => crate::text::str_eq(f.as_str(), name),
                None => false,
            };
            if found {
                return Some(c);
            }
            k += 1;
        }
        None
    }

    /// All named children of node `i`, in order.
    pub fn named_children(&self, i: usize) -> (r: Vec<usize>)
        requires
            self.wf(),
            i < self.nodes@.len(),
        ensures
            r@ == named_children_of(self.nodes@, i as int),
            forall|k: int| 0 <= k < r@.len() ==> i < #[trigger] r@[k] < self.nodes@.len(),
    {
        proof {
            assert(node_wf(self.nodes@, i as int));
        }
        let m = self.nodes[i].children.len();
        let mut out: Vec<usize> = Vec::new();
        let ghost cs = self.nodes@[i as int].children@;
        proof {
            assert(cs.take(0) =~= Seq::<usize>::empty());
            assert(cs.take(0).filter(|c: usize| self.nodes@[c as int].named) =~= Seq::<
                usize,
            >::empty());
            assert(named_children_of(self.nodes@, i as int) == cs.filter(
                |c: usize| self.nodes@[c as int].named,
            ));
        }
        let mut k: usize = 0;
        while k < m
            invariant
                0 <= k <= m,
                self.wf(),
                i < self.nodes@.len(),
                cs == self.nodes@[i as int].children@,
                m == cs.len(),
                out@ == cs.take(k as int).filter(|c: usize| self.nodes@[c as int].named),
                forall|j: int| 0 <= j < out@.len() ==> i < #[trigger] out@[j] < self.nodes@.len(),
            decreases m - k,
        {
            proof {
                assert(node_wf(self.nodes@, i as int));
                assert(cs.take(k + 1).drop_last() =~= cs.take(k as int));
                assert(cs.take(k + 1).last() == cs[k as int]);
                reveal(Seq::filter);
            }
            let c = self.nodes[i].children[k];
            if self.nodes[c].named {
                out.push(c);
            }
            k += 1;
        }
        proof {
            assert(cs.take(m as int) =~= cs);
        }
        out
    }

    /// Number of named children of node `i`.
    pub fn named_child_count(&self, i: usize) -> (r: usize)
        requires
            self.wf(),
            i < self.nodes@.len(),
        ensures
            r == named_children_of(self.nodes@, i as int).len(),
    {
        let v = self.named_children(i);
        v.len()
    }
}

} // verus!
