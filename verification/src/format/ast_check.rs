//! Structural tree equivalence: the oracle that certifies a rewrite kept
//! the program's meaning, ignoring whitespace and positions.

use vstd::prelude::*;

use crate::text;
use crate::tree::{arena_wf, named_children_of, SynNode, SynTree};

verus! {

/// Result of comparing two syntax trees.
#[derive(Debug, Clone, PartialEq, Eq)]
pub enum AstCheckResult {
    /// The trees are structurally equivalent.
    Equivalent,
    /// The trees differ at the specified path.
    Different {
        /// Path to the differing node, e.g. `source[0].variable_statement[1]`.
        path: String,
        /// Description of the difference.
        difference: String,
    },
}

impl AstCheckResult {
    /// Returns true if the trees are equivalent.
    pub fn is_equivalent(&self) -> (r: bool)
        ensures
            r == (self is Equivalent),
    {
        match self {
            AstCheckResult::Equivalent => true,
            AstCheckResult::Different { .. } => false,
        }
    }
}

/// Kinds whose meaning lives in their exact source text.
pub open spec fn is_value_kind(kind: Seq<char>) -> bool {
    ||| kind == "identifier"@
    ||| kind == "name"@
    ||| kind == "integer"@
    ||| kind == "float"@
    ||| kind == "string"@
    ||| kind == "true"@
    ||| kind == "false"@
    ||| kind == "null"@
    ||| kind == "self"@
    ||| kind == "type"@
}

/// Exec test for `is_value_kind`.
pub fn is_value_node(kind: &str) -> (r: bool)
    ensures
        r == is_value_kind(kind@),
{
    text::str_eq(kind, "identifier") || text::str_eq(kind, "name") || text::str_eq(kind, "integer")
        || text::str_eq(kind, "float") || text::str_eq(kind, "string") || text::str_eq(
        kind,
        "true",
    ) || text::str_eq(kind, "false") || text::str_eq(kind, "null") || text::str_eq(kind, "self")
        || text::str_eq(kind, "type")
}

/// Structural equivalence of the subtrees at `a` and `b`: equal kinds, equal
/// named-child counts, equal text on value leaves (when `check_text` holds),
/// and equivalent named children pairwise.
pub open spec fn nodes_equiv(
    ta: Seq<SynNode>,
    a: int,
    tb: Seq<SynNode>,
    b: int,
    check_text: bool,
) -> bool
    decreases ta.len() - a, 0int
        when 0 <= a < ta.len() && 0 <= b < tb.len() && arena_wf(ta) && arena_wf(tb)
{
    let na = named_children_of(ta, a);
    let nb = named_children_of(tb, b);
    &&& ta[a].kind@ == tb[b].kind@
    &&& ((na.len() == 0 && nb.len() == 0 && is_value_kind(ta[a].kind@) && check_text) ==> ta[
        a].text@ == tb[b].text@)
    &&& na.len() == nb.len()
    &&& forall|k: int|
        0 <= k < na.len() ==> (a < #[trigger] na[k] < ta.len() && b < nb[k] < tb.len()
            && nodes_equiv(ta, na[k] as int, tb, nb[k] as int, check_text))
}

/// The decimal digit character of `d`.
pub open spec fn spec_digit(d: int) -> char {
    if d == 0 {
        '0'
    } else if d == 1 {
        '1'
    } else if d == 2 {
        '2'
    } else if d == 3 {
        '3'
    } else if d == 4 {
        '4'
    } else if d == 5 {
        '5'
    } else if d == 6 {
        '6'
    } else if d == 7 {
        '7'
    } else if d == 8 {
        '8'
    } else {
        '9'
    }
}

/// The decimal rendering of `n`.
pub open spec fn spec_dec(n: int) -> Seq<char>
    decreases n when n >= 0
{
    if n < 10 {
        seq![spec_digit(n)]
    } else {
        spec_dec(n / 10).push(spec_digit(n % 10))
    }
}

proof fn lemma_reverse_push(s: Seq<char>, c: char)
    ensures
        s.push(c).reverse() == seq![c] + s.reverse(),
{
    let lhs = s.push(c).reverse();
    let rhs = seq![c] + s.reverse();
    assert forall|j: int| 0 <= j < lhs.len() implies lhs[j] == rhs[j] by {
        assert(lhs[j] == s.push(c)[s.len() - j]);
        if j > 0 {
            assert(rhs[j] == s.reverse()[j - 1]);
            assert(s.reverse()[j - 1] == s[s.len() - j]);
            assert(s.push(c)[s.len() - j] == s[s.len() - j]);
        }
    }
    assert(lhs =~= rhs);
}

proof fn lemma_reverse_sub(dv: Seq<char>, i: int)
    requires
        1 <= i <= dv.len(),
    ensures
        dv.subrange(i - 1, dv.len() as int).reverse() == dv.subrange(
            i,
            dv.len() as int,
        ).reverse().push(dv[i - 1]),
{
    let lhs = dv.subrange(i - 1, dv.len() as int).reverse();
    let rhs = dv.subrange(i, dv.len() as int).reverse().push(dv[i - 1]);
    assert forall|j: int| 0 <= j < lhs.len() implies lhs[j] == rhs[j] by {
        let sub = dv.subrange(i - 1, dv.len() as int);
        assert(lhs[j] == sub[sub.len() - 1 - j]);
        assert(sub[sub.len() - 1 - j] == dv[dv.len() - 1 - j]);
        if j < lhs.len() - 1 {
            let sub2 = dv.subrange(i, dv.len() as int);
            assert(rhs[j] == sub2.reverse()[j]);
            assert(sub2.reverse()[j] == sub2[sub2.len() - 1 - j]);
            assert(sub2[sub2.len() - 1 - j] == dv[dv.len() - 1 - j]);
        }
    }
    assert(lhs =~= rhs);
}

/// Digits of a number, for diagnostic paths.
fn usize_to_string(n: usize) -> (r: String)
    ensures
        r@ == spec_dec(n as int),
{
    let mut digits: Vec<char> = Vec::new();
    let mut m = n;
    let mut done = false;
    while !done
        invariant
            forall|j: int| 0 <= j < digits@.len() ==> '0' <= #[trigger] digits@[j] && digits@[j]
                <= '9',
            done ==> spec_dec(n as int) == digits@.reverse(),
            !done ==> spec_dec(n as int) == spec_dec(m as int) + digits@.reverse(),
        decreases m, (if done {
            0int
        } else {
            1int
        }),
    {
        let d = m % 10;
        let c: char = digit_char(d);
        let ghost old_digits = digits@;
        let ghost old_m = m as int;
        digits.push(c);
        m = m / 10;
        proof {
            lemma_reverse_push(old_digits, c);
            if old_m < 10 {
                assert(spec_dec(old_m) == seq![spec_digit(old_m)]);
                assert(spec_dec(old_m) + old_digits.reverse() =~= seq![c] + old_digits.reverse());
                assert(spec_dec(n as int) == digits@.reverse());
            } else {
                assert(spec_dec(old_m) == spec_dec(old_m / 10).push(spec_digit(old_m % 10)));
                assert(spec_dec(old_m / 10).push(c) + old_digits.reverse() =~= spec_dec(
                    old_m / 10,
                ) + (seq![c] + old_digits.reverse()));
                assert(spec_dec(n as int) == spec_dec(m as int) + digits@.reverse());
            }
        }
        if m == 0 {
            done = true;
        }
    }
    let ghost dv = digits@;
    let mut out = String::new();
    let mut i = digits.len();
    proof {
        assert(dv.subrange(i as int, dv.len() as int).reverse() =~= Seq::<char>::empty());
    }
    while i > 0
        invariant
            i <= digits@.len(),
            dv == digits@,
            forall|j: int| 0 <= j < dv.len() ==> '0' <= #[trigger] dv[j] && dv[j] <= '9',
            out@ == dv.subrange(i as int, dv.len() as int).reverse(),
        decreases i,
    {
        let c = digits[i - 1];
        let one: &str = digit_str(c);
        proof {
            assert(one@ == seq![c]);
        }
        out.append(one);
        proof {
            lemma_reverse_sub(dv, i as int);
            assert(out@ =~= dv.subrange(i - 1, dv.len() as int).reverse());
        }
        i -= 1;
    }
    proof {
        assert(dv.subrange(0, dv.len() as int) =~= dv);
    }
    out
}

/// Exec digit character.
fn digit_char(d: usize) -> (c: char)
    requires
        d < 10,
    ensures
        c == spec_digit(d as int),
        '0' <= c && c <= '9',
{
    if d == 0 {
        '0'
    } else if d == 1 {
        '1'
    } else if d == 2 {
        '2'
    } else if d == 3 {
        '3'
    } else if d == 4 {
        '4'
    } else if d == 5 {
        '5'
    } else if d == 6 {
        '6'
    } else if d == 7 {
        '7'
    } else if d == 8 {
        '8'
    } else {
        '9'
    }
}

/// Exec digit string.
fn digit_str(c: char) -> (r: &'static str)
    ensures
        ('0' <= c && c <= '9') ==> r@ == seq![c],
{
    proof {
        reveal_strlit("0");
        reveal_strlit("1");
        reveal_strlit("2");
        reveal_strlit("3");
        reveal_strlit("4");
        reveal_strlit("5");
        reveal_strlit("6");
        reveal_strlit("7");
        reveal_strlit("8");
        reveal_strlit("9");
    }
    if c == '0' {
        "0"
    } else if c == '1' {
        "1"
    } else if c == '2' {
        "2"
    } else if c == '3' {
        "3"
    } else if c == '4' {
        "4"
    } else if c == '5' {
        "5"
    } else if c == '6' {
        "6"
    } else if c == '7' {
        "7"
    } else if c == '8' {
        "8"
    } else {
        "9"
    }
}

/// One `kind[index]` breadcrumb segment.
pub open spec fn spec_segment(kind: Seq<char>, index: int) -> Seq<char> {
    kind + "["@ + spec_dec(index) + "]"@
}

/// A breadcrumb path extended by one segment, `.`-joined unless it was
/// empty.
pub open spec fn spec_extend_path(path: Seq<char>, kind: Seq<char>, index: int) -> Seq<char> {
    if path.len() == 0 {
        spec_segment(kind, index)
    } else {
        path + "."@ + spec_segment(kind, index)
    }
}

/// One `kind[index]` breadcrumb segment appended to a path.
fn extend_path(path: &String, kind: &str, index: usize) -> (r: String)
    ensures
        r@ == spec_extend_path(path@, kind@, index as int),
{
    let seg = kind.to_owned().concat("[").concat(usize_to_string(index).as_str()).concat("]");
    if path.as_str().unicode_len() == 0 {
        seg
    } else {
        path.clone().concat(".").concat(seg.as_str())
    }
}

/// Compare two subtrees; `Equivalent` exactly when `nodes_equiv` holds.
/// The breadcrumb of the first difference below `(a, b)`, extending
/// `prefix`: the prefix itself when the difference is at this node, else
/// the path into the first differing named-child pair.
pub open spec fn diff_path(
    ta: Seq<SynNode>,
    a: int,
    tb: Seq<SynNode>,
    b: int,
    prefix: Seq<char>,
    check_text: bool,
) -> Seq<char>
    decreases ta.len() - a, 1int, 0int
        when 0 <= a < ta.len() && 0 <= b < tb.len() && arena_wf(ta) && arena_wf(tb)
{
    let na = named_children_of(ta, a);
    let nb = named_children_of(tb, b);
    if ta[a].kind@ != tb[b].kind@ {
        prefix
    } else if na.len() == 0 && nb.len() == 0 && is_value_kind(ta[a].kind@) && check_text && ta[
        a].text@ != tb[b].text@ {
        prefix
    } else if na.len() != nb.len() {
        prefix
    } else {
        diff_path_children(ta, a, tb, b, 0, prefix, check_text)
    }
}

/// The breadcrumb through the first non-equivalent named-child pair at or
/// after position `k`.
pub open spec fn diff_path_children(
    ta: Seq<SynNode>,
    a: int,
    tb: Seq<SynNode>,
    b: int,
    k: int,
    prefix: Seq<char>,
    check_text: bool,
) -> Seq<char>
    decreases ta.len() - a, 0int, named_children_of(ta, a).len() - k
        when 0 <= a < ta.len() && 0 <= b < tb.len() && arena_wf(ta) && arena_wf(tb) && 0 <= k
{
    let na = named_children_of(ta, a);
    let nb = named_children_of(tb, b);
    if k >= na.len() || k >= nb.len() {
        prefix
    } else if a < na[k] < ta.len() && b < nb[k] < tb.len() && !nodes_equiv(
        ta,
        na[k] as int,
        tb,
        nb[k] as int,
        check_text,
    ) {
        diff_path(
            ta,
            na[k] as int,
            tb,
            nb[k] as int,
            spec_extend_path(prefix, ta[na[k] as int].kind@, k),
            check_text,
        )
    } else {
        diff_path_children(ta, a, tb, b, k + 1, prefix, check_text)
    }
}

fn compare_nodes(
    ta: &SynTree,
    a: usize,
    tb: &SynTree,
    b: usize,
    path: String,
    check_text: bool,
) -> (r: AstCheckResult)
    requires
        ta.wf(),
        tb.wf(),
        a < ta.nodes@.len(),
        b < tb.nodes@.len(),
    ensures
        (r is Equivalent) == nodes_equiv(ta.nodes@, a as int, tb.nodes@, b as int, check_text),
        r matches AstCheckResult::Different { path: p, difference: _ } ==> p@ == diff_path(
            ta.nodes@,
            a as int,
            tb.nodes@,
            b as int,
            path@,
            check_text,
        ),
    decreases ta.nodes@.len() - a,
{
    if !text::str_eq(ta.kind(a), tb.kind(b)) {
        let difference = "node kind differs: '".to_owned().concat(ta.kind(a)).concat(
            "' vs '",
        ).concat(tb.kind(b)).concat("'");
        return AstCheckResult::Different { path, difference };
    }
    let na = ta.named_children(a);
    let nb = tb.named_children(b);
    if na.len() == 0 && nb.len() == 0 && is_value_node(ta.kind(a)) && check_text {
        if !text::str_eq(ta.text(a), tb.text(b)) {
            let difference = ta.kind(a).to_owned().concat(" value differs: '").concat(
                ta.text(a),
            ).concat("' vs '").concat(tb.text(b)).concat("'");
            return AstCheckResult::Different { path, difference };
        }
    }
    if na.len() != nb.len() {
        let difference = "named child count differs: ".to_owned().concat(
            usize_to_string(na.len()).as_str(),
        ).concat(" vs ").concat(usize_to_string(nb.len()).as_str());
        return AstCheckResult::Different { path, difference };
    }
    let n = na.len();
    let mut k: usize = 0;
    while k < n
        invariant
            0 <= k <= n,
            ta.wf(),
            tb.wf(),
            a < ta.nodes@.len(),
            b < tb.nodes@.len(),
            na@ == named_children_of(ta.nodes@, a as int),
            nb@ == named_children_of(tb.nodes@, b as int),
            n == na@.len(),
            n == nb@.len(),
            forall|j: int| 0 <= j < na@.len() ==> a < #[trigger] na@[j] < ta.nodes@.len(),
            forall|j: int| 0 <= j < nb@.len() ==> b < #[trigger] nb@[j] < tb.nodes@.len(),
            forall|j: int|
                0 <= j < k ==> nodes_equiv(
                    ta.nodes@,
                    #[trigger] na@[j] as int,
                    tb.nodes@,
                    nb@[j] as int,
                    check_text,
                ),
            ta.nodes@[a as int].kind@ == tb.nodes@[b as int].kind@,
            !(na@.len() == 0 && nb@.len() == 0 && is_value_kind(ta.nodes@[a as int].kind@)
                && check_text && ta.nodes@[a as int].text@ != tb.nodes@[b as int].text@),
            diff_path_children(ta.nodes@, a as int, tb.nodes@, b as int, 0, path@, check_text)
                == diff_path_children(
                ta.nodes@,
                a as int,
                tb.nodes@,
                b as int,
                k as int,
                path@,
                check_text,
            ),
        decreases n - k,
    {
        let child_path = extend_path(&path, ta.kind(na[k]), k);
        let result = compare_nodes(ta, na[k], tb, nb[k], child_path, check_text);
        match result {
            AstCheckResult::Equivalent => {},
            AstCheckResult::Different { path: p, difference: d } => {
                proof {
                    assert(!nodes_equiv(
                        ta.nodes@,
                        na@[k as int] as int,
                        tb.nodes@,
                        nb@[k as int] as int,
                        check_text,
                    ));
                    assert(diff_path_children(
                        ta.nodes@,
                        a as int,
                        tb.nodes@,
                        b as int,
                        k as int,
                        path@,
                        check_text,
                    ) == diff_path(
                        ta.nodes@,
                        na@[k as int] as int,
                        tb.nodes@,
                        nb@[k as int] as int,
                        spec_extend_path(path@, ta.nodes@[na@[k as int] as int].kind@, k as int),
                        check_text,
                    ));
                    assert(diff_path(ta.nodes@, a as int, tb.nodes@, b as int, path@, check_text)
                        == diff_path_children(
                        ta.nodes@,
                        a as int,
                        tb.nodes@,
                        b as int,
                        0,
                        path@,
                        check_text,
                    ));
                }
                return AstCheckResult::Different { path: p, difference: d };
            },
        }
        k += 1;
    }
    AstCheckResult::Equivalent
}

/// Compare two trees for structural equivalence, with access to their
/// sources: value leaves must match textually.
pub fn compare_ast_with_source(
    original_tree: &SynTree,
    original_source: &str,
    formatted_tree: &SynTree,
    formatted_source: &str,
) -> (r: AstCheckResult)
    requires
        original_tree.wf(),
        formatted_tree.wf(),
    ensures
        (r is Equivalent) == nodes_equiv(original_tree.nodes@, 0, formatted_tree.nodes@, 0, true),
        r matches AstCheckResult::Different { path: p, difference: _ } ==> p@ == diff_path(
            original_tree.nodes@,
            0,
            formatted_tree.nodes@,
            0,
            Seq::empty(),
            true,
        ),
{
    let _ = original_source;
    let _ = formatted_source;
    compare_nodes(original_tree, 0, formatted_tree, 0, String::new(), true)
}

/// Compare two trees for structural equivalence, kinds and shapes only.
pub fn compare_ast(original: &SynTree, formatted: &SynTree) -> (r: AstCheckResult)
    requires
        original.wf(),
        formatted.wf(),
    ensures
        (r is Equivalent) == nodes_equiv(original.nodes@, 0, formatted.nodes@, 0, false),
        r matches AstCheckResult::Different { path: p, difference: _ } ==> p@ == diff_path(
            original.nodes@,
            0,
            formatted.nodes@,
            0,
            Seq::empty(),
            false,
        ),
{
    compare_nodes(original, 0, formatted, 0, String::new(), false)
}

} // verus!
