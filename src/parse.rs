//! Concrete syntax trees from tree-sitter, as the library's `SyntaxTree`.
use vstd::prelude::*;

use crate::syntax::{SyntaxNode, SyntaxTree};

verus! {

/// A node as tree-sitter lists it: its id, its parent's id, its kind, the
/// source text it spans, and its 0-based starting row.
#[derive(Debug, Clone)]
pub struct RawNode {
    pub id: usize,
    pub parent: Option<usize>,
    pub kind: String,
    pub text: String,
    pub row: usize,
}

pub type RawView = (usize, Option<usize>, Seq<char>, Seq<char>, usize);

impl View for RawNode {
    type V = RawView;

    open spec fn view(&self) -> RawView {
        (self.id, self.parent, self.kind@, self.text@, self.row)
    }
}

pub open spec fn raw_views(v: Seq<RawNode>) -> Seq<RawView> {
    v.map_values(|n: RawNode| n@)
}

/// A node without tree-sitter's ids: its kind, text, 0-based row, and the
/// position of its parent in the list (-1 for none).
pub type ShapeView = (Seq<char>, Seq<char>, usize, int);

/// The nodes of a list with each parent id replaced by the parent's position.
pub open spec fn shapes(raws: Seq<RawView>) -> Seq<ShapeView> {
    Seq::new(raws.len(), |i: int| (raws[i].2, raws[i].3, raws[i].4, parent_at(raws, i, i)))
}

/// The ids of a list of nodes are pairwise distinct.
pub open spec fn distinct_ids(v: Seq<RawNode>) -> bool {
    forall|i: int, j: int| 0 <= i < v.len() && 0 <= j < v.len() && i != j ==> v[i].id != v[j].id
}

/// The nodes that tree-sitter's Rust grammar gives `source`, in visit
/// order, each with its parent's position.
pub uninterp spec fn rust_nodes(source: Seq<char>) -> Seq<ShapeView>;

/// The nodes that tree-sitter's Python grammar gives `source`, in visit
/// order, each with its parent's position.
pub uninterp spec fn python_nodes(source: Seq<char>) -> Seq<ShapeView>;

/// The nodes that tree-sitter's JavaScript grammar gives `source`, in visit
/// order, each with its parent's position.
pub uninterp spec fn javascript_nodes(source: Seq<char>) -> Seq<ShapeView>;

/// Relies on tree-sitter with `tree_sitter_rust::language()`: parses
/// `source` and lists every node of the tree as a query cursor matching the
/// wildcard pattern visits them (the tree's walk order, parents before
/// children). Node ids are distinct within one tree (`Node::id`), though not
/// stable between parses, so only parent positions are named. Setting a
/// grammar of ABI version 14 succeeds, and `parse` fails only on a timeout or
/// cancellation, neither of which is set. Node byte ranges fall on character
/// boundaries, since the lexer reads the source a whole character at a time.
#[verifier::external_body]
pub(crate) fn parse_rust(source: &str) -> (r: Option<Vec<RawNode>>)
    ensures
        r is Some,
        r matches Some(v) ==> shapes(raw_views(v@)) == rust_nodes(source@) && distinct_ids(v@),
{
    let grammar = tree_sitter_rust::language();
    let mut parser = tree_sitter::Parser::new();
    parser.set_language(grammar).ok()?;
    let tree = parser.parse(source, None)?;
    let query = tree_sitter::Query::new(grammar, "_ @node").ok()?;
    let mut cursor = tree_sitter::QueryCursor::new();
    let found = cursor.matches(&query, tree.root_node(), source.as_bytes());
    Some(found.map(|m| m.captures[0].node).map(|n| RawNode {
        id: n.id(),
        parent: n.parent().map(|p| p.id()),
        kind: n.kind().into(),
        text: source[n.byte_range()].into(),
        row: n.start_position().row,
    }).collect())
}

/// Relies on tree-sitter with `tree_sitter_python::language()`: parses
/// `source` and lists every node of the tree as a query cursor matching the
/// wildcard pattern visits them (the tree's walk order, parents before
/// children). Node ids are distinct within one tree (`Node::id`), though not
/// stable between parses, so only parent positions are named. Setting a
/// grammar of ABI version 14 succeeds, and `parse` fails only on a timeout or
/// cancellation, neither of which is set. Node byte ranges fall on character
/// boundaries, since the lexer reads the source a whole character at a time.
#[verifier::external_body]
pub(crate) fn parse_python(source: &str) -> (r: Option<Vec<RawNode>>)
    ensures
        r is Some,
        r matches Some(v) ==> shapes(raw_views(v@)) == python_nodes(source@) && distinct_ids(v@),
{
    let grammar = tree_sitter_python::language();
    let mut parser = tree_sitter::Parser::new();
    parser.set_language(grammar).ok()?;
    let tree = parser.parse(source, None)?;
    let query = tree_sitter::Query::new(grammar, "_ @node").ok()?;
    let mut cursor = tree_sitter::QueryCursor::new();
    let found = cursor.matches(&query, tree.root_node(), source.as_bytes());
    Some(found.map(|m| m.captures[0].node).map(|n| RawNode {
        id: n.id(),
        parent: n.parent().map(|p| p.id()),
        kind: n.kind().into(),
        text: source[n.byte_range()].into(),
        row: n.start_position().row,
    }).collect())
}

/// Relies on tree-sitter with `tree_sitter_javascript::language()`: parses
/// `source` and lists every node of the tree as a query cursor matching the
/// wildcard pattern visits them (the tree's walk order, parents before
/// children). Node ids are distinct within one tree (`Node::id`), though not
/// stable between parses, so only parent positions are named. Setting a
/// grammar of ABI version 14 succeeds, and `parse` fails only on a timeout or
/// cancellation, neither of which is set. Node byte ranges fall on character
/// boundaries, since the lexer reads the source a whole character at a time.
#[verifier::external_body]
pub(crate) fn parse_javascript(source: &str) -> (r: Option<Vec<RawNode>>)
    ensures
        r is Some,
        r matches Some(v) ==> shapes(raw_views(v@)) == javascript_nodes(source@) && distinct_ids(v@),
{
    let grammar = tree_sitter_javascript::language();
    let mut parser = tree_sitter::Parser::new();
    parser.set_language(grammar).ok()?;
    let tree = parser.parse(source, None)?;
    let query = tree_sitter::Query::new(grammar, "_ @node").ok()?;
    let mut cursor = tree_sitter::QueryCursor::new();
    let found = cursor.matches(&query, tree.root_node(), source.as_bytes());
    Some(found.map(|m| m.captures[0].node).map(|n| RawNode {
        id: n.id(),
        parent: n.parent().map(|p| p.id()),
        kind: n.kind().into(),
        text: source[n.byte_range()].into(),
        row: n.start_position().row,
    }).collect())
}

/// The position of node `i`'s parent: the last node before `i` whose id is
/// `i`'s parent id; -1 when there is none.
pub open spec fn parent_at(raws: Seq<RawView>, i: int, j: int) -> int
    decreases j,
{
    if j <= 0 {
        -1
    } else if raws[i].1 == Some(raws[j - 1].0) {
        j - 1
    } else {
        parent_at(raws, i, j - 1)
    }
}

proof fn lemma_parent_before(raws: Seq<RawView>, i: int, j: int)
    ensures
        parent_at(raws, i, j) < j || parent_at(raws, i, j) == -1,
        parent_at(raws, i, j) >= -1,
    decreases j,
{
    if j > 0 {
        lemma_parent_before(raws, i, j - 1);
    }
}

proof fn lemma_no_children_yet(raws: Seq<RawView>, p: int, n: int)
    requires
        n <= p + 1,
        n <= raws.len(),
    ensures
        children_at(shapes(raws), p, n) == Seq::<usize>::empty(),
    decreases n,
{
    if n > 0 {
        lemma_no_children_yet(raws, p, n - 1);
        lemma_parent_before(raws, n - 1, n - 1);
    }
}

/// The nodes among the first `n` whose parent is at position `p`, in order.
pub open spec fn children_at(sh: Seq<ShapeView>, p: int, n: int) -> Seq<usize>
    decreases n,
{
    if n <= 0 {
        Seq::empty()
    } else {
        children_at(sh, p, n - 1) + if sh[n - 1].3 == p {
            seq![(n - 1) as usize]
        } else {
            Seq::empty()
        }
    }
}

/// The 1-based line of a 0-based row.
pub open spec fn line_of(row: usize) -> usize {
    if row < usize::MAX {
        (row + 1) as usize
    } else {
        row
    }
}

/// `t` is the tree that `sh` lists: node for node the same kind and text,
/// the row as a 1-based line, and as children the nodes whose parent it is.
pub open spec fn tree_of(t: SyntaxTree, sh: Seq<ShapeView>) -> bool {
    &&& t.nodes@.len() == sh.len()
    &&& forall|i: int|
        0 <= i < sh.len() ==> {
            &&& (#[trigger] t.nodes@[i]).kind@ == sh[i].0
            &&& t.nodes@[i].text@ == sh[i].1
            &&& t.nodes@[i].line == line_of(sh[i].2)
            &&& t.nodes@[i].children@ == children_at(sh, i, sh.len() as int)
        }
}

/// The syntax tree that a list of tree-sitter nodes describes.
pub(crate) fn assemble_tree(raws: Vec<RawNode>) -> (r: SyntaxTree)
    ensures
        tree_of(r, shapes(raw_views(raws@))),
{
    let ghost rv = raw_views(raws@);
    let ghost sh = shapes(rv);
    let n = raws.len();
    let mut nodes: Vec<SyntaxNode> = Vec::new();
    let mut i: usize = 0;
    while i < n
        invariant
            n == raws@.len(),
            rv == raw_views(raws@),
            i <= n,
            nodes@.len() == i,
            forall|k: int|
                0 <= k < i ==> {
                    &&& (#[trigger] nodes@[k]).kind@ == rv[k].2
                    &&& nodes@[k].text@ == rv[k].3
                    &&& nodes@[k].line == line_of(rv[k].4)
                    &&& nodes@[k].children@ == children_at(sh, k, i as int)
                },
            sh == shapes(rv),
        decreases n - i,
    {
        let mut parent: Option<usize> = None;
        let mut j: usize = i;
        while j > 0 && parent.is_none()
            invariant
                n == raws@.len(),
                rv == raw_views(raws@),
                i < n,
                j <= i,
                parent is None ==> parent_at(rv, i as int, i as int) == parent_at(rv, i as int, j as int),
                parent matches Some(p) ==> p as int == parent_at(rv, i as int, i as int) && p < i,
            decreases j,
        {
            if raws[i].parent == Some(raws[j - 1].id) {
                parent = Some(j - 1);
            }
            j = j - 1;
        }
        proof {
            lemma_parent_before(rv, i as int, i as int);
            lemma_no_children_yet(rv, i as int, i as int);
            assert(sh[i as int].3 == parent_at(rv, i as int, i as int));
        }
        let raw = &raws[i];
        let line = if raw.row < usize::MAX {
            raw.row + 1
        } else {
            raw.row
        };
        let ghost before = nodes@;
        nodes.push(SyntaxNode { kind: raw.kind.clone(), text: raw.text.clone(), line, children: Vec::new() });
        match parent {
            Some(p) => {
                nodes[p].children.push(i);
            },
            None => {},
        }
        proof {
            assert forall|k: int| 0 <= k < i + 1 implies {
                &&& (#[trigger] nodes@[k]).kind@ == rv[k].2
                &&& nodes@[k].text@ == rv[k].3
                &&& nodes@[k].line == line_of(rv[k].4)
                &&& nodes@[k].children@ == children_at(sh, k, i + 1)
            } by {
                assert(children_at(sh, k, i + 1) == children_at(sh, k, i as int) + if sh[i as int].3 == k {
                    seq![i]
                } else {
                    Seq::empty()
                });
                if k < i {
                    assert(before[k].kind == nodes@[k].kind);
                    if parent == Some(k as usize) {
                        assert(nodes@[k].children@ =~= children_at(sh, k, i + 1));
                    } else {
                        assert(nodes@[k].children@ =~= children_at(sh, k, i + 1));
                    }
                } else {
                    assert(nodes@[k].children@ =~= children_at(sh, k, i + 1));
                }
            }
        }
        i = i + 1;
    }
    assert(sh.len() == n);
    SyntaxTree::new(nodes)
}

} // verus!
