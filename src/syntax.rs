use vstd::prelude::*;

verus! {

/// One node of a concrete syntax tree: its grammar kind, the source text it
/// spans, its 1-based starting line, and the positions of its children.
#[derive(Debug, Clone)]
pub struct SyntaxNode {
    pub kind: String,
    pub text: String,
    pub line: usize,
    pub children: Vec<usize>,
}

/// A concrete syntax tree; node 0 is the root, and a node's children come
/// after it.
#[derive(Debug, Clone)]
pub struct SyntaxTree {
    pub nodes: Vec<SyntaxNode>,
}

impl SyntaxTree {
    pub open spec fn kind(&self, i: int) -> Seq<char> {
        self.nodes@[i].kind@
    }

    pub open spec fn text(&self, i: int) -> Seq<char> {
        self.nodes@[i].text@
    }

    pub open spec fn child_count(&self, i: int) -> int {
        self.nodes@[i].children@.len() as int
    }

    pub open spec fn child(&self, i: int, k: int) -> int {
        self.nodes@[i].children@[k] as int
    }

    /// Child `k` of node `i`, when it comes after `i` within the tree; the
    /// walks below descend only along such links, so every walk ends.
    pub open spec fn forward_child(&self, i: int, k: int) -> bool {
        &&& 0 <= i < self.nodes@.len()
        &&& 0 <= k < self.child_count(i)
        &&& i < self.child(i, k) < self.nodes@.len()
    }

    pub fn new(nodes: Vec<SyntaxNode>) -> (r: Self)
        ensures
            r.nodes@ == nodes@,
    {
        SyntaxTree { nodes }
    }
}

} // verus!
