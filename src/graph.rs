use vstd::prelude::*;

use crate::ast::FunctionDef;
use crate::function_id::FunctionId;

verus! {

/// Node in the call graph representing a function.
#[derive(Debug, Clone, PartialEq, Eq)]
pub struct GraphNode {
    pub id: FunctionId,
    pub is_external: bool,
    pub metadata: FunctionDef,
}

impl GraphNode {
    pub fn new(id: FunctionId, metadata: FunctionDef, is_external: bool) -> (r: Self)
        ensures
            r.id@ == id@,
            r.is_external == is_external,
            r.metadata == metadata,
    {
        GraphNode { id, is_external, metadata }
    }

    pub fn internal(id: FunctionId, metadata: FunctionDef) -> (r: Self)
        ensures
            r.id@ == id@,
            !r.is_external,
            r.metadata == metadata,
    {
        GraphNode { id, is_external: false, metadata }
    }

    pub fn external(id: FunctionId, metadata: FunctionDef) -> (r: Self)
        ensures
            r.id@ == id@,
            r.is_external,
            r.metadata == metadata,
    {
        GraphNode { id, is_external: true, metadata }
    }
}

/// Edge in the call graph representing a function call.
#[derive(Debug, Clone, PartialEq, Eq)]
pub struct GraphEdge {
    pub from: FunctionId,
    pub to: FunctionId,
    pub line: usize,
}

impl GraphEdge {
    pub fn new(from: FunctionId, to: FunctionId, line: usize) -> (r: Self)
        ensures
            r.from@ == from@,
            r.to@ == to@,
            r.line == line,
    {
        GraphEdge { from, to, line }
    }

    pub fn duplicate(&self) -> (r: Self)
        ensures
            r.from@ == self.from@,
            r.to@ == self.to@,
            r.line == self.line,
    {
        GraphEdge { from: self.from.clone(), to: self.to.clone(), line: self.line }
    }
}

/// Call dependency graph: nodes with distinct ids, and a multiset of edges
/// kept in insertion order.
#[derive(Debug, Clone)]
pub struct CallGraph {
    pub nodes: Vec<GraphNode>,
    pub edges: Vec<GraphEdge>,
}

/// Whether some node of `nodes` has the identifier `id`.
pub open spec fn has_id(nodes: Seq<GraphNode>, id: Seq<char>) -> bool {
    exists|i: int| 0 <= i < nodes.len() && #[trigger] nodes[i].id@ == id
}

/// Node identifiers are pairwise distinct.
pub open spec fn distinct_ids(nodes: Seq<GraphNode>) -> bool {
    forall|i: int, j: int|
        0 <= i < nodes.len() && 0 <= j < nodes.len() && i != j ==> nodes[i].id@ != nodes[j].id@
}

/// The edges that a sequence of references points at.
pub open spec fn derefs(r: Seq<&GraphEdge>) -> Seq<GraphEdge> {
    r.map_values(|e: &GraphEdge| *e)
}

/// Holds of the edges that leave `id`.
pub open spec fn leaves(id: Seq<char>) -> spec_fn(GraphEdge) -> bool {
    |e: GraphEdge| e.from@ == id
}

/// Holds of the edges that enter `id`.
pub open spec fn enters(id: Seq<char>) -> spec_fn(GraphEdge) -> bool {
    |e: GraphEdge| e.to@ == id
}

impl CallGraph {
    pub open spec fn has_node(&self, id: Seq<char>) -> bool {
        has_id(self.nodes@, id)
    }

    /// Keys are unique and no edge dangles.
    pub open spec fn wf(&self) -> bool {
        &&& distinct_ids(self.nodes@)
        &&& forall|k: int|
            0 <= k < self.edges@.len() ==> self.has_node(#[trigger] self.edges@[k].from@)
                && self.has_node(self.edges@[k].to@)
    }

    /// The edges leaving `id`, in insertion order.
    pub open spec fn edges_from(&self, id: Seq<char>) -> Seq<GraphEdge> {
        self.edges@.filter(leaves(id))
    }

    /// The edges entering `id`, in insertion order.
    pub open spec fn edges_to(&self, id: Seq<char>) -> Seq<GraphEdge> {
        self.edges@.filter(enters(id))
    }

    /// Whether the graph has an edge from `a` to `b`.
    pub open spec fn has_edge(&self, a: Seq<char>, b: Seq<char>) -> bool {
        exists|k: int|
            0 <= k < self.edges@.len() && #[trigger] self.edges@[k].from@ == a
                && self.edges@[k].to@ == b
    }

    pub fn new() -> (r: Self)
        ensures
            r.wf(),
            r.nodes@.len() == 0,
            r.edges@.len() == 0,
    {
        CallGraph { nodes: Vec::new(), edges: Vec::new() }
    }

    /// The position of the node with identifier `id`, if any.
    pub fn find_node(&self, id: &FunctionId) -> (r: Option<usize>)
        ensures
            match r {
                Some(i) => i < self.nodes@.len() && self.nodes@[i as int].id@ == id@ && forall|j: int|
                    0 <= j < i ==> self.nodes@[j].id@ != id@,
                None => !self.has_node(id@),
            },
    {
        let mut i: usize = 0;
        while i < self.nodes.len()
            invariant
                i <= self.nodes@.len(),
                forall|j: int| 0 <= j < i ==> self.nodes@[j].id@ != id@,
            decreases self.nodes@.len() - i,
        {
            if self.nodes[i].id.same(id) {
                return Some(i);
            }
            i = i + 1;
        }
        None
    }

    pub fn contains_node(&self, id: &FunctionId) -> (r: bool)
        ensures
            r == self.has_node(id@),
    {
        self.find_node(id).is_some()
    }

    /// Insert a node; fails if a node with the same id is present.
    pub fn insert_node(&mut self, node: GraphNode) -> (r: Result<(), String>)
        requires
            old(self).wf(),
        ensures
            final(self).wf(),
            r.is_err() == old(self).has_node(node.id@),
            r matches Err(e) ==> e@ == "Node already exists: "@ + node.id@,
            r.is_ok() ==> final(self).nodes@ == old(self).nodes@.push(node),
            r.is_err() ==> final(self).nodes@ == old(self).nodes@,
            final(self).edges@ == old(self).edges@,
    {
        if self.contains_node(&node.id) {
            let mut msg = String::from_str("Node already exists: ");
            msg.append(node.id.as_str());
            return Err(msg);
        }
        let ghost old_nodes = self.nodes@;
        self.nodes.push(node);
        proof {
            assert forall|x: Seq<char>| has_id(old_nodes, x) implies has_id(self.nodes@, x) by {
                let i = choose|i: int| 0 <= i < old_nodes.len() && #[trigger] old_nodes[i].id@ == x;
                assert(self.nodes@[i].id@ == x);
            }
        }
        Ok(())
    }

    /// Insert an edge; fails if either endpoint is absent.
    pub fn insert_edge(&mut self, edge: GraphEdge) -> (r: Result<(), String>)
        requires
            old(self).wf(),
        ensures
            final(self).wf(),
            r.is_ok() == (old(self).has_node(edge.from@) && old(self).has_node(edge.to@)),
            r matches Err(e) ==> e@ == if !old(self).has_node(edge.from@) {
                "From node does not exist: "@ + edge.from@
            } else {
                "To node does not exist: "@ + edge.to@
            },
            r.is_ok() ==> final(self).edges@ == old(self).edges@.push(edge),
            r.is_err() ==> final(self).edges@ == old(self).edges@,
            final(self).nodes@ == old(self).nodes@,
    {
        if !self.contains_node(&edge.from) {
            let mut msg = String::from_str("From node does not exist: ");
            msg.append(edge.from.as_str());
            return Err(msg);
        }
        if !self.contains_node(&edge.to) {
            let mut msg = String::from_str("To node does not exist: ");
            msg.append(edge.to.as_str());
            return Err(msg);
        }
        self.edges.push(edge);
        Ok(())
    }

    /// The node with identifier `id`, if any.
    pub fn get_node(&self, id: &FunctionId) -> (r: Option<&GraphNode>)
        ensures
            match r {
                Some(n) => n.id@ == id@ && self.nodes@.contains(*n),
                None => !self.has_node(id@),
            },
    {
        match self.find_node(id) {
            Some(i) => Some(&self.nodes[i]),
            None => None,
        }
    }

    /// All edges originating from `id`, in insertion order.
    pub fn get_edges_from(&self, id: &FunctionId) -> (r: Vec<&GraphEdge>)
        ensures
            derefs(r@) == self.edges_from(id@),
    {
        let mut r: Vec<&GraphEdge> = Vec::new();
        let mut i: usize = 0;
        while i < self.edges.len()
            invariant
                i <= self.edges@.len(),
                derefs(r@) == self.edges@.subrange(0, i as int).filter(leaves(id@)),
            decreases self.edges@.len() - i,
        {
            proof {
                assert(self.edges@.subrange(0, i + 1).drop_last() =~= self.edges@.subrange(0, i as int));
            }
            let ghost before = derefs(r@);
            let ghost next = self.edges@.subrange(0, i + 1);
            if self.edges[i].from.same(id) {
                r.push(&self.edges[i]);
                proof {
                    assert(derefs(r@) =~= before.push(self.edges@[i as int]));
                }
            }
            proof {
                assert(next.last() == self.edges@[i as int]);
                assert(next.drop_last() =~= self.edges@.subrange(0, i as int));
                reveal(Seq::filter);
                assert(next.filter(leaves(id@)) == if leaves(id@)(next.last()) {
                    next.drop_last().filter(leaves(id@)).push(next.last())
                } else {
                    next.drop_last().filter(leaves(id@))
                });
            }
            i = i + 1;
        }
        assert(self.edges@.subrange(0, i as int) =~= self.edges@);
        r
    }

    /// All edges pointing to `id`, in insertion order.
    pub fn get_edges_to(&self, id: &FunctionId) -> (r: Vec<&GraphEdge>)
        ensures
            derefs(r@) == self.edges_to(id@),
    {
        let mut r: Vec<&GraphEdge> = Vec::new();
        let mut i: usize = 0;
        while i < self.edges.len()
            invariant
                i <= self.edges@.len(),
                derefs(r@) == self.edges@.subrange(0, i as int).filter(enters(id@)),
            decreases self.edges@.len() - i,
        {
            proof {
                assert(self.edges@.subrange(0, i + 1).drop_last() =~= self.edges@.subrange(0, i as int));
            }
            let ghost before = derefs(r@);
            let ghost next = self.edges@.subrange(0, i + 1);
            if self.edges[i].to.same(id) {
                r.push(&self.edges[i]);
                proof {
                    assert(derefs(r@) =~= before.push(self.edges@[i as int]));
                }
            }
            proof {
                assert(next.last() == self.edges@[i as int]);
                assert(next.drop_last() =~= self.edges@.subrange(0, i as int));
                reveal(Seq::filter);
                assert(next.filter(enters(id@)) == if enters(id@)(next.last()) {
                    next.drop_last().filter(enters(id@)).push(next.last())
                } else {
                    next.drop_last().filter(enters(id@))
                });
            }
            i = i + 1;
        }
        assert(self.edges@.subrange(0, i as int) =~= self.edges@);
        r
    }

    pub fn node_count(&self) -> (r: usize)
        ensures
            r == self.nodes@.len(),
    {
        self.nodes.len()
    }

    pub fn edge_count(&self) -> (r: usize)
        ensures
            r == self.edges@.len(),
    {
        self.edges.len()
    }
}

impl Default for CallGraph {
    fn default() -> (r: Self)
        ensures
            r.wf(),
            r.nodes@.len() == 0,
            r.edges@.len() == 0,
    {
        Self::new()
    }
}

} // verus!
