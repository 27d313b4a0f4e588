use vstd::prelude::*;

use crate::function_id::FunctionId;
use crate::graph::{CallGraph, GraphEdge, GraphNode, derefs, has_id};
use crate::traversal::{TraversalResult, dfs_traversal, ids, reaches};

verus! {

broadcast use vstd::seq_lib::lemma_seq_contains_after_push;

/// The first node with id `x` exists and is external.
pub open spec fn target_is_external(g: CallGraph, x: Seq<char>) -> bool {
    exists|i: int|
        0 <= i < g.nodes@.len() && #[trigger] g.nodes@[i].id@ == x && g.nodes@[i].is_external
            && forall|j: int| 0 <= j < i ==> g.nodes@[j].id@ != x
}

/// Holds of the edges whose target node is external.
pub open spec fn to_external(g: CallGraph) -> spec_fn(GraphEdge) -> bool {
    |e: GraphEdge| target_is_external(g, e.to@)
}

/// Query interface for call graph analysis.
pub trait GraphQuery {
    /// All functions reachable from `id`, `id` included; fails if `id` is unknown.
    fn reachable_from(&self, id: &FunctionId) -> Result<Vec<FunctionId>, String>;

    /// The distinct functions that call `id` directly.
    fn direct_callers(&self, id: &FunctionId) -> Vec<FunctionId>;

    /// The distinct functions that `id` calls directly.
    fn direct_callees(&self, id: &FunctionId) -> Vec<FunctionId>;

    /// The node with identifier `id`, if any.
    fn get_function(&self, id: &FunctionId) -> Option<&GraphNode>;

    /// The edges whose target is an external node.
    fn external_calls(&self) -> Vec<&GraphEdge>;
}

impl GraphQuery for CallGraph {
    fn reachable_from(&self, id: &FunctionId) -> (r: Result<Vec<FunctionId>, String>)
        ensures
            r.is_err() == !self.has_node(id@),
            r matches Err(e) ==> e@ == "Function not found: "@ + id@,
            r matches Ok(v) ==> ids(v@).no_duplicates() && ids(v@).contains(id@) && forall|t: Seq<char>|
                ids(v@).contains(t) <==> reaches(*self, id@, t),
    {
        if !self.contains_node(id) {
            let mut msg = String::from_str("Function not found: ");
            msg.append(id.as_str());
            return Err(msg);
        }
        let result = dfs_traversal(self, id);
        assert(ids(result.reachable@) == result@);
        proof {
            crate::traversal::lemma_reaches_self(*self, id@);
        }
        Ok(result.reachable)
    }

    fn direct_callers(&self, id: &FunctionId) -> (r: Vec<FunctionId>)
        ensures
            ids(r@).no_duplicates(),
            forall|t: Seq<char>| ids(r@).contains(t) <==> self.has_edge(t, id@),
    {
        let mut r: Vec<FunctionId> = Vec::new();
        let mut k: usize = 0;
        while k < self.edges.len()
            invariant
                k <= self.edges@.len(),
                ids(r@).no_duplicates(),
                forall|t: Seq<char>|
                    ids(r@).contains(t) <==> exists|j: int|
                        0 <= j < k && #[trigger] self.edges@[j].from@ == t && self.edges@[j].to@
                            == id@,
            decreases self.edges@.len() - k,
        {
            let e = &self.edges[k];
            if e.to.same(id) && !contains_id(&r, &e.from) {
                let ghost before = ids(r@);
                r.push(e.from.clone());
                assert(ids(r@) =~= before.push(e.from@));
            }
            k = k + 1;
        }
        r
    }

    fn direct_callees(&self, id: &FunctionId) -> (r: Vec<FunctionId>)
        ensures
            ids(r@).no_duplicates(),
            forall|t: Seq<char>| ids(r@).contains(t) <==> self.has_edge(id@, t),
    {
        let mut r: Vec<FunctionId> = Vec::new();
        let mut k: usize = 0;
        while k < self.edges.len()
            invariant
                k <= self.edges@.len(),
                ids(r@).no_duplicates(),
                forall|t: Seq<char>|
                    ids(r@).contains(t) <==> exists|j: int|
                        0 <= j < k && #[trigger] self.edges@[j].from@ == id@ && self.edges@[j].to@
                            == t,
            decreases self.edges@.len() - k,
        {
            let e = &self.edges[k];
            if e.from.same(id) && !contains_id(&r, &e.to) {
                let ghost before = ids(r@);
                r.push(e.to.clone());
                assert(ids(r@) =~= before.push(e.to@));
            }
            k = k + 1;
        }
        r
    }

    fn get_function(&self, id: &FunctionId) -> (r: Option<&GraphNode>)
        ensures
            match r {
                Some(n) => n.id@ == id@ && self.nodes@.contains(*n),
                None => !self.has_node(id@),
            },
    {
        self.get_node(id)
    }

    fn external_calls(&self) -> (r: Vec<&GraphEdge>)
        ensures
            derefs(r@) == self.edges@.filter(to_external(*self)),
    {
        let mut r: Vec<&GraphEdge> = Vec::new();
        let mut i: usize = 0;
        while i < self.edges.len()
            invariant
                i <= self.edges@.len(),
                derefs(r@) == self.edges@.subrange(0, i as int).filter(to_external(*self)),
            decreases self.edges@.len() - i,
        {
            let ghost before = derefs(r@);
            let ghost next = self.edges@.subrange(0, i + 1);
            if self.target_external(&self.edges[i].to) {
                r.push(&self.edges[i]);
                proof {
                    assert(derefs(r@) =~= before.push(self.edges@[i as int]));
                }
            }
            proof {
                assert(next.last() == self.edges@[i as int]);
                assert(next.drop_last() =~= self.edges@.subrange(0, i as int));
                reveal(Seq::filter);
                assert(next.filter(to_external(*self)) == if to_external(*self)(next.last()) {
                    next.drop_last().filter(to_external(*self)).push(next.last())
                } else {
                    next.drop_last().filter(to_external(*self))
                });
            }
            i = i + 1;
        }
        assert(self.edges@.subrange(0, i as int) =~= self.edges@);
        r
    }
}

impl CallGraph {
    /// Whether the first node with id `x` is external.
    pub fn target_external(&self, x: &FunctionId) -> (r: bool)
        ensures
            r == target_is_external(*self, x@),
    {
        match self.find_node(x) {
            Some(i) => {
                proof {
                    if target_is_external(*self, x@) {
                        let k = choose|k: int|
                            0 <= k < self.nodes@.len() && #[trigger] self.nodes@[k].id@ == x@
                                && self.nodes@[k].is_external && forall|j: int|
                                0 <= j < k ==> self.nodes@[j].id@ != x@;
                        assert(k == i);
                    }
                }
                self.nodes[i].is_external
            },
            None => false,
        }
    }
}

/// A node as plain values: id, external flag, definition.
pub open spec fn node_view(n: GraphNode) -> (Seq<char>, bool, crate::ast::DefView) {
    (n.id@, n.is_external, n.metadata@)
}

/// The views of the nodes of `ns` whose id is in `keep`, in order.
pub open spec fn kept_nodes(ns: Seq<GraphNode>, keep: Seq<Seq<char>>) -> Seq<(Seq<char>, bool, crate::ast::DefView)>
    decreases ns.len(),
{
    if ns.len() == 0 {
        Seq::empty()
    } else {
        kept_nodes(ns.drop_last(), keep) + if keep.contains(ns.last().id@) {
            seq![node_view(ns.last())]
        } else {
            Seq::empty()
        }
    }
}

/// The views of the edges of `es` with both ends in `keep`, in order.
pub open spec fn kept_edges(es: Seq<GraphEdge>, keep: Seq<Seq<char>>) -> Seq<(Seq<char>, Seq<char>, usize)>
    decreases es.len(),
{
    if es.len() == 0 {
        Seq::empty()
    } else {
        kept_edges(es.drop_last(), keep) + if keep.contains(es.last().from@) && keep.contains(es.last().to@) {
            seq![(es.last().from@, es.last().to@, es.last().line)]
        } else {
            Seq::empty()
        }
    }
}

/// Node id `x` is kept and equals the id of a node of `g` before position `i`.
pub open spec fn kept_before(g: CallGraph, keep: Seq<Seq<char>>, x: Seq<char>, i: int) -> bool {
    keep.contains(x) && exists|b: int| 0 <= b < i && g.nodes@[b].id@ == x
}

/// Edge `e` has both ends kept and in `g`.
pub open spec fn edge_kept(g: CallGraph, keep: Seq<Seq<char>>, e: GraphEdge) -> bool {
    keep.contains(e.from@) && keep.contains(e.to@) && g.has_node(e.from@) && g.has_node(e.to@)
}

/// The part of `graph` on the ids of `reached`: its nodes with those ids
/// and the edges between them, each in the graph's order.
pub fn reachable_subgraph(graph: &CallGraph, reached: &TraversalResult) -> (r: CallGraph)
    requires
        graph.wf(),
    ensures
        r.wf(),
        r.nodes@.map_values(|n: GraphNode| node_view(n)) == kept_nodes(graph.nodes@, reached@),
        r.edges@.map_values(|e: GraphEdge| (e.from@, e.to@, e.line)) == kept_edges(graph.edges@, reached@),
{
    let mut nodes: Vec<GraphNode> = Vec::new();
    let mut i: usize = 0;
    while i < graph.nodes.len()
        invariant
            graph.wf(),
            i <= graph.nodes@.len(),
            nodes@.map_values(|n: GraphNode| node_view(n)) == kept_nodes(graph.nodes@.subrange(0, i as int), reached@),
            forall|a: int| 0 <= a < nodes@.len() ==> kept_before(*graph, reached@, #[trigger] nodes@[a].id@, i as int),
            crate::graph::distinct_ids(nodes@),
        decreases graph.nodes@.len() - i,
    {
        let ghost before = nodes@.map_values(|n: GraphNode| node_view(n));
        let ghost bn = nodes@;
        proof {
            let sub = graph.nodes@.subrange(0, i + 1);
            assert(sub.drop_last() =~= graph.nodes@.subrange(0, i as int));
            assert(sub.last() == graph.nodes@[i as int]);
        }
        let n = &graph.nodes[i];
        if reached.contains(&n.id) {
            nodes.push(GraphNode::new(n.id.clone(), n.metadata.duplicate(), n.is_external));
            proof {
                assert(nodes@.map_values(|n: GraphNode| node_view(n)) =~= before.push(node_view(graph.nodes@[i as int])));
                assert forall|a: int| 0 <= a < nodes@.len() implies kept_before(*graph, reached@, #[trigger] nodes@[a].id@, i + 1) by {
                    if a < bn.len() {
                        assert(nodes@[a] == bn[a]);
                        assert(kept_before(*graph, reached@, bn[a].id@, i as int));
                        let b = choose|b: int| 0 <= b < i && graph.nodes@[b].id@ == bn[a].id@ && reached@.contains(bn[a].id@);
                        assert(0 <= b < i + 1 && graph.nodes@[b].id@ == bn[a].id@);
                    } else {
                        assert(nodes@[a].id@ == graph.nodes@[i as int].id@);
                    }
                }
                assert forall|a: int, b: int| 0 <= a < nodes@.len() && 0 <= b < nodes@.len() && a != b implies nodes@[a].id@ != nodes@[b].id@ by {
                    if a < bn.len() && b < bn.len() {
                        assert(nodes@[a] == bn[a]);
                        assert(nodes@[b] == bn[b]);
                    } else if a < bn.len() {
                        assert(nodes@[a] == bn[a]);
                        assert(kept_before(*graph, reached@, bn[a].id@, i as int));
                        let x = choose|x: int| 0 <= x < i && graph.nodes@[x].id@ == bn[a].id@ && reached@.contains(bn[a].id@);
                        assert(nodes@[b].id@ == graph.nodes@[i as int].id@);
                    } else {
                        assert(nodes@[b] == bn[b]);
                        assert(kept_before(*graph, reached@, bn[b].id@, i as int));
                        let x = choose|x: int| 0 <= x < i && graph.nodes@[x].id@ == bn[b].id@ && reached@.contains(bn[b].id@);
                        assert(nodes@[a].id@ == graph.nodes@[i as int].id@);
                    }
                }
            }
        } else {
            proof {
                assert(nodes@.map_values(|n: GraphNode| node_view(n)) =~= before);
                assert forall|a: int| 0 <= a < nodes@.len() implies kept_before(*graph, reached@, #[trigger] nodes@[a].id@, i + 1) by {
                    assert(kept_before(*graph, reached@, nodes@[a].id@, i as int));
                    let b = choose|b: int| 0 <= b < i && graph.nodes@[b].id@ == nodes@[a].id@ && reached@.contains(nodes@[a].id@);
                    assert(0 <= b < i + 1);
                }
            }
        }
        i = i + 1;
    }
    assert(graph.nodes@.subrange(0, i as int) =~= graph.nodes@);
    let mut edges: Vec<GraphEdge> = Vec::new();
    let mut k: usize = 0;
    while k < graph.edges.len()
        invariant
            graph.wf(),
            k <= graph.edges@.len(),
            edges@.map_values(|e: GraphEdge| (e.from@, e.to@, e.line)) == kept_edges(graph.edges@.subrange(0, k as int), reached@),
            forall|j: int| 0 <= j < edges@.len() ==> edge_kept(*graph, reached@, #[trigger] edges@[j]),
        decreases graph.edges@.len() - k,
    {
        let ghost before = edges@.map_values(|e: GraphEdge| (e.from@, e.to@, e.line));
        let ghost be = edges@;
        proof {
            let sub = graph.edges@.subrange(0, k + 1);
            assert(sub.drop_last() =~= graph.edges@.subrange(0, k as int));
            assert(sub.last() == graph.edges@[k as int]);
        }
        let e = &graph.edges[k];
        if reached.contains(&e.from) && reached.contains(&e.to) {
            edges.push(e.duplicate());
            proof {
                assert(edges@.map_values(|e: GraphEdge| (e.from@, e.to@, e.line)) =~= before.push((graph.edges@[k as int].from@, graph.edges@[k as int].to@, graph.edges@[k as int].line)));
                assert forall|j: int| 0 <= j < edges@.len() implies edge_kept(*graph, reached@, #[trigger] edges@[j]) by {
                    if j < be.len() {
                        assert(edges@[j] == be[j]);
                    } else {
                        assert(edges@[j].from@ == graph.edges@[k as int].from@);
                        assert(edges@[j].to@ == graph.edges@[k as int].to@);
                        assert(graph.has_node(graph.edges@[k as int].from@));
                    }
                }
            }
        } else {
            proof {
                assert(edges@.map_values(|e: GraphEdge| (e.from@, e.to@, e.line)) =~= before);
            }
        }
        k = k + 1;
    }
    assert(graph.edges@.subrange(0, k as int) =~= graph.edges@);
    let r = CallGraph { nodes, edges };
    proof {
        assert forall|j: int| 0 <= j < r.edges@.len() implies r.has_node(#[trigger] r.edges@[j].from@) && r.has_node(r.edges@[j].to@) by {
            assert(edge_kept(*graph, reached@, r.edges@[j]));
            lemma_kept_node(graph, reached@, r.nodes@, r.edges@[j].from@);
            lemma_kept_node(graph, reached@, r.nodes@, r.edges@[j].to@);
        }
    }
    r
}

proof fn lemma_kept_node(graph: &CallGraph, keep: Seq<Seq<char>>, ns: Seq<GraphNode>, x: Seq<char>)
    requires
        ns.map_values(|n: GraphNode| node_view(n)) == kept_nodes(graph.nodes@, keep),
        keep.contains(x),
        graph.has_node(x),
    ensures
        has_id(ns, x),
{
    let b = choose|b: int| 0 <= b < graph.nodes@.len() && #[trigger] graph.nodes@[b].id@ == x;
    lemma_kept_contains(graph.nodes@, keep, b);
    let v = node_view(graph.nodes@[b]);
    let a = choose|a: int| 0 <= a < kept_nodes(graph.nodes@, keep).len() && kept_nodes(graph.nodes@, keep)[a] == v;
    assert(ns.map_values(|n: GraphNode| node_view(n))[a] == v);
    assert(ns[a].id@ == x);
}

proof fn lemma_kept_contains(ns: Seq<GraphNode>, keep: Seq<Seq<char>>, b: int)
    requires
        0 <= b < ns.len(),
        keep.contains(ns[b].id@),
    ensures
        kept_nodes(ns, keep).contains(node_view(ns[b])),
    decreases ns.len(),
{
    let pre = kept_nodes(ns.drop_last(), keep);
    if b == ns.len() - 1 {
        assert(kept_nodes(ns, keep)[pre.len() as int] == node_view(ns[b]));
    } else {
        lemma_kept_contains(ns.drop_last(), keep, b);
        assert(ns.drop_last()[b] == ns[b]);
        let a = choose|a: int| 0 <= a < pre.len() && pre[a] == node_view(ns[b]);
        assert(kept_nodes(ns, keep)[a] == node_view(ns[b]));
    }
}

/// Whether `id` occurs in `v`.
pub(crate) fn contains_id(v: &Vec<FunctionId>, id: &FunctionId) -> (r: bool)
    ensures
        r == ids(v@).contains(id@),
{
    let mut i: usize = 0;
    while i < v.len()
        invariant
            i <= v@.len(),
            forall|j: int| 0 <= j < i ==> v@[j]@ != id@,
        decreases v@.len() - i,
    {
        if v[i].same(id) {
            assert(ids(v@)[i as int] == id@);
            return true;
        }
        i = i + 1;
    }
    proof {
        if ids(v@).contains(id@) {
            let j = choose|j: int| 0 <= j < ids(v@).len() && ids(v@)[j] == id@;
            assert(v@[j]@ == id@);
        }
    }
    false
}

} // verus!
