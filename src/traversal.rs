use vstd::prelude::*;

use crate::function_id::FunctionId;
use crate::graph::{CallGraph, GraphEdge};

verus! {

broadcast use vstd::seq_lib::lemma_seq_contains_after_push;

/// The texts of a sequence of identifiers.
pub open spec fn ids(s: Seq<FunctionId>) -> Seq<Seq<char>> {
    s.map_values(|f: FunctionId| f@)
}

/// The texts of a sequence of strings.
pub open spec fn texts(s: Seq<String>) -> Seq<Seq<char>> {
    s.map_values(|x: String| x@)
}

/// `p` is a walk along edges of `g`: one or more ids, each joined to the
/// next by an edge.
pub open spec fn is_path(g: CallGraph, p: Seq<Seq<char>>) -> bool {
    &&& p.len() >= 1
    &&& forall|i: int| 0 <= i < p.len() - 1 ==> #[trigger] g.has_edge(p[i], p[i + 1])
}

/// `t` can be reached from `s` by following zero or more edges.
pub open spec fn reaches(g: CallGraph, s: Seq<char>, t: Seq<char>) -> bool {
    exists|p: Seq<Seq<char>>| is_path(g, p) && p[0] == s && p.last() == t
}

/// `b`'s ids appended to `a`, skipping those already present, first-seen order kept.
pub open spec fn merged(a: Seq<Seq<char>>, b: Seq<Seq<char>>) -> Seq<Seq<char>>
    decreases b.len(),
{
    if b.len() == 0 {
        a
    } else {
        let m = merged(a, b.drop_last());
        if m.contains(b.last()) {
            m
        } else {
            m.push(b.last())
        }
    }
}

/// Result of a graph traversal.
#[derive(Debug, Clone)]
pub struct TraversalResult {
    /// The ids reached; each once.
    pub reachable: Vec<FunctionId>,
    /// The ids reached, in the order of their first visit.
    pub visited_order: Vec<FunctionId>,
}

impl View for TraversalResult {
    type V = Seq<Seq<char>>;

    open spec fn view(&self) -> Seq<Seq<char>> {
        ids(self.visited_order@)
    }
}

impl TraversalResult {
    /// Both fields list the same ids, with no repetition.
    pub open spec fn wf(&self) -> bool {
        &&& ids(self.reachable@) == ids(self.visited_order@)
        &&& ids(self.visited_order@).no_duplicates()
    }

    pub fn new() -> (r: Self)
        ensures
            r.wf(),
            r@.len() == 0,
    {
        let r = TraversalResult { reachable: Vec::new(), visited_order: Vec::new() };
        assert(ids(r.visited_order@) =~= Seq::<Seq<char>>::empty());
        assert(ids(r.reachable@) =~= Seq::<Seq<char>>::empty());
        r
    }

    /// Whether `id` has been reached.
    pub fn contains(&self, id: &FunctionId) -> (r: bool)
        ensures
            r == self@.contains(id@),
    {
        let mut i: usize = 0;
        while i < self.visited_order.len()
            invariant
                i <= self.visited_order@.len(),
                forall|j: int| 0 <= j < i ==> self.visited_order@[j]@ != id@,
            decreases self.visited_order@.len() - i,
        {
            if self.visited_order[i].same(id) {
                assert(self@[i as int] == id@);
                return true;
            }
            i = i + 1;
        }
        proof {
            if self@.contains(id@) {
                let j = choose|j: int| 0 <= j < self@.len() && self@[j] == id@;
                assert(self.visited_order@[j]@ == id@);
            }
        }
        false
    }

    /// Record `id` as reached, unless it already is.
    pub fn add_node(&mut self, id: FunctionId)
        requires
            old(self).wf(),
        ensures
            final(self).wf(),
            final(self)@ == if old(self)@.contains(id@) {
                old(self)@
            } else {
                old(self)@.push(id@)
            },
    {
        if !self.contains(&id) {
            let ghost before = self@;
            let ghost before_r = ids(self.reachable@);
            self.reachable.push(id.clone());
            self.visited_order.push(id);
            proof {
                assert(self@ =~= before.push(id@));
                assert(ids(self.reachable@) =~= before_r.push(id@));
                assert forall|i: int, j: int|
                    0 <= i < self@.len() && 0 <= j < self@.len() && i != j implies self@[i]
                    != self@[j] by {
                    if i == before.len() as int {
                        assert(before.contains(self@[j]));
                    } else if j == before.len() as int {
                        assert(before.contains(self@[i]));
                    }
                }
            }
        }
    }

    /// Extend with the ids of `other` not yet present, in `other`'s order.
    pub fn merge(&mut self, other: TraversalResult)
        requires
            old(self).wf(),
        ensures
            final(self).wf(),
            final(self)@ == merged(old(self)@, other@),
    {
        let ghost start = self@;
        let mut i: usize = 0;
        while i < other.visited_order.len()
            invariant
                self.wf(),
                i <= other.visited_order@.len(),
                self@ == merged(start, other@.subrange(0, i as int)),
            decreases other.visited_order@.len() - i,
        {
            proof {
                let next = other@.subrange(0, i + 1);
                assert(next.drop_last() =~= other@.subrange(0, i as int));
                assert(next.last() == other.visited_order@[i as int]@);
            }
            self.add_node(other.visited_order[i].clone());
            i = i + 1;
        }
        assert(other@.subrange(0, i as int) =~= other@);
    }
}

impl Default for TraversalResult {
    fn default() -> (r: Self)
        ensures
            r.wf(),
            r@.len() == 0,
    {
        Self::new()
    }
}

/// A distinct sequence whose elements all occur in `u` is no longer than `u`.
proof fn lemma_distinct_within(a: Seq<Seq<char>>, u: Seq<Seq<char>>)
    requires
        a.no_duplicates(),
        forall|x: Seq<char>| a.contains(x) ==> u.contains(x),
    ensures
        a.len() <= u.len(),
{
    a.unique_seq_to_set();
    u.lemma_cardinality_of_set();
    assert(a.to_set().subset_of(u.to_set()));
    vstd::set_lib::lemma_len_subset(a.to_set(), u.to_set());
}

/// Every id reaches itself.
pub proof fn lemma_reaches_self(g: CallGraph, s: Seq<char>)
    ensures
        reaches(g, s, s),
{
    let p = seq![s];
    assert(is_path(g, p));
    assert(p[0] == s && p.last() == s);
}

/// Following one more edge from a reached id reaches its target.
pub(crate) proof fn lemma_reaches_step(g: CallGraph, s: Seq<char>, x: Seq<char>, k: int)
    requires
        reaches(g, s, x),
        0 <= k < g.edges@.len(),
        g.edges@[k].from@ == x,
    ensures
        reaches(g, s, g.edges@[k].to@),
{
    let p = choose|p: Seq<Seq<char>>| is_path(g, p) && p[0] == s && p.last() == x;
    let q = p.push(g.edges@[k].to@);
    assert forall|i: int| 0 <= i < q.len() - 1 implies #[trigger] g.has_edge(q[i], q[i + 1]) by {
        if i < p.len() - 1 {
            assert(g.has_edge(p[i], p[i + 1]));
        } else {
            assert(g.edges@[k].from@ == q[i] && g.edges@[k].to@ == q[i + 1]);
        }
    }
    assert(is_path(g, q));
    assert(q[0] == s && q.last() == g.edges@[k].to@);
}

/// Every id on a walk from a member of a set closed under edges is in it.
proof fn lemma_path_within(g: CallGraph, p: Seq<Seq<char>>, v: Seq<Seq<char>>, i: int)
    requires
        is_path(g, p),
        v.contains(p[0]),
        forall|k: int|
            0 <= k < g.edges@.len() && v.contains(#[trigger] g.edges@[k].from@) ==> v.contains(
                g.edges@[k].to@,
            ),
        0 <= i < p.len(),
    ensures
        v.contains(p[i]),
    decreases i,
{
    if i > 0 {
        let h = i - 1;
        lemma_path_within(g, p, v, h);
        assert(g.has_edge(p[h], p[h + 1]));
        let k = choose|k: int|
            0 <= k < g.edges@.len() && #[trigger] g.edges@[k].from@ == p[h]
                && g.edges@[k].to@ == p[h + 1];
        assert(v.contains(g.edges@[k].from@));
    }
}

/// A set that holds `s` and is closed under edges holds all that `s` reaches.
pub(crate) proof fn lemma_closed_holds_reachable(g: CallGraph, s: Seq<char>, v: Seq<Seq<char>>, t: Seq<char>)
    requires
        v.contains(s),
        forall|k: int|
            0 <= k < g.edges@.len() && v.contains(#[trigger] g.edges@[k].from@) ==> v.contains(
                g.edges@[k].to@,
            ),
        reaches(g, s, t),
    ensures
        v.contains(t),
{
    let p = choose|p: Seq<Seq<char>>| is_path(g, p) && p[0] == s && p.last() == t;
    lemma_path_within(g, p, v, p.len() - 1);
}

/// The ids that a traversal from `start` may hold: the graph's nodes, the
/// targets of its edges, and `start`.
pub open spec fn in_scope(g: CallGraph, start: Seq<char>, x: Seq<char>) -> bool {
    ||| g.has_node(x)
    ||| x == start
    ||| exists|k: int| 0 <= k < g.edges@.len() && #[trigger] g.edges@[k].to@ == x
}

/// The identifiers of the graph's nodes, the targets of its edges, then `start`.
spec fn scope_seq(g: CallGraph, start: Seq<char>) -> Seq<Seq<char>> {
    g.nodes@.map_values(|n: crate::graph::GraphNode| n.id@) + g.edges@.map_values(
        |e: crate::graph::GraphEdge| e.to@,
    ).push(start)
}

pub(crate) proof fn lemma_scope_bound(g: CallGraph, start: Seq<char>, a: Seq<Seq<char>>)
    requires
        a.no_duplicates(),
        forall|x: Seq<char>| a.contains(x) ==> in_scope(g, start, x),
    ensures
        a.len() <= g.nodes@.len() + g.edges@.len() + 1,
{
    let u = scope_seq(g, start);
    let n = g.nodes@.len() as int;
    assert forall|x: Seq<char>| a.contains(x) implies u.contains(x) by {
        if x == start {
            assert(u[n + g.edges@.len()] == x);
        } else if g.has_node(x) {
            let i = choose|i: int| 0 <= i < g.nodes@.len() && #[trigger] g.nodes@[i].id@ == x;
            assert(u[i] == x);
        } else {
            let k = choose|k: int| 0 <= k < g.edges@.len() && #[trigger] g.edges@[k].to@ == x;
            assert(u[n + k] == x);
        }
    }
    lemma_distinct_within(a, u);
}

/// The targets of the edges of `es` that leave `cur` and end outside `v`,
/// in edge order.
pub open spec fn pushes(es: Seq<GraphEdge>, cur: Seq<char>, v: Seq<Seq<char>>) -> Seq<Seq<char>>
    decreases es.len(),
{
    if es.len() == 0 {
        Seq::empty()
    } else {
        pushes(es.drop_last(), cur, v) + if es.last().from@ == cur && !v.contains(es.last().to@) {
            seq![es.last().to@]
        } else {
            Seq::empty()
        }
    }
}

proof fn lemma_pushes_len(es: Seq<GraphEdge>, cur: Seq<char>, v: Seq<Seq<char>>)
    ensures
        pushes(es, cur, v).len() <= es.len(),
    decreases es.len(),
{
    if es.len() > 0 {
        lemma_pushes_len(es.drop_last(), cur, v);
    }
}

/// A stack-driven depth-first walk, for at most `fuel` steps: pop an id; if
/// unvisited, record it and push the targets of its edges to unvisited ids,
/// in edge order, so that the last edge is followed first.
pub open spec fn dfs_run(g: CallGraph, stack: Seq<Seq<char>>, visited: Seq<Seq<char>>, fuel: nat) -> Seq<Seq<char>>
    decreases fuel,
{
    if fuel == 0 || stack.len() == 0 {
        visited
    } else {
        let cur = stack.last();
        let rest = stack.drop_last();
        if visited.contains(cur) {
            dfs_run(g, rest, visited, (fuel - 1) as nat)
        } else {
            let v2 = visited.push(cur);
            dfs_run(g, rest + pushes(g.edges@, cur, v2), v2, (fuel - 1) as nat)
        }
    }
}

/// Steps enough for a depth-first walk of `g` to empty its stack.
pub open spec fn dfs_fuel(g: CallGraph) -> nat {
    (2 + (g.nodes@.len() + g.edges@.len() + 1) * g.edges@.len()) as nat
}

/// The order in which a depth-first walk from `s` first visits ids.
pub open spec fn dfs_order(g: CallGraph, s: Seq<char>) -> Seq<Seq<char>> {
    dfs_run(g, seq![s], Seq::empty(), dfs_fuel(g))
}

/// Depth-first search from a single node; callees are visited last edge first.
pub fn dfs_traversal(graph: &CallGraph, start: &FunctionId) -> (r: TraversalResult)
    ensures
        r.wf(),
        r@.len() > 0 && r@[0] == start@,
        forall|t: Seq<char>| r@.contains(t) <==> reaches(*graph, start@, t),
        r@ == dfs_order(*graph, start@),
{
    let g = Ghost(*graph);
    let mut result = TraversalResult::new();
    let mut stack: Vec<FunctionId> = Vec::new();
    stack.push(start.clone());
    let ghost nn = graph.nodes@.len() + graph.edges@.len() + 1;
    let ghost ee = graph.edges@.len();
    let ghost mut iters: nat = 0;
    proof {
        lemma_reaches_self(*graph, start@);
        assert(ids(stack@) =~= seq![start@]);
        assert(ids(stack@)[0] == start@);
        assert(result@ =~= Seq::<Seq<char>>::empty());
    }
    while stack.len() > 0
        invariant
            result.wf(),
            nn == graph.nodes@.len() + graph.edges@.len() + 1,
            ee == graph.edges@.len(),
            iters + stack@.len() <= 1 + result@.len() * ee,
            dfs_order(*graph, start@) == dfs_run(*graph, ids(stack@), result@, (dfs_fuel(*graph) - iters) as nat),
            iters <= dfs_fuel(*graph),
            forall|x: Seq<char>|
                #[trigger] result@.contains(x) ==> in_scope(*graph, start@, x) && reaches(
                    *graph,
                    start@,
                    x,
                ),
            forall|x: Seq<char>|
                #[trigger] ids(stack@).contains(x) ==> in_scope(*graph, start@, x) && reaches(
                    *graph,
                    start@,
                    x,
                ),
            result@.contains(start@) || ids(stack@).contains(start@),
            result@.len() == 0 ==> ids(stack@) == seq![start@],
            result@.len() > 0 ==> result@[0] == start@,
            forall|k: int|
                0 <= k < graph.edges@.len() && result@.contains(#[trigger] graph.edges@[k].from@)
                    ==> result@.contains(graph.edges@[k].to@) || ids(stack@).contains(
                    graph.edges@[k].to@,
                ),
        decreases graph.nodes@.len() + graph.edges@.len() + 1 - result@.len(), stack@.len(),
    {
        let ghost before_stack = ids(stack@);
        let current = stack.pop().unwrap();
        proof {
            assert(before_stack =~= ids(stack@).push(current@));
            assert forall|x: Seq<char>| #[trigger] ids(stack@).contains(x) implies before_stack.contains(
                x,
            ) by {
                assert(ids(stack@).push(current@).contains(x));
            }
            assert(ids(stack@).push(current@).contains(current@));
            assert(in_scope(*graph, start@, current@) && reaches(*graph, start@, current@));
            lemma_scope_bound(*graph, start@, result@);
            assert(result@.len() * ee <= nn * ee) by (nonlinear_arith)
                requires
                    result@.len() <= nn,
            ;
            assert(before_stack.drop_last() =~= ids(stack@));
            assert(before_stack.last() == current@);
        }
        if result.contains(&current) {
            proof {
                iters = iters + 1;
            }
            continue;
        }
        let ghost before_result = result@;
        result.add_node(current.clone());
        proof {
            assert forall|x: Seq<char>| #[trigger] result@.contains(x) implies in_scope(
                *graph,
                start@,
                x,
            ) && reaches(*graph, start@, x) by {
                assert(before_result.push(current@).contains(x));
            }
            lemma_scope_bound(*graph, start@, result@);
        }
        let ghost rest = ids(stack@);
        proof {
            lemma_pushes_len(graph.edges@, current@, result@);
            assert((result@.len()) * ee == before_result.len() * ee + ee) by (nonlinear_arith)
                requires
                    result@.len() == before_result.len() + 1,
            ;
            assert(graph.edges@.subrange(0, 0) =~= Seq::<GraphEdge>::empty());
            assert(ids(stack@) =~= rest + pushes(graph.edges@.subrange(0, 0), current@, result@));
        }
        let mut k: usize = 0;
        while k < graph.edges.len()
            invariant
                    result.wf(),
                result@ == before_result.push(current@),
                ids(stack@) == rest + pushes(graph.edges@.subrange(0, k as int), current@, result@),
                reaches(*graph, start@, current@),
                k <= graph.edges@.len(),
                forall|x: Seq<char>|
                    #[trigger] result@.contains(x) ==> in_scope(*graph, start@, x) && reaches(
                        *graph,
                        start@,
                        x,
                    ),
                forall|x: Seq<char>|
                    #[trigger] ids(stack@).contains(x) ==> in_scope(*graph, start@, x) && reaches(
                        *graph,
                        start@,
                        x,
                    ),
                result@.contains(start@) || ids(stack@).contains(start@),
                result@.len() > 0 ==> result@[0] == start@,
                forall|j: int|
                    0 <= j < graph.edges@.len() && result@.contains(#[trigger] graph.edges@[j].from@)
                        && graph.edges@[j].from@ != current@ ==> result@.contains(
                        graph.edges@[j].to@,
                    ) || ids(stack@).contains(graph.edges@[j].to@),
                forall|j: int|
                    0 <= j < k && #[trigger] graph.edges@[j].from@ == current@ ==> result@.contains(
                        graph.edges@[j].to@,
                    ) || ids(stack@).contains(graph.edges@[j].to@),
            decreases graph.edges@.len() - k,
        {
            proof {
                let sub = graph.edges@.subrange(0, k + 1);
                assert(sub.drop_last() =~= graph.edges@.subrange(0, k as int));
                assert(sub.last() == graph.edges@[k as int]);
            }
            if graph.edges[k].from.same(&current) && !result.contains(&graph.edges[k].to) {
                let ghost before = ids(stack@);
                stack.push(graph.edges[k].to.clone());
                proof {
                    assert(ids(stack@) =~= before.push(graph.edges@[k as int].to@));
                    lemma_reaches_step(*graph, start@, current@, k as int);
                    assert(in_scope(*graph, start@, graph.edges@[k as int].to@));
                    assert forall|x: Seq<char>| ids(stack@).contains(x) implies in_scope(
                        *graph,
                        start@,
                        x,
                    ) && reaches(*graph, start@, x) by {
                        if x != graph.edges@[k as int].to@ {
                            assert(before.push(graph.edges@[k as int].to@).contains(x));
                            assert(before.contains(x));
                            assert(reaches(*graph, start@, x));
                        } else {
                            assert(reaches(*graph, start@, x));
                            assert(in_scope(*graph, start@, x));
                        }
                    }
                }
            }
            k = k + 1;
        }
        proof {
            assert(graph.edges@.subrange(0, k as int) =~= graph.edges@);
            iters = iters + 1;
        }
    }
    proof {
        assert forall|t: Seq<char>| reaches(*graph, start@, t) implies result@.contains(t) by {
            lemma_closed_holds_reachable(*graph, start@, result@, t);
        }
    }
    result
}

/// A queue-driven breadth-first walk, for at most `fuel` steps: take the
/// first id; if unvisited, record it and append the targets of its edges to
/// unvisited ids, in edge order, so that the first edge is followed first.
pub open spec fn bfs_run(g: CallGraph, queue: Seq<Seq<char>>, visited: Seq<Seq<char>>, fuel: nat) -> Seq<Seq<char>>
    decreases fuel,
{
    if fuel == 0 || queue.len() == 0 {
        visited
    } else {
        let cur = queue[0];
        let rest = queue.drop_first();
        if visited.contains(cur) {
            bfs_run(g, rest, visited, (fuel - 1) as nat)
        } else {
            let v2 = visited.push(cur);
            bfs_run(g, rest + pushes(g.edges@, cur, v2), v2, (fuel - 1) as nat)
        }
    }
}

/// The order in which a breadth-first walk from `s` first visits ids.
pub open spec fn bfs_order(g: CallGraph, s: Seq<char>) -> Seq<Seq<char>> {
    bfs_run(g, seq![s], Seq::empty(), dfs_fuel(g))
}

/// Breadth-first search from a single node; callees are visited first edge first.
pub fn bfs_traversal(graph: &CallGraph, start: &FunctionId) -> (r: TraversalResult)
    ensures
        r.wf(),
        r@.len() > 0 && r@[0] == start@,
        forall|t: Seq<char>| r@.contains(t) <==> reaches(*graph, start@, t),
        r@ == bfs_order(*graph, start@),
{
    let g = Ghost(*graph);
    let mut result = TraversalResult::new();
    let mut queue: Vec<FunctionId> = Vec::new();
    let mut head: usize = 0;
    queue.push(start.clone());
    let ghost nn = graph.nodes@.len() + graph.edges@.len() + 1;
    let ghost ee = graph.edges@.len();
    let ghost mut iters: nat = 0;
    proof {
        lemma_reaches_self(*graph, start@);
        assert(pending(queue@, head as int) =~= seq![start@]);
        assert(pending(queue@, head as int)[0] == start@);
        assert(result@ =~= Seq::<Seq<char>>::empty());
    }
    while head < queue.len()
        invariant
            head <= queue@.len(),
            result.wf(),
            nn == graph.nodes@.len() + graph.edges@.len() + 1,
            ee == graph.edges@.len(),
            iters + (queue@.len() - head) <= 1 + result@.len() * ee,
            bfs_order(*graph, start@) == bfs_run(*graph, pending(queue@, head as int), result@, (dfs_fuel(*graph) - iters) as nat),
            iters <= dfs_fuel(*graph),
            forall|x: Seq<char>|
                #[trigger] result@.contains(x) ==> in_scope(*graph, start@, x) && reaches(
                    *graph,
                    start@,
                    x,
                ),
            forall|x: Seq<char>|
                #[trigger] pending(queue@, head as int).contains(x) ==> in_scope(*graph, start@, x) && reaches(
                    *graph,
                    start@,
                    x,
                ),
            result@.contains(start@) || pending(queue@, head as int).contains(start@),
            result@.len() == 0 ==> pending(queue@, head as int) == seq![start@],
            result@.len() > 0 ==> result@[0] == start@,
            forall|k: int|
                0 <= k < graph.edges@.len() && result@.contains(#[trigger] graph.edges@[k].from@)
                    ==> result@.contains(graph.edges@[k].to@) || pending(queue@, head as int).contains(
                    graph.edges@[k].to@,
                ),
        decreases graph.nodes@.len() + graph.edges@.len() + 1 - result@.len(), queue@.len() - head,
    {
        let ghost before_stack = pending(queue@, head as int);
        let current = queue[head].clone();
        head = head + 1;
        proof {
            assert(before_stack[0] == current@);
            assert(before_stack.contains(current@));
            assert forall|x: Seq<char>| #[trigger] before_stack.contains(x) && x != current@ implies pending(
                queue@,
                head as int,
            ).contains(x) by {
                let j = choose|j: int| 0 <= j < before_stack.len() && before_stack[j] == x;
                assert(j != 0);
                assert(pending(queue@, head as int)[j - 1] == x);
            }
            assert forall|x: Seq<char>| #[trigger] pending(queue@, head as int).contains(x) implies before_stack.contains(
                x,
            ) by {
                let j = choose|j: int| 0 <= j < pending(queue@, head as int).len() && pending(queue@, head as int)[j] == x;
                assert(before_stack[j + 1] == x);
            }
            assert(in_scope(*graph, start@, current@) && reaches(*graph, start@, current@));
            lemma_scope_bound(*graph, start@, result@);
            assert(result@.len() * ee <= nn * ee) by (nonlinear_arith)
                requires
                    result@.len() <= nn,
            ;
            assert(before_stack.drop_first() =~= pending(queue@, head as int));
        }
        if result.contains(&current) {
            proof {
                iters = iters + 1;
            }
            continue;
        }
        let ghost before_result = result@;
        result.add_node(current.clone());
        proof {
            assert forall|x: Seq<char>| #[trigger] result@.contains(x) implies in_scope(
                *graph,
                start@,
                x,
            ) && reaches(*graph, start@, x) by {
                assert(before_result.push(current@).contains(x));
            }
            lemma_scope_bound(*graph, start@, result@);
        }
        let ghost rest = pending(queue@, head as int);
        proof {
            lemma_pushes_len(graph.edges@, current@, result@);
            assert((result@.len()) * ee == before_result.len() * ee + ee) by (nonlinear_arith)
                requires
                    result@.len() == before_result.len() + 1,
            ;
            assert(graph.edges@.subrange(0, 0) =~= Seq::<GraphEdge>::empty());
            assert(pending(queue@, head as int) =~= rest + pushes(graph.edges@.subrange(0, 0), current@, result@));
        }
        let mut k: usize = 0;
        while k < graph.edges.len()
            invariant
                    head <= queue@.len(),
                result.wf(),
                result@ == before_result.push(current@),
                pending(queue@, head as int) == rest + pushes(graph.edges@.subrange(0, k as int), current@, result@),
                reaches(*graph, start@, current@),
                k <= graph.edges@.len(),
                forall|x: Seq<char>|
                    #[trigger] result@.contains(x) ==> in_scope(*graph, start@, x) && reaches(
                        *graph,
                        start@,
                        x,
                    ),
                forall|x: Seq<char>|
                    #[trigger] pending(queue@, head as int).contains(x) ==> in_scope(*graph, start@, x) && reaches(
                        *graph,
                        start@,
                        x,
                    ),
                result@.contains(start@) || pending(queue@, head as int).contains(start@),
                result@.len() > 0 ==> result@[0] == start@,
                forall|j: int|
                    0 <= j < graph.edges@.len() && result@.contains(#[trigger] graph.edges@[j].from@)
                        && graph.edges@[j].from@ != current@ ==> result@.contains(
                        graph.edges@[j].to@,
                    ) || pending(queue@, head as int).contains(graph.edges@[j].to@),
                forall|j: int|
                    0 <= j < k && #[trigger] graph.edges@[j].from@ == current@ ==> result@.contains(
                        graph.edges@[j].to@,
                    ) || pending(queue@, head as int).contains(graph.edges@[j].to@),
            decreases graph.edges@.len() - k,
        {
            proof {
                let sub = graph.edges@.subrange(0, k + 1);
                assert(sub.drop_last() =~= graph.edges@.subrange(0, k as int));
                assert(sub.last() == graph.edges@[k as int]);
            }
            if graph.edges[k].from.same(&current) && !result.contains(&graph.edges[k].to) {
                let ghost before = pending(queue@, head as int);
                let ghost before_ids = ids(queue@);
                queue.push(graph.edges[k].to.clone());
                proof {
                    assert(ids(queue@) =~= before_ids.push(graph.edges@[k as int].to@));
                    assert(pending(queue@, head as int) =~= before.push(graph.edges@[k as int].to@));
                    lemma_reaches_step(*graph, start@, current@, k as int);
                    assert(in_scope(*graph, start@, graph.edges@[k as int].to@));
                    assert forall|x: Seq<char>| pending(queue@, head as int).contains(x) implies in_scope(
                        *graph,
                        start@,
                        x,
                    ) && reaches(*graph, start@, x) by {
                        if x != graph.edges@[k as int].to@ {
                            assert(before.push(graph.edges@[k as int].to@).contains(x));
                            assert(before.contains(x));
                            assert(reaches(*graph, start@, x));
                        } else {
                            assert(reaches(*graph, start@, x));
                            assert(in_scope(*graph, start@, x));
                        }
                    }
                }
            }
            k = k + 1;
        }
        proof {
            assert(graph.edges@.subrange(0, k as int) =~= graph.edges@);
            iters = iters + 1;
        }
    }
    proof {
        assert(pending(queue@, head as int).len() == 0);
        assert forall|t: Seq<char>| reaches(*graph, start@, t) implies result@.contains(t) by {
            lemma_closed_holds_reachable(*graph, start@, result@, t);
        }
    }
    result
}

/// What `merged` holds: the ids of both sides.
pub proof fn lemma_merged_contains(a: Seq<Seq<char>>, b: Seq<Seq<char>>, x: Seq<char>)
    ensures
        merged(a, b).contains(x) <==> a.contains(x) || b.contains(x),
    decreases b.len(),
{
    if b.len() > 0 {
        lemma_merged_contains(a, b.drop_last(), x);
        assert(b =~= b.drop_last().push(b.last()));
    }
}

/// Merging a distinct sequence into itself changes nothing.
pub proof fn lemma_merge_self(a: Seq<Seq<char>>)
    ensures
        merged(a, a) == a,
{
    lemma_merged_prefix_noop(a, a.len() as int);
    assert(a.subrange(0, a.len() as int) =~= a);
}

proof fn lemma_merged_prefix_noop(a: Seq<Seq<char>>, n: int)
    requires
        0 <= n <= a.len(),
    ensures
        merged(a, a.subrange(0, n)) == a,
    decreases n,
{
    if n > 0 {
        lemma_merged_prefix_noop(a, n - 1);
        let b = a.subrange(0, n);
        assert(b.drop_last() =~= a.subrange(0, n - 1));
        assert(a.contains(b.last())) by {
            assert(a[n - 1] == b.last());
        }
    }
}

/// The lists merged one after another into an empty one.
pub open spec fn merged_all(parts: Seq<Seq<Seq<char>>>) -> Seq<Seq<char>>
    decreases parts.len(),
{
    if parts.len() == 0 {
        Seq::empty()
    } else {
        merged(merged_all(parts.drop_last()), parts.last())
    }
}

/// The depth-first visit order from each entry, in entry order.
pub open spec fn entry_orders(g: CallGraph, entries: Seq<FunctionId>) -> Seq<Seq<Seq<char>>> {
    Seq::new(entries.len(), |i: int| dfs_order(g, entries[i]@))
}

/// Depth-first search from each entry in turn, results merged in entry order.
pub fn traversal_from_entries(graph: &CallGraph, entries: &[FunctionId]) -> (r: TraversalResult)
    ensures
        r.wf(),
        r@ == merged_all(entry_orders(*graph, entries@)),
        forall|t: Seq<char>|
            r@.contains(t) <==> exists|i: int|
                0 <= i < entries@.len() && reaches(*graph, #[trigger] entries@[i]@, t),
{
    let mut result = TraversalResult::new();
    let ghost mut parts: Seq<Seq<Seq<char>>> = Seq::empty();
    assert(result@ =~= merged_all(parts));
    let mut i: usize = 0;
    while i < entries.len()
        invariant
            result.wf(),
            i <= entries@.len(),
            parts.len() == i,
            forall|j: int| 0 <= j < i ==> #[trigger] parts[j] == dfs_order(*graph, entries@[j]@),
            result@ == merged_all(parts),
            forall|t: Seq<char>|
                result@.contains(t) <==> exists|j: int|
                    0 <= j < i && reaches(*graph, #[trigger] entries@[j]@, t),
        decreases entries@.len() - i,
    {
        let part = dfs_traversal(graph, &entries[i]);
        let ghost before = result@;
        proof {
            let np = parts.push(part@);
            assert(np.drop_last() =~= parts);
            parts = np;
        }
        result.merge(part);
        proof {
            assert forall|t: Seq<char>|
                result@.contains(t) <==> exists|j: int|
                    0 <= j < i + 1 && reaches(*graph, #[trigger] entries@[j]@, t) by {
                lemma_merged_contains(before, part@, t);
                if reaches(*graph, entries@[i as int]@, t) {
                    assert(part@.contains(t));
                }
            }
        }
        i = i + 1;
    }
    assert(parts =~= entry_orders(*graph, entries@));
    result
}

/// Callback invoked on each node that a traversal reaches.
pub trait Visitor {
    fn visit(&mut self, node_id: &FunctionId);
}

/// Depth-first search that hands each reached id to `visitor`, in visit order.
pub fn dfs_with_visitor<V: Visitor>(graph: &CallGraph, start: &FunctionId, visitor: &mut V) -> (r:
    TraversalResult)
    ensures
        r.wf(),
        r@.len() > 0 && r@[0] == start@,
        forall|t: Seq<char>| r@.contains(t) <==> reaches(*graph, start@, t),
        r@ == dfs_order(*graph, start@),
{
    let result = dfs_traversal(graph, start);
    let mut i: usize = 0;
    while i < result.visited_order.len()
        invariant
            i <= result.visited_order@.len(),
        decreases result.visited_order@.len() - i,
    {
        visitor.visit(&result.visited_order[i]);
        i = i + 1;
    }
    result
}

/// The ids of a queue from position `h` on.
pub open spec fn pending(q: Seq<FunctionId>, h: int) -> Seq<Seq<char>> {
    ids(q).subrange(h, q.len() as int)
}

} // verus!
