use vstd::prelude::*;

use crate::function_id::FunctionId;
use crate::graph::CallGraph;
use crate::query::contains_id;
use crate::text::{lemma_text_lt_irrefl, lemma_text_lt_trans, str_lt, text_lt};
use crate::traversal::{dfs_traversal, ids, in_scope, is_path, lemma_scope_bound, reaches};

verus! {

broadcast use vstd::seq_lib::lemma_seq_contains_after_push;

/// A cycle in the call graph, as the ids along it.
#[derive(Debug, Clone, PartialEq, Eq)]
pub struct Cycle {
    pub nodes: Vec<FunctionId>,
}

impl View for Cycle {
    type V = Seq<Seq<char>>;

    open spec fn view(&self) -> Seq<Seq<char>> {
        ids(self.nodes@)
    }
}

impl Cycle {
    pub fn new(nodes: Vec<FunctionId>) -> (r: Self)
        ensures
            r.nodes@ == nodes@,
    {
        Cycle { nodes }
    }

    pub fn len(&self) -> (r: usize)
        ensures
            r == self.nodes@.len(),
    {
        self.nodes.len()
    }

    pub fn is_empty(&self) -> (r: bool)
        ensures
            r == (self.nodes@.len() == 0),
    {
        self.nodes.len() == 0
    }
}

/// `c` is a simple cycle of `g`: distinct ids, each joined to the next by an
/// edge, and the last joined to the first.
pub open spec fn is_cycle(g: CallGraph, c: Seq<Seq<char>>) -> bool {
    &&& c.len() >= 1
    &&& c.no_duplicates()
    &&& forall|i: int| 0 <= i < c.len() - 1 ==> #[trigger] g.has_edge(c[i], c[i + 1])
    &&& g.has_edge(c.last(), c[0])
}

/// No id of `c` comes before its first in text order: of a cycle's
/// rotations, this one is the least.
pub open spec fn least_first(c: Seq<Seq<char>>) -> bool {
    forall|j: int| 0 <= j < c.len() ==> !text_lt(#[trigger] c[j], c[0])
}

/// The cycles listed are genuine, in canonical rotation, distinct, and in
/// increasing lexicographic order of their id lists.
pub open spec fn cycles_ok(g: CallGraph, cs: Seq<Cycle>) -> bool {
    &&& forall|k: int| 0 <= k < cs.len() ==> is_cycle(g, #[trigger] cs[k]@) && least_first(cs[k]@)
    &&& cs.map_values(|c: Cycle| c@).no_duplicates()
    &&& forall|k: int| 0 <= k < cs.len() - 1 ==> cycle_lt(#[trigger] cs[k]@, cs[k + 1]@)
}

/// Lexicographic order of id lists, ids compared by `text_lt`.
pub open spec fn cycle_lt(a: Seq<Seq<char>>, b: Seq<Seq<char>>) -> bool
    decreases a.len(),
{
    if a.len() == 0 {
        b.len() > 0
    } else if b.len() == 0 {
        false
    } else if a[0] != b[0] {
        text_lt(a[0], b[0])
    } else {
        cycle_lt(a.drop_first(), b.drop_first())
    }
}

/// Two different id lists are ordered one way or the other.
proof fn lemma_cycle_lt_total(a: Seq<Seq<char>>, b: Seq<Seq<char>>)
    requires
        a != b,
    ensures
        cycle_lt(a, b) || cycle_lt(b, a),
    decreases a.len(),
{
    if a.len() > 0 && b.len() > 0 {
        if a[0] == b[0] {
            assert(a =~= seq![a[0]] + a.drop_first());
            assert(b =~= seq![b[0]] + b.drop_first());
            lemma_cycle_lt_total(a.drop_first(), b.drop_first());
        } else {
            crate::text::lemma_text_lt_total(a[0], b[0]);
        }
    } else if a.len() == 0 {
        assert(b.len() > 0) by {
            if b.len() == 0 {
                assert(a =~= b);
            }
        }
    }
}

/// Whether id list `a` comes before `b`.
fn ids_less(a: &Vec<FunctionId>, b: &Vec<FunctionId>) -> (r: bool)
    ensures
        r == cycle_lt(ids(a@), ids(b@)),
{
    let mut i: usize = 0;
    assert(ids(a@).skip(0) =~= ids(a@));
    assert(ids(b@).skip(0) =~= ids(b@));
    while i < a.len() && i < b.len()
        invariant
            i <= a@.len(),
            i <= b@.len(),
            cycle_lt(ids(a@), ids(b@)) == cycle_lt(ids(a@).skip(i as int), ids(b@).skip(i as int)),
        decreases a@.len() - i,
    {
        let ghost sa = ids(a@).skip(i as int);
        let ghost sb = ids(b@).skip(i as int);
        assert(sa[0] == a@[i as int]@);
        assert(sb[0] == b@[i as int]@);
        if !a[i].same(&b[i]) {
            return str_lt(a[i].as_str(), b[i].as_str());
        }
        assert(sa.drop_first() =~= ids(a@).skip(i + 1));
        assert(sb.drop_first() =~= ids(b@).skip(i + 1));
        i = i + 1;
    }
    a.len() - i == 0 && b.len() - i > 0
}

/// Every edge leaving an id of `done` ends at an id of `vis`.
pub open spec fn closed_upto(g: CallGraph, done: Seq<Seq<char>>, vis: Seq<Seq<char>>) -> bool {
    forall|j: int, k: int|
        0 <= j < done.len() && 0 <= k < g.edges@.len() && #[trigger] g.edges@[k].from@ == #[trigger] done[j]
            ==> vis.contains(g.edges@[k].to@)
}

/// Some id of `done` other than `s` has an edge to `s`.
pub open spec fn returns_to(g: CallGraph, done: Seq<Seq<char>>, s: Seq<char>) -> bool {
    exists|j: int, k: int|
        0 <= j < done.len() && 0 <= k < g.edges@.len() && #[trigger] g.edges@[k].from@ == #[trigger] done[j]
            && g.edges@[k].to@ == s && done[j] != s
}

/// `s` lies on a closed walk: something it reaches has an edge back to it.
pub open spec fn on_cycle(g: CallGraph, s: Seq<char>) -> bool {
    exists|x: Seq<char>| reaches(g, s, x) && #[trigger] g.has_edge(x, s)
}

/// A simple walk from `s` to `v`.
pub open spec fn simple_path(g: CallGraph, s: Seq<char>, v: Seq<char>, p: Seq<Seq<char>>) -> bool {
    is_path(g, p) && p[0] == s && p.last() == v && p.no_duplicates()
}

fn copy_ids(v: &Vec<FunctionId>) -> (r: Vec<FunctionId>)
    ensures
        ids(r@) == ids(v@),
{
    let mut r: Vec<FunctionId> = Vec::new();
    let mut i: usize = 0;
    while i < v.len()
        invariant
            i <= v@.len(),
            ids(r@) == ids(v@).subrange(0, i as int),
        decreases v@.len() - i,
    {
        let ghost before = ids(r@);
        r.push(v[i].clone());
        assert(ids(r@) =~= before.push(v@[i as int]@));
        assert(ids(r@) =~= ids(v@).subrange(0, i + 1));
        i = i + 1;
    }
    assert(ids(v@).subrange(0, i as int) =~= ids(v@));
    r
}

fn same_ids(a: &Vec<FunctionId>, b: &Vec<FunctionId>) -> (r: bool)
    ensures
        r == (ids(a@) == ids(b@)),
{
    if a.len() != b.len() {
        assert(ids(a@).len() != ids(b@).len());
        return false;
    }
    let mut i: usize = 0;
    while i < a.len()
        invariant
            a@.len() == b@.len(),
            i <= a@.len(),
            forall|j: int| 0 <= j < i ==> a@[j]@ == b@[j]@,
        decreases a@.len() - i,
    {
        if !a[i].same(&b[i]) {
            assert(ids(a@)[i as int] != ids(b@)[i as int]);
            return false;
        }
        i = i + 1;
    }
    assert(ids(a@) =~= ids(b@));
    true
}

/// The rotation of cycle `p` that starts at its least id.
fn rotate_least(Ghost(g): Ghost<CallGraph>, p: &Vec<FunctionId>) -> (r: Vec<FunctionId>)
    requires
        is_cycle(g, ids(p@)),
    ensures
        is_cycle(g, ids(r@)),
        least_first(ids(r@)),
{
    let ghost c = ids(p@);
    let n = p.len();
    let mut m: usize = 0;
    let mut i: usize = 1;
    proof {
        lemma_text_lt_irrefl(c[0]);
    }
    while i < n
        invariant
            n == p@.len(),
            c == ids(p@),
            1 <= i <= n,
            m < i,
            forall|j: int| 0 <= j < i ==> !text_lt(#[trigger] c[j], c[m as int]),
        decreases n - i,
    {
        if str_lt(p[i].as_str(), p[m].as_str()) {
            proof {
                assert forall|j: int| 0 <= j < i + 1 implies !text_lt(#[trigger] c[j], c[i as int]) by {
                    if j == i {
                        lemma_text_lt_irrefl(c[i as int]);
                    } else if text_lt(c[j], c[i as int]) {
                        lemma_text_lt_trans(c[j], c[i as int], c[m as int]);
                    }
                }
            }
            m = i;
        }
        i = i + 1;
    }
    let mut r: Vec<FunctionId> = Vec::new();
    let mut k: usize = m;
    while k < n
        invariant
            n == p@.len(),
            c == ids(p@),
            m <= k <= n,
            ids(r@) == c.subrange(m as int, k as int),
        decreases n - k,
    {
        let ghost before = ids(r@);
        r.push(p[k].clone());
        assert(ids(r@) =~= before.push(c[k as int]));
        assert(ids(r@) =~= c.subrange(m as int, k + 1));
        k = k + 1;
    }
    let mut k: usize = 0;
    while k < m
        invariant
            n == p@.len(),
            c == ids(p@),
            m < n,
            k <= m,
            ids(r@) == c.subrange(m as int, n as int) + c.subrange(0, k as int),
        decreases m - k,
    {
        let ghost before = ids(r@);
        r.push(p[k].clone());
        assert(ids(r@) =~= before.push(c[k as int]));
        assert(ids(r@) =~= c.subrange(m as int, n as int) + c.subrange(0, k + 1));
        k = k + 1;
    }
    proof {
        let rv = ids(r@);
        let len = n as int;
        let mi = m as int;
        assert(rv =~= c.subrange(mi, len) + c.subrange(0, mi));
        assert forall|j: int| 0 <= j < len implies rv[j] == c[if j < len - mi { mi + j } else { j - (len - mi) }] by {}
        assert forall|j: int| 0 <= j < len - 1 implies #[trigger] g.has_edge(rv[j], rv[j + 1]) by {
            if j < len - mi - 1 {
                assert(g.has_edge(c[mi + j], c[mi + j + 1]));
            } else if j == len - mi - 1 {
                assert(rv[j] == c.last());
                assert(rv[j + 1] == c[0]);
            } else {
                let a = j - (len - mi);
                assert(g.has_edge(c[a], c[a + 1]));
            }
        }
        if mi > 0 {
            assert(rv.last() == c[mi - 1]);
            assert(rv[0] == c[mi]);
            assert(g.has_edge(c[mi - 1], c[(mi - 1) + 1]));
        } else {
            assert(rv =~= c);
        }
        assert forall|a: int, b: int| 0 <= a < len && 0 <= b < len && a != b implies rv[a] != rv[b] by {
            let ia = if a < len - mi { mi + a } else { a - (len - mi) };
            let ib = if b < len - mi { mi + b } else { b - (len - mi) };
            assert(ia != ib);
        }
        assert forall|j: int| 0 <= j < len implies !text_lt(#[trigger] rv[j], rv[0]) by {
            let ij = if j < len - mi { mi + j } else { j - (len - mi) };
            assert(rv[j] == c[ij]);
        }
    }
    r
}

/// Append cycle `c` unless an equal one is listed.
fn add_cycle(Ghost(g): Ghost<CallGraph>, out: &mut Vec<Cycle>, c: Vec<FunctionId>)
    requires
        cycles_ok(g, old(out)@),
        is_cycle(g, ids(c@)),
        least_first(ids(c@)),
    ensures
        cycles_ok(g, final(out)@),
        final(out)@.len() > 0,
        final(out)@.len() >= old(out)@.len(),
{
    let ghost start_len = out@.len();
    let mut k: usize = 0;
    while k < out.len()
        invariant
            cycles_ok(g, out@),
            out@.len() == start_len,
            k <= out@.len(),
            forall|j: int| 0 <= j < k ==> out@[j]@ != ids(c@),
        decreases out@.len() - k,
    {
        if same_ids(&out[k].nodes, &c) {
            return;
        }
        k = k + 1;
    }
    let mut p: usize = 0;
    while p < out.len() && ids_less(&out[p].nodes, &c)
        invariant
            p <= out@.len(),
            forall|j: int| 0 <= j < p ==> cycle_lt(#[trigger] out@[j]@, ids(c@)),
        decreases out@.len() - p,
    {
        p = p + 1;
    }
    let ghost before = out@.map_values(|x: Cycle| x@);
    let ghost old_out = out@;
    let ghost cv = ids(c@);
    proof {
        if p < old_out.len() {
            assert(old_out[p as int]@ != cv);
            lemma_cycle_lt_total(old_out[p as int]@, cv);
        }
    }
    out.insert(p, Cycle::new(c));
    proof {
        let after = out@.map_values(|x: Cycle| x@);
        assert(after =~= before.insert(p as int, cv));
        assert forall|a: int| 0 <= a < out@.len() implies #[trigger] out@[a]@ == (if a < p { old_out[a]@ } else if a == p { cv } else { old_out[a - 1]@ }) by {}
        assert forall|a: int, b: int| 0 <= a < after.len() && 0 <= b < after.len() && a != b implies after[a] != after[b] by {
            assert(after[a] == out@[a]@);
            assert(after[b] == out@[b]@);
            if a != p as int && b != p as int {
                let ia = if a < p { a } else { a - 1 };
                let ib = if b < p { b } else { b - 1 };
                assert(before[ia] != before[ib]);
            }
        }
        assert forall|k: int| 0 <= k < out@.len() implies is_cycle(g, #[trigger] out@[k]@) && least_first(out@[k]@) by {
            if k < p {
                assert(out@[k]@ == old_out[k]@);
            } else if k > p {
                assert(out@[k]@ == old_out[k - 1]@);
            }
        }
        assert forall|k: int| 0 <= k < out@.len() - 1 implies cycle_lt(#[trigger] out@[k]@, out@[k + 1]@) by {
            if k + 1 < p {
                assert(cycle_lt(old_out[k]@, old_out[k + 1]@));
            } else if k > p {
                assert(cycle_lt(old_out[k - 1]@, old_out[k]@));
            }
        }
    }
}

/// Adds the cycles through `s`: a self-loop, and each walk that a
/// breadth-first search from `s` finds back to `s`.
fn cycles_through(graph: &CallGraph, s: &FunctionId, out: &mut Vec<Cycle>)
    requires
        cycles_ok(*graph, old(out)@),
    ensures
        cycles_ok(*graph, final(out)@),
        final(out)@.len() >= old(out)@.len(),
        on_cycle(*graph, s@) ==> final(out)@.len() > 0,
{
    let ghost g = *graph;
    let ghost start_len = out@.len();
    let mut k: usize = 0;
    while k < graph.edges.len()
        invariant
            cycles_ok(g, out@),
            g == *graph,
            k <= graph.edges@.len(),
            out@.len() >= start_len,
            (exists|j: int| 0 <= j < k && #[trigger] graph.edges@[j].from@ == s@ && graph.edges@[j].to@ == s@)
                ==> out@.len() > 0,
        decreases graph.edges@.len() - k,
    {
        if graph.edges[k].from.same(s) && graph.edges[k].to.same(s) {
            let mut one: Vec<FunctionId> = Vec::new();
            one.push(s.clone());
            proof {
                let c = ids(one@);
                assert(c =~= seq![s@]);
                assert(g.has_edge(c.last(), c[0])) by {
                    assert(graph.edges@[k as int].from@ == c.last() && graph.edges@[k as int].to@ == c[0]);
                }
                lemma_text_lt_irrefl(s@);
            }
            add_cycle(Ghost(g), out, one);
        }
        proof {
            if exists|j: int| 0 <= j < k + 1 && #[trigger] graph.edges@[j].from@ == s@ && graph.edges@[j].to@ == s@ {
                let j = choose|j: int| 0 <= j < k + 1 && #[trigger] graph.edges@[j].from@ == s@ && graph.edges@[j].to@ == s@;
                if j < k {
                    assert(out@.len() > 0);
                }
            }
        }
        k = k + 1;
    }
    let ghost self_loop = g.has_edge(s@, s@);
    let mut visited: Vec<FunctionId> = Vec::new();
    visited.push(s.clone());
    let mut paths: Vec<Vec<FunctionId>> = Vec::new();
    let mut first: Vec<FunctionId> = Vec::new();
    first.push(s.clone());
    paths.push(first);
    proof {
        assert(ids(visited@) =~= seq![s@]);
        assert(ids(paths@[0]@) =~= seq![s@]);
        assert(is_path(g, seq![s@]));
    }
    let mut q: usize = 0;
    while q < visited.len()
        invariant
            g == *graph,
            cycles_ok(g, out@),
            visited@.len() == paths@.len(),
            visited@.len() >= 1,
            q <= visited@.len(),
            ids(visited@).no_duplicates(),
            forall|x: Seq<char>| #[trigger] ids(visited@).contains(x) ==> in_scope(g, s@, x),
            forall|j: int| 0 <= j < paths@.len() ==> simple_path(g, s@, visited@[j]@, #[trigger] ids(paths@[j]@)),
            forall|j: int, m: int| 0 <= j < paths@.len() && 0 <= m < ids(paths@[j]@).len() ==> ids(visited@).contains(#[trigger] ids(paths@[j]@)[m]),
            out@.len() >= start_len,
            self_loop == g.has_edge(s@, s@),
            self_loop ==> out@.len() > 0,
            visited@[0]@ == s@,
            closed_upto(g, ids(visited@).subrange(0, q as int), ids(visited@)),
            returns_to(g, ids(visited@).subrange(0, q as int), s@) ==> out@.len() > 0,
        decreases graph.nodes@.len() + graph.edges@.len() + 1 - q,
    {
        proof {
            lemma_scope_bound(g, s@, ids(visited@));
        }
        let cur = visited[q].clone();
        let path = copy_ids(&paths[q]);
        let ghost pv = ids(path@);
        let ghost done = ids(visited@).subrange(0, q as int);
        let mut k: usize = 0;
        while k < graph.edges.len()
            invariant
                g == *graph,
                cycles_ok(g, out@),
                visited@.len() == paths@.len(),
                q < visited@.len(),
                cur@ == visited@[q as int]@,
                pv == ids(path@),
                simple_path(g, s@, cur@, pv),
                k <= graph.edges@.len(),
                ids(visited@).no_duplicates(),
                forall|x: Seq<char>| #[trigger] ids(visited@).contains(x) ==> in_scope(g, s@, x),
                forall|j: int| 0 <= j < paths@.len() ==> simple_path(g, s@, visited@[j]@, #[trigger] ids(paths@[j]@)),
                forall|j: int, m: int| 0 <= j < paths@.len() && 0 <= m < ids(paths@[j]@).len() ==> ids(visited@).contains(#[trigger] ids(paths@[j]@)[m]),
                forall|m: int| 0 <= m < pv.len() ==> ids(visited@).contains(#[trigger] pv[m]),
                out@.len() >= start_len,
                self_loop ==> out@.len() > 0,
                visited@[0]@ == s@,
                done == ids(visited@).subrange(0, q as int),
                closed_upto(g, done, ids(visited@)),
                returns_to(g, done, s@) ==> out@.len() > 0,
                forall|j: int| 0 <= j < k && #[trigger] graph.edges@[j].from@ == cur@ ==> ids(visited@).contains(graph.edges@[j].to@),
                (exists|j: int| 0 <= j < k && #[trigger] graph.edges@[j].from@ == cur@ && graph.edges@[j].to@ == s@) && cur@ != s@
                    ==> out@.len() > 0,
            decreases graph.edges@.len() - k,
        {
            if graph.edges[k].from.same(&cur) {
                let ghost to = graph.edges@[k as int].to@;
                proof {
                    assert(g.has_edge(cur@, to));
                }
                if graph.edges[k].to.same(s) && path.len() > 1 {
                    proof {
                        assert(pv.last() == cur@ && pv[0] == s@);
                        assert(is_cycle(g, pv));
                    }
                    let c = rotate_least(Ghost(g), &path);
                    add_cycle(Ghost(g), out, c);
                    proof {
                        assert(ids(visited@)[0] == s@);
                    }
                } else if !contains_id(&visited, &graph.edges[k].to) {
                    let ghost bv = ids(visited@);
                    visited.push(graph.edges[k].to.clone());
                    let mut np = copy_ids(&path);
                    np.push(graph.edges[k].to.clone());
                    let ghost bp = paths@;
                    paths.push(np);
                    proof {
                        assert(ids(visited@) =~= bv.push(to));
                        let npv = ids(np@);
                        assert(npv =~= pv.push(to));
                        assert(in_scope(g, s@, to));
                        assert forall|i: int| 0 <= i < npv.len() - 1 implies #[trigger] g.has_edge(npv[i], npv[i + 1]) by {
                            if i < pv.len() - 1 {
                                assert(g.has_edge(pv[i], pv[i + 1]));
                            }
                        }
                        assert forall|a: int, b: int| 0 <= a < npv.len() && 0 <= b < npv.len() && a != b implies npv[a] != npv[b] by {
                            if a == pv.len() as int {
                                assert(bv.contains(pv[b]));
                            } else if b == pv.len() as int {
                                assert(bv.contains(pv[a]));
                            }
                        }
                        assert(simple_path(g, s@, to, npv));
                        assert forall|j: int| 0 <= j < paths@.len() implies simple_path(g, s@, visited@[j]@, #[trigger] ids(paths@[j]@)) by {
                            if j < bp.len() {
                                assert(paths@[j] == bp[j]);
                            }
                        }
                        assert forall|j: int, m: int| 0 <= j < paths@.len() && 0 <= m < ids(paths@[j]@).len() implies ids(visited@).contains(#[trigger] ids(paths@[j]@)[m]) by {
                            if j < bp.len() {
                                assert(paths@[j] == bp[j]);
                                assert(bv.contains(ids(bp[j]@)[m]));
                            } else {
                                if m < pv.len() {
                                    assert(bv.contains(pv[m]));
                                }
                            }
                        }
                        assert forall|a: int, b: int| 0 <= a < ids(visited@).len() && 0 <= b < ids(visited@).len() && a != b implies ids(visited@)[a] != ids(visited@)[b] by {
                            if a == bv.len() as int {
                                assert(bv.contains(ids(visited@)[b]));
                            } else if b == bv.len() as int {
                                assert(bv.contains(ids(visited@)[a]));
                            }
                        }
                        assert(ids(visited@).subrange(0, q as int) =~= bv.subrange(0, q as int));
                        assert forall|x: Seq<char>| bv.contains(x) implies ids(visited@).contains(x) by {
                            assert(bv.push(to).contains(x));
                        }
                        assert(ids(visited@)[bv.len() as int] == to);
                    }
                }
            }
            proof {
                if graph.edges@[k as int].from@ == cur@ && graph.edges@[k as int].to@ == s@ && cur@ != s@ {
                    assert(pv.len() != 1);
                }
            }
            k = k + 1;
        }
        proof {
            let vis = ids(visited@);
            let nd = vis.subrange(0, q + 1);
            assert(nd =~= done.push(cur@));
            assert forall|j: int, k: int|
                0 <= j < nd.len() && 0 <= k < g.edges@.len() && #[trigger] g.edges@[k].from@ == #[trigger] nd[j]
                    implies vis.contains(g.edges@[k].to@) by {
                if j < q {
                    assert(nd[j] == done[j]);
                }
            }
            if returns_to(g, nd, s@) {
                let (j, k) = choose|j: int, k: int|
                    0 <= j < nd.len() && 0 <= k < g.edges@.len() && #[trigger] g.edges@[k].from@ == #[trigger] nd[j]
                        && g.edges@[k].to@ == s@ && nd[j] != s@;
                if j < q {
                    assert(nd[j] == done[j]);
                    assert(returns_to(g, done, s@));
                }
            }
        }
        q = q + 1;
    }
    proof {
        let vis = ids(visited@);
        assert(vis.subrange(0, q as int) =~= vis);
        if on_cycle(g, s@) {
            let x = choose|x: Seq<char>| reaches(g, s@, x) && #[trigger] g.has_edge(x, s@);
            assert(vis[0] == s@);
            assert forall|k: int| 0 <= k < g.edges@.len() && vis.contains(#[trigger] g.edges@[k].from@) implies vis.contains(g.edges@[k].to@) by {
                let j = choose|j: int| 0 <= j < vis.len() && vis[j] == g.edges@[k].from@;
            }
            crate::traversal::lemma_closed_holds_reachable(g, s@, vis, x);
            if x != s@ {
                let j = choose|j: int| 0 <= j < vis.len() && vis[j] == x;
                let k = choose|k: int| 0 <= k < g.edges@.len() && #[trigger] g.edges@[k].from@ == x && g.edges@[k].to@ == s@;
                assert(returns_to(g, vis, s@));
            }
        }
    }
}

/// Find the cycles of the call graph: for each node, its self-loops and the
/// walks back to it that a breadth-first search from it finds; each cycle
/// rotated to start at its least id, and listed once, the list sorted by
/// id lists.
pub fn find_cycles(graph: &CallGraph) -> (r: Vec<Cycle>)
    ensures
        cycles_ok(*graph, r@),
        graph.wf() && cyclic(*graph) ==> r@.len() > 0,
{
    let mut out: Vec<Cycle> = Vec::new();
    proof {
        assert(out@.map_values(|c: Cycle| c@) =~= Seq::<Seq<Seq<char>>>::empty());
    }
    let mut i: usize = 0;
    while i < graph.nodes.len()
        invariant
            i <= graph.nodes@.len(),
            cycles_ok(*graph, out@),
            (exists|j: int| 0 <= j < i && on_cycle(*graph, #[trigger] graph.nodes@[j].id@)) ==> out@.len() > 0,
        decreases graph.nodes@.len() - i,
    {
        cycles_through(graph, &graph.nodes[i].id, &mut out);
        proof {
            if exists|j: int| 0 <= j < i + 1 && on_cycle(*graph, #[trigger] graph.nodes@[j].id@) {
                let j = choose|j: int| 0 <= j < i + 1 && on_cycle(*graph, #[trigger] graph.nodes@[j].id@);
                if j < i {
                    assert(out@.len() > 0);
                }
            }
        }
        i = i + 1;
    }
    proof {
        if graph.wf() && cyclic(*graph) {
            lemma_cyclic_has_node_on_cycle(*graph);
        }
    }
    out
}

/// In a graph whose edges join its nodes, a cyclic graph has a node on a cycle.
proof fn lemma_cyclic_has_node_on_cycle(g: CallGraph)
    requires
        g.wf(),
        cyclic(g),
    ensures
        exists|j: int| 0 <= j < g.nodes@.len() && on_cycle(g, #[trigger] g.nodes@[j].id@),
{
    let k = choose|k: int| 0 <= k < g.edges@.len() && reaches(g, #[trigger] g.edges@[k].to@, g.edges@[k].from@);
    let a = g.edges@[k].from@;
    let b = g.edges@[k].to@;
    assert(g.has_node(a));
    let j = choose|j: int| 0 <= j < g.nodes@.len() && #[trigger] g.nodes@[j].id@ == a;
    let p = choose|p: Seq<Seq<char>>| is_path(g, p) && p[0] == b && p.last() == a;
    assert(g.has_edge(a, b));
    if p.len() == 1 {
        crate::traversal::lemma_reaches_self(g, a);
        assert(g.has_edge(a, a));
        assert(on_cycle(g, a));
    } else {
        let n = p.len() as int;
        let x = p[n - 2];
        assert(g.has_edge(p[n - 2], p[(n - 2) + 1]));
        let w = seq![a] + p.subrange(0, n - 1);
        assert forall|i: int| 0 <= i < w.len() - 1 implies #[trigger] g.has_edge(w[i], w[i + 1]) by {
            if i == 0 {
                assert(w[1] == b);
            } else {
                assert(w[i] == p[i - 1] && w[i + 1] == p[i]);
                assert(g.has_edge(p[i - 1], p[(i - 1) + 1]));
            }
        }
        assert(is_path(g, w) && w[0] == a && w.last() == x);
        assert(reaches(g, a, x));
        assert(on_cycle(g, a));
    }
}

/// Some edge of `g` closes a walk: its target reaches its source.
pub open spec fn cyclic(g: CallGraph) -> bool {
    exists|k: int|
        0 <= k < g.edges@.len() && reaches(g, #[trigger] g.edges@[k].to@, g.edges@[k].from@)
}

/// Whether the graph has a cycle: some edge whose target reaches its source.
pub fn has_cycles(graph: &CallGraph) -> (r: bool)
    ensures
        r == cyclic(*graph),
{
    let mut k: usize = 0;
    while k < graph.edges.len()
        invariant
            k <= graph.edges@.len(),
            forall|j: int| 0 <= j < k ==> !reaches(*graph, #[trigger] graph.edges@[j].to@, graph.edges@[j].from@),
        decreases graph.edges@.len() - k,
    {
        let reached = dfs_traversal(graph, &graph.edges[k].to);
        if reached.contains(&graph.edges[k].from) {
            return true;
        }
        k = k + 1;
    }
    false
}

/// A cycle that `find_cycles` reports makes the graph cyclic, so
/// `has_cycles` holds whenever `find_cycles` reports one.
pub proof fn lemma_found_cycle_is_detected(g: CallGraph, cs: Seq<Cycle>)
    requires
        cycles_ok(g, cs),
        cs.len() > 0,
    ensures
        cyclic(g),
{
    let c = cs[0]@;
    assert(is_cycle(g, c));
    assert(is_path(g, c));
    assert(reaches(g, c[0], c.last()));
    let k = choose|k: int|
        0 <= k < g.edges@.len() && #[trigger] g.edges@[k].from@ == c.last() && g.edges@[k].to@ == c[0];
    assert(reaches(g, g.edges@[k].to@, g.edges@[k].from@));
}

} // verus!
