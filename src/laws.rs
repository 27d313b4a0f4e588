//! Properties that relate the library's operations, proved over their contracts.
use vstd::prelude::*;

use crate::ast::{DefView, sig_text};
use crate::builder::{
    all_edges, built_from, call_target, collides, def_edges, def_ids, empty_sig, external_id_text,
    in_built, lemma_built_nodes,
};
use crate::function_id::id_text;
use crate::graph::CallGraph;
use crate::query::GraphQuery;
use crate::traversal::{TraversalResult, bfs_traversal, dfs_traversal, ids};
use crate::function_id::FunctionId;
use crate::cycles::{Cycle, find_cycles, has_cycles, lemma_found_cycle_is_detected};

verus! {

/// Every edge of a built graph joins two of its nodes.
pub proof fn lemma_built_edges_have_endpoints(g: CallGraph, ds: Seq<DefView>)
    requires
        built_from(g, ds),
    ensures
        forall|k: int|
            0 <= k < g.edges@.len() ==> g.has_node(#[trigger] g.edges@[k].from@) && g.has_node(
                g.edges@[k].to@,
            ),
{
}

/// Every internal node of a built graph comes from exactly one definition.
pub proof fn lemma_internal_node_has_one_source(g: CallGraph, ds: Seq<DefView>, k: int)
    requires
        built_from(g, ds),
        def_ids(ds).no_duplicates(),
        0 <= k < g.nodes@.len(),
        !g.nodes@[k].is_external,
    ensures
        exists|i: int|
            0 <= i < ds.len() && ds[i].id() == g.nodes@[k].id@ && forall|j: int|
                0 <= j < ds.len() && ds[j].id() == g.nodes@[k].id@ ==> j == i,
{
    assert(k < ds.len());
    assert(ds[k].id() == g.nodes@[k].id@);
    assert forall|j: int| 0 <= j < ds.len() && ds[j].id() == g.nodes@[k].id@ implies j == k by {
        if j != k {
            assert(def_ids(ds)[j] == def_ids(ds)[k]);
        }
    }
}

/// The empty signature formats as `() -> ()`.
pub proof fn lemma_empty_signature_text()
    ensures
        sig_text(empty_sig()) == "() -> ()"@,
{
    reveal_strlit("(");
    reveal_strlit(") -> ");
    reveal_strlit("()");
    reveal_strlit("() -> ()");
    assert(crate::ast::params_text(Seq::empty()) =~= Seq::<char>::empty());
    assert(sig_text(empty_sig()) =~= "() -> ()"@);
}

/// A call without a module points at an external node named after it,
/// unless some definition's own id happens to be that external id.
pub proof fn lemma_unresolved_call_is_external(g: CallGraph, ds: Seq<DefView>, a: int, b: int)
    requires
        built_from(g, ds),
        0 <= a < ds.len(),
        0 <= b < ds[a].calls.len(),
        ds[a].calls[b].1 is None,
        forall|i: int| 0 <= i < ds.len() ==> #[trigger] ds[i].id() != external_id_text(ds[a].calls[b].0),
    ensures
        exists|k: int|
            0 <= k < g.nodes@.len() && #[trigger] g.nodes@[k].id@ == call_target(ds[a].calls[b])
                && g.nodes@[k].is_external && g.nodes@[k].metadata@.name == ds[a].calls[b].0,
{
    let c = ds[a].calls[b];
    let x = call_target(c);
    assert(in_built(ds, x));
    lemma_built_nodes(g, ds, x);
    let k = choose|k: int| 0 <= k < g.nodes@.len() && #[trigger] g.nodes@[k].id@ == x;
    if k < ds.len() {
        assert(ds[k].id() == x);
    }
    let (a2, b2) = choose|a2: int, b2: int|
        0 <= a2 < ds.len() && 0 <= b2 < ds[a2].calls.len() && call_target(#[trigger] ds[a2].calls[b2])
            == g.nodes@[k].id@ && g.nodes@[k].metadata@ == crate::builder::external_def(ds[a2].calls[b2].0);
    let c2 = ds[a2].calls[b2];
    reveal_strlit("<external>::");
    reveal_strlit("::()");
    let pre = "<external>::"@;
    let suf = "::()"@;
    match c2.1 {
        Some(m) => {
            lemma_empty_signature_id(m, c2.0);
            reveal_strlit("::() -> ()");
            reveal_strlit("::");
            let t = m + "::"@ + c2.0 + "::() -> ()"@;
            assert(t[t.len() - 4] == '>');
            let e = pre + c.0 + suf;
            assert(e[e.len() - 4] == ':');
        },
        None => {
            let e1 = pre + c.0 + suf;
            let e2 = pre + c2.0 + suf;
            assert(e1 == e2);
            assert(c.0 =~= e1.subrange(pre.len() as int, (pre.len() + c.0.len()) as int));
            assert(c2.0 =~= e2.subrange(pre.len() as int, (pre.len() + c2.0.len()) as int));
        },
    }
}

/// An id built with the empty signature is `module::name::() -> ()`.
pub proof fn lemma_empty_signature_id(m: Seq<char>, n: Seq<char>)
    ensures
        id_text(m, n, sig_text(empty_sig())) == m + "::"@ + n + "::() -> ()"@,
{
    lemma_empty_signature_text();
    reveal_strlit("::");
    reveal_strlit("::() -> ()");
    reveal_strlit("() -> ()");
    assert("::"@ + "() -> ()"@ =~= "::() -> ()"@);
    assert(id_text(m, n, sig_text(empty_sig())) =~= m + "::"@ + n + "::() -> ()"@);
}

/// Adding the functions of a non-empty ast a second time collides with the
/// first addition.
pub proof fn lemma_readding_collides(prev: Seq<DefView>, fs: Seq<DefView>)
    requires
        fs.len() > 0,
    ensures
        collides(def_ids(prev + fs), fs),
{
    assert(def_ids(prev + fs)[prev.len() as int] == fs[0].id());
    assert(def_ids(prev + fs).contains(fs[0].id()));
}

/// A depth-first and a breadth-first traversal from the same start reach
/// the same ids.
pub proof fn lemma_dfs_bfs_same_reach(
    g: CallGraph,
    start: FunctionId,
    d: TraversalResult,
    b: TraversalResult,
)
    requires
        call_ensures(dfs_traversal, (&g, &start), d),
        call_ensures(bfs_traversal, (&g, &start), b),
    ensures
        forall|t: Seq<char>| d@.contains(t) <==> b@.contains(t),
{
}

proof fn lemma_all_edges_origin(ds: Seq<DefView>, v: (Seq<char>, Seq<char>, usize))
    requires
        all_edges(ds).contains(v),
    ensures
        exists|a: int, b: int|
            0 <= a < ds.len() && 0 <= b < ds[a].calls.len() && v == (
                ds[a].id(),
                call_target(#[trigger] ds[a].calls[b]),
                ds[a].calls[b].2,
            ),
    decreases ds.len(),
{
    let pre = all_edges(ds.drop_last());
    let last = def_edges(ds.last());
    let k = choose|k: int| 0 <= k < all_edges(ds).len() && all_edges(ds)[k] == v;
    if k < pre.len() {
        assert(pre[k] == v);
        lemma_all_edges_origin(ds.drop_last(), v);
        let (a, b) = choose|a: int, b: int|
            0 <= a < ds.drop_last().len() && 0 <= b < ds.drop_last()[a].calls.len() && v == (
                ds.drop_last()[a].id(),
                call_target(#[trigger] ds.drop_last()[a].calls[b]),
                ds.drop_last()[a].calls[b].2,
            );
        assert(ds.drop_last()[a] == ds[a]);
    } else {
        let b = k - pre.len();
        assert(last[b] == v);
        assert(ds[ds.len() - 1] == ds.last());
    }
}

/// In a graph built from definitions with distinct ids, the callees of a
/// definition's node are exactly the targets of its calls.
pub proof fn lemma_callees_are_call_targets(g: CallGraph, ds: Seq<DefView>, i: int, t: Seq<char>)
    requires
        built_from(g, ds),
        def_ids(ds).no_duplicates(),
        0 <= i < ds.len(),
    ensures
        g.has_edge(ds[i].id(), t) <==> exists|j: int|
            0 <= j < ds[i].calls.len() && call_target(#[trigger] ds[i].calls[j]) == t,
{
    let ev = crate::builder::edge_views(g.edges@);
    if g.has_edge(ds[i].id(), t) {
        let k = choose|k: int|
            0 <= k < g.edges@.len() && #[trigger] g.edges@[k].from@ == ds[i].id() && g.edges@[k].to@
                == t;
        assert(ev[k] == crate::builder::edge_view(g.edges@[k]));
        assert(all_edges(ds).contains(ev[k]));
        lemma_all_edges_origin(ds, ev[k]);
        let (a, b) = choose|a: int, b: int|
            0 <= a < ds.len() && 0 <= b < ds[a].calls.len() && ev[k] == (
                ds[a].id(),
                call_target(#[trigger] ds[a].calls[b]),
                ds[a].calls[b].2,
            );
        if a != i {
            assert(def_ids(ds)[a] == def_ids(ds)[i]);
        }
        assert(call_target(ds[i].calls[b]) == t);
    }
    if exists|j: int| 0 <= j < ds[i].calls.len() && call_target(#[trigger] ds[i].calls[j]) == t {
        let j = choose|j: int| 0 <= j < ds[i].calls.len() && call_target(#[trigger] ds[i].calls[j]) == t;
        crate::builder::lemma_all_edges_has_call(ds, i, j);
        let v = (ds[i].id(), call_target(ds[i].calls[j]), ds[i].calls[j].2);
        let k = choose|k: int| 0 <= k < ev.len() && ev[k] == v;
        assert(crate::builder::edge_view(g.edges@[k]) == v);
        assert(g.edges@[k].from@ == ds[i].id() && g.edges@[k].to@ == t);
    }
}

/// For a graph whose edges join its nodes, `has_cycles` holds exactly when
/// `find_cycles` reports a cycle.
pub proof fn lemma_has_cycles_iff_found(g: CallGraph, cs: Vec<Cycle>, h: bool)
    requires
        g.wf(),
        call_ensures(find_cycles, (&g,), cs),
        call_ensures(has_cycles, (&g,), h),
    ensures
        h <==> cs@.len() > 0,
{
    if cs@.len() > 0 {
        lemma_found_cycle_is_detected(g, cs@);
    }
}

/// On a graph built from definitions with distinct ids, `direct_callees`
/// of a definition's node lists each distinct target of its calls once:
/// as many ids as there are distinct targets.
pub proof fn lemma_direct_callees_count(
    g: CallGraph,
    ds: Seq<DefView>,
    i: int,
    id: FunctionId,
    r: Vec<FunctionId>,
    targets: Seq<Seq<char>>,
)
    requires
        built_from(g, ds),
        def_ids(ds).no_duplicates(),
        0 <= i < ds.len(),
        id@ == ds[i].id(),
        call_ensures(<CallGraph as GraphQuery>::direct_callees, (&g, &id), r),
        targets.no_duplicates(),
        forall|t: Seq<char>|
            targets.contains(t) <==> exists|j: int|
                0 <= j < ds[i].calls.len() && call_target(#[trigger] ds[i].calls[j]) == t,
    ensures
        r@.len() == targets.len(),
{
    let v = ids(r@);
    assert forall|t: Seq<char>| v.contains(t) <==> targets.contains(t) by {
        lemma_callees_are_call_targets(g, ds, i, t);
    }
    v.unique_seq_to_set();
    targets.unique_seq_to_set();
    assert(v.to_set() =~= targets.to_set());
}

} // verus!
