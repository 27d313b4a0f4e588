use vstd::prelude::*;
use vstd::string::*;

use crate::ast::{AbstractAST, CallView, DefView, FunctionCall, FunctionDef, Signature, sig_text};
use crate::function_id::{FunctionId, generate_id, id_text};
use crate::graph::{CallGraph, GraphEdge, GraphNode};
use crate::query::contains_id;
use crate::text::{has_prefix, starts_with};
use crate::traversal::{TraversalResult, ids, reaches, traversal_from_entries};

verus! {

broadcast use vstd::seq_lib::lemma_seq_contains_after_push;

/// The view of the empty signature.
pub open spec fn empty_sig() -> (Seq<(Seq<char>, Seq<char>)>, Seq<char>) {
    (Seq::empty(), "()"@)
}

/// The id of the external node that stands for an unresolved callee named `name`.
pub open spec fn external_id_text(name: Seq<char>) -> Seq<char> {
    "<external>::"@ + name + "::()"@
}

/// The id an edge for call `c` points to.
pub open spec fn call_target(c: CallView) -> Seq<char> {
    match c.1 {
        Some(m) => id_text(m, c.0, sig_text(empty_sig())),
        None => external_id_text(c.0),
    }
}

/// An edge as plain values: from, to, line.
pub type EdgeView = (Seq<char>, Seq<char>, usize);

pub open spec fn edge_view(e: GraphEdge) -> EdgeView {
    (e.from@, e.to@, e.line)
}

pub open spec fn edge_views(es: Seq<GraphEdge>) -> Seq<EdgeView> {
    es.map_values(|e: GraphEdge| edge_view(e))
}

/// The edges that the calls of `d` contribute, in call order.
pub open spec fn def_edges(d: DefView) -> Seq<EdgeView> {
    d.calls.map_values(|c: CallView| (d.id(), call_target(c), c.2))
}

/// The edges of all definitions, definition by definition.
pub open spec fn all_edges(ds: Seq<DefView>) -> Seq<EdgeView>
    decreases ds.len(),
{
    if ds.len() == 0 {
        Seq::empty()
    } else {
        all_edges(ds.drop_last()) + def_edges(ds.last())
    }
}

/// The definition recorded in the external node for a callee named `name`.
pub open spec fn external_def(name: Seq<char>) -> DefView {
    DefView { name, signature: empty_sig(), calls: Seq::empty(), module: "<external>"@ }
}

/// A call whose module-qualified target claims the reserved external prefix.
pub open spec fn claims_external(c: CallView) -> bool {
    c.1 is Some && has_prefix(call_target(c), "<external>"@)
}

/// A call that claims the external prefix for a target no definition has.
pub open spec fn claims_missing(ds: Seq<DefView>, c: CallView) -> bool {
    claims_external(c) && !exists|i: int| 0 <= i < ds.len() && #[trigger] ds[i].id() == call_target(c)
}

/// Some call of some definition is one that `claims_missing` describes.
pub open spec fn some_call_claims_missing(ds: Seq<DefView>) -> bool {
    exists|i: int, j: int|
        0 <= i < ds.len() && 0 <= j < ds[i].calls.len() && claims_missing(ds, #[trigger] ds[i].calls[j])
}

/// The message of a failed build: it names the target of a call that
/// `claims_missing` describes.
pub open spec fn missing_message(ds: Seq<DefView>, e: Seq<char>) -> bool {
    exists|a: int, b: int|
        0 <= a < ds.len() && 0 <= b < ds[a].calls.len() && claims_missing(ds, #[trigger] ds[a].calls[b])
            && e == "To node does not exist: "@ + call_target(ds[a].calls[b])
}

/// An id that is either an external id or free of the external prefix.
pub open spec fn plain_external(x: Seq<char>) -> bool {
    (exists|nm: Seq<char>| x == #[trigger] external_id_text(nm)) || !has_prefix(x, "<external>"@)
}

/// A module-qualified id never equals an external id: one ends in `-> ()`,
/// the other in `::()`.
pub proof fn lemma_qualified_not_external(m: Seq<char>, n: Seq<char>, nm: Seq<char>)
    ensures
        id_text(m, n, sig_text(empty_sig())) != external_id_text(nm),
{
    crate::laws::lemma_empty_signature_id(m, n);
    reveal_strlit("::() -> ()");
    reveal_strlit("::");
    reveal_strlit("<external>::");
    reveal_strlit("::()");
    let t = m + "::"@ + n + "::() -> ()"@;
    assert(t[t.len() - 4] == '>');
    let e = "<external>::"@ + nm + "::()"@;
    assert(e[e.len() - 4] == ':');
}

/// The function `ds[i]` is the first of `ds` whose id equals another's, or one in `have`.
pub open spec fn collides_at(have: Seq<Seq<char>>, ds: Seq<DefView>, i: int) -> bool {
    have.contains(ds[i].id()) || exists|j: int| 0 <= j < i && ds[j].id() == ds[i].id()
}

/// The message for a collision at `ds[i]`, when it is the first one.
pub open spec fn duplicate_message(have: Seq<Seq<char>>, ds: Seq<DefView>, e: Seq<char>) -> bool {
    exists|i: int|
        0 <= i < ds.len() && collides_at(have, ds, i) && (forall|j: int|
            0 <= j < i ==> !collides_at(have, ds, j)) && e == "Duplicate function ID: "@ + ds[i].id()
}

pub open spec fn collides(have: Seq<Seq<char>>, ds: Seq<DefView>) -> bool {
    exists|i: int|
        0 <= i < ds.len() && (have.contains(#[trigger] ds[i].id()) || exists|j: int|
            0 <= j < i && ds[j].id() == ds[i].id())
}

/// The views of a list of definitions.
pub open spec fn def_views(fs: Seq<FunctionDef>) -> Seq<DefView> {
    fs.map_values(|f: FunctionDef| f@)
}

/// The ids of a list of definitions.
pub open spec fn def_ids(ds: Seq<DefView>) -> Seq<Seq<char>> {
    ds.map_values(|d: DefView| d.id())
}

/// Builder for constructing a call graph from ASTs.
pub struct CallGraphBuilder {
    pub asts: Vec<AbstractAST>,
    /// Every function added so far, in order; ids distinct.
    pub functions_map: Vec<FunctionDef>,
    /// The id of each entry of `functions_map`.
    pub function_ids: Vec<FunctionId>,
}

impl View for CallGraphBuilder {
    type V = Seq<DefView>;

    open spec fn view(&self) -> Seq<DefView> {
        def_views(self.functions_map@)
    }
}

impl CallGraphBuilder {
    pub open spec fn wf(&self) -> bool {
        &&& ids(self.function_ids@) == def_ids(self@)
        &&& def_ids(self@).no_duplicates()
    }

    pub fn new() -> (r: Self)
        ensures
            r.wf(),
            r@.len() == 0,
            r.asts@.len() == 0,
    {
        let r = CallGraphBuilder {
            asts: Vec::new(),
            functions_map: Vec::new(),
            function_ids: Vec::new(),
        };
        assert(def_ids(r@) =~= Seq::<Seq<char>>::empty());
        assert(ids(r.function_ids@) =~= Seq::<Seq<char>>::empty());
        r
    }

    /// Add the functions of `ast`; fails, changing nothing, if an id of it
    /// repeats one already added or one earlier in the same ast.
    pub fn add_ast(&mut self, ast: AbstractAST) -> (r: Result<(), String>)
        requires
            old(self).wf(),
        ensures
            final(self).wf(),
            r.is_err() == collides(def_ids(old(self)@), def_views(ast.functions@)),
            r matches Err(e) ==> duplicate_message(
                def_ids(old(self)@),
                def_views(ast.functions@),
                e@,
            ),
            r.is_ok() ==> final(self)@ == old(self)@ + def_views(ast.functions@),
            r.is_ok() ==> final(self).asts@.len() == old(self).asts@.len() + 1,
            r.is_err() ==> final(self)@ == old(self)@ && final(self).asts@ == old(self).asts@,
    {
        let ghost fs = def_views(ast.functions@);
        let ghost have = def_ids(self@);
        let mut fresh: Vec<FunctionId> = Vec::new();
        let mut i: usize = 0;
        while i < ast.functions.len()
            invariant
                self.wf(),
                have == def_ids(self@),
                fs == def_views(ast.functions@),
                i <= fs.len(),
                ids(fresh@) == def_ids(fs.subrange(0, i as int)),
                !collides(have, fs.subrange(0, i as int)),
            decreases fs.len() - i,
        {
            let id = ast.functions[i].fn_id();
            let ghost sub = fs.subrange(0, i + 1);
            if contains_id(&self.function_ids, &id) || contains_id(&fresh, &id) {
                proof {
                    assert(sub[i as int].id() == id@);
                    if !have.contains(id@) {
                        let j = choose|j: int| 0 <= j < fresh@.len() && ids(fresh@)[j] == id@;
                        assert(def_ids(fs.subrange(0, i as int))[j] == sub[j].id());
                    }
                    assert(collides(have, sub));
                    assert forall|k: int| 0 <= k < fs.len() implies #[trigger] fs[k] == sub[k] || k > i by {}
                    assert(fs.subrange(0, i + 1) == sub);
                    assert(collides(have, fs)) by {
                        assert(have.contains(fs[i as int].id()) || exists|j: int|
                            0 <= j < i && fs[j].id() == fs[i as int].id());
                    }
                    assert(collides_at(have, fs, i as int));
                    assert forall|j: int| 0 <= j < i implies !collides_at(have, fs, j) by {
                        let sub0 = fs.subrange(0, i as int);
                        assert(sub0[j] == fs[j]);
                        if collides_at(have, fs, j) {
                            if !have.contains(fs[j].id()) {
                                let j2 = choose|j2: int| 0 <= j2 < j && fs[j2].id() == fs[j].id();
                                assert(sub0[j2] == fs[j2]);
                            }
                            assert(collides(have, sub0));
                        }
                    }
                }
                let mut msg = String::from_str("Duplicate function ID: ");
                msg.append(id.as_str());
                return Err(msg);
            }
            let ghost before = ids(fresh@);
            fresh.push(id);
            proof {
                assert(ids(fresh@) =~= before.push(id@));
                assert(def_ids(sub) =~= def_ids(fs.subrange(0, i as int)).push(sub[i as int].id()));
                assert forall|k: int| 0 <= k < sub.len() implies !(have.contains(#[trigger] sub[k].id())
                    || exists|j: int| 0 <= j < k && sub[j].id() == sub[k].id()) by {
                    if k < i {
                        assert(sub[k] == fs.subrange(0, i as int)[k]);
                        assert forall|j: int| 0 <= j < k implies sub[j].id() != sub[k].id() by {
                            assert(sub[j] == fs.subrange(0, i as int)[j]);
                        }
                    } else {
                        assert forall|j: int| 0 <= j < k implies sub[j].id() != sub[k].id() by {
                            assert(before[j] == def_ids(fs.subrange(0, i as int))[j]);
                        }
                    }
                }
            }
            i = i + 1;
        }
        proof {
            assert(fs.subrange(0, i as int) =~= fs);
            assert(ids(fresh@).len() == fresh@.len());
        }
        let ghost start = self@;
        let mut k: usize = 0;
        while k < ast.functions.len()
            invariant
                fs == def_views(ast.functions@),
                k <= fs.len(),
                ids(fresh@) == def_ids(fs),
                fresh@.len() == fs.len(),
                self@ == start + fs.subrange(0, k as int),
                ids(self.function_ids@) == def_ids(self@),
                start == old(self)@,
                self.asts@ == old(self).asts@,
            decreases fs.len() - k,
        {
            let ghost b1 = self@;
            let ghost b2 = ids(self.function_ids@);
            self.functions_map.push(ast.functions[k].duplicate());
            self.function_ids.push(fresh[k].clone());
            proof {
                assert(self@ =~= b1.push(fs[k as int]));
                assert(ids(self.function_ids@) =~= b2.push(ids(fresh@)[k as int]));
                assert(fs.subrange(0, k + 1) =~= fs.subrange(0, k as int).push(fs[k as int]));
                assert(def_ids(self@) =~= def_ids(b1).push(fs[k as int].id()));
            }
            k = k + 1;
        }
        proof {
            assert(fs.subrange(0, k as int) =~= fs);
            let all = self@;
            assert forall|a: int, b: int| 0 <= a < b < all.len() implies def_ids(all)[a] != def_ids(all)[b] by {
                let n = start.len() as int;
                if b < n {
                    assert(def_ids(start)[a] == def_ids(all)[a]);
                    assert(def_ids(start)[b] == def_ids(all)[b]);
                } else if a < n {
                    assert(def_ids(start)[a] == def_ids(all)[a]);
                    assert(all[b] == fs[b - n]);
                    assert(!have.contains(fs[b - n].id()));
                } else {
                    assert(all[a] == fs[a - n]);
                    assert(all[b] == fs[b - n]);
                    assert(fs[a - n].id() != fs[b - n].id());
                }
            }
        }
        self.asts.push(ast);
        Ok(())
    }
}

/// The nodes of `g` begin with one internal node per definition of `ds`, in order.
pub open spec fn internal_prefix(g: CallGraph, ds: Seq<DefView>) -> bool {
    &&& ds.len() <= g.nodes@.len()
    &&& forall|i: int|
        0 <= i < ds.len() ==> (#[trigger] g.nodes@[i]).id@ == ds[i].id() && !g.nodes@[i].is_external
            && g.nodes@[i].metadata@ == ds[i]
}

/// Every node after the first `ds.len()` is external and stands for the target of a call.
pub open spec fn external_rest(g: CallGraph, ds: Seq<DefView>) -> bool {
    forall|k: int|
        ds.len() <= k < g.nodes@.len() ==> (#[trigger] g.nodes@[k]).is_external && exists|
            a: int,
            b: int,
        |
            0 <= a < ds.len() && 0 <= b < ds[a].calls.len() && call_target(
                #[trigger] ds[a].calls[b],
            ) == g.nodes@[k].id@ && g.nodes@[k].metadata@ == external_def(ds[a].calls[b].0)
}

/// What `build` produces from the definitions `ds`.
pub open spec fn built_from(g: CallGraph, ds: Seq<DefView>) -> bool {
    &&& g.wf()
    &&& internal_prefix(g, ds)
    &&& external_rest(g, ds)
    &&& edge_views(g.edges@) == all_edges(ds)
}

/// The id that an edge for `call` points to.
pub fn call_target_id(call: &FunctionCall) -> (r: FunctionId)
    ensures
        r@ == call_target(call@),
{
    match &call.target_module {
        Some(m) => generate_id(m.as_str(), call.target_name.as_str(), &Signature::empty()),
        None => {
            let mut s = String::from_str("<external>::");
            s.append(call.target_name.as_str());
            s.append("::()");
            FunctionId::new(s)
        },
    }
}

/// The definition recorded in the external node for a callee named `name`.
fn external_function(name: &String) -> (r: FunctionDef)
    ensures
        r@ == external_def(name@),
{
    let r = FunctionDef::new(name.clone(), Signature::empty(), String::from_str("<external>"));
    assert(r@.signature =~= empty_sig());
    r
}

impl CallGraphBuilder {
    /// Build the call graph: one internal node per function, then for each
    /// call an edge, with an external node for each callee not present.
    /// Fails only on a call whose module-qualified target text begins with
    /// `<external>` and names no node.
    pub fn build(&self) -> (r: Result<CallGraph, String>)
        requires
            self.wf(),
        ensures
            r matches Ok(g) ==> built_from(g, self@),
            r.is_err() <==> some_call_claims_missing(self@),
            r matches Err(e) ==> missing_message(self@, e@),
    {
        let ghost ds = self@;
        let n = self.functions_map.len();
        proof {
            assert(ids(self.function_ids@).len() == self.function_ids@.len());
            assert(def_ids(ds).len() == ds.len());
        }
        let mut graph = CallGraph::new();
        let mut i: usize = 0;
        while i < n
            invariant
                self.wf(),
                ds == self@,
                n == ds.len(),
                self.function_ids@.len() == n,
                i <= n,
                graph.wf(),
                graph.nodes@.len() == i,
                internal_prefix(graph, ds.subrange(0, i as int)),
                graph.edges@.len() == 0,
            decreases n - i,
        {
            let f = &self.functions_map[i];
            let node = GraphNode::internal(self.function_ids[i].clone(), f.duplicate());
            proof {
                assert(ids(self.function_ids@)[i as int] == def_ids(ds)[i as int]);
                if graph.has_node(node.id@) {
                    let j = choose|j: int| 0 <= j < graph.nodes@.len() && #[trigger] graph.nodes@[j].id@ == node.id@;
                    assert(ds.subrange(0, i as int)[j] == ds[j]);
                    assert(def_ids(ds)[j] == def_ids(ds)[i as int]);
                }
            }
            let _ = graph.insert_node(node);
            proof {
                assert forall|k: int| 0 <= k < i + 1 implies (#[trigger] graph.nodes@[k]).id@ == ds.subrange(0, i + 1)[k].id()
                    && !graph.nodes@[k].is_external && graph.nodes@[k].metadata@ == ds.subrange(0, i + 1)[k] by {
                    if k < i {
                        assert(ds.subrange(0, i as int)[k] == ds.subrange(0, i + 1)[k]);
                    }
                }
            }
            i = i + 1;
        }
        proof {
            assert(ds.subrange(0, n as int) =~= ds);
            assert(edge_views(graph.edges@) =~= all_edges(ds.subrange(0, 0)));
        }
        let mut i: usize = 0;
        while i < n
            invariant
                self.wf(),
                ds == self@,
                n == ds.len(),
                self.function_ids@.len() == n,
                i <= n,
                graph.wf(),
                internal_prefix(graph, ds),
                external_rest(graph, ds),
                edge_views(graph.edges@) == all_edges(ds.subrange(0, i as int)),
                forall|k: int| n <= k < graph.nodes@.len() ==> plain_external(#[trigger] graph.nodes@[k].id@),
                forall|a: int, b: int| 0 <= a < i && 0 <= b < ds[a].calls.len() ==> !claims_missing(ds, #[trigger] ds[a].calls[b]),
            decreases n - i,
        {
            let f = &self.functions_map[i];
            let from = self.function_ids[i].clone();
            let ghost d = ds[i as int];
            proof {
                assert(ids(self.function_ids@)[i as int] == def_ids(ds)[i as int]);
                assert(graph.nodes@[i as int].id@ == from@);
            }
            let mut j: usize = 0;
            while j < f.calls.len()
                invariant
                    self.wf(),
                    ds == self@,
                    n == ds.len(),
                    self.function_ids@.len() == n,
                    i < n,
                    d == ds[i as int],
                    *f == self.functions_map@[i as int],
                    d == f@,
                    from@ == d.id(),
                    j <= f.calls@.len(),
                    graph.wf(),
                    internal_prefix(graph, ds),
                    external_rest(graph, ds),
                    edge_views(graph.edges@) == all_edges(ds.subrange(0, i as int)) + def_edges(
                        d,
                    ).subrange(0, j as int),
                    forall|k: int| n <= k < graph.nodes@.len() ==> plain_external(#[trigger] graph.nodes@[k].id@),
                    forall|a: int, b: int| 0 <= a < i && 0 <= b < ds[a].calls.len() ==> !claims_missing(ds, #[trigger] ds[a].calls[b]),
                    forall|b: int| 0 <= b < j ==> !claims_missing(ds, #[trigger] ds[i as int].calls[b]),
                decreases f.calls@.len() - j,
            {
                let call = &f.calls[j];
                let to = call_target_id(call);
                proof {
                    assert(d.calls[j as int] == call@);
                }
                if !graph.contains_node(&to) && (call.target_module.is_none() || !starts_with(
                    to.as_str(),
                    "<external>",
                )) {
                    let ghost before = graph.nodes@;
                    let _ = graph.insert_node(GraphNode::external(to.clone(), external_function(&call.target_name)));
                    proof {
                        assert(graph.nodes@[before.len() as int].id@ == to@);
                        assert(graph.has_node(to@));
                        assert forall|k: int| ds.len() <= k < graph.nodes@.len() implies (#[trigger] graph.nodes@[k]).is_external && exists|
                            a: int,
                            b: int,
                        |
                            0 <= a < ds.len() && 0 <= b < ds[a].calls.len() && call_target(
                                #[trigger] ds[a].calls[b],
                            ) == graph.nodes@[k].id@ && graph.nodes@[k].metadata@ == external_def(ds[a].calls[b].0) by {
                            if k == before.len() {
                                assert(ds[i as int].calls[j as int] == call@);
                                assert(call_target(ds[i as int].calls[j as int]) == graph.nodes@[k].id@);
                            } else {
                                assert(graph.nodes@[k] == before[k]);
                            }
                        }
                        assert forall|k: int| 0 <= k < ds.len() implies (#[trigger] graph.nodes@[k]).id@ == ds[k].id() && !graph.nodes@[k].is_external
                            && graph.nodes@[k].metadata@ == ds[k] by {
                            assert(graph.nodes@[k] == before[k]);
                        }
                        assert(plain_external(to@)) by {
                            if call.target_module.is_none() {
                                assert(to@ == external_id_text(call@.0));
                            }
                        }
                        assert forall|k: int| n <= k < graph.nodes@.len() implies plain_external(#[trigger] graph.nodes@[k].id@) by {
                            if k < before.len() {
                                assert(graph.nodes@[k] == before[k]);
                            }
                        }
                    }
                }
                proof {
                    assert(graph.has_node(from@)) by {
                        assert(graph.nodes@[i as int].id@ == from@);
                    }
                }
                let line = call.line;
                let res = graph.insert_edge(GraphEdge::new(from.clone(), to.clone(), line));
                if res.is_err() {
                    proof {
                        assert(claims_external(ds[i as int].calls[j as int]));
                        if exists|q: int| 0 <= q < ds.len() && #[trigger] ds[q].id() == to@ {
                            let q = choose|q: int| 0 <= q < ds.len() && #[trigger] ds[q].id() == to@;
                            assert(graph.nodes@[q].id@ == to@);
                        }
                        assert(claims_missing(ds, ds[i as int].calls[j as int]));
                    }
                    let mut msg = String::from_str("To node does not exist: ");
                    msg.append(to.as_str());
                    proof {
                        assert(msg@ == "To node does not exist: "@ + call_target(ds[i as int].calls[j as int]));
                    }
                    return Err(msg);
                }
                proof {
                    if claims_external(call@) {
                        let k = choose|k: int| 0 <= k < graph.nodes@.len() && #[trigger] graph.nodes@[k].id@ == to@;
                        if k < n {
                            assert(ds[k].id() == to@);
                        } else {
                            assert(plain_external(graph.nodes@[k].id@));
                            let m = call@.1.unwrap();
                            if exists|nm: Seq<char>| to@ == #[trigger] external_id_text(nm) {
                                let nm = choose|nm: Seq<char>| to@ == #[trigger] external_id_text(nm);
                                lemma_qualified_not_external(m, call@.0, nm);
                            }
                        }
                    }
                    assert(!claims_missing(ds, ds[i as int].calls[j as int]));
                }
                proof {
                    let e = def_edges(d);
                    assert(e.subrange(0, j + 1) =~= e.subrange(0, j as int).push(e[j as int]));
                    assert(edge_views(graph.edges@) =~= (all_edges(ds.subrange(0, i as int)) + e.subrange(0, j as int)).push(e[j as int]));
                }
                j = j + 1;
            }
            proof {
                let sub = ds.subrange(0, i + 1);
                assert(sub.drop_last() =~= ds.subrange(0, i as int));
                assert(sub.last() == d);
                assert(def_edges(d).subrange(0, j as int) =~= def_edges(d));
                assert forall|a: int, b: int| 0 <= a < i + 1 && 0 <= b < ds[a].calls.len() implies !claims_missing(ds, #[trigger] ds[a].calls[b]) by {
                    if a == i {
                        assert(d.calls.len() == j);
                    }
                }
            }
            i = i + 1;
        }
        proof {
            assert(ds.subrange(0, n as int) =~= ds);
        }
        Ok(graph)
    }
}

impl Default for CallGraphBuilder {
    fn default() -> (r: Self)
        ensures
            r.wf(),
            r@.len() == 0,
            r.asts@.len() == 0,
    {
        Self::new()
    }
}

/// `x` is the id of a definition of `ds` or the target of one of their calls.
pub open spec fn in_built(ds: Seq<DefView>, x: Seq<char>) -> bool {
    ||| exists|i: int| 0 <= i < ds.len() && #[trigger] ds[i].id() == x
    ||| exists|a: int, b: int|
        0 <= a < ds.len() && 0 <= b < ds[a].calls.len() && call_target(#[trigger] ds[a].calls[b])
            == x
}

pub proof fn lemma_all_edges_has_call(ds: Seq<DefView>, a: int, b: int)
    requires
        0 <= a < ds.len(),
        0 <= b < ds[a].calls.len(),
    ensures
        all_edges(ds).contains((ds[a].id(), call_target(ds[a].calls[b]), ds[a].calls[b].2)),
    decreases ds.len(),
{
    let v = (ds[a].id(), call_target(ds[a].calls[b]), ds[a].calls[b].2);
    let pre = all_edges(ds.drop_last());
    let last = def_edges(ds.last());
    if a == ds.len() - 1 {
        assert(last[b] == v);
        assert((pre + last)[pre.len() + b] == v);
    } else {
        lemma_all_edges_has_call(ds.drop_last(), a, b);
        assert(ds.drop_last()[a] == ds[a]);
        let k = choose|k: int| 0 <= k < pre.len() && pre[k] == v;
        assert((pre + last)[k] == v);
    }
}

/// The nodes of a built graph are exactly the definitions and the call targets.
pub proof fn lemma_built_nodes(g: CallGraph, ds: Seq<DefView>, x: Seq<char>)
    requires
        built_from(g, ds),
    ensures
        g.has_node(x) <==> in_built(ds, x),
{
    if g.has_node(x) {
        let k = choose|k: int| 0 <= k < g.nodes@.len() && #[trigger] g.nodes@[k].id@ == x;
        if k < ds.len() {
            assert(ds[k].id() == x);
        } else {
            assert(g.nodes@[k].is_external);
        }
    }
    if in_built(ds, x) {
        if exists|i: int| 0 <= i < ds.len() && #[trigger] ds[i].id() == x {
            let i = choose|i: int| 0 <= i < ds.len() && #[trigger] ds[i].id() == x;
            assert(g.nodes@[i].id@ == x);
        } else {
            let (a, b) = choose|a: int, b: int|
                0 <= a < ds.len() && 0 <= b < ds[a].calls.len() && call_target(
                    #[trigger] ds[a].calls[b],
                ) == x;
            lemma_all_edges_has_call(ds, a, b);
            let v = (ds[a].id(), call_target(ds[a].calls[b]), ds[a].calls[b].2);
            let k = choose|k: int| 0 <= k < edge_views(g.edges@).len() && edge_views(g.edges@)[k] == v;
            assert(edge_view(g.edges@[k]) == v);
            assert(g.has_node(g.edges@[k].to@));
        }
    }
}

impl CallGraphBuilder {
    /// Build the graph, then traverse depth-first from each entry and merge
    /// the results; fails if the build fails or an entry names no node.
    pub fn build_from_entries(&self, entries: &[FunctionId]) -> (r: Result<(CallGraph, TraversalResult), String>)
        requires
            self.wf(),
        ensures
            r matches Ok((g, t)) ==> {
                &&& built_from(g, self@)
                &&& forall|i: int| 0 <= i < entries@.len() ==> in_built(self@, #[trigger] entries@[i]@)
                &&& t.wf()
                &&& forall|x: Seq<char>|
                    t@.contains(x) <==> exists|i: int|
                        0 <= i < entries@.len() && reaches(g, #[trigger] entries@[i]@, x)
            },
            r.is_err() <==> some_call_claims_missing(self@) || exists|i: int|
                0 <= i < entries@.len() && !in_built(self@, #[trigger] entries@[i]@),
            r matches Err(e) ==> if some_call_claims_missing(self@) {
                missing_message(self@, e@)
            } else {
                exists|i: int|
                    0 <= i < entries@.len() && !in_built(self@, #[trigger] entries@[i]@) && (forall|j: int|
                        0 <= j < i ==> in_built(self@, entries@[j]@)) && e@ == "Entry point not found: "@
                        + entries@[i]@
            },
            r matches Ok((g, t)) ==> call_ensures(traversal_from_entries, (&g, entries), t),
    {
        let graph = match self.build() {
            Ok(g) => g,
            Err(e) => return Err(e),
        };
        let mut i: usize = 0;
        while i < entries.len()
            invariant
                built_from(graph, self@),
                !some_call_claims_missing(self@),
                i <= entries@.len(),
                forall|j: int| 0 <= j < i ==> in_built(self@, #[trigger] entries@[j]@),
            decreases entries@.len() - i,
        {
            proof {
                lemma_built_nodes(graph, self@, entries@[i as int]@);
            }
            if !graph.contains_node(&entries[i]) {
                let mut msg = String::from_str("Entry point not found: ");
                msg.append(entries[i].as_str());
                return Err(msg);
            }
            i = i + 1;
        }
        let result = traversal_from_entries(&graph, entries);
        Ok((graph, result))
    }
}

} // verus!
