//! Entry points named by `module::function` or `module::function::signature`.
use vstd::prelude::*;
use vstd::string::*;

use crate::function_id::FunctionId;
use crate::graph::{CallGraph, GraphNode};
use crate::text::{chars_of, find_from, find_in, str_eq, string_of};
use crate::traversal::{ids, texts};

verus! {

/// `s` split at its first two `::`: one, two or three parts, the last
/// holding the rest of `s`.
pub open spec fn split3(s: Seq<char>) -> Seq<Seq<char>> {
    let a = find_from(s, "::"@, 0);
    if a < 0 {
        seq![s]
    } else {
        let rest = s.subrange(a + 2, s.len() as int);
        let b = find_from(rest, "::"@, 0);
        if b < 0 {
            seq![s.subrange(0, a), rest]
        } else {
            seq![s.subrange(0, a), rest.subrange(0, b), rest.subrange(b + 2, rest.len() as int)]
        }
    }
}

/// Node id `id` belongs to function `f` of module `m`, whatever its signature.
pub open spec fn fuzzy_match(id: Seq<char>, m: Seq<char>, f: Seq<char>) -> bool {
    split3(id).len() >= 2 && split3(id)[0] == m && split3(id)[1] == f
}

/// The ids of the nodes of `ns` that belong to `f` of module `m`, in node order.
pub open spec fn fuzzy_ids(ns: Seq<GraphNode>, m: Seq<char>, f: Seq<char>) -> Seq<Seq<char>>
    decreases ns.len(),
{
    if ns.len() == 0 {
        Seq::empty()
    } else {
        fuzzy_ids(ns.drop_last(), m, f) + if fuzzy_match(ns.last().id@, m, f) {
            seq![ns.last().id@]
        } else {
            Seq::empty()
        }
    }
}

/// The ids that one entry specification selects; none when it selects
/// nothing or is malformed.
pub open spec fn entry_ids(g: CallGraph, s: Seq<char>) -> Option<Seq<Seq<char>>> {
    let p = split3(s);
    if p.len() == 3 {
        if g.has_node(s) {
            Some(seq![s])
        } else {
            None
        }
    } else if p.len() == 2 {
        let found = fuzzy_ids(g.nodes@, p[0], p[1]);
        if found.len() > 0 {
            Some(found)
        } else {
            None
        }
    } else {
        None
    }
}

/// The ids that a list of entry specifications selects, in order; none
/// when one of them fails.
pub open spec fn all_entry_ids(g: CallGraph, ss: Seq<Seq<char>>) -> Option<Seq<Seq<char>>>
    decreases ss.len(),
{
    if ss.len() == 0 {
        Some(Seq::empty())
    } else {
        match (all_entry_ids(g, ss.drop_last()), entry_ids(g, ss.last())) {
            (Some(a), Some(b)) => Some(a + b),
            _ => None,
        }
    }
}

/// The message for an entry specification that selects nothing.
pub open spec fn failure_of(s: Seq<char>) -> Seq<char> {
    if split3(s).len() < 2 {
        "Invalid entry point format '"@ + s + "'"@
    } else if split3(s).len() == 2 {
        "No matching entry point found for '"@ + s + "'"@
    } else {
        "Entry point not found: "@ + s
    }
}

/// The message for the first entry specification of `ss` that fails.
pub open spec fn entry_failure(g: CallGraph, ss: Seq<Seq<char>>) -> Seq<char>
    decreases ss.len(),
{
    if ss.len() == 0 {
        Seq::empty()
    } else if all_entry_ids(g, ss.drop_last()) is None {
        entry_failure(g, ss.drop_last())
    } else {
        failure_of(ss.last())
    }
}

proof fn lemma_failure_message_persists(g: CallGraph, ss: Seq<Seq<char>>, i: int, j: int)
    requires
        0 <= i <= j <= ss.len(),
        all_entry_ids(g, ss.subrange(0, i)) is None,
    ensures
        entry_failure(g, ss.subrange(0, j)) == entry_failure(g, ss.subrange(0, i)),
    decreases j - i,
{
    if j > i {
        lemma_failure_message_persists(g, ss, i, j - 1);
        lemma_failure_persists(g, ss, i, j - 1);
        assert(ss.subrange(0, j).drop_last() =~= ss.subrange(0, j - 1));
    }
}

fn split3_text(s: &str) -> (r: Vec<String>)
    ensures
        texts(r@) == split3(s@),
{
    let cs = chars_of(s);
    let mut sep: Vec<char> = Vec::new();
    sep.push(':');
    sep.push(':');
    proof {
        reveal_strlit("::");
        assert(sep@ =~= "::"@);
    }
    let n = cs.len();
    let mut out: Vec<String> = Vec::new();
    match find_in(cs.as_slice(), sep.as_slice(), 0) {
        None => {
            out.push(string_of(cs.as_slice(), 0, n));
            assert(cs@.subrange(0, n as int) =~= cs@);
            assert(texts(out@) =~= split3(s@));
        },
        Some(a) => {
            out.push(string_of(cs.as_slice(), 0, a));
            let rest = string_of(cs.as_slice(), a + 2, n);
            let rc = chars_of(rest.as_str());
            match find_in(rc.as_slice(), sep.as_slice(), 0) {
                None => {
                    out.push(rest);
                    assert(texts(out@) =~= split3(s@));
                },
                Some(b) => {
                    out.push(string_of(rc.as_slice(), 0, b));
                    out.push(string_of(rc.as_slice(), b + 2, rc.len()));
                    assert(texts(out@) =~= split3(s@));
                },
            }
        },
    }
    out
}

fn fuzzy_matches(id: &FunctionId, m: &str, f: &str) -> (r: bool)
    ensures
        r == fuzzy_match(id@, m@, f@),
{
    let p = split3_text(id.as_str());
    p.len() >= 2 && str_eq(p[0].as_str(), m) && str_eq(p[1].as_str(), f)
}

/// The ids that one entry specification selects.
fn select(spec: &str, graph: &CallGraph) -> (r: Option<Vec<FunctionId>>)
    ensures
        match r {
            Some(v) => entry_ids(*graph, spec@) == Some(ids(v@)),
            None => entry_ids(*graph, spec@) is None,
        },
{
    let p = split3_text(spec);
    if p.len() == 3 {
        let id = FunctionId::new(String::from_str(spec));
        if graph.contains_node(&id) {
            let mut v: Vec<FunctionId> = Vec::new();
            v.push(id);
            assert(ids(v@) =~= seq![spec@]);
            return Some(v);
        }
        return None;
    }
    if p.len() != 2 {
        return None;
    }
    let mut v: Vec<FunctionId> = Vec::new();
    let mut i: usize = 0;
    while i < graph.nodes.len()
        invariant
            i <= graph.nodes@.len(),
            texts(p@) == split3(spec@),
            p@.len() == 2,
            ids(v@) == fuzzy_ids(graph.nodes@.subrange(0, i as int), p@[0]@, p@[1]@),
        decreases graph.nodes@.len() - i,
    {
        let ghost before = ids(v@);
        proof {
            let sub = graph.nodes@.subrange(0, i + 1);
            assert(sub.drop_last() =~= graph.nodes@.subrange(0, i as int));
            assert(sub.last() == graph.nodes@[i as int]);
        }
        if fuzzy_matches(&graph.nodes[i].id, p[0].as_str(), p[1].as_str()) {
            v.push(graph.nodes[i].id.clone());
            assert(ids(v@) =~= before.push(graph.nodes@[i as int].id@));
        }
        i = i + 1;
    }
    assert(graph.nodes@.subrange(0, i as int) =~= graph.nodes@);
    if v.len() == 0 {
        return None;
    }
    Some(v)
}

/// Resolve entry specifications against the graph's node ids:
/// `module::function` selects every node of that function, whatever its
/// signature, and fails if there is none; `module::function::signature`
/// selects the node with exactly that id, and fails if it is absent; any
/// other form fails.
pub fn resolve_entry_points(entry_point_specs: &[String], graph: &CallGraph) -> (r: Result<Vec<FunctionId>, String>)
    ensures
        match r {
            Ok(v) => all_entry_ids(*graph, texts(entry_point_specs@)) == Some(ids(v@)),
            Err(e) => all_entry_ids(*graph, texts(entry_point_specs@)) is None && e@ == entry_failure(
                *graph,
                texts(entry_point_specs@),
            ),
        },
{
    let ghost ss = texts(entry_point_specs@);
    let mut out: Vec<FunctionId> = Vec::new();
    let mut i: usize = 0;
    while i < entry_point_specs.len()
        invariant
            i <= entry_point_specs@.len(),
            ss == texts(entry_point_specs@),
            all_entry_ids(*graph, ss.subrange(0, i as int)) == Some(ids(out@)),
        decreases entry_point_specs@.len() - i,
    {
        proof {
            let sub = ss.subrange(0, i + 1);
            assert(sub.drop_last() =~= ss.subrange(0, i as int));
            assert(sub.last() == entry_point_specs@[i as int]@);
        }
        match select(entry_point_specs[i].as_str(), graph) {
            Some(v) => {
                let ghost before = ids(out@);
                let mut k: usize = 0;
                while k < v.len()
                    invariant
                        k <= v@.len(),
                        ids(out@) == before + ids(v@).subrange(0, k as int),
                    decreases v@.len() - k,
                {
                    let ghost b2 = ids(out@);
                    out.push(v[k].clone());
                    assert(ids(out@) =~= b2.push(v@[k as int]@));
                    assert(ids(out@) =~= before + ids(v@).subrange(0, k + 1));
                    k = k + 1;
                }
                assert(ids(v@).subrange(0, k as int) =~= ids(v@));
            },
            None => {
                let parts = split3_text(entry_point_specs[i].as_str()).len();
                proof {
                    assert(all_entry_ids(*graph, ss.subrange(0, i + 1)) is None);
                    lemma_failure_message_persists(*graph, ss, i + 1, ss.len() as int);
                    assert forall|j: int| i + 1 <= j <= ss.len() implies all_entry_ids(*graph, ss.subrange(0, j)) is None by {
                        lemma_failure_persists(*graph, ss, i + 1, j);
                    }
                    assert(ss.subrange(0, ss.len() as int) =~= ss);
                }
                let spec = entry_point_specs[i].as_str();
                if parts < 2 {
                    let mut msg = String::from_str("Invalid entry point format '");
                    msg.append(spec);
                    msg.append("'");
                    return Err(msg);
                }
                if parts == 2 {
                    let mut msg = String::from_str("No matching entry point found for '");
                    msg.append(spec);
                    msg.append("'");
                    return Err(msg);
                }
                let mut msg = String::from_str("Entry point not found: ");
                msg.append(spec);
                return Err(msg);
            },
        }
        i = i + 1;
    }
    assert(ss.subrange(0, i as int) =~= ss);
    Ok(out)
}

proof fn lemma_failure_persists(g: CallGraph, ss: Seq<Seq<char>>, i: int, j: int)
    requires
        0 <= i <= j <= ss.len(),
        all_entry_ids(g, ss.subrange(0, i)) is None,
    ensures
        all_entry_ids(g, ss.subrange(0, j)) is None,
    decreases j - i,
{
    if j > i {
        lemma_failure_persists(g, ss, i, j - 1);
        assert(ss.subrange(0, j).drop_last() =~= ss.subrange(0, j - 1));
    }
}

} // verus!
