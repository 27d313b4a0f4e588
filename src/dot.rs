use vstd::prelude::*;

use crate::graph::{CallGraph, GraphEdge, GraphNode};
use crate::text::{chars_of, join, split_str, split_text, string_of};
use crate::traversal::texts;

verus! {

/// The decimal digits of `n`.
pub open spec fn decimal(n: nat) -> Seq<char>
    decreases n,
{
    if n < 10 {
        seq![digit(n)]
    } else {
        decimal(n / 10) + seq![digit(n % 10)]
    }
}

pub open spec fn digit(d: nat) -> char {
    if d == 0 { '0' } else if d == 1 { '1' } else if d == 2 { '2' } else if d == 3 { '3' }
    else if d == 4 { '4' } else if d == 5 { '5' } else if d == 6 { '6' } else if d == 7 { '7' }
    else if d == 8 { '8' } else { '9' }
}

/// An id with each `::` replaced by a line break.
pub open spec fn label_of(id: Seq<char>) -> Seq<char> {
    join(split_str(id, "::"@), "\n"@)
}

pub open spec fn node_line(n: GraphNode) -> Seq<char> {
    "    \""@ + n.id@ + "\" [label=\""@ + label_of(n.id@) + "\""@ + (if n.is_external {
        ", style=filled, fillcolor=lightgray"@
    } else {
        ", style=filled, fillcolor=lightblue"@
    }) + "];\n"@
}

pub open spec fn edge_line(e: GraphEdge) -> Seq<char> {
    "    \""@ + e.from@ + "\" -> \""@ + e.to@ + "\""@ + (if e.line > 0 {
        ", label=\"L"@ + decimal(e.line as nat) + "\""@
    } else {
        Seq::empty()
    }) + ";\n"@
}

pub open spec fn node_lines(ns: Seq<GraphNode>) -> Seq<char>
    decreases ns.len(),
{
    if ns.len() == 0 {
        Seq::empty()
    } else {
        node_lines(ns.drop_last()) + node_line(ns.last())
    }
}

pub open spec fn edge_lines(es: Seq<GraphEdge>) -> Seq<char>
    decreases es.len(),
{
    if es.len() == 0 {
        Seq::empty()
    } else {
        edge_lines(es.drop_last()) + edge_line(es.last())
    }
}

/// The Graphviz text of a graph: left-to-right, boxed nodes in node order,
/// internal ones light blue and external ones light gray, then the edges in
/// order, labelled with their line when it is known.
pub open spec fn dot_text(g: CallGraph) -> Seq<char> {
    "digraph CallGraph {\n    rankdir=LR;\n    node [shape=box];\n\n"@ + node_lines(g.nodes@) + "\n"@
        + edge_lines(g.edges@) + "}\n"@
}

fn push_text(out: &mut Vec<char>, s: &str)
    ensures
        final(out)@ == old(out)@ + s@,
{
    let cs = chars_of(s);
    let ghost start = out@;
    let mut i: usize = 0;
    while i < cs.len()
        invariant
            i <= cs@.len(),
            out@ == start + cs@.subrange(0, i as int),
        decreases cs@.len() - i,
    {
        out.push(cs[i]);
        assert(out@ =~= start + cs@.subrange(0, i + 1));
        i = i + 1;
    }
    assert(cs@.subrange(0, i as int) =~= cs@);
}

fn digit_char(d: usize) -> (r: char)
    requires
        d < 10,
    ensures
        r == digit(d as nat),
{
    if d == 0 { '0' } else if d == 1 { '1' } else if d == 2 { '2' } else if d == 3 { '3' }
    else if d == 4 { '4' } else if d == 5 { '5' } else if d == 6 { '6' } else if d == 7 { '7' }
    else if d == 8 { '8' } else { '9' }
}

fn push_decimal(out: &mut Vec<char>, n: usize)
    ensures
        final(out)@ == old(out)@ + decimal(n as nat),
    decreases n,
{
    if n < 10 {
        out.push(digit_char(n));
    } else {
        push_decimal(out, n / 10);
        out.push(digit_char(n % 10));
    }
}

fn push_label(out: &mut Vec<char>, id: &str)
    ensures
        final(out)@ == old(out)@ + label_of(id@),
{
    let parts = split_text(id, "::");
    let ghost ps = texts(parts@);
    let ghost start = out@;
    let mut i: usize = 0;
    while i < parts.len()
        invariant
            i <= parts@.len(),
            ps == texts(parts@),
            ps == split_str(id@, "::"@),
            out@ == start + join(ps.subrange(0, i as int), "\n"@),
        decreases parts@.len() - i,
    {
        proof {
            let sub = ps.subrange(0, i + 1);
            assert(sub.drop_last() =~= ps.subrange(0, i as int));
            assert(sub.last() == parts@[i as int]@);
        }
        if i > 0 {
            push_text(out, "\n");
        } else {
            assert(join(ps.subrange(0, 0), "\n"@) =~= Seq::<char>::empty());
        }
        push_text(out, parts[i].as_str());
        assert(out@ =~= start + join(ps.subrange(0, i + 1), "\n"@));
        i = i + 1;
    }
    assert(ps.subrange(0, i as int) =~= ps);
}

fn push_edge_line(out: &mut Vec<char>, e: &GraphEdge)
    ensures
        final(out)@ == old(out)@ + edge_line(*e),
{
    let ghost before = out@;
    push_text(out, "    \"");
    push_text(out, e.from.as_str());
    push_text(out, "\" -> \"");
    push_text(out, e.to.as_str());
    push_text(out, "\"");
    let ghost mid = out@;
    if e.line > 0 {
        push_text(out, ", label=\"L");
        push_decimal(out, e.line);
        push_text(out, "\"");
    }
    assert(out@ =~= mid + (if e.line > 0 {
        ", label=\"L"@ + decimal(e.line as nat) + "\""@
    } else {
        Seq::empty()
    }));
    push_text(out, ";\n");
    assert(out@ =~= before + edge_line(*e));
}

/// Generate Graphviz DOT text for the call graph.
pub fn to_dot(graph: &CallGraph) -> (r: String)
    ensures
        r@ == dot_text(*graph),
{
    let mut out: Vec<char> = Vec::new();
    push_text(&mut out, "digraph CallGraph {\n    rankdir=LR;\n    node [shape=box];\n\n");
    let ghost head = out@;
    let mut i: usize = 0;
    while i < graph.nodes.len()
        invariant
            i <= graph.nodes@.len(),
            out@ == head + node_lines(graph.nodes@.subrange(0, i as int)),
        decreases graph.nodes@.len() - i,
    {
        let ghost before = out@;
        let n = &graph.nodes[i];
        push_text(&mut out, "    \"");
        push_text(&mut out, n.id.as_str());
        push_text(&mut out, "\" [label=\"");
        push_label(&mut out, n.id.as_str());
        push_text(&mut out, "\"");
        if n.is_external {
            push_text(&mut out, ", style=filled, fillcolor=lightgray");
        } else {
            push_text(&mut out, ", style=filled, fillcolor=lightblue");
        }
        push_text(&mut out, "];\n");
        proof {
            let sub = graph.nodes@.subrange(0, i + 1);
            assert(sub.drop_last() =~= graph.nodes@.subrange(0, i as int));
            assert(out@ =~= before + node_line(*n));
        }
        i = i + 1;
    }
    assert(graph.nodes@.subrange(0, i as int) =~= graph.nodes@);
    push_text(&mut out, "\n");
    let ghost mid = out@;
    let mut k: usize = 0;
    while k < graph.edges.len()
        invariant
            k <= graph.edges@.len(),
            out@ == mid + edge_lines(graph.edges@.subrange(0, k as int)),
        decreases graph.edges@.len() - k,
    {
        push_edge_line(&mut out, &graph.edges[k]);
        proof {
            let sub = graph.edges@.subrange(0, k + 1);
            assert(sub.drop_last() =~= graph.edges@.subrange(0, k as int));
        }
        k = k + 1;
    }
    assert(graph.edges@.subrange(0, k as int) =~= graph.edges@);
    push_text(&mut out, "}\n");
    let r = string_of(out.as_slice(), 0, out.len());
    assert(out@.subrange(0, out@.len() as int) =~= out@);
    r
}

} // verus!
