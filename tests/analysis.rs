use trackast::ast::{AbstractAST, FunctionCall, FunctionDef, Signature};
use trackast::builder::CallGraphBuilder;
use trackast::cycles::{find_cycles, has_cycles, Cycle};
use trackast::dot::to_dot;
use trackast::function_id::FunctionId;
use trackast::graph::{CallGraph, GraphEdge, GraphNode};
use trackast::query::GraphQuery;
use trackast::traversal::{
    bfs_traversal, dfs_traversal, dfs_with_visitor, traversal_from_entries, TraversalResult, Visitor,
};

fn def(name: &str) -> FunctionDef {
    FunctionDef::new(name.to_string(), Signature::empty(), "root".to_string())
}

fn graph_of(names: &[&str], edges: &[(&str, &str, usize)]) -> CallGraph {
    let mut graph = CallGraph::new();
    for n in names {
        graph.insert_node(GraphNode::internal(FunctionId::new(n.to_string()), def(n))).unwrap();
    }
    for (a, b, l) in edges {
        graph
            .insert_edge(GraphEdge::new(FunctionId::new(a.to_string()), FunctionId::new(b.to_string()), *l))
            .unwrap();
    }
    graph
}

fn id(s: &str) -> FunctionId {
    FunctionId::new(s.to_string())
}

#[test]
fn test_builder_new() {
    let builder = CallGraphBuilder::new();
    assert_eq!(builder.asts.len(), 0);
    assert_eq!(builder.functions_map.len(), 0);
}

#[test]
fn test_add_ast() {
    let mut builder = CallGraphBuilder::new();
    let mut ast = AbstractAST::new("root".to_string());
    ast.add_function(def("main"));
    assert!(builder.add_ast(ast).is_ok());
    assert_eq!(builder.functions_map.len(), 1);
}

#[test]
fn test_add_duplicate_function() {
    let mut builder = CallGraphBuilder::new();
    let mut ast1 = AbstractAST::new("root".to_string());
    ast1.add_function(def("main"));
    builder.add_ast(ast1).unwrap();
    let mut ast2 = AbstractAST::new("root".to_string());
    ast2.add_function(def("main"));
    assert!(builder.add_ast(ast2).is_err());
}

#[test]
fn test_build_simple() {
    let mut builder = CallGraphBuilder::new();
    let mut ast = AbstractAST::new("root".to_string());
    ast.add_function(def("main"));
    builder.add_ast(ast).unwrap();
    let graph = builder.build().unwrap();
    assert_eq!(graph.node_count(), 1);
    assert_eq!(graph.edge_count(), 0);
}

#[test]
fn test_build_with_call() {
    let mut builder = CallGraphBuilder::new();
    let mut ast = AbstractAST::new("root".to_string());
    let mut main_func = def("main");
    main_func.add_call(FunctionCall::new("helper".to_string(), Some("root".to_string()), 5));
    ast.add_function(main_func);
    ast.add_function(def("helper"));
    builder.add_ast(ast).unwrap();
    let graph = builder.build().unwrap();
    assert_eq!(graph.node_count(), 2);
    assert_eq!(graph.edge_count(), 1);
}

#[test]
fn test_build_with_external_call() {
    let mut builder = CallGraphBuilder::new();
    let mut ast = AbstractAST::new("root".to_string());
    let mut main_func = def("main");
    main_func.add_call(FunctionCall::new("println".to_string(), None, 5));
    ast.add_function(main_func);
    builder.add_ast(ast).unwrap();
    let graph = builder.build().unwrap();
    assert_eq!(graph.node_count(), 2);
    assert_eq!(graph.edge_count(), 1);
}

#[test]
fn test_build_from_entries() {
    let mut builder = CallGraphBuilder::new();
    let mut ast = AbstractAST::new("root".to_string());
    let mut main_func = def("main");
    main_func.add_call(FunctionCall::new("helper".to_string(), Some("root".to_string()), 5));
    ast.add_function(main_func);
    ast.add_function(def("helper"));
    builder.add_ast(ast).unwrap();
    let main_id = id("root::main::() -> ()");
    let (graph, result) = builder.build_from_entries(&[main_id]).unwrap();
    assert_eq!(graph.node_count(), 2);
    assert_eq!(result.reachable.len(), 2);
}

#[test]
fn test_build_from_entries_nonexistent() {
    let builder = CallGraphBuilder::new();
    let missing_id = id("missing::()");
    assert!(builder.build_from_entries(&[missing_id.clone()]).is_err());
    assert_eq!(builder.build_from_entries(&[missing_id]).unwrap_err(), "Entry point not found: missing::()");
}

#[test]
fn test_cycle_creation() {
    let cycle = Cycle::new(vec![id("a::()"), id("b::()")]);
    assert_eq!(cycle.len(), 2);
    assert!(!cycle.is_empty());
}

#[test]
fn test_no_cycles() {
    let graph = graph_of(&["a::()", "b::()"], &[("a::()", "b::()", 1)]);
    assert!(find_cycles(&graph).is_empty());
}

#[test]
fn test_self_cycle() {
    let graph = graph_of(&["a::()"], &[("a::()", "a::()", 1)]);
    assert!(!find_cycles(&graph).is_empty());
}

#[test]
fn test_two_node_cycle() {
    let graph = graph_of(&["a::()", "b::()"], &[("a::()", "b::()", 1), ("b::()", "a::()", 2)]);
    assert!(!find_cycles(&graph).is_empty());
}

#[test]
fn test_three_node_cycle() {
    let graph = graph_of(
        &["a::()", "b::()", "c::()"],
        &[("a::()", "b::()", 1), ("b::()", "c::()", 2), ("c::()", "a::()", 3)],
    );
    assert!(!find_cycles(&graph).is_empty());
}

#[test]
fn test_has_cycles() {
    let graph = graph_of(&["a::()", "b::()"], &[("a::()", "b::()", 1), ("b::()", "a::()", 2)]);
    assert!(has_cycles(&graph));
}

#[test]
fn three_cycle_reported_once_and_edge_removal_clears_it() {
    let graph = graph_of(&["a", "b", "c"], &[("a", "b", 1), ("b", "c", 2), ("c", "a", 3)]);
    let cycles = find_cycles(&graph);
    assert_eq!(cycles.len(), 1);
    assert_eq!(cycles[0].len(), 3);
    assert_eq!(cycles[0].nodes, vec![id("a"), id("b"), id("c")]);
    assert!(has_cycles(&graph));
    let acyclic = graph_of(&["a", "b", "c"], &[("a", "b", 1), ("b", "c", 2)]);
    assert!(find_cycles(&acyclic).is_empty());
    assert!(!has_cycles(&acyclic));
}

#[test]
fn cycles_start_at_least_id() {
    let graph = graph_of(&["c", "b"], &[("c", "b", 1), ("b", "c", 2)]);
    let cycles = find_cycles(&graph);
    assert_eq!(cycles.len(), 1);
    assert_eq!(cycles[0].nodes, vec![id("b"), id("c")]);
}

#[test]
fn test_to_dot_empty() {
    let graph = CallGraph::new();
    let dot = to_dot(&graph);
    assert!(dot.contains("digraph CallGraph"));
    assert!(dot.contains("rankdir=LR"));
}

#[test]
fn test_to_dot_with_internal_node() {
    let mut graph = CallGraph::new();
    let func = FunctionDef::new("main".to_string(), Signature::empty(), "root".to_string());
    graph.insert_node(GraphNode::internal(id("root::main::() -> ()"), func)).unwrap();
    let dot = to_dot(&graph);
    assert!(dot.contains("root::main::() -> ()"));
    assert!(dot.contains("fillcolor=lightblue"));
}

#[test]
fn test_to_dot_with_external_node() {
    let mut graph = CallGraph::new();
    let func = FunctionDef::new("println".to_string(), Signature::empty(), "<external>".to_string());
    graph.insert_node(GraphNode::external(id("<external>::println::()"), func)).unwrap();
    let dot = to_dot(&graph);
    assert!(dot.contains("fillcolor=lightgray"));
}

#[test]
fn test_to_dot_with_edge() {
    let graph = graph_of(&["a::()", "b::()"], &[("a::()", "b::()", 5)]);
    let dot = to_dot(&graph);
    assert!(dot.contains("->"));
    assert!(dot.contains("L5"));
}

#[test]
fn test_to_dot_newline_formatting() {
    let mut graph = CallGraph::new();
    let func = FunctionDef::new("process".to_string(), Signature::empty(), "my_crate::utils::helpers".to_string());
    graph
        .insert_node(GraphNode::internal(id("my_crate::utils::helpers::process::() -> String"), func))
        .unwrap();
    let dot = to_dot(&graph);
    assert!(dot.contains("my_crate\nutils\nhelpers\nprocess\n() -> String"));
}

#[test]
fn to_dot_exact_text() {
    let graph = graph_of(&["a::x", "b"], &[("a::x", "b", 12), ("b", "a::x", 0)]);
    let expected = "digraph CallGraph {\n    rankdir=LR;\n    node [shape=box];\n\n    \"a::x\" [label=\"a\nx\", style=filled, fillcolor=lightblue];\n    \"b\" [label=\"b\", style=filled, fillcolor=lightblue];\n\n    \"a::x\" -> \"b\", label=\"L12\";\n    \"b\" -> \"a::x\";\n}\n";
    assert_eq!(to_dot(&graph), expected);
}

fn query_graph() -> CallGraph {
    let mut graph = graph_of(&["a::()", "b::()", "c::()"], &[("a::()", "b::()", 1), ("b::()", "c::()", 2)]);
    let func_ext = FunctionDef::new("ext".to_string(), Signature::empty(), "ext".to_string());
    graph.insert_node(GraphNode::external(id("<external>::ext::()"), func_ext)).unwrap();
    graph.insert_edge(GraphEdge::new(id("c::()"), id("<external>::ext::()"), 3)).unwrap();
    graph
}

#[test]
fn test_reachable_from_start() {
    let graph = query_graph();
    assert_eq!(graph.reachable_from(&id("a::()")).unwrap().len(), 4);
}

#[test]
fn test_reachable_from_middle() {
    let graph = query_graph();
    assert_eq!(graph.reachable_from(&id("b::()")).unwrap().len(), 3);
}

#[test]
fn test_reachable_from_nonexistent() {
    let graph = query_graph();
    assert!(graph.reachable_from(&id("missing::()")).is_err());
}

#[test]
fn test_direct_callers() {
    let graph = query_graph();
    let callers = graph.direct_callers(&id("b::()"));
    assert_eq!(callers.len(), 1);
    assert!(callers.contains(&id("a::()")));
}

#[test]
fn test_direct_callees() {
    let graph = query_graph();
    let callees = graph.direct_callees(&id("a::()"));
    assert_eq!(callees.len(), 1);
    assert!(callees.contains(&id("b::()")));
}

#[test]
fn test_get_function() {
    let graph = query_graph();
    assert!(graph.get_function(&id("a::()")).is_some());
}

#[test]
fn test_external_calls() {
    let graph = query_graph();
    let external = graph.external_calls();
    assert_eq!(external.len(), 1);
    assert_eq!(external[0].to, id("<external>::ext::()"));
}

#[test]
fn reachable_from_contains_itself() {
    let graph = query_graph();
    let r = graph.reachable_from(&id("c::()")).unwrap();
    assert!(r.contains(&id("c::()")));
}

#[test]
fn direct_callees_collapse_repeated_calls() {
    let graph = graph_of(&["a", "b", "c"], &[("a", "b", 1), ("a", "b", 2), ("a", "c", 3), ("a", "b", 4)]);
    let callees = graph.direct_callees(&id("a"));
    assert_eq!(callees, vec![id("b"), id("c")]);
    assert_eq!(graph.direct_callers(&id("b")), vec![id("a")]);
}

fn traversal_graph() -> CallGraph {
    graph_of(&["a::()", "b::()", "c::()"], &[("a::()", "b::()", 1), ("b::()", "c::()", 2)])
}

#[test]
fn test_traversal_result_new() {
    let result = TraversalResult::new();
    assert_eq!(result.reachable.len(), 0);
    assert_eq!(result.visited_order.len(), 0);
}

#[test]
fn test_traversal_result_add_node() {
    let mut result = TraversalResult::new();
    result.add_node(id("a::()"));
    assert_eq!(result.reachable.len(), 1);
    assert_eq!(result.visited_order.len(), 1);
}

#[test]
fn test_dfs_single_node() {
    let graph = traversal_graph();
    let result = dfs_traversal(&graph, &id("a::()"));
    assert_eq!(result.reachable.len(), 3);
    assert!(result.reachable.contains(&id("a::()")));
}

#[test]
fn test_dfs_from_middle() {
    let graph = traversal_graph();
    let result = dfs_traversal(&graph, &id("b::()"));
    assert_eq!(result.reachable.len(), 2);
    assert!(result.reachable.contains(&id("b::()")));
    assert!(result.reachable.contains(&id("c::()")));
}

#[test]
fn test_bfs_single_node() {
    let graph = traversal_graph();
    let result = bfs_traversal(&graph, &id("a::()"));
    assert_eq!(result.reachable.len(), 3);
    assert!(result.reachable.contains(&id("a::()")));
}

#[test]
fn test_traversal_from_entries() {
    let graph = traversal_graph();
    let entries = vec![id("a::()"), id("b::()")];
    let result = traversal_from_entries(&graph, &entries);
    assert_eq!(result.reachable.len(), 3);
}

#[test]
fn test_dfs_with_cycle() {
    let graph = graph_of(&["a::()", "b::()"], &[("a::()", "b::()", 1), ("b::()", "a::()", 2)]);
    let result = dfs_traversal(&graph, &id("a::()"));
    assert_eq!(result.reachable.len(), 2);
}

struct CountingVisitor {
    count: usize,
}

impl Visitor for CountingVisitor {
    fn visit(&mut self, _: &FunctionId) {
        self.count += 1;
    }
}

#[test]
fn test_dfs_with_visitor() {
    let graph = traversal_graph();
    let mut visitor = CountingVisitor { count: 0 };
    let result = dfs_with_visitor(&graph, &id("a::()"), &mut visitor);
    assert_eq!(visitor.count, 3);
    assert_eq!(result.reachable.len(), 3);
}

#[test]
fn dfs_visits_last_edge_first_and_bfs_first_edge_first() {
    let graph = graph_of(&["r", "x", "y", "z"], &[("r", "x", 1), ("r", "y", 2), ("x", "z", 3)]);
    let d = dfs_traversal(&graph, &id("r"));
    assert_eq!(d.visited_order, vec![id("r"), id("y"), id("x"), id("z")]);
    let b = bfs_traversal(&graph, &id("r"));
    assert_eq!(b.visited_order, vec![id("r"), id("x"), id("y"), id("z")]);
    let mut ds: Vec<String> = d.reachable.iter().map(|i| i.to_text()).collect();
    let mut bs: Vec<String> = b.reachable.iter().map(|i| i.to_text()).collect();
    ds.sort();
    bs.sort();
    assert_eq!(ds, bs);
}

#[test]
fn merging_a_result_into_itself_changes_nothing() {
    let graph = traversal_graph();
    let mut r = dfs_traversal(&graph, &id("a::()"));
    let copy = r.clone();
    r.merge(copy.clone());
    assert_eq!(r.visited_order, copy.visited_order);
    assert_eq!(r.reachable, copy.reachable);
}

#[test]
fn adding_same_ast_twice_fails_with_duplicate() {
    let mut builder = CallGraphBuilder::new();
    let mut ast = AbstractAST::new("m".to_string());
    ast.add_function(def("f"));
    builder.add_ast(ast.clone()).unwrap();
    let err = builder.add_ast(ast).unwrap_err();
    assert_eq!(err, "Duplicate function ID: root::f::() -> ()");
    assert_eq!(builder.functions_map.len(), 1);
    assert_eq!(builder.asts.len(), 1);
}

#[test]
fn external_synthesis_two_nodes_one_edge() {
    let mut builder = CallGraphBuilder::new();
    let mut ast = AbstractAST::new("root".to_string());
    let mut main_func = def("main");
    main_func.add_call(FunctionCall::new("println".to_string(), None, 3));
    ast.add_function(main_func);
    builder.add_ast(ast).unwrap();
    let graph = builder.build().unwrap();
    assert_eq!(graph.node_count(), 2);
    let ext = graph.get_node(&id("<external>::println::()")).unwrap();
    assert!(ext.is_external);
    assert_eq!(ext.metadata.name, "println");
    assert_eq!(graph.edge_count(), 1);
    assert_eq!(graph.edges[0].from, id("root::main::() -> ()"));
    assert_eq!(graph.edges[0].to, id("<external>::println::()"));
    assert_eq!(graph.edges[0].line, 3);
}

#[test]
fn module_qualified_call_to_missing_function_becomes_external() {
    let mut builder = CallGraphBuilder::new();
    let mut ast = AbstractAST::new("root".to_string());
    let mut f = def("main");
    f.add_call(FunctionCall::new("gone".to_string(), Some("lib".to_string()), 1));
    ast.add_function(f);
    builder.add_ast(ast).unwrap();
    let graph = builder.build().unwrap();
    let n = graph.get_node(&id("lib::gone::() -> ()")).unwrap();
    assert!(n.is_external);
}

#[test]
fn call_claiming_external_module_fails_the_build() {
    let mut builder = CallGraphBuilder::new();
    let mut ast = AbstractAST::new("root".to_string());
    let mut f = def("main");
    f.add_call(FunctionCall::new("x".to_string(), Some("<external>".to_string()), 1));
    ast.add_function(f);
    builder.add_ast(ast).unwrap();
    assert_eq!(builder.build().unwrap_err(), "To node does not exist: <external>::x::() -> ()");
}

#[test]
fn dead_code_is_not_reachable() {
    let mut builder = CallGraphBuilder::new();
    let mut ast = AbstractAST::new("app".to_string());
    let mut main_entry = FunctionDef::new("main_entry".to_string(), Signature::empty(), "app".to_string());
    main_entry.add_call(FunctionCall::new("process_data".to_string(), Some("app".to_string()), 2));
    main_entry.add_call(FunctionCall::new("output_result".to_string(), Some("app".to_string()), 3));
    ast.add_function(main_entry);
    ast.add_function(FunctionDef::new("process_data".to_string(), Signature::empty(), "app".to_string()));
    ast.add_function(FunctionDef::new("output_result".to_string(), Signature::empty(), "app".to_string()));
    ast.add_function(FunctionDef::new("unused_function".to_string(), Signature::empty(), "app".to_string()));
    builder.add_ast(ast).unwrap();
    let graph = builder.build().unwrap();
    let entries = trackast::entry::resolve_entry_points(&["app::main_entry".to_string()], &graph).unwrap();
    assert_eq!(entries, vec![id("app::main_entry::() -> ()")]);
    let (_, result) = builder.build_from_entries(&entries).unwrap();
    assert!(result.reachable.contains(&id("app::main_entry::() -> ()")));
    assert!(result.reachable.contains(&id("app::process_data::() -> ()")));
    assert!(result.reachable.contains(&id("app::output_result::() -> ()")));
    assert!(!result.reachable.contains(&id("app::unused_function::() -> ()")));
}

#[test]
fn entry_specs_exact_fuzzy_and_errors() {
    let graph = graph_of(&["m::f::() -> ()", "m::f::(x: u8) -> ()", "m::g::() -> ()"], &[]);
    let all = trackast::entry::resolve_entry_points(&["m::f".to_string()], &graph).unwrap();
    assert_eq!(all.len(), 2);
    let exact = trackast::entry::resolve_entry_points(&["m::g::() -> ()".to_string()], &graph).unwrap();
    assert_eq!(exact, vec![id("m::g::() -> ()")]);
    assert!(trackast::entry::resolve_entry_points(&["m::h".to_string()], &graph).is_err());
    assert_eq!(trackast::entry::resolve_entry_points(&["nocolons".to_string()], &graph).unwrap_err(), "Invalid entry point format 'nocolons'");
    assert_eq!(trackast::entry::resolve_entry_points(&["m::h".to_string()], &graph).unwrap_err(), "No matching entry point found for 'm::h'");
    assert_eq!(trackast::entry::resolve_entry_points(&["m::g::(y)".to_string()], &graph).unwrap_err(), "Entry point not found: m::g::(y)");
    assert!(trackast::entry::resolve_entry_points(&["m::g::(y)".to_string()], &graph).is_err());
}

fn built_example() -> (CallGraph, usize) {
    let mut builder = CallGraphBuilder::new();
    let mut ast = AbstractAST::new("m".to_string());
    let mut a = FunctionDef::new("a".to_string(), Signature::empty(), "m".to_string());
    a.add_call(FunctionCall::new("b".to_string(), Some("m".to_string()), 1));
    a.add_call(FunctionCall::new("b".to_string(), Some("m".to_string()), 2));
    a.add_call(FunctionCall::new("log".to_string(), None, 3));
    a.add_call(FunctionCall::new("log".to_string(), None, 4));
    a.add_call(FunctionCall::new("gone".to_string(), Some("other".to_string()), 5));
    ast.add_function(a);
    let mut b = FunctionDef::new("b".to_string(), Signature::empty(), "m".to_string());
    b.add_call(FunctionCall::new("log".to_string(), None, 7));
    ast.add_function(b);
    let defs = ast.functions.len();
    builder.add_ast(ast).unwrap();
    (builder.build().unwrap(), defs)
}

#[test]
fn built_graph_edges_join_existing_nodes() {
    let (graph, _) = built_example();
    assert_eq!(graph.edge_count(), 6);
    for e in &graph.edges {
        assert!(graph.get_node(&e.from).is_some());
        assert!(graph.get_node(&e.to).is_some());
    }
}

#[test]
fn built_graph_has_one_internal_node_per_definition() {
    let (graph, defs) = built_example();
    let internal: Vec<&GraphNode> = graph.nodes.iter().filter(|n| !n.is_external).collect();
    assert_eq!(internal.len(), defs);
    assert_eq!(graph.node_count(), 4);
    assert!(graph.get_node(&id("<external>::log::()")).unwrap().is_external);
    assert!(graph.get_node(&id("other::gone::() -> ()")).unwrap().is_external);
}

#[test]
fn built_graph_callees_count_distinct_targets() {
    let (graph, _) = built_example();
    let callees = graph.direct_callees(&id("m::a::() -> ()"));
    assert_eq!(callees.len(), 3);
    assert_eq!(graph.direct_callers(&id("<external>::log::()")).len(), 2);
}

#[test]
fn has_cycles_agrees_with_find_cycles() {
    let graphs = vec![
        graph_of(&["a"], &[]),
        graph_of(&["a"], &[("a", "a", 1)]),
        graph_of(&["a", "b", "c"], &[("a", "b", 1), ("b", "c", 1)]),
        graph_of(&["a", "b", "c"], &[("a", "b", 1), ("b", "c", 1), ("c", "b", 1)]),
    ];
    for g in &graphs {
        assert_eq!(has_cycles(g), !find_cycles(g).is_empty());
    }
}

#[test]
fn reachable_subgraph_keeps_reached_part() {
    let graph = graph_of(&["a", "b", "c"], &[("a", "b", 1), ("c", "a", 2), ("b", "b", 3)]);
    let reached = dfs_traversal(&graph, &id("a"));
    let sub = trackast::query::reachable_subgraph(&graph, &reached);
    assert_eq!(sub.node_count(), 2);
    assert_eq!(sub.edge_count(), 2);
    assert!(sub.get_node(&id("c")).is_none());
}

#[test]
fn cycles_are_sorted_by_node_lists() {
    let graph = graph_of(
        &["d", "c", "b", "a"],
        &[("d", "d", 1), ("c", "b", 1), ("b", "c", 1), ("a", "a", 1)],
    );
    let cycles = find_cycles(&graph);
    let lists: Vec<Vec<FunctionId>> = cycles.iter().map(|c| c.nodes.clone()).collect();
    assert_eq!(lists, vec![vec![id("a")], vec![id("b"), id("c")], vec![id("d")]]);
}

#[test]
fn cycle_search_follows_breadth_first_walks() {
    let graph = graph_of(
        &["a", "b", "c", "d"],
        &[
            ("a", "b", 1), ("b", "c", 1), ("c", "d", 1), ("d", "a", 1),
            ("a", "c", 1), ("b", "d", 1), ("c", "a", 1), ("d", "b", 1),
        ],
    );
    let lists: Vec<Vec<String>> = find_cycles(&graph)
        .iter()
        .map(|c| c.nodes.iter().map(|i| i.to_text()).collect())
        .collect();
    let expected: Vec<Vec<String>> = vec![
        vec!["a", "b", "c"], vec!["a", "b", "d"], vec!["a", "c"],
        vec!["a", "c", "d"], vec!["b", "c", "d"], vec!["b", "d"],
    ]
    .into_iter()
    .map(|v| v.into_iter().map(|s| s.to_string()).collect())
    .collect();
    assert_eq!(lists, expected);
}
