use trackast::ast::{FunctionDef, Signature};
use trackast::function_id::FunctionId;
use trackast::graph::{CallGraph, GraphEdge, GraphNode};

fn create_test_node(id: &str) -> (FunctionId, GraphNode) {
    let fn_id = FunctionId::new(id.to_string());
    let func_def = FunctionDef::new("test".to_string(), Signature::empty(), "test".to_string());
    let node = GraphNode::internal(fn_id.clone(), func_def);
    (fn_id, node)
}

#[test]
fn test_graph_node_internal() {
    let (id, node) = create_test_node("test::func::()");
    assert!(!node.is_external);
    assert_eq!(node.id, id);
}

#[test]
fn test_graph_node_external() {
    let (id, _) = create_test_node("test::func::()");
    let func_def = FunctionDef::new("test".to_string(), Signature::empty(), "test".to_string());
    let node = GraphNode::external(id.clone(), func_def);
    assert!(node.is_external);
    assert_eq!(node.id, id);
}

#[test]
fn test_graph_edge() {
    let id1 = FunctionId::new("a::()".to_string());
    let id2 = FunctionId::new("b::()".to_string());
    let edge = GraphEdge::new(id1, id2, 5);
    assert_eq!(edge.line, 5);
}

#[test]
fn test_call_graph_new() {
    let graph = CallGraph::new();
    assert_eq!(graph.node_count(), 0);
    assert_eq!(graph.edge_count(), 0);
}

#[test]
fn test_insert_node() {
    let mut graph = CallGraph::new();
    let (_, node) = create_test_node("a::()");
    assert!(graph.insert_node(node).is_ok());
    assert_eq!(graph.node_count(), 1);
}

#[test]
fn test_insert_duplicate_node() {
    let mut graph = CallGraph::new();
    let (_, node) = create_test_node("a::()");
    graph.insert_node(node.clone()).unwrap();
    assert!(graph.insert_node(node).is_err());
}

#[test]
fn test_insert_edge() {
    let mut graph = CallGraph::new();
    let (id1, node1) = create_test_node("a::()");
    let (id2, node2) = create_test_node("b::()");
    graph.insert_node(node1).unwrap();
    graph.insert_node(node2).unwrap();
    let edge = GraphEdge::new(id1, id2, 5);
    assert!(graph.insert_edge(edge).is_ok());
    assert_eq!(graph.edge_count(), 1);
}

#[test]
fn test_insert_edge_missing_from() {
    let mut graph = CallGraph::new();
    let (id1, node2) = create_test_node("b::()");
    let (id2, _) = create_test_node("c::()");
    graph.insert_node(node2).unwrap();
    let edge = GraphEdge::new(id1, id2, 5);
    assert!(graph.insert_edge(edge).is_err());
}

#[test]
fn test_get_node() {
    let mut graph = CallGraph::new();
    let (id, node) = create_test_node("a::()");
    graph.insert_node(node).unwrap();
    assert!(graph.get_node(&id).is_some());
}

#[test]
fn test_get_edges_from() {
    let mut graph = CallGraph::new();
    let (id1, node1) = create_test_node("a::()");
    let (id2, node2) = create_test_node("b::()");
    let (id3, node3) = create_test_node("c::()");
    graph.insert_node(node1).unwrap();
    graph.insert_node(node2).unwrap();
    graph.insert_node(node3).unwrap();
    graph.insert_edge(GraphEdge::new(id1.clone(), id2, 5)).unwrap();
    graph.insert_edge(GraphEdge::new(id1.clone(), id3, 10)).unwrap();
    let edges = graph.get_edges_from(&id1);
    assert_eq!(edges.len(), 2);
}

#[test]
fn insert_edge_missing_to_is_rejected() {
    let mut graph = CallGraph::new();
    let (id1, node1) = create_test_node("a::()");
    graph.insert_node(node1).unwrap();
    let edge = GraphEdge::new(id1, FunctionId::new("nowhere".to_string()), 1);
    assert!(graph.insert_edge(edge).is_err());
    assert_eq!(graph.edge_count(), 0);
}

#[test]
fn get_edges_to_keeps_duplicates() {
    let mut graph = CallGraph::new();
    let (a, na) = create_test_node("a");
    let (b, nb) = create_test_node("b");
    graph.insert_node(na).unwrap();
    graph.insert_node(nb).unwrap();
    graph.insert_edge(GraphEdge::new(a.clone(), b.clone(), 1)).unwrap();
    graph.insert_edge(GraphEdge::new(a.clone(), b.clone(), 2)).unwrap();
    assert_eq!(graph.get_edges_to(&b).len(), 2);
    assert_eq!(graph.get_edges_to(&a).len(), 0);
}
