use std::collections::HashMap;

use cleanroom::dependency_graph::{DepEdgeKind, DepNode, DepNodeType, DependencyGraph};

fn make_node(id: &str, name: &str, node_type: DepNodeType) -> DepNode {
    DepNode { id: id.to_string(), name: name.to_string(), node_type }
}

#[test]
fn test_empty_graph() {
    let graph = DependencyGraph::new();
    assert_eq!(graph.node_count(), 0);
    assert_eq!(graph.edge_count(), 0);
    assert!(graph.detect_cycles().is_empty());
}

#[test]
fn test_add_nodes_and_edges() {
    let mut graph = DependencyGraph::new();
    graph.add_node(make_node("a", "Module A", DepNodeType::Module));
    graph.add_node(make_node("b", "Module B", DepNodeType::Module));
    graph.add_edge("a", "b", DepEdgeKind::Import);

    assert_eq!(graph.node_count(), 2);
    assert_eq!(graph.edge_count(), 1);

    let upstream = graph.upstream("a");
    assert_eq!(upstream.len(), 1);
    assert_eq!(upstream[0].id, "b");
}

#[test]
fn test_cycle_detection() {
    let mut graph = DependencyGraph::new();
    graph.add_node(make_node("a", "A", DepNodeType::Module));
    graph.add_node(make_node("b", "B", DepNodeType::Module));
    graph.add_node(make_node("c", "C", DepNodeType::Module));

    graph.add_edge("a", "b", DepEdgeKind::Import);
    graph.add_edge("b", "c", DepEdgeKind::Import);
    graph.add_edge("c", "a", DepEdgeKind::Import);

    let cycles = graph.detect_cycles();
    assert!(!cycles.is_empty());
    assert!(graph.topological_sort().is_none());
}

#[test]
fn test_topological_sort() {
    let mut graph = DependencyGraph::new();
    graph.add_node(make_node("a", "A", DepNodeType::Module));
    graph.add_node(make_node("b", "B", DepNodeType::Module));
    graph.add_node(make_node("c", "C", DepNodeType::Module));

    graph.add_edge("c", "a", DepEdgeKind::Import);
    graph.add_edge("b", "a", DepEdgeKind::Import);

    let sorted = graph.topological_sort().unwrap();
    let pos_a = sorted.iter().position(|x| x == "a").unwrap();
    let pos_b = sorted.iter().position(|x| x == "b").unwrap();
    let pos_c = sorted.iter().position(|x| x == "c").unwrap();
    assert!(pos_b < pos_a);
    assert!(pos_c < pos_a);
}

#[test]
fn test_downstream() {
    let mut graph = DependencyGraph::new();
    graph.add_node(make_node("base", "Base", DepNodeType::Interface));
    graph.add_node(make_node("impl", "Impl", DepNodeType::Module));
    graph.add_edge("impl", "base", DepEdgeKind::Implements);

    let downstream = graph.downstream("base");
    assert_eq!(downstream.len(), 1);
    assert_eq!(downstream[0].id, "impl");
}

#[test]
fn test_levels() {
    let mut graph = DependencyGraph::new();
    graph.add_node(make_node("root", "Root", DepNodeType::Module));
    graph.add_node(make_node("mid", "Mid", DepNodeType::Module));
    graph.add_node(make_node("leaf", "Leaf", DepNodeType::Module));

    graph.add_edge("mid", "root", DepEdgeKind::Import);
    graph.add_edge("leaf", "mid", DepEdgeKind::Import);

    let levels: HashMap<String, usize> = graph.levels().into_iter().collect();
    assert_eq!(*levels.get("root").unwrap(), 0);
    assert_eq!(*levels.get("mid").unwrap(), 1);
    assert_eq!(*levels.get("leaf").unwrap(), 2);
}

#[test]
fn acyclic_graph_has_no_cycles_and_a_topological_order() {
    let mut graph = DependencyGraph::new();
    for id in ["a", "b", "c", "d"] {
        graph.add_node(make_node(id, id, DepNodeType::File));
    }
    graph.add_edge("a", "b", DepEdgeKind::Uses);
    graph.add_edge("b", "c", DepEdgeKind::Uses);
    graph.add_edge("a", "d", DepEdgeKind::References);
    assert!(graph.detect_cycles().is_empty());
    let order = graph.topological_sort().unwrap();
    assert_eq!(order.len(), 4);
    let pos = |x: &str| order.iter().position(|y| y == x).unwrap();
    assert!(pos("a") < pos("b"));
    assert!(pos("b") < pos("c"));
    assert!(pos("a") < pos("d"));
}

#[test]
fn duplicate_node_ids_are_kept_once() {
    let mut graph = DependencyGraph::new();
    graph.add_node(make_node("a", "A", DepNodeType::File));
    graph.add_node(make_node("a", "Again", DepNodeType::Module));
    assert_eq!(graph.node_count(), 1);
}

#[test]
fn self_loop_is_a_cycle() {
    let mut graph = DependencyGraph::new();
    graph.add_node(make_node("x", "X", DepNodeType::Entity));
    graph.add_edge("x", "x", DepEdgeKind::Extends);
    assert!(!graph.detect_cycles().is_empty());
    assert!(graph.topological_sort().is_none());
}
