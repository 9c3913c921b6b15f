use rust_audio_engine::commands::id::Id;
use rust_audio_engine::realtime::graph::{Direction, Graph};
use rust_audio_engine::realtime::topological_sort::TopologicalSort;

fn id(value: usize) -> Id {
    Id::with_value(value)
}

fn graph_with_nodes(count: usize) -> Graph<usize, &'static str> {
    let mut graph = Graph::with_capacity(8, 8);
    for value in 0..count {
        assert!(graph.add_node_with_id(id(value), value * 10).is_none());
    }
    graph
}

fn sorted(graph: &Graph<usize, &'static str>) -> Vec<Id> {
    let mut sort = TopologicalSort::with_capacity(8);
    sort.sort(graph);
    sort.get_sorted_graph().clone()
}

fn position(order: &[Id], value: usize) -> usize {
    order.iter().position(|entry| *entry == id(value)).unwrap()
}

#[test]
fn nodes_are_found_by_their_ids() {
    let graph = graph_with_nodes(3);
    assert_eq!(graph.num_nodes(), 3);
    assert_eq!(graph.index_of_node(id(1)), Some(1));
    assert_eq!(graph.index_of_node(id(5)), None);
    assert_eq!(graph.node_id_at(2), id(2));
    assert_eq!(*graph.node_at(2), 20);
}

#[test]
fn node_under_a_used_id_is_replaced() {
    let mut graph = graph_with_nodes(2);
    assert!(graph.add_edge(id(0), id(1), "a"));
    assert_eq!(graph.add_node_with_id(id(1), 99), Some(10));
    assert_eq!(graph.num_nodes(), 2);
    assert_eq!(*graph.node_at(1), 99);
    assert_eq!(graph.num_edges(), 1);
}

#[test]
fn node_can_be_changed_in_place() {
    let mut graph = graph_with_nodes(2);
    *graph.node_at_mut(1) += 5;
    assert_eq!(*graph.node_at(0), 0);
    assert_eq!(*graph.node_at(1), 15);
}

#[test]
fn node_is_removed_with_its_edges() {
    let mut graph = graph_with_nodes(4);
    assert!(graph.add_edge(id(0), id(1), "a"));
    assert!(graph.add_edge(id(1), id(2), "b"));
    assert!(graph.add_edge(id(2), id(3), "c"));
    assert!(graph.add_edge(id(3), id(1), "d"));

    assert_eq!(graph.remove_node(id(1)), Some(10));
    assert_eq!(graph.remove_node(id(1)), None);

    assert_eq!(graph.num_nodes(), 3);
    assert_eq!(graph.index_of_node(id(1)), None);
    assert_eq!(graph.index_of_node(id(2)), Some(1));
    assert_eq!(graph.num_edges(), 1);
    assert_eq!(graph.edge_at(0), (id(2), id(3)));
}

#[test]
fn edge_needs_both_its_nodes() {
    let mut graph = graph_with_nodes(2);
    assert!(!graph.add_edge(id(0), id(7), "a"));
    assert!(!graph.add_edge(id(7), id(0), "a"));
    assert_eq!(graph.num_edges(), 0);
    assert!(graph.add_edge(id(0), id(1), "a"));
    assert_eq!(graph.num_edges(), 1);
}

#[test]
fn edge_added_twice_is_one_edge() {
    let mut graph = graph_with_nodes(2);
    assert!(graph.add_edge(id(0), id(1), "a"));
    assert!(graph.add_edge(id(0), id(1), "b"));
    assert_eq!(graph.num_edges(), 1);
    assert_eq!(graph.remove_edge(id(0), id(1)), Some("b"));
    assert_eq!(graph.remove_edge(id(0), id(1)), None);
    assert_eq!(graph.num_edges(), 0);
}

#[test]
fn edges_have_a_direction() {
    let mut graph = graph_with_nodes(2);
    assert!(graph.add_edge(id(0), id(1), "a"));
    assert_eq!(graph.remove_edge(id(1), id(0)), None);
    assert!(graph.add_edge(id(1), id(0), "b"));
    assert_eq!(graph.num_edges(), 2);
}

#[test]
fn neighbors_follow_the_direction() {
    let mut graph = graph_with_nodes(4);
    assert!(graph.add_edge(id(0), id(2), "a"));
    assert!(graph.add_edge(id(1), id(2), "b"));
    assert!(graph.add_edge(id(2), id(3), "c"));
    assert_eq!(graph.neighbors(id(2), Direction::Incoming), vec![id(0), id(1)]);
    assert_eq!(graph.neighbors(id(2), Direction::Outgoing), vec![id(3)]);
    assert_eq!(graph.neighbors(id(0), Direction::Incoming), vec![]);
    assert_eq!(graph.neighbors(id(3), Direction::Outgoing), vec![]);
}

#[test]
fn sort_of_an_empty_graph_is_empty() {
    let graph = graph_with_nodes(0);
    assert_eq!(sorted(&graph), vec![]);
    assert_eq!(TopologicalSort::with_capacity(4).get_sorted_graph().len(), 0);
}

#[test]
fn sort_without_edges_holds_every_node() {
    let graph = graph_with_nodes(3);
    assert_eq!(sorted(&graph), vec![id(0), id(1), id(2)]);
}

#[test]
fn sort_puts_every_source_before_its_destination() {
    let mut graph = graph_with_nodes(6);
    let edges = [(5, 4), (4, 3), (3, 0), (5, 0), (2, 1), (1, 0), (2, 3)];
    for (from, to) in edges {
        assert!(graph.add_edge(id(from), id(to), "e"));
    }
    let order = sorted(&graph);
    assert_eq!(order.len(), 6);
    for (from, to) in edges {
        assert!(position(&order, from) < position(&order, to));
    }
}

#[test]
fn sort_leaves_out_a_cycle_and_what_hangs_on_it() {
    let mut graph = graph_with_nodes(6);
    // 0 -> 1 -> 2 -> 1 is a cycle through 1 and 2; 3 hangs on it; 4 -> 5 is free
    for (from, to) in [(0, 1), (1, 2), (2, 1), (2, 3), (4, 5)] {
        assert!(graph.add_edge(id(from), id(to), "e"));
    }
    let order = sorted(&graph);
    assert_eq!(order.len(), 3);
    assert!(order.contains(&id(0)));
    assert!(position(&order, 4) < position(&order, 5));
    for left_out in [1, 2, 3] {
        assert!(!order.contains(&id(left_out)));
    }
}

#[test]
fn sort_leaves_out_a_node_that_feeds_itself() {
    let mut graph = graph_with_nodes(2);
    assert!(graph.add_edge(id(0), id(0), "e"));
    assert_eq!(sorted(&graph), vec![id(1)]);
}

#[test]
fn sort_is_computed_anew_each_time() {
    let mut graph = graph_with_nodes(2);
    assert!(graph.add_edge(id(1), id(0), "e"));
    let mut sort = TopologicalSort::with_capacity(8);
    sort.sort(&graph);
    assert_eq!(sort.get_sorted_graph().clone(), vec![id(1), id(0)]);
    graph.remove_edge(id(1), id(0));
    assert!(graph.add_edge(id(0), id(1), "e"));
    sort.sort(&graph);
    assert_eq!(sort.get_sorted_graph().clone(), vec![id(0), id(1)]);
}
