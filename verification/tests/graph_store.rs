use faster_cp::graph::{build_graph, GraphWrapper, PartitionError};

fn triangle() -> GraphWrapper {
    let mut g = GraphWrapper::new();
    g.add_edges(vec![(10, 20), (20, 30), (10, 30)]);
    g
}

#[test]
fn new_graph_is_empty() {
    let g = GraphWrapper::new();
    assert_eq!(g.node_count(), 0);
    assert_eq!(g.edge_count(), 0);
    assert_eq!(g.count_partition_value(0), 0);
    assert_eq!(g.count_partition_value(1), 0);
}

#[test]
fn add_edges_indexes_nodes_in_first_seen_order() {
    let g = triangle();
    assert_eq!(g.node_count(), 3);
    assert_eq!(g.edge_count(), 3);
    assert_eq!(g.external_id(0), 10);
    assert_eq!(g.external_id(1), 20);
    assert_eq!(g.external_id(2), 30);
    assert_eq!(g.edge_endpoints(0), (0, 1));
    assert_eq!(g.edge_endpoints(1), (1, 2));
    assert_eq!(g.edge_endpoints(2), (0, 2));
}

#[test]
fn add_edges_extends_an_existing_graph() {
    let mut g = triangle();
    g.add_edges(vec![(30, 40), (-5, 10)]);
    assert_eq!(g.node_count(), 5);
    assert_eq!(g.edge_count(), 5);
    assert_eq!(g.external_id(3), 40);
    assert_eq!(g.external_id(4), -5);
    assert_eq!(g.edge_endpoints(3), (2, 3));
    assert_eq!(g.edge_endpoints(4), (4, 0));
}

#[test]
fn add_edges_with_no_pairs_changes_nothing() {
    let mut g = triangle();
    g.add_edges(Vec::new());
    assert_eq!(g.node_count(), 3);
    assert_eq!(g.edge_count(), 3);
}

#[test]
fn parallel_edges_and_loops_are_kept() {
    let mut g = GraphWrapper::new();
    g.add_edges(vec![(1, 1), (1, 2), (1, 2), (2, 1)]);
    assert_eq!(g.node_count(), 2);
    assert_eq!(g.edge_count(), 4);
    assert_eq!(g.edge_endpoints(0), (0, 0));
    assert_eq!(g.edge_endpoints(3), (1, 0));
}

#[test]
fn neighbors_lists_the_far_end_of_every_edge() {
    let g = triangle();
    let mut near = g.neighbors(0);
    near.sort();
    assert_eq!(near, vec![1, 2]);
    let mut near = g.neighbors(2);
    near.sort();
    assert_eq!(near, vec![0, 1]);
}

#[test]
fn neighbors_counts_a_loop_once_and_parallel_edges_each() {
    let mut g = GraphWrapper::new();
    g.add_edges(vec![(1, 1), (1, 2), (1, 2), (2, 1), (3, 4)]);
    let mut near = g.neighbors(0);
    near.sort();
    assert_eq!(near, vec![0, 1, 1, 1]);
    let mut near = g.neighbors(1);
    near.sort();
    assert_eq!(near, vec![0, 0, 0]);
    assert_eq!(g.neighbors(2), vec![3]);
}

#[test]
fn set_partition_records_labels() {
    let mut g = triangle();
    assert_eq!(g.label(0), None);
    assert_eq!(g.set_partition(&vec![(10, 0), (30, 1)]), Ok(()));
    assert_eq!(g.label(0), Some(0));
    assert_eq!(g.label(1), None);
    assert_eq!(g.label(2), Some(1));
    assert_eq!(g.count_partition_value(0), 1);
    assert_eq!(g.count_partition_value(1), 1);
    assert_eq!(g.count_partition_value(7), 0);
}

#[test]
fn set_partition_lets_a_later_entry_override() {
    let mut g = triangle();
    assert_eq!(g.set_partition(&vec![(10, 0), (20, 0), (10, 1)]), Ok(()));
    assert_eq!(g.label(0), Some(1));
    assert_eq!(g.label(1), Some(0));
    assert_eq!(g.set_partition(&vec![(20, 1)]), Ok(()));
    assert_eq!(g.label(1), Some(1));
    assert_eq!(g.count_partition_value(1), 2);
}

#[test]
fn set_partition_with_unknown_id_reports_it_and_changes_nothing() {
    let mut g = triangle();
    assert_eq!(g.set_partition(&vec![(10, 0), (20, 1), (30, 1)]), Ok(()));
    let outcome = g.set_partition(&vec![(10, 1), (99, 0), (20, 0), (77, 1)]);
    assert_eq!(outcome, Err(PartitionError::UnknownNode(99)));
    assert_eq!(g.label(0), Some(0));
    assert_eq!(g.label(1), Some(1));
    assert_eq!(g.label(2), Some(1));
    assert_eq!(g.count_partition_value(0), 1);
    assert_eq!(g.count_partition_value(1), 2);
}

#[test]
fn set_partition_on_empty_graph_refuses_any_id() {
    let mut g = GraphWrapper::new();
    assert_eq!(g.set_partition(&vec![(0, 0)]), Err(PartitionError::UnknownNode(0)));
    assert_eq!(g.set_partition(&Vec::new()), Ok(()));
}

#[test]
fn new_nodes_come_without_a_label() {
    let mut g = triangle();
    assert_eq!(g.set_partition(&vec![(10, 1), (20, 1), (30, 1)]), Ok(()));
    g.add_edges(vec![(30, 40)]);
    assert_eq!(g.label(3), None);
    assert_eq!(g.count_partition_value(1), 3);
}

#[test]
fn has_room_for_counts_two_nodes_per_edge() {
    let g = triangle();
    assert!(g.has_room_for(0));
    assert!(g.has_room_for(1000));
    assert!(g.has_room_for(2147483646));
    assert!(!g.has_room_for(2147483647));
    assert!(!g.has_room_for(usize::MAX));
}

#[test]
fn build_graph_counts_distinct_identifiers() {
    assert_eq!(build_graph(vec![(1, 2), (2, 3), (3, 1), (7, 7), (1, 2)]), 4);
    assert_eq!(build_graph(Vec::new()), 0);
}
