use faster_cp::graph::GraphWrapper;
use faster_cp::tally::{compute_move_impact, count_statistics, Stats};

// path 0 - 1 - 2 - 3 with a chord 0 - 2
fn kite() -> GraphWrapper {
    let mut g = GraphWrapper::new();
    g.add_edges(vec![(0, 1), (1, 2), (2, 3), (0, 2)]);
    g
}

fn moved(stats: Stats, delta: (i64, i64, i64), from_zero: bool) -> Stats {
    Stats {
        m00: stats.m00 + delta.0,
        m11: stats.m11 + delta.1,
        m01: stats.m01 + delta.2,
        n0: if from_zero { stats.n0 - 1 } else { stats.n0 + 1 },
        n1: if from_zero { stats.n1 + 1 } else { stats.n1 - 1 },
    }
}

#[test]
fn count_statistics_sorts_edges_by_block_pair() {
    let g = kite();
    let stats = count_statistics(&g, &vec![0, 0, 1, 1]);
    assert_eq!(stats, Stats { m00: 1, m11: 1, m01: 2, n0: 2, n1: 2 });
    let stats = count_statistics(&g, &vec![0, 0, 0, 0]);
    assert_eq!(stats, Stats { m00: 4, m11: 0, m01: 0, n0: 4, n1: 0 });
    let stats = count_statistics(&g, &vec![1, 1, 1, 1]);
    assert_eq!(stats, Stats { m00: 0, m11: 4, m01: 0, n0: 0, n1: 4 });
    let stats = count_statistics(&g, &vec![1, 0, 1, 0]);
    assert_eq!(stats, Stats { m00: 0, m11: 1, m01: 3, n0: 2, n1: 2 });
}

#[test]
fn counts_add_up_to_the_edges_and_sizes_to_the_nodes() {
    let g = kite();
    for code in 0..16u32 {
        let labels: Vec<i8> = (0..4).map(|i| ((code >> i) & 1) as i8).collect();
        let stats = count_statistics(&g, &labels);
        assert_eq!(stats.m00 + stats.m11 + stats.m01, 4);
        assert_eq!(stats.n0 + stats.n1, 4);
    }
}

#[test]
fn move_impact_of_a_node_with_neighbours_in_both_blocks() {
    let g = kite();
    // node 2 is in block 1 with neighbours 1 (block 0), 3 (block 1), 0 (block 0)
    assert_eq!(compute_move_impact(&g, &vec![0, 0, 1, 1], 2), (2, -1, -1));
    // node 0 is in block 0 with neighbours 1 (block 0), 2 (block 1)
    assert_eq!(compute_move_impact(&g, &vec![0, 0, 1, 1], 0), (-1, 1, 0));
    // node 3 is in block 1 with the one neighbour 2 (block 1)
    assert_eq!(compute_move_impact(&g, &vec![0, 0, 1, 1], 3), (0, -1, 1));
}

#[test]
fn move_impact_follows_the_one_edge_of_a_leaf() {
    let mut g = GraphWrapper::new();
    g.add_edges(vec![(1, 2), (3, 4)]);
    assert_eq!(compute_move_impact(&g, &vec![0, 1, 0, 1], 0), (0, 1, -1));
    assert_eq!(compute_move_impact(&g, &vec![0, 0, 1, 1], 1), (-1, 0, 1));
    assert_eq!(compute_move_impact(&g, &vec![0, 0, 1, 1], 2), (0, -1, 1));
}

#[test]
fn move_impact_counts_parallel_edges_each() {
    let mut g = GraphWrapper::new();
    g.add_edges(vec![(1, 2), (1, 2), (2, 1), (2, 3)]);
    assert_eq!(compute_move_impact(&g, &vec![0, 0, 1], 0), (-3, 0, 3));
    assert_eq!(compute_move_impact(&g, &vec![0, 0, 1], 1), (-3, 1, 2));
    assert_eq!(compute_move_impact(&g, &vec![0, 0, 1], 2), (1, 0, -1));
}

#[test]
fn move_impact_takes_a_loop_as_an_edge_to_a_staying_neighbour() {
    let mut g = GraphWrapper::new();
    g.add_edges(vec![(1, 1), (1, 2)]);
    assert_eq!(compute_move_impact(&g, &vec![0, 1], 0), (-1, 1, 0));
    assert_eq!(compute_move_impact(&g, &vec![1, 1], 0), (0, -2, 2));
}

#[test]
fn impact_agrees_with_a_fresh_count_for_every_move() {
    let g = kite();
    for code in 0..16u32 {
        let labels: Vec<i8> = (0..4).map(|i| ((code >> i) & 1) as i8).collect();
        let stats = count_statistics(&g, &labels);
        for node in 0..4usize {
            let delta = compute_move_impact(&g, &labels, node);
            assert_eq!(delta.0 + delta.1 + delta.2, 0);
            let mut after = labels.clone();
            after[node] = 1 - after[node];
            assert_eq!(moved(stats, delta, labels[node] == 0), count_statistics(&g, &after));
        }
    }
}
