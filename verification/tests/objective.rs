use faster_cp::objective::{
    outline_from_counts, pairs_across, pairs_within, BlockPair, Outline, PENALTY_VALUE,
};

fn pair(observed: i64, possible: i64) -> BlockPair {
    BlockPair { observed, possible }
}

#[test]
fn penalty_is_one_thousand() {
    assert_eq!(PENALTY_VALUE, 1000);
}

#[test]
fn room_inside_a_block() {
    assert_eq!(pairs_within(0), 0);
    assert_eq!(pairs_within(1), 0);
    assert_eq!(pairs_within(2), 1);
    assert_eq!(pairs_within(4), 6);
    assert_eq!(pairs_within(5), 10);
    assert_eq!(pairs_within(4294967295), 9223372030412324865);
}

#[test]
fn room_between_two_blocks() {
    assert_eq!(pairs_across(0, 9), 0);
    assert_eq!(pairs_across(3, 5), 15);
    assert_eq!(pairs_across(4, 4), 16);
    assert_eq!(pairs_across(2147483647, 2147483648), 4611686016279904256);
}

#[test]
fn an_empty_block_has_no_outline() {
    assert_eq!(outline_from_counts(0, 0, 0, 0, 0, 0), None);
    assert_eq!(outline_from_counts(0, 13, 0, 0, 8, 8), None);
    assert_eq!(outline_from_counts(13, 0, 0, 8, 0, 8), None);
    assert_eq!(outline_from_counts(5, 7, 9, 0, 3, 3), None);
    assert_eq!(outline_from_counts(-4, 2, 1000, 6, 0, 6), None);
    assert!(outline_from_counts(0, 0, 0, 1, 1, 2).is_some());
}

#[test]
fn the_denser_block_is_the_core() {
    // block 0: 3 of 3, block 1: 2 of 10, across: 4 of 15
    let layout = outline_from_counts(3, 2, 4, 3, 5, 8);
    assert_eq!(
        layout,
        Some(Outline {
            core: pair(3, 3),
            cross: pair(4, 15),
            periphery: pair(2, 10),
            penalised: false,
            n0: 3,
            n1: 5,
            n: 8,
        })
    );
    // the same split with the blocks named the other way round
    let layout = outline_from_counts(2, 3, 4, 5, 3, 8);
    assert_eq!(
        layout,
        Some(Outline {
            core: pair(3, 3),
            cross: pair(4, 15),
            periphery: pair(2, 10),
            penalised: false,
            n0: 5,
            n1: 3,
            n: 8,
        })
    );
}

#[test]
fn blocks_of_one_density_leave_block_zero_as_core() {
    // 1 of 3 and 2 of 6
    let layout = outline_from_counts(1, 2, 0, 3, 4, 7).unwrap();
    assert_eq!(layout.core, pair(1, 3));
    assert_eq!(layout.periphery, pair(2, 6));
    assert!(layout.penalised);
    let layout = outline_from_counts(2, 1, 0, 4, 3, 7).unwrap();
    assert_eq!(layout.core, pair(2, 6));
    assert_eq!(layout.periphery, pair(1, 3));
    assert!(layout.penalised);
}

#[test]
fn densities_out_of_order_are_penalised() {
    // core 6/6, across 1/16, periphery 6/6: periphery not below across
    assert!(outline_from_counts(6, 6, 1, 4, 4, 8).unwrap().penalised);
    // core 5/6, across 15/16: across not below core
    assert!(outline_from_counts(5, 0, 15, 4, 4, 8).unwrap().penalised);
    // core 5/6, across 8/16, periphery 2/6
    assert!(!outline_from_counts(5, 2, 8, 4, 4, 8).unwrap().penalised);
    // across equal to periphery: 3/6 and 8/16
    assert!(outline_from_counts(5, 3, 8, 4, 4, 8).unwrap().penalised);
    // across equal to core: 3/6 and 8/16
    assert!(outline_from_counts(3, 0, 8, 4, 4, 8).unwrap().penalised);
}

#[test]
fn a_block_of_one_node_has_density_zero() {
    // block 1 is a single node: no room, density 0; across 2 of 3; core 3 of 3
    let layout = outline_from_counts(3, 0, 2, 3, 1, 4).unwrap();
    assert_eq!(layout.core, pair(3, 3));
    assert_eq!(layout.periphery, pair(0, 0));
    assert_eq!(layout.cross, pair(2, 3));
    assert!(!layout.penalised);
    // two single nodes: both densities 0, across 1 of 1
    let layout = outline_from_counts(0, 0, 1, 1, 1, 2).unwrap();
    assert_eq!(layout.core, pair(0, 0));
    assert_eq!(layout.periphery, pair(0, 0));
    assert!(layout.penalised);
}

#[test]
fn swapping_the_blocks_keeps_the_outline() {
    let cases: [(i64, i64, i64, usize, usize); 6] = [
        (3, 2, 4, 3, 5),
        (6, 6, 1, 4, 4),
        (0, 0, 7, 2, 6),
        (1, 2, 0, 3, 4),
        (10, 1, 3, 5, 2),
        (0, 9, 2, 1, 7),
    ];
    for (m00, m11, m01, n0, n1) in cases {
        let a = outline_from_counts(m00, m11, m01, n0, n1, n0 + n1).unwrap();
        let b = outline_from_counts(m11, m00, m01, n1, n0, n0 + n1).unwrap();
        assert_eq!(a.cross, b.cross);
        assert_eq!(a.penalised, b.penalised);
        let mut pairs_a = [(a.core.observed, a.core.possible), (a.periphery.observed, a.periphery.possible)];
        let mut pairs_b = [(b.core.observed, b.core.possible), (b.periphery.observed, b.periphery.possible)];
        pairs_a.sort();
        pairs_b.sort();
        assert_eq!(pairs_a, pairs_b);
        assert_eq!((a.n0, a.n1), (b.n1, b.n0));
    }
}

#[test]
fn densities_are_compared_exactly() {
    assert!(pair(1, 3).below(&pair(2, 5)));
    assert!(!pair(2, 5).below(&pair(1, 3)));
    assert!(!pair(1, 3).below(&pair(2, 6)));
    assert!(!pair(2, 6).below(&pair(1, 3)));
    // no room counts as density zero
    assert!(pair(5, 0).below(&pair(1, 100)));
    assert!(!pair(1, 100).below(&pair(5, 0)));
    assert!(!pair(5, 0).below(&pair(0, 7)));
    // counts below zero are below density zero
    assert!(pair(-1, 4).below(&pair(0, 4)));
    // numbers whose quotients agree to sixteen digits
    assert!(pair(4611686018427387903, 9223372036854775807).below(&pair(4611686018427387904, 9223372036854775807)));
    assert!(pair(9223372036854775806, 9223372036854775807).below(&pair(1, 1)));
}

#[test]
fn interior_means_strictly_between_none_and_all() {
    assert!(pair(1, 2).interior());
    assert!(pair(5, 6).interior());
    assert!(!pair(0, 6).interior());
    assert!(!pair(6, 6).interior());
    assert!(!pair(7, 6).interior());
    assert!(!pair(-1, 6).interior());
    assert!(!pair(0, 0).interior());
}
