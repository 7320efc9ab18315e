use faster_cp::rank::{bits_of_rank, rank_of_bits, SIGN_BIT};

#[test]
fn rank_of_chosen_bit_patterns() {
    assert_eq!(SIGN_BIT, 0x8000_0000_0000_0000);
    assert_eq!(rank_of_bits(0), 0x8000_0000_0000_0000);
    assert_eq!(rank_of_bits(1), 0x8000_0000_0000_0001);
    assert_eq!(rank_of_bits(0x7fff_ffff_ffff_ffff), u64::MAX);
    assert_eq!(rank_of_bits(0x8000_0000_0000_0000), 0x7fff_ffff_ffff_ffff);
    assert_eq!(rank_of_bits(0x8000_0000_0000_0001), 0x7fff_ffff_ffff_fffe);
    assert_eq!(rank_of_bits(u64::MAX), 0);
}

#[test]
fn bits_of_chosen_ranks() {
    assert_eq!(bits_of_rank(0), u64::MAX);
    assert_eq!(bits_of_rank(0x7fff_ffff_ffff_ffff), 0x8000_0000_0000_0000);
    assert_eq!(bits_of_rank(0x8000_0000_0000_0000), 0);
    assert_eq!(bits_of_rank(u64::MAX), 0x7fff_ffff_ffff_ffff);
}

#[test]
fn rank_and_bits_undo_each_other() {
    let patterns = [0u64, 1, 2, 0x3ff0_0000_0000_0000, 0x7ff0_0000_0000_0000, 0x7fff_ffff_ffff_ffff,
        0x8000_0000_0000_0000, 0xbff0_0000_0000_0000, 0xfff0_0000_0000_0000, u64::MAX];
    for bits in patterns {
        assert_eq!(bits_of_rank(rank_of_bits(bits)), bits);
        assert_eq!(rank_of_bits(bits_of_rank(bits)), bits);
    }
}

#[test]
fn ranks_of_scores_order_as_the_scores() {
    let scores = [
        f64::NEG_INFINITY,
        -1.0e300,
        -10990.21907874942,
        -1.0,
        -5.0e-324,
        0.0,
        5.0e-324,
        0.5,
        1.0,
        23.653061863203245,
        1000.0,
        f64::MAX,
        f64::INFINITY,
    ];
    for k in 1..scores.len() {
        assert!(scores[k - 1] < scores[k]);
        assert!(rank_of_bits(scores[k - 1].to_bits()) < rank_of_bits(scores[k].to_bits()));
    }
    assert!(rank_of_bits((-0.0f64).to_bits()) < rank_of_bits(0.0f64.to_bits()));
}
