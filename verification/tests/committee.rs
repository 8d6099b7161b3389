use mysticeti::committee::Committee;

#[test]
fn quorum_of_four_equal_stakes_is_three() {
    let committee = Committee::new(vec![1, 1, 1, 1]).unwrap();
    assert_eq!(committee.len(), 4);
    assert_eq!(committee.total_stake(), 4);
    assert_eq!(committee.quorum_threshold(), 3);
    assert!(committee.is_quorum(3));
    assert!(!committee.is_quorum(2));
}

#[test]
fn quorum_is_two_f_plus_one_of_three_f_plus_one() {
    for f in 0u64..50 {
        let total = 3 * f + 1;
        let committee = Committee::new(vec![total]).unwrap();
        assert_eq!(committee.quorum_threshold(), 2 * f + 1);
    }
}

#[test]
fn quorum_is_weighted_by_stake() {
    let committee = Committee::new(vec![10, 1, 1, 1]).unwrap();
    assert_eq!(committee.total_stake(), 13);
    assert_eq!(committee.quorum_threshold(), 9);
    assert_eq!(committee.stake_of(0), 10);
    assert_eq!(committee.stake_of(3), 1);
}

#[test]
fn stake_of_a_stranger_is_zero() {
    let committee = Committee::new(vec![5, 7]).unwrap();
    assert_eq!(committee.stake_of(2), 0);
    assert_eq!(committee.stake_of(u64::MAX), 0);
    assert!(committee.known_authority(1));
    assert!(!committee.known_authority(2));
}

#[test]
fn there_is_no_empty_committee() {
    assert!(Committee::new(vec![]).is_none());
}

#[test]
fn there_is_no_committee_with_a_stake_beyond_64_bits() {
    assert!(Committee::new(vec![u64::MAX, 1]).is_none());
    assert!(Committee::new(vec![u64::MAX, 0]).is_some());
}

#[test]
fn quorum_of_the_largest_stake_does_not_overflow() {
    let committee = Committee::new(vec![u64::MAX]).unwrap();
    assert_eq!(committee.total_stake(), u64::MAX);
    assert_eq!(committee.quorum_threshold(), 12297829382473034411);
}

#[test]
fn leaders_take_turns() {
    let committee = Committee::new(vec![1, 1, 1, 1]).unwrap();
    let leaders: Vec<u64> = (0..9).map(|round| committee.leader_for(round)).collect();
    assert_eq!(leaders, vec![0, 1, 2, 3, 0, 1, 2, 3, 0]);
}

#[test]
fn the_schedule_depends_on_the_round_alone() {
    let committee = Committee::new(vec![3, 2, 1]).unwrap();
    let copy = committee.clone();
    for round in 0..100 {
        assert_eq!(committee.leader_for(round), copy.leader_for(round));
        assert_eq!(committee.leader_for(round), committee.leader_for(round));
        assert!(committee.leader_for(round) < 3);
    }
}
