use mysticeti::block_store::BlockStore;
use mysticeti::committee::Committee;
use mysticeti::consensus::base_committer::{BaseCommitter, BaseCommitterOptions};
use mysticeti::consensus::{LeaderStatus, DEFAULT_WAVE_LENGTH};
use mysticeti::types::{BlockReference, StatementBlock};

fn reference(authority: u64, round: u64) -> BlockReference {
    BlockReference { authority, round, digest: 0 }
}

fn insert(store: &mut BlockStore, authority: u64, round: u64, includes: Vec<BlockReference>) {
    assert!(store.insert(StatementBlock::new(reference(authority, round), includes)));
}

fn round_of(authorities: u64, round: u64) -> Vec<BlockReference> {
    (0..authorities).map(|a| reference(a, round)).collect()
}

/// Rounds `0..=highest` of four blocks each, every block including all
/// blocks of the round before.
fn full_dag(highest: u64) -> BlockStore {
    let mut store = BlockStore::new();
    for round in 0..=highest {
        for authority in 0..4 {
            let includes = if round == 0 { vec![] } else { round_of(4, round - 1) };
            insert(&mut store, authority, round, includes);
        }
    }
    store
}

fn without(references: Vec<BlockReference>, left_out: BlockReference) -> Vec<BlockReference> {
    references.into_iter().filter(|r| *r != left_out).collect()
}

fn committer() -> BaseCommitter {
    BaseCommitter::new(Committee::new(vec![1, 1, 1, 1]).unwrap())
}

fn committer_with(wave_length: u64, round_offset: u64) -> BaseCommitter {
    committer().with_options(BaseCommitterOptions { wave_length, round_offset })
}

fn is_commit_of(status: &LeaderStatus, expected: BlockReference) -> bool {
    match status {
        LeaderStatus::Commit(block) => block.reference() == expected,
        _ => false,
    }
}

fn is_skip_of(status: &LeaderStatus, authority: u64, round: u64) -> bool {
    matches!(status, LeaderStatus::Skip(a, r) if *a == authority && *r == round)
}

fn is_undecided_of(status: &LeaderStatus, authority: u64, round: u64) -> bool {
    matches!(status, LeaderStatus::Undecided(a, r) if *a == authority && *r == round)
}

#[test]
fn the_default_wave_has_three_rounds() {
    assert_eq!(DEFAULT_WAVE_LENGTH, 3);
    let options = BaseCommitterOptions::default();
    assert_eq!(options.wave_length, 3);
    assert_eq!(options.round_offset, 0);
    let committer = committer();
    assert!(!committer.is_responsible(0));
    assert!(!committer.is_responsible(1));
    assert!(!committer.is_responsible(2));
    assert!(committer.is_responsible(3));
    assert!(committer.is_responsible(6));
    assert!(!committer.is_responsible(7));
}

#[test]
fn each_offset_owns_its_rounds() {
    for round in 1..30u64 {
        let owners: Vec<u64> =
            (0..3).filter(|offset| committer_with(3, *offset).is_responsible(round)).collect();
        assert_eq!(owners, vec![round % 3]);
    }
}

#[test]
fn no_round_belongs_to_a_wave_without_rounds() {
    let committer = committer_with(0, 0);
    for round in 0..10 {
        assert!(!committer.is_responsible(round));
    }
    let store = full_dag(5);
    assert!(is_undecided_of(&committer.decide_leader(&store, 3), 3, 3));
}

#[test]
fn three_of_four_votes_commit_the_leader() {
    let mut store = full_dag(3);
    let leader = reference(3, 3);
    for authority in 0..3 {
        insert(&mut store, authority, 4, round_of(4, 3));
    }
    let status = committer().decide_leader(&store, 3);
    assert!(is_commit_of(&status, leader));
    assert!(is_commit_of(&committer().try_direct_decide(&store, 3), leader));
    assert_eq!(status.round(), 3);
    assert_eq!(status.authority(), 3);
    assert!(status.is_decided());
}

#[test]
fn three_votes_for_and_one_against_commit_the_leader() {
    let mut store = full_dag(3);
    let leader = reference(3, 3);
    for authority in 0..3 {
        insert(&mut store, authority, 4, round_of(4, 3));
    }
    insert(&mut store, 3, 4, without(round_of(4, 3), leader));
    assert!(is_commit_of(&committer().decide_leader(&store, 3), leader));
}

#[test]
fn two_votes_for_and_two_against_leave_the_leader_undecided() {
    let mut store = full_dag(3);
    let leader = reference(3, 3);
    insert(&mut store, 0, 4, round_of(4, 3));
    insert(&mut store, 1, 4, round_of(4, 3));
    insert(&mut store, 2, 4, without(round_of(4, 3), leader));
    insert(&mut store, 3, 4, without(round_of(4, 3), leader));
    let status = committer().decide_leader(&store, 3);
    assert!(is_undecided_of(&status, 3, 3));
    assert!(!status.is_decided());
    assert!(is_undecided_of(&committer().try_direct_decide(&store, 3), 3, 3));
    assert!(is_undecided_of(&committer().try_indirect_decide(&store, 3), 3, 3));
}

#[test]
fn two_votes_alone_leave_the_leader_undecided() {
    let mut store = full_dag(3);
    insert(&mut store, 0, 4, round_of(4, 3));
    insert(&mut store, 1, 4, round_of(4, 3));
    assert!(is_undecided_of(&committer().decide_leader(&store, 3), 3, 3));
}

#[test]
fn no_votes_leave_the_leader_undecided() {
    let store = full_dag(3);
    assert!(is_undecided_of(&committer().decide_leader(&store, 3), 3, 3));
}

#[test]
fn three_of_four_votes_against_skip_the_leader() {
    let mut store = full_dag(3);
    let leader = reference(3, 3);
    insert(&mut store, 0, 4, round_of(4, 3));
    for authority in 1..4 {
        insert(&mut store, authority, 4, without(round_of(4, 3), leader));
    }
    let status = committer().decide_leader(&store, 3);
    assert!(is_skip_of(&status, 3, 3));
    assert!(status.is_decided());
    assert_eq!(status.round(), 3);
    assert_eq!(status.authority(), 3);
}

#[test]
fn a_leader_without_a_block_is_skipped() {
    let mut store = full_dag(2);
    for authority in 0..3 {
        insert(&mut store, authority, 3, round_of(4, 2));
    }
    assert!(is_skip_of(&committer().decide_leader(&store, 3), 3, 3));
    assert!(is_skip_of(&committer().try_direct_decide(&store, 3), 3, 3));
    assert!(is_skip_of(&committer().try_indirect_decide(&store, 3), 3, 3));
}

#[test]
fn a_round_of_another_offset_stays_undecided() {
    let mut store = full_dag(4);
    for authority in 0..4 {
        insert(&mut store, authority, 5, round_of(4, 4));
    }
    let committer = committer();
    assert!(is_undecided_of(&committer.decide_leader(&store, 4), 0, 4));
    assert!(is_undecided_of(&committer.decide_leader(&store, 1), 1, 1));
    assert!(is_commit_of(&committer_with(3, 1).decide_leader(&store, 4), reference(0, 4)));
}

#[test]
fn the_genesis_round_is_never_decided() {
    let store = full_dag(4);
    for wave_length in 1..5 {
        for offset in 0..wave_length {
            let status = committer_with(wave_length, offset).decide_leader(&store, 0);
            assert!(is_undecided_of(&status, 0, 0));
        }
    }
}

#[test]
fn votes_are_weighted_by_stake() {
    let heavy = BaseCommitter::new(Committee::new(vec![10, 1, 1, 1]).unwrap());
    let leader = reference(3, 3);
    let mut store = full_dag(3);
    insert(&mut store, 1, 4, round_of(4, 3));
    insert(&mut store, 2, 4, round_of(4, 3));
    insert(&mut store, 3, 4, round_of(4, 3));
    assert!(is_undecided_of(&heavy.decide_leader(&store, 3), 3, 3));
    assert!(is_commit_of(&committer().decide_leader(&store, 3), leader));
    insert(&mut store, 0, 4, without(round_of(4, 3), leader));
    assert!(is_skip_of(&heavy.decide_leader(&store, 3), 3, 3));
    assert!(is_commit_of(&committer().decide_leader(&store, 3), leader));
}

#[test]
fn only_the_first_block_of_an_equivocating_leader_is_eligible() {
    let mut store = full_dag(2);
    let first = BlockReference { authority: 3, round: 3, digest: 1 };
    let second = BlockReference { authority: 3, round: 3, digest: 2 };
    assert!(store.insert(StatementBlock::new(first, round_of(4, 2))));
    assert!(store.insert(StatementBlock::new(second, round_of(4, 2))));
    for authority in 0..3 {
        insert(&mut store, authority, 3, round_of(4, 2));
    }
    let mut votes_for_second = store_clone(&store);
    for authority in 0..3 {
        let mut includes = round_of(3, 3);
        includes.push(second);
        insert(&mut votes_for_second, authority, 4, includes);
    }
    assert!(is_skip_of(&committer().decide_leader(&votes_for_second, 3), 3, 3));
    for authority in 0..3 {
        let mut includes = round_of(3, 3);
        includes.push(first);
        insert(&mut store, authority, 4, includes);
    }
    assert!(is_commit_of(&committer().decide_leader(&store, 3), first));
}

fn store_clone(store: &BlockStore) -> BlockStore {
    let mut copy = BlockStore::new();
    for round in 0..=store.highest_round() {
        for block in store.get_blocks_by_round(round) {
            assert!(copy.insert(block));
        }
    }
    copy
}

#[test]
fn an_authority_votes_with_its_first_block_only() {
    let mut store = full_dag(3);
    let leader = reference(3, 3);
    insert(&mut store, 0, 4, round_of(4, 3));
    insert(&mut store, 1, 4, round_of(4, 3));
    insert(&mut store, 2, 4, without(round_of(4, 3), leader));
    let second = BlockReference { authority: 2, round: 4, digest: 7 };
    assert!(store.insert(StatementBlock::new(second, round_of(4, 3))));
    assert!(is_undecided_of(&committer().decide_leader(&store, 3), 3, 3));
}

#[test]
fn a_block_of_a_stranger_casts_no_vote() {
    let mut store = full_dag(3);
    insert(&mut store, 0, 4, round_of(4, 3));
    insert(&mut store, 1, 4, round_of(4, 3));
    insert(&mut store, 4, 4, round_of(4, 3));
    insert(&mut store, 5, 4, round_of(4, 3));
    assert!(is_undecided_of(&committer().decide_leader(&store, 3), 3, 3));
}

#[test]
fn a_later_committed_leader_commits_what_its_history_holds() {
    let mut store = full_dag(3);
    let leader = reference(3, 3);
    insert(&mut store, 0, 4, round_of(4, 3));
    insert(&mut store, 1, 4, round_of(4, 3));
    insert(&mut store, 2, 4, without(round_of(4, 3), leader));
    insert(&mut store, 3, 4, without(round_of(4, 3), leader));
    for round in 5..=7 {
        for authority in 0..4 {
            insert(&mut store, authority, round, round_of(4, round - 1));
        }
    }
    let committer = committer();
    assert!(is_undecided_of(&committer.try_direct_decide(&store, 3), 3, 3));
    assert!(is_commit_of(&committer.try_direct_decide(&store, 6), reference(2, 6)));
    assert!(store.linked(reference(2, 6), leader));
    assert!(is_commit_of(&committer.try_indirect_decide(&store, 3), leader));
    assert!(is_commit_of(&committer.decide_leader(&store, 3), leader));
}

#[test]
fn a_later_committed_leader_skips_what_its_history_lacks() {
    let mut store = full_dag(3);
    let leader = reference(3, 3);
    insert(&mut store, 0, 4, round_of(4, 3));
    insert(&mut store, 1, 4, round_of(4, 3));
    insert(&mut store, 2, 4, without(round_of(4, 3), leader));
    insert(&mut store, 3, 4, without(round_of(4, 3), leader));
    let blamers = vec![reference(2, 4), reference(3, 4)];
    for authority in 0..4 {
        insert(&mut store, authority, 5, blamers.clone());
    }
    for round in 6..=7 {
        for authority in 0..4 {
            insert(&mut store, authority, round, round_of(4, round - 1));
        }
    }
    let committer = committer();
    assert!(is_undecided_of(&committer.try_direct_decide(&store, 3), 3, 3));
    assert!(is_commit_of(&committer.try_direct_decide(&store, 6), reference(2, 6)));
    assert!(!store.linked(reference(2, 6), leader));
    assert!(is_skip_of(&committer.try_indirect_decide(&store, 3), 3, 3));
    assert!(is_skip_of(&committer.decide_leader(&store, 3), 3, 3));
}

#[test]
fn a_later_committed_leader_with_a_shallow_history_decides_nothing() {
    let mut store = full_dag(3);
    let leader = reference(3, 3);
    insert(&mut store, 0, 4, round_of(4, 3));
    insert(&mut store, 1, 4, without(round_of(4, 3), leader));
    for authority in 0..4 {
        insert(&mut store, authority, 5, round_of(4, 2));
    }
    for round in 6..=7 {
        for authority in 0..4 {
            insert(&mut store, authority, round, round_of(4, round - 1));
        }
    }
    let committer = committer();
    assert!(is_commit_of(&committer.try_direct_decide(&store, 6), reference(2, 6)));
    assert!(!store.linked(reference(2, 6), leader));
    assert!(!store.reaches_round(reference(2, 6), 4));
    assert!(store.reaches_round(reference(2, 6), 5));
    assert!(store.reaches_round(reference(2, 6), 2));
    assert!(is_undecided_of(&committer.try_indirect_decide(&store, 3), 3, 3));
    assert!(is_undecided_of(&committer.decide_leader(&store, 3), 3, 3));
}

#[test]
fn a_later_leader_of_another_offset_decides_nothing() {
    let mut store = full_dag(3);
    let leader = reference(3, 3);
    insert(&mut store, 0, 4, round_of(4, 3));
    insert(&mut store, 1, 4, round_of(4, 3));
    insert(&mut store, 2, 4, without(round_of(4, 3), leader));
    insert(&mut store, 3, 4, without(round_of(4, 3), leader));
    for round in 5..=6 {
        for authority in 0..4 {
            insert(&mut store, authority, round, round_of(4, round - 1));
        }
    }
    assert!(is_commit_of(&committer_with(3, 2).decide_leader(&store, 5), reference(1, 5)));
    assert!(is_undecided_of(&committer().decide_leader(&store, 3), 3, 3));
}

#[test]
fn the_votes_outrank_the_later_leaders() {
    let mut store = full_dag(3);
    let leader = reference(3, 3);
    for authority in 0..3 {
        insert(&mut store, authority, 4, round_of(4, 3));
    }
    insert(&mut store, 3, 4, without(round_of(4, 3), leader));
    for authority in 0..4 {
        insert(&mut store, authority, 5, vec![reference(3, 4)]);
    }
    for round in 6..=7 {
        for authority in 0..4 {
            insert(&mut store, authority, round, round_of(4, round - 1));
        }
    }
    let committer = committer();
    assert!(is_commit_of(&committer.try_direct_decide(&store, 6), reference(2, 6)));
    assert!(!store.linked(reference(2, 6), leader));
    assert!(is_skip_of(&committer.try_indirect_decide(&store, 3), 3, 3));
    assert!(is_commit_of(&committer.decide_leader(&store, 3), leader));
}

#[test]
fn the_last_round_that_can_be_counted_is_decided_without_overflow() {
    let store = full_dag(1);
    let status = committer().decide_leader(&store, u64::MAX);
    assert!(is_skip_of(&status, u64::MAX % 4, u64::MAX));
}

#[test]
fn the_committed_block_is_handed_out() {
    let mut store = full_dag(3);
    for authority in 0..4 {
        insert(&mut store, authority, 4, round_of(4, 3));
    }
    let status = committer().decide_leader(&store, 3);
    let copy = status.clone();
    let block = status.into_committed_block().unwrap();
    assert_eq!(block.reference(), reference(3, 3));
    assert_eq!(block.includes(), &round_of(4, 2));
    assert!(is_commit_of(&copy, reference(3, 3)));
    assert!(LeaderStatus::Skip(1, 2).into_committed_block().is_none());
    assert!(LeaderStatus::Undecided(1, 2).into_committed_block().is_none());
}
