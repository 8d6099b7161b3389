use mysticeti::block_store::BlockStore;
use mysticeti::committee::Committee;
use mysticeti::consensus::universal_committer::{UniversalCommitter, UniversalCommitterBuilder};
use mysticeti::consensus::LeaderStatus;
use mysticeti::metrics::{DecisionKind, Metrics};
use mysticeti::types::{BlockReference, StatementBlock};

fn reference(authority: u64, round: u64) -> BlockReference {
    BlockReference { authority, round, digest: 0 }
}

fn round_of(round: u64) -> Vec<BlockReference> {
    (0..4).map(|a| reference(a, round)).collect()
}

fn without(references: Vec<BlockReference>, left_out: BlockReference) -> Vec<BlockReference> {
    references.into_iter().filter(|r| *r != left_out).collect()
}

fn build(store: BlockStore, wave_length: u64, pipeline: bool) -> UniversalCommitter {
    let committee = Committee::new(vec![1, 1, 1, 1]).unwrap();
    UniversalCommitterBuilder::new(committee, store, Metrics::new())
        .with_wave_length(wave_length)
        .with_pipeline(pipeline)
        .build()
}

fn add(committer: &mut UniversalCommitter, authority: u64, round: u64, includes: Vec<BlockReference>) {
    assert!(committer.insert_block(StatementBlock::new(reference(authority, round), includes)));
}

/// Adds the rounds `from..=to`, four blocks each, every block including all
/// blocks of the round before.
fn add_full_rounds(committer: &mut UniversalCommitter, from: u64, to: u64) {
    for round in from..=to {
        for authority in 0..4 {
            let includes = if round == 0 { vec![] } else { round_of(round - 1) };
            add(committer, authority, round, includes);
        }
    }
}

fn full(highest: u64, wave_length: u64, pipeline: bool) -> UniversalCommitter {
    let mut committer = build(BlockStore::new(), wave_length, pipeline);
    add_full_rounds(&mut committer, 0, highest);
    committer
}

/// What a decision is, in plain values: round, leader and, for a commit, the block.
fn plain(status: &LeaderStatus) -> (u64, u64, Option<BlockReference>, bool) {
    match status {
        LeaderStatus::Commit(block) => (block.round(), block.author(), Some(block.reference()), true),
        LeaderStatus::Skip(authority, round) => (*round, *authority, None, true),
        LeaderStatus::Undecided(authority, round) => (*round, *authority, None, false),
    }
}

fn plain_all(statuses: &[LeaderStatus]) -> Vec<(u64, u64, Option<BlockReference>, bool)> {
    statuses.iter().map(plain).collect()
}

fn rounds(statuses: &[LeaderStatus]) -> Vec<u64> {
    statuses.iter().map(|s| s.round()).collect()
}

fn committed(statuses: &[LeaderStatus]) -> Vec<BlockReference> {
    statuses.iter().filter_map(|s| plain(s).2).collect()
}

#[test]
fn by_default_one_committer_with_waves_of_three_rounds() {
    let committee = Committee::new(vec![1, 1, 1, 1]).unwrap();
    let mut committer =
        UniversalCommitterBuilder::new(committee, BlockStore::new(), Metrics::new()).build();
    add_full_rounds(&mut committer, 0, 10);
    let decided = committer.try_commit(reference(0, 0));
    assert_eq!(rounds(&decided), vec![3, 6, 9]);
    assert_eq!(committed(&decided), vec![reference(3, 3), reference(2, 6), reference(1, 9)]);
}

#[test]
fn with_pipelining_every_round_has_a_leader() {
    let mut committer = full(10, 3, true);
    let decided = committer.try_commit(reference(0, 0));
    assert_eq!(rounds(&decided), vec![1, 2, 3, 4, 5, 6, 7, 8, 9]);
    let expected: Vec<BlockReference> = (1..=9).map(|r| reference(r % 4, r)).collect();
    assert_eq!(committed(&decided), expected);
}

#[test]
fn a_wave_without_rounds_decides_nothing() {
    let mut piped = full(6, 0, true);
    assert!(piped.try_commit(reference(0, 0)).is_empty());
    let mut single = full(6, 0, false);
    assert!(single.try_commit(reference(0, 0)).is_empty());
}

#[test]
fn waves_of_one_round_lead_every_round() {
    let mut single = full(5, 1, false);
    assert_eq!(rounds(&single.try_commit(reference(0, 0))), vec![1, 2, 3, 4]);
    let mut piped = full(5, 1, true);
    assert_eq!(rounds(&piped.try_commit(reference(0, 0))), vec![1, 2, 3, 4]);
}

#[test]
fn try_commit_twice_returns_the_same_sequence() {
    let mut committer = full(12, 3, true);
    let watermark = reference(2, 2);
    let first = committer.try_commit(watermark);
    let second = committer.try_commit(watermark);
    assert!(!first.is_empty());
    assert_eq!(plain_all(&first), plain_all(&second));
}

#[test]
fn try_commit_on_an_empty_store_returns_nothing() {
    let mut committer = build(BlockStore::new(), 3, true);
    assert!(committer.try_commit(reference(0, 0)).is_empty());
    assert!(committer.try_commit(reference(0, 0)).is_empty());
}

#[test]
fn a_watermark_at_the_highest_round_leaves_nothing_to_decide() {
    let mut committer = full(7, 3, true);
    assert!(committer.try_commit(reference(0, 7)).is_empty());
    assert!(committer.try_commit(reference(0, 8)).is_empty());
    assert!(committer.try_commit(reference(0, u64::MAX)).is_empty());
}

#[test]
fn with_only_the_genesis_round_nothing_is_decided() {
    let mut committer = full(0, 3, true);
    assert!(committer.try_commit(reference(0, 0)).is_empty());
}

#[test]
fn the_rounds_returned_increase_strictly() {
    let mut committer = full(20, 4, true);
    let decided = rounds(&committer.try_commit(reference(0, 0)));
    assert_eq!(decided.len(), 19);
    for pair in decided.windows(2) {
        assert!(pair[0] < pair[1]);
    }
}

#[test]
fn nothing_is_returned_for_the_genesis_round_or_up_to_the_watermark() {
    for watermark in 0..12 {
        let mut committer = full(12, 3, true);
        let decided = committer.try_commit(reference(1, watermark));
        let expected: Vec<u64> = (watermark + 1..12).collect();
        assert_eq!(rounds(&decided), expected);
        for status in &decided {
            assert!(status.round() > 0);
            assert!(status.round() > watermark);
            assert!(status.is_decided());
        }
    }
}

#[test]
fn undecided_rounds_are_left_out_and_later_rounds_are_not() {
    let mut committer = build(BlockStore::new(), 3, true);
    add_full_rounds(&mut committer, 0, 5);
    let leader = reference(1, 5);
    add(&mut committer, 0, 6, round_of(5));
    add(&mut committer, 1, 6, round_of(5));
    add(&mut committer, 2, 6, without(round_of(5), leader));
    add(&mut committer, 3, 6, without(round_of(5), leader));
    add_full_rounds(&mut committer, 7, 8);
    let decided = committer.try_commit(reference(0, 0));
    assert_eq!(rounds(&decided), vec![1, 2, 3, 4, 6, 7]);
}

#[test]
fn a_leader_left_undecided_is_committed_through_a_later_leader() {
    let mut committer = build(BlockStore::new(), 4, true);
    add_full_rounds(&mut committer, 0, 5);
    let leader = reference(1, 5);
    let watermark = reference(0, 4);
    assert!(committer.try_commit(watermark).is_empty());

    add(&mut committer, 0, 6, round_of(5));
    add(&mut committer, 1, 6, round_of(5));
    add(&mut committer, 2, 6, without(round_of(5), leader));
    add(&mut committer, 3, 6, without(round_of(5), leader));
    assert!(committer.try_commit(watermark).is_empty());

    add_full_rounds(&mut committer, 7, 9);
    let before = committer.try_commit(watermark);
    assert_eq!(rounds(&before), vec![6, 7, 8]);

    for authority in 0..3 {
        add(&mut committer, authority, 10, round_of(9));
    }
    assert!(committer.block_store().linked(reference(1, 9), leader));
    let after = committer.try_commit(watermark);
    assert_eq!(rounds(&after), vec![5, 6, 7, 8, 9]);
    assert_eq!(plain(&after[0]), (5, 1, Some(leader), true));
    assert_eq!(plain(&after[4]), (9, 1, Some(reference(1, 9)), true));
    assert_eq!(committer.metrics().committed_leaders(1, DecisionKind::IndirectCommit), 1);
    assert_eq!(plain_all(&committer.try_commit(watermark)), plain_all(&after));
}

#[test]
fn a_leader_left_undecided_is_skipped_through_a_later_leader() {
    let mut committer = build(BlockStore::new(), 4, true);
    add_full_rounds(&mut committer, 0, 5);
    let leader = reference(1, 5);
    add(&mut committer, 0, 6, round_of(5));
    add(&mut committer, 1, 6, round_of(5));
    add(&mut committer, 2, 6, without(round_of(5), leader));
    add(&mut committer, 3, 6, without(round_of(5), leader));
    for authority in 0..4 {
        add(&mut committer, authority, 7, vec![reference(2, 6), reference(3, 6)]);
    }
    add_full_rounds(&mut committer, 8, 10);
    let decided = committer.try_commit(reference(0, 4));
    assert_eq!(plain(&decided[0]), (5, 1, None, true));
    assert!(matches!(decided[0], LeaderStatus::Skip(1, 5)));
    assert_eq!(committer.metrics().committed_leaders(1, DecisionKind::IndirectSkip), 1);
}

#[test]
fn decisions_survive_the_growth_of_the_dag() {
    let mut committer = build(BlockStore::new(), 3, true);
    add_full_rounds(&mut committer, 0, 6);
    let early = plain_all(&committer.try_commit(reference(0, 0)));
    assert_eq!(early.len(), 5);
    add_full_rounds(&mut committer, 7, 15);
    for watermark in 0..5 {
        let late = plain_all(&committer.try_commit(reference(0, watermark)));
        for decision in &early {
            let same_round: Vec<_> = late.iter().filter(|d| d.0 == decision.0).collect();
            if decision.0 > watermark {
                assert_eq!(same_round, vec![decision]);
            } else {
                assert!(same_round.is_empty());
            }
        }
    }
}

#[test]
fn a_skip_by_the_votes_survives_the_growth_of_the_dag() {
    let mut committer = build(BlockStore::new(), 3, true);
    add_full_rounds(&mut committer, 0, 2);
    let leader = reference(2, 2);
    add(&mut committer, 0, 3, without(round_of(2), leader));
    add(&mut committer, 1, 3, without(round_of(2), leader));
    add(&mut committer, 2, 3, without(round_of(2), leader));
    let early = committer.try_commit(reference(0, 1));
    assert!(matches!(early[0], LeaderStatus::Skip(2, 2)));
    add(&mut committer, 3, 3, round_of(2));
    add_full_rounds(&mut committer, 4, 9);
    let late = committer.try_commit(reference(0, 1));
    assert!(matches!(late[0], LeaderStatus::Skip(2, 2)));
}

#[test]
fn a_leader_block_that_arrives_late_overturns_the_skip_for_want_of_it() {
    let mut committer = build(BlockStore::new(), 3, true);
    add_full_rounds(&mut committer, 0, 1);
    add(&mut committer, 0, 2, round_of(1));
    let early = committer.try_commit(reference(0, 1));
    assert!(matches!(early[0], LeaderStatus::Skip(2, 2)));
    for authority in 1..4 {
        add(&mut committer, authority, 2, round_of(1));
    }
    add_full_rounds(&mut committer, 3, 3);
    let late = committer.try_commit(reference(0, 1));
    assert_eq!(plain(&late[0]), (2, 2, Some(reference(2, 2)), true));
}

#[test]
fn every_leader_is_decided_once_the_next_wave_commits() {
    let wave_length = 3;
    let mut committer = build(BlockStore::new(), wave_length, true);
    add_full_rounds(&mut committer, 0, 3);
    let leader = reference(0, 4);
    add_full_rounds(&mut committer, 4, 4);
    add(&mut committer, 0, 5, round_of(4));
    add(&mut committer, 1, 5, round_of(4));
    add(&mut committer, 2, 5, without(round_of(4), leader));
    add(&mut committer, 3, 5, without(round_of(4), leader));
    add_full_rounds(&mut committer, 6, 4 + wave_length + 2);
    let decided = committer.try_commit(reference(0, 3));
    assert_eq!(plain(&decided[0]), (4, 0, Some(leader), true));
    assert_eq!(rounds(&decided), vec![4, 5, 6, 7, 8]);
}

#[test]
fn pipelining_keeps_what_the_single_committer_decides() {
    let mut single = build(BlockStore::new(), 3, false);
    let mut piped = build(BlockStore::new(), 3, true);
    for committer in [&mut single, &mut piped] {
        add_full_rounds(committer, 0, 5);
        let leader = reference(2, 6);
        add_full_rounds(committer, 6, 6);
        add(committer, 0, 7, round_of(6));
        add(committer, 1, 7, without(round_of(6), leader));
        add(committer, 2, 7, without(round_of(6), leader));
        add(committer, 3, 7, without(round_of(6), leader));
        add_full_rounds(committer, 8, 30);
    }
    let without_pipeline = single.try_commit(reference(0, 0));
    let with_pipeline = piped.try_commit(reference(0, 0));
    assert_eq!(rounds(&without_pipeline), vec![3, 6, 9, 12, 15, 18, 21, 24, 27]);
    assert_eq!(with_pipeline.len(), 29);
    let of_offset_zero: Vec<_> =
        plain_all(&with_pipeline).into_iter().filter(|d| d.0 % 3 == 0).collect();
    assert_eq!(of_offset_zero, plain_all(&without_pipeline));
    for block in committed(&without_pipeline) {
        assert!(committed(&with_pipeline).contains(&block));
    }
    assert!(matches!(without_pipeline[1], LeaderStatus::Skip(2, 6)));
}

#[test]
fn each_decided_leader_is_counted_once() {
    let mut committer = build(BlockStore::new(), 3, true);
    add_full_rounds(&mut committer, 0, 2);
    let leader = reference(2, 2);
    for authority in 0..4 {
        add(&mut committer, authority, 3, without(round_of(2), leader));
    }
    add_full_rounds(&mut committer, 4, 6);
    let decided = committer.try_commit(reference(0, 0));
    assert_eq!(rounds(&decided), vec![1, 2, 3, 4, 5]);
    let metrics = committer.metrics();
    assert_eq!(metrics.committed_leaders(1, DecisionKind::DirectCommit), 2);
    assert_eq!(metrics.committed_leaders(2, DecisionKind::DirectSkip), 1);
    assert_eq!(metrics.committed_leaders(2, DecisionKind::DirectCommit), 0);
    assert_eq!(metrics.committed_leaders(3, DecisionKind::DirectCommit), 1);
    assert_eq!(metrics.committed_leaders(0, DecisionKind::DirectCommit), 1);
    assert_eq!(metrics.committed_leaders(0, DecisionKind::IndirectCommit), 0);
    committer.try_commit(reference(0, 3));
    assert_eq!(committer.metrics().committed_leaders(0, DecisionKind::DirectCommit), 2);
    assert_eq!(committer.metrics().committed_leaders(1, DecisionKind::DirectCommit), 3);
    assert_eq!(committer.metrics().committed_leaders(3, DecisionKind::DirectCommit), 1);
}

#[test]
fn counting_does_not_change_what_is_decided() {
    let mut counted = full(9, 3, true);
    for _ in 0..5 {
        counted.try_commit(reference(0, 0));
    }
    let mut fresh = full(9, 3, true);
    assert_eq!(
        plain_all(&counted.try_commit(reference(0, 2))),
        plain_all(&fresh.try_commit(reference(0, 2)))
    );
}

#[test]
fn update_metrics_counts_decided_leaders_only() {
    let mut committer = full(1, 3, false);
    committer.update_metrics(&LeaderStatus::Skip(2, 6), true);
    committer.update_metrics(&LeaderStatus::Skip(2, 9), false);
    committer.update_metrics(&LeaderStatus::Undecided(2, 9), true);
    committer.update_metrics(
        &LeaderStatus::Commit(StatementBlock::new(reference(2, 3), vec![])),
        false,
    );
    let metrics = committer.metrics();
    assert_eq!(metrics.committed_leaders(2, DecisionKind::DirectSkip), 1);
    assert_eq!(metrics.committed_leaders(2, DecisionKind::IndirectSkip), 1);
    assert_eq!(metrics.committed_leaders(2, DecisionKind::IndirectCommit), 1);
    assert_eq!(metrics.committed_leaders(2, DecisionKind::DirectCommit), 0);
}

#[test]
fn the_committer_refuses_what_the_store_refuses() {
    let mut committer = full(1, 3, false);
    assert!(!committer.insert_block(StatementBlock::new(reference(0, 1), vec![])));
    assert!(!committer.insert_block(StatementBlock::new(reference(0, 2), vec![reference(0, 5)])));
    assert_eq!(committer.block_store().highest_round(), 1);
}
