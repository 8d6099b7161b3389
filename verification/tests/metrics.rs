use mysticeti::metrics::{DecisionKind, Metrics};

#[test]
fn fresh_counters_have_counted_nothing() {
    let metrics = Metrics::new();
    assert_eq!(metrics.committed_leaders(0, DecisionKind::DirectCommit), 0);
    assert_eq!(metrics.committed_leaders(7, DecisionKind::IndirectSkip), 0);
}

#[test]
fn inc_raises_one_counter_by_one() {
    let mut metrics = Metrics::new();
    metrics.inc(3, DecisionKind::DirectCommit);
    metrics.inc(3, DecisionKind::DirectCommit);
    metrics.inc(3, DecisionKind::DirectSkip);
    metrics.inc(4, DecisionKind::DirectCommit);
    assert_eq!(metrics.committed_leaders(3, DecisionKind::DirectCommit), 2);
    assert_eq!(metrics.committed_leaders(3, DecisionKind::DirectSkip), 1);
    assert_eq!(metrics.committed_leaders(4, DecisionKind::DirectCommit), 1);
    assert_eq!(metrics.committed_leaders(4, DecisionKind::DirectSkip), 0);
    assert_eq!(metrics.committed_leaders(3, DecisionKind::IndirectCommit), 0);
}

#[test]
fn kinds_are_labelled_by_provenance_and_outcome() {
    assert_eq!(DecisionKind::of(true, true), DecisionKind::DirectCommit);
    assert_eq!(DecisionKind::of(false, true), DecisionKind::DirectSkip);
    assert_eq!(DecisionKind::of(true, false), DecisionKind::IndirectCommit);
    assert_eq!(DecisionKind::of(false, false), DecisionKind::IndirectSkip);
    assert_eq!(DecisionKind::DirectCommit.label(), "direct-commit");
    assert_eq!(DecisionKind::DirectSkip.label(), "direct-skip");
    assert_eq!(DecisionKind::IndirectCommit.label(), "indirect-commit");
    assert_eq!(DecisionKind::IndirectSkip.label(), "indirect-skip");
}
