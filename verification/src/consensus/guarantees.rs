//! What the commit rule guarantees to its callers, proved from its definition.

use vstd::prelude::*;
use crate::block_store::{
    lemma_connected_history_reaches, lemma_first_by_survives_growth, lemma_history_is_closed,
    lemma_linked_survives_growth, lemma_reach_survives_growth, Dag,
};
use crate::committee::{
    lemma_quorums_overlap, lemma_stake_disjoint, lemma_stake_monotone, stake_sum,
};
use crate::consensus::base_committer::{
    lemma_leader_block_at, lemma_votes_exclude, CommitRule,
};
use crate::consensus::universal_committer::{
    commit_sequence, decided_at, decides_round, pipeline_rules, rule_for, try_commit_result,
    UniversalView,
};
use crate::types::{AuthorityIndex, BlockReference, RoundNumber};

verus! {

/// The leader's block of a round is a block of that round, by the leader.
pub proof fn lemma_leader_block_round(rule: CommitRule, dag: Dag, round: RoundNumber)
    requires
        dag.wf(),
        rule.leader_block(dag, round) is Some,
    ensures
        rule.leader_block(dag, round).unwrap().reference.round == round,
        rule.leader_block(dag, round).unwrap().reference.authority == rule.leader_for(round),
        dag.stored(rule.leader_block(dag, round).unwrap().reference),
{
    let index = choose|index: int| rule.leader_at(dag, round, index);
    assert(dag.rounds[round as int][index].reference.round == round);
    assert(dag.stored_at(dag.blocks_at(round as int)[index].reference, index));
}

/// Every outcome of the rule for a round is about that round and its leader.
pub proof fn lemma_decision_round(rule: CommitRule, dag: Dag, round: RoundNumber)
    requires
        dag.wf(),
    ensures
        rule.decision(dag, round).round() == round,
        rule.decision(dag, round).authority() == rule.leader_for(round),
        rule.direct_decision(dag, round).round() == round,
        rule.direct_decision(dag, round).authority() == rule.leader_for(round),
{
    if rule.leader_block(dag, round) is Some {
        lemma_leader_block_round(rule, dag, round);
    }
}

/// The sequence of final outcomes holds, by strictly increasing round, the
/// final outcome of every decided round of its range, and nothing else.
pub proof fn lemma_commit_sequence_shape(
    rules: Seq<CommitRule>,
    dag: Dag,
    after: RoundNumber,
    upto: RoundNumber,
)
    requires
        dag.wf(),
    ensures
        forall|i: int|
            0 <= i < commit_sequence(rules, dag, after, upto).len() ==> {
                let decision = #[trigger] commit_sequence(rules, dag, after, upto)[i];
                &&& after < decision.round() <= upto
                &&& decision.is_decided()
                &&& decided_at(rules, dag, decision.round()) == Some(decision)
            },
        forall|i: int, j: int|
            0 <= i < j < commit_sequence(rules, dag, after, upto).len() ==> (
            #[trigger] commit_sequence(rules, dag, after, upto)[i]).round() < (
            #[trigger] commit_sequence(rules, dag, after, upto)[j]).round(),
        forall|round: RoundNumber|
            after < round <= upto && decided_at(rules, dag, round) is Some ==> commit_sequence(
                rules,
                dag,
                after,
                upto,
            ).contains(#[trigger] decided_at(rules, dag, round).unwrap()),
    decreases upto,
{
    if upto > after {
        let below = (upto - 1) as RoundNumber;
        lemma_commit_sequence_shape(rules, dag, after, below);
        let earlier = commit_sequence(rules, dag, after, below);
        let all = commit_sequence(rules, dag, after, upto);
        let top = upto;
        if let Some(rule) = rule_for(rules, top) {
            lemma_decision_round(rule, dag, top);
        }
        assert forall|round: RoundNumber|
            after < round <= upto && decided_at(rules, dag, round) is Some implies all.contains(
            #[trigger] decided_at(rules, dag, round).unwrap(),
        ) by {
            let decision = decided_at(rules, dag, round).unwrap();
            if round < upto {
                let i = choose|i: int| 0 <= i < earlier.len() && earlier[i] == decision;
                assert(all[i] == decision);
            } else {
                assert(all[all.len() - 1] == decision);
            }
        }
    }
}

/// Idempotence: a call of `try_commit` leaves the DAG and the rules as they
/// are and changes the counters alone, so a second call with the same
/// watermark returns the same sequence, whatever was counted in between.
pub proof fn law_try_commit_is_idempotent(
    before: UniversalView,
    after: UniversalView,
    last_decided: BlockReference,
)
    requires
        after.dag == before.dag,
        after.rules == before.rules,
    ensures
        try_commit_result(after.rules, after.dag, last_decided) == try_commit_result(
            before.rules,
            before.dag,
            last_decided,
        ),
{
}

/// Round ordering: the rounds of the sequence that `try_commit` returns
/// are strictly increasing.
pub proof fn law_rounds_strictly_increase(
    rules: Seq<CommitRule>,
    dag: Dag,
    last_decided: BlockReference,
    i: int,
    j: int,
)
    requires
        dag.wf(),
        0 <= i < j < try_commit_result(rules, dag, last_decided).len(),
    ensures
        try_commit_result(rules, dag, last_decided)[i].round() < try_commit_result(
            rules,
            dag,
            last_decided,
        )[j].round(),
{
    lemma_commit_sequence_shape(
        rules,
        dag,
        last_decided.round,
        dag.highest_round() as RoundNumber,
    );
}

/// No premature commit: `try_commit` returns final outcomes only, none for
/// round 0, none for a round up to the watermark and none for a round above
/// the highest round of the DAG.
pub proof fn law_no_premature_commit(
    rules: Seq<CommitRule>,
    dag: Dag,
    last_decided: BlockReference,
    i: int,
)
    requires
        dag.wf(),
        0 <= i < try_commit_result(rules, dag, last_decided).len(),
    ensures
        try_commit_result(rules, dag, last_decided)[i].is_decided(),
        try_commit_result(rules, dag, last_decided)[i].round() > 0,
        try_commit_result(rules, dag, last_decided)[i].round() > last_decided.round,
        try_commit_result(rules, dag, last_decided)[i].round() <= dag.highest_round(),
{
    lemma_commit_sequence_shape(
        rules,
        dag,
        last_decided.round,
        dag.highest_round() as RoundNumber,
    );
}

/// A watermark that has reached the highest round leaves nothing to decide.
pub proof fn law_nothing_beyond_highest_round(
    rules: Seq<CommitRule>,
    dag: Dag,
    last_decided: BlockReference,
)
    requires
        last_decided.round >= dag.highest_round(),
    ensures
        try_commit_result(rules, dag, last_decided).len() == 0,
{
}

/// A vote that was cast stays cast when the DAG grows: the stake behind a
/// block, and the stake against it, can only rise.
pub proof fn lemma_votes_survive_growth(
    rule: CommitRule,
    later: Dag,
    earlier: Dag,
    round: int,
    target: BlockReference,
    approve: bool,
)
    requires
        later.extends(earlier),
    ensures
        rule.vote_stake(earlier, round, target, approve) <= rule.vote_stake(
            later,
            round,
            target,
            approve,
        ),
{
    let before = rule.voters(earlier, round, target, approve);
    let after = rule.voters(later, round, target, approve);
    assert forall|a: int| 0 <= a < rule.stakes.len() && before.contains(a) implies after.contains(
        a,
    ) by {
        let index = choose|index: int|
            0 <= a <= u64::MAX && #[trigger] earlier.first_by(round, a as AuthorityIndex, index)
                && earlier.blocks_at(round)[index].acknowledges(target) == approve;
        lemma_first_by_survives_growth(later, earlier, round, a as AuthorityIndex, index);
    }
    lemma_stake_monotone(rule.stakes, before, after, rule.stakes.len());
}

/// The votes of a round cannot carry a quorum for a block and a quorum
/// against it: an authority votes once.
pub proof fn lemma_no_two_quorums(rule: CommitRule, dag: Dag, round: int, target: BlockReference)
    ensures
        !(rule.vote_stake(dag, round, target, true) >= rule.quorum() && rule.vote_stake(
            dag,
            round,
            target,
            false,
        ) >= rule.quorum()),
{
    lemma_votes_exclude(rule, dag, round, target);
    lemma_stake_disjoint(
        rule.stakes,
        rule.voters(dag, round, target, true),
        rule.voters(dag, round, target, false),
        rule.stakes.len(),
    );
    lemma_quorums_overlap(stake_sum(rule.stakes));
}

/// The leader's block of a round stays the leader's block when the DAG grows.
pub proof fn lemma_leader_block_survives_growth(
    rule: CommitRule,
    later: Dag,
    earlier: Dag,
    round: RoundNumber,
)
    requires
        later.extends(earlier),
        rule.leader_block(earlier, round) is Some,
    ensures
        rule.leader_block(later, round) == rule.leader_block(earlier, round),
{
    let index = choose|index: int| rule.leader_at(earlier, round, index);
    lemma_leader_block_at(rule, earlier, round, index);
    lemma_first_by_survives_growth(later, earlier, round as int, rule.leader_for(round), index);
    lemma_leader_block_at(rule, later, round, index);
}

/// A leader that the votes commit stays committed, with the same block,
/// however the DAG grows.
pub proof fn law_direct_commit_is_final(
    rule: CommitRule,
    later: Dag,
    earlier: Dag,
    round: RoundNumber,
)
    requires
        later.extends(earlier),
        rule.direct_decision(earlier, round) is Commit,
    ensures
        rule.direct_decision(later, round) == rule.direct_decision(earlier, round),
{
    lemma_leader_block_survives_growth(rule, later, earlier, round);
    let block = rule.leader_block(earlier, round).unwrap();
    lemma_votes_survive_growth(rule, later, earlier, round + 1, block.reference, true);
}

/// A leader whose block a quorum of votes leaves out stays skipped,
/// however the DAG grows.
pub proof fn law_direct_skip_is_final(
    rule: CommitRule,
    later: Dag,
    earlier: Dag,
    round: RoundNumber,
)
    requires
        later.extends(earlier),
        rule.leader_block(earlier, round) is Some,
        rule.direct_decision(earlier, round) is Skip,
    ensures
        rule.direct_decision(later, round) == rule.direct_decision(earlier, round),
{
    lemma_leader_block_survives_growth(rule, later, earlier, round);
    let block = rule.leader_block(earlier, round).unwrap();
    lemma_votes_survive_growth(rule, later, earlier, round + 1, block.reference, false);
    lemma_no_two_quorums(rule, later, round + 1, block.reference);
}

/// An anchor stays an anchor when the DAG grows, and keeps what its
/// history holds: it links the leader's block of `round` afterwards exactly
/// if it did before, and still reaches the round after `round` if it did.
pub proof fn lemma_anchor_survives_growth(
    rule: CommitRule,
    later: Dag,
    earlier: Dag,
    round: RoundNumber,
    anchor: RoundNumber,
)
    requires
        later.extends(earlier),
        later.wf(),
        earlier.wf(),
        rule.leader_block(earlier, round) is Some,
        rule.is_anchor(earlier, round, anchor),
    ensures
        rule.is_anchor(later, round, anchor),
        rule.anchor_links(later, round, anchor) == rule.anchor_links(earlier, round, anchor),
        rule.anchor_reaches(earlier, round, anchor) ==> rule.anchor_reaches(later, round, anchor),
{
    law_direct_commit_is_final(rule, later, earlier, anchor);
    lemma_leader_block_survives_growth(rule, later, earlier, anchor);
    lemma_leader_block_survives_growth(rule, later, earlier, round);
    lemma_leader_block_round(rule, earlier, anchor);
    let from = rule.leader_block(earlier, anchor).unwrap().reference;
    let to = rule.leader_block(earlier, round).unwrap().reference;
    if earlier.linked(from, to) {
        lemma_linked_survives_growth(later, earlier, from, to);
    }
    if later.linked(from, to) {
        lemma_history_is_closed(later, earlier, from, to);
    }
    if earlier.reaches_round(from, round + 1) {
        lemma_reach_survives_growth(later, earlier, from, round + 1);
    }
}

/// Whether the votes of the next round carry a quorum for the leader's
/// block of `round` (`approve`) or against it.
pub open spec fn votes_decide(rule: CommitRule, dag: Dag, round: RoundNumber, approve: bool) -> bool {
    &&& rule.leader_block(dag, round) is Some
    &&& rule.vote_stake(
        dag,
        round + 1,
        rule.leader_block(dag, round).unwrap().reference,
        approve,
    ) >= rule.quorum()
}

/// Whether the growth of the DAG from `earlier` to `later` overturns the
/// final outcome that `earlier` gave for `round`. There are three ways:
/// the leader's block arrives after the round was skipped for want of it,
/// and the grown DAG does not skip it; the leader was committed through a
/// later leader, and a quorum of votes against its block arrives; the
/// leader was skipped through a later leader, and a quorum of votes for its
/// block arrives, or, without a quorum against it, a committed later leader
/// whose history holds the block.
pub open spec fn overturned(rule: CommitRule, later: Dag, earlier: Dag, round: RoundNumber) -> bool {
    let indirect = !rule.direct_decision(earlier, round).is_decided();
    ||| {
        &&& rule.leader_block(earlier, round) is None
        &&& rule.leader_block(later, round) is Some
        &&& !(rule.decision(later, round) is Skip)
    }
    ||| {
        &&& indirect
        &&& rule.decision(earlier, round) is Commit
        &&& votes_decide(rule, later, round, false)
    }
    ||| {
        &&& indirect
        &&& rule.decision(earlier, round) is Skip
        &&& {
            ||| votes_decide(rule, later, round, true)
            ||| {
                &&& !votes_decide(rule, later, round, false)
                &&& exists|anchor: RoundNumber| rule.anchor_links(later, round, anchor)
            }
        }
    }
}

/// Monotonic safety of one rule: a final outcome for a leader round stays
/// the outcome when the DAG grows, unless the growth overturns it.
pub proof fn law_decision_is_final(rule: CommitRule, later: Dag, earlier: Dag, round: RoundNumber)
    requires
        earlier.wf(),
        later.wf(),
        later.extends(earlier),
        rule.decision(earlier, round).is_decided(),
        !overturned(rule, later, earlier, round),
    ensures
        rule.decision(later, round) == rule.decision(earlier, round),
{
    if rule.leader_block(earlier, round) is Some {
        lemma_leader_block_survives_growth(rule, later, earlier, round);
        let block = rule.leader_block(earlier, round).unwrap();
        let target = block.reference;
        lemma_votes_survive_growth(rule, later, earlier, round + 1, target, true);
        lemma_votes_survive_growth(rule, later, earlier, round + 1, target, false);
        lemma_no_two_quorums(rule, later, round + 1, target);
        if !rule.direct_decision(earlier, round).is_decided() {
            if exists|anchor: RoundNumber| rule.anchor_links(earlier, round, anchor) {
                let anchor = choose|anchor: RoundNumber| rule.anchor_links(earlier, round, anchor);
                lemma_anchor_survives_growth(rule, later, earlier, round, anchor);
                assert(rule.anchor_links(later, round, anchor));
            } else {
                let anchor = choose|anchor: RoundNumber|
                    rule.anchor_reaches(earlier, round, anchor);
                lemma_anchor_survives_growth(rule, later, earlier, round, anchor);
                assert(rule.anchor_reaches(later, round, anchor));
            }
        }
    }
}

/// The three ways are the only ones: growth that overturns a final outcome
/// in one of them does change the outcome.
pub proof fn law_overturned_decision_changes(
    rule: CommitRule,
    later: Dag,
    earlier: Dag,
    round: RoundNumber,
)
    requires
        earlier.wf(),
        later.wf(),
        later.extends(earlier),
        rule.decision(earlier, round).is_decided(),
        overturned(rule, later, earlier, round),
    ensures
        rule.decision(later, round) != rule.decision(earlier, round),
{
    if rule.leader_block(earlier, round) is Some {
        lemma_leader_block_survives_growth(rule, later, earlier, round);
        let target = rule.leader_block(earlier, round).unwrap().reference;
        lemma_no_two_quorums(rule, later, round + 1, target);
    }
}

/// Monotonic safety: once `try_commit` has returned a final outcome for a
/// leader round, a later call on the grown DAG, whatever its watermark,
/// returns no other outcome for that round, and returns this one if its
/// watermark lies below the round. This holds unless the growth overturns
/// the outcome.
pub proof fn law_try_commit_is_monotonic(
    rules: Seq<CommitRule>,
    later: Dag,
    earlier: Dag,
    first_watermark: BlockReference,
    later_watermark: BlockReference,
    i: int,
)
    requires
        earlier.wf(),
        later.wf(),
        later.extends(earlier),
        0 <= i < try_commit_result(rules, earlier, first_watermark).len(),
        ({
            let round = try_commit_result(rules, earlier, first_watermark)[i].round();
            rule_for(rules, round) matches Some(rule) ==> !overturned(rule, later, earlier, round)
        }),
    ensures
        ({
            let decision = try_commit_result(rules, earlier, first_watermark)[i];
            let again = try_commit_result(rules, later, later_watermark);
            &&& forall|j: int|
                0 <= j < again.len() && (#[trigger] again[j]).round() == decision.round()
                    ==> again[j] == decision
            &&& later_watermark.round < decision.round() ==> again.contains(decision)
        }),
{
    let decision = try_commit_result(rules, earlier, first_watermark)[i];
    let round = decision.round();
    let again = try_commit_result(rules, later, later_watermark);
    lemma_commit_sequence_shape(
        rules,
        earlier,
        first_watermark.round,
        earlier.highest_round() as RoundNumber,
    );
    lemma_commit_sequence_shape(
        rules,
        later,
        later_watermark.round,
        later.highest_round() as RoundNumber,
    );
    let rule = rule_for(rules, round).unwrap();
    law_decision_is_final(rule, later, earlier, round);
    assert(decided_at(rules, later, round) == Some(decision));
    if later_watermark.round < round {
        assert(again.contains(decided_at(rules, later, round).unwrap()));
    }
}

/// Whether the DAG leaves the leader of `round` undecided: the leader
/// proposed a block, the votes of the next round carry no quorum for it and
/// none against it, and no later leader of the same offset is committed
/// with a history that holds the block or reaches the next round.
pub open spec fn stalled(rule: CommitRule, dag: Dag, round: RoundNumber) -> bool {
    &&& rule.leader_block(dag, round) is Some
    &&& !votes_decide(rule, dag, round, true)
    &&& !votes_decide(rule, dag, round, false)
    &&& forall|anchor: RoundNumber|
        !rule.anchor_links(dag, round, anchor) && !rule.anchor_reaches(dag, round, anchor)
}

/// Liveness: a leader round is undecided only while the DAG leaves it
/// stalled, however far the DAG has grown past it.
pub proof fn law_undecided_only_while_stalled(rule: CommitRule, dag: Dag, round: RoundNumber)
    requires
        rule.responsible(round),
    ensures
        rule.decision(dag, round).is_decided() <==> !stalled(rule, dag, round),
{
}

/// Liveness: a leader round is decided as soon as a later leader of the
/// same offset is committed by the votes of its next round and the history
/// of that leader reaches the round after this one.
pub proof fn law_decided_once_later_leader_commits(
    rule: CommitRule,
    dag: Dag,
    round: RoundNumber,
    anchor: RoundNumber,
)
    requires
        rule.responsible(round),
        rule.anchor_reaches(dag, round, anchor),
    ensures
        rule.decision(dag, round).is_decided(),
{
}

/// Liveness, for the next wave: once a connected DAG has grown
/// `wave_length + 2` rounds past a leader round and the votes commit the
/// leader of the next wave, the round is decided.
pub proof fn law_decided_after_next_wave(rule: CommitRule, dag: Dag, round: RoundNumber)
    requires
        dag.wf(),
        dag.connected(),
        rule.responsible(round),
        dag.highest_round() >= round + rule.wave_length + 2,
        rule.direct_decision(dag, (round + rule.wave_length) as RoundNumber) is Commit,
    ensures
        rule.decision(dag, round).is_decided(),
{
    let next = (round + rule.wave_length) as RoundNumber;
    let r = round as int;
    let w = rule.wave_length as int;
    assert((r + w) % w == r % w) by (nonlinear_arith)
        requires
            w > 0,
    ;
    assert(rule.is_anchor(dag, round, next));
    lemma_leader_block_round(rule, dag, next);
    lemma_connected_history_reaches(
        dag,
        rule.leader_block(dag, next).unwrap().reference,
        round + 1,
    );
    assert(rule.anchor_reaches(dag, round, next));
}

/// Pipelining only adds decisions: for a round that is a leader round
/// without pipelining, the committer with pipelining reaches the outcome
/// that the committer without it reaches, on the same DAG.
pub proof fn law_pipelining_keeps_decisions(
    stakes: Seq<u64>,
    wave_length: RoundNumber,
    dag: Dag,
    round: RoundNumber,
)
    requires
        rule_for(pipeline_rules(stakes, wave_length, false), round) is Some,
    ensures
        rule_for(pipeline_rules(stakes, wave_length, true), round) == rule_for(
            pipeline_rules(stakes, wave_length, false),
            round,
        ),
        decided_at(pipeline_rules(stakes, wave_length, true), dag, round) == decided_at(
            pipeline_rules(stakes, wave_length, false),
            dag,
            round,
        ),
{
    let single = pipeline_rules(stakes, wave_length, false);
    let staged = pipeline_rules(stakes, wave_length, true);
    let index = choose|index: int| decides_round(single, round, index);
    assert(decides_round(single, round, index));
    assert(index == 0);
    assert(staged[0] == single[0]);
    assert(decides_round(staged, round, 0));
    let chosen = choose|index: int| decides_round(staged, round, index);
    assert(decides_round(staged, round, chosen));
    assert(chosen == 0);
}

/// With pipelining every round above 0 is a leader round of exactly one
/// committer: the one whose offset is the round's place in its wave.
pub proof fn law_pipelining_covers_every_round(
    stakes: Seq<u64>,
    wave_length: RoundNumber,
    round: RoundNumber,
)
    requires
        wave_length > 0,
        round > 0,
    ensures
        decides_round(
            pipeline_rules(stakes, wave_length, true),
            round,
            round as int % wave_length as int,
        ),
{
}

} // verus!
