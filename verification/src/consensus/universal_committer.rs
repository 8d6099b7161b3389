//! The universal committer: the base committers of all pipeline offsets
//! behind one ordered stream of decisions.

use vstd::prelude::*;
use crate::block_store::{BlockStore, Dag};
use crate::committee::Committee;
use crate::consensus::base_committer::{BaseCommitter, BaseCommitterOptions, CommitRule};
use crate::consensus::{Decision, LeaderStatus, DEFAULT_WAVE_LENGTH};
use crate::metrics::{counted, CounterKey, Counters, DecisionKind, Metrics};
use crate::types::{BlockReference, RoundNumber, StatementBlock};

verus! {

/// Whether the `index`-th rule is the one that decides `round`: the first
/// whose leader rounds include it.
pub open spec fn decides_round(rules: Seq<CommitRule>, round: RoundNumber, index: int) -> bool {
    &&& 0 <= index < rules.len()
    &&& rules[index].responsible(round)
    &&& forall|j: int| 0 <= j < index ==> !(#[trigger] rules[j]).responsible(round)
}

/// The rule that decides `round`, if `round` is a leader round of any.
pub open spec fn rule_for(rules: Seq<CommitRule>, round: RoundNumber) -> Option<CommitRule> {
    if exists|index: int| decides_round(rules, round, index) {
        Some(rules[choose|index: int| decides_round(rules, round, index)])
    } else {
        None
    }
}

/// The final outcome for `round`, if the DAG decides it.
pub open spec fn decided_at(rules: Seq<CommitRule>, dag: Dag, round: RoundNumber) -> Option<Decision> {
    match rule_for(rules, round) {
        Some(rule) => if rule.decision(dag, round).is_decided() {
            Some(rule.decision(dag, round))
        } else {
            None
        },
        None => None,
    }
}

/// Whether the outcome for `round` follows from the votes of the next round alone.
pub open spec fn decided_directly(rules: Seq<CommitRule>, dag: Dag, round: RoundNumber) -> bool {
    match rule_for(rules, round) {
        Some(rule) => rule.direct_decision(dag, round).is_decided(),
        None => false,
    }
}

/// The final outcomes for the rounds above `after` up to `upto`, by
/// increasing round. Rounds that the DAG does not decide are left out.
pub open spec fn commit_sequence(
    rules: Seq<CommitRule>,
    dag: Dag,
    after: RoundNumber,
    upto: RoundNumber,
) -> Seq<Decision>
    decreases upto,
{
    if upto <= after {
        Seq::empty()
    } else {
        let earlier = commit_sequence(rules, dag, after, (upto - 1) as RoundNumber);
        match decided_at(rules, dag, upto) {
            Some(decision) => earlier.push(decision),
            None => earlier,
        }
    }
}

/// The counter that a final outcome raises.
pub open spec fn counter_key(decision: Decision, direct: bool) -> CounterKey {
    (decision.authority(), DecisionKind::spec_of(decision is Commit, direct))
}

/// `counters` after every final outcome for the rounds above `after` up to
/// `upto` was counted once.
pub open spec fn recorded(
    counters: Counters,
    rules: Seq<CommitRule>,
    dag: Dag,
    after: RoundNumber,
    upto: RoundNumber,
) -> Counters
    decreases upto,
{
    if upto <= after {
        counters
    } else {
        let earlier = recorded(counters, rules, dag, after, (upto - 1) as RoundNumber);
        match decided_at(rules, dag, upto) {
            Some(decision) => counted(
                earlier,
                counter_key(decision, decided_directly(rules, dag, upto)),
            ),
            None => earlier,
        }
    }
}

/// What `try_commit` returns for the watermark `last_decided`: nothing when
/// the watermark has reached the highest round, else the final outcomes for
/// the rounds above it.
pub open spec fn try_commit_result(rules: Seq<CommitRule>, dag: Dag, last_decided: BlockReference) -> Seq<
    Decision,
> {
    commit_sequence(rules, dag, last_decided.round, dag.highest_round() as RoundNumber)
}

/// The outcomes that a sequence of leader statuses stands for.
pub open spec fn decisions_of(statuses: Seq<LeaderStatus>) -> Seq<Decision> {
    statuses.map_values(|status: LeaderStatus| status@)
}

/// The rules that a builder configured with `wave_length` and `pipeline`
/// sets up: one per offset of the wave with pipelining, else the one of
/// offset 0.
pub open spec fn pipeline_rules(stakes: Seq<u64>, wave_length: RoundNumber, pipeline: bool) -> Seq<
    CommitRule,
> {
    Seq::new(
        if pipeline {
            wave_length as nat
        } else {
            1
        },
        |offset: int| CommitRule { stakes, wave_length, round_offset: offset as RoundNumber },
    )
}

/// What a universal committer is, as mathematics.
pub struct UniversalView {
    /// The DAG it decides on.
    pub dag: Dag,
    /// The commit rules of its base committers.
    pub rules: Seq<CommitRule>,
    /// The counters of the leaders it decided.
    pub counters: Counters,
}

/// A universal committer uses a collection of committers to commit blocks.
/// It can be configured to use different commit strategies, including pipelines.
#[derive(Debug)]
pub struct UniversalCommitter {
    block_store: BlockStore,
    committers: Vec<BaseCommitter>,
    metrics: Metrics,
}

impl View for UniversalCommitter {
    type V = UniversalView;

    closed spec fn view(&self) -> UniversalView {
        UniversalView {
            dag: self.block_store@,
            rules: Seq::new(self.committers@.len(), |i: int| self.committers@[i]@),
            counters: self.metrics@,
        }
    }
}

impl UniversalCommitter {
    /// The invariant of a committer: its DAG and its rules are well formed.
    pub open spec fn wf(&self) -> bool {
        &&& self@.dag.wf()
        &&& forall|i: int| 0 <= i < self@.rules.len() ==> (#[trigger] self@.rules[i]).wf()
    }

    /// The block store the committer decides on.
    pub fn block_store(&self) -> (store: &BlockStore)
        ensures
            store@ == self@.dag,
    {
        &self.block_store
    }

    /// The counters of the leaders decided so far.
    pub fn metrics(&self) -> (metrics: &Metrics)
        ensures
            metrics@ == self@.counters,
    {
        &self.metrics
    }

    /// Hands a received block to the store; see `BlockStore::insert`.
    pub fn insert_block(&mut self, block: StatementBlock) -> (inserted: bool)
        requires
            old(self).wf(),
        ensures
            final(self).wf(),
            inserted == old(self)@.dag.admits(block@),
            inserted ==> final(self)@.dag == old(self)@.dag.with_block(block@),
            !inserted ==> final(self)@.dag == old(self)@.dag,
            final(self)@.dag.extends(old(self)@.dag),
            final(self)@.rules == old(self)@.rules,
            final(self)@.counters == old(self)@.counters,
    {
        let inserted = self.block_store.insert(block);
        assert(self@.rules =~= old(self)@.rules);
        inserted
    }

    /// The committer that decides `round`, if `round` is a leader round of any.
    fn committer_for(&self, round: RoundNumber) -> (place: Option<usize>)
        ensures
            match place {
                Some(index) => decides_round(self@.rules, round, index as int) && rule_for(
                    self@.rules,
                    round,
                ) == Some(self@.rules[index as int]),
                None => rule_for(self@.rules, round) is None,
            },
    {
        let mut i: usize = 0;
        while i < self.committers.len()
            invariant
                i <= self.committers.len(),
                self@.rules.len() == self.committers@.len(),
                forall|j: int| 0 <= j < i ==> !(#[trigger] self@.rules[j]).responsible(round),
            decreases self.committers.len() - i,
        {
            if self.committers[i].is_responsible(round) {
                proof {
                    let chosen = choose|index: int| decides_round(self@.rules, round, index);
                    assert(decides_round(self@.rules, round, i as int));
                    assert(chosen == i);
                }
                return Some(i);
            }
            i += 1;
        }
        None
    }

    /// Try to commit part of the dag. This function is idempotent and returns
    /// a list of ordered decided blocks: the final outcome of every leader
    /// round above the round of `last_decided` that the DAG decides, by
    /// increasing round. Each of them is counted once in the metrics.
    pub fn try_commit(&mut self, last_decided: BlockReference) -> (committed: Vec<LeaderStatus>)
        requires
            old(self).wf(),
        ensures
            final(self).wf(),
            final(self)@.dag == old(self)@.dag,
            final(self)@.rules == old(self)@.rules,
            decisions_of(committed@) == try_commit_result(
                old(self)@.rules,
                old(self)@.dag,
                last_decided,
            ),
            final(self)@.counters == recorded(
                old(self)@.counters,
                old(self)@.rules,
                old(self)@.dag,
                last_decided.round,
                old(self)@.dag.highest_round() as RoundNumber,
            ),
    {
        let highest_round = self.block_store.highest_round();
        let last_decided_round = last_decided.round();
        let mut committed: Vec<LeaderStatus> = Vec::new();
        assert(decisions_of(committed@) =~= Seq::empty());
        if last_decided_round >= highest_round {
            return committed;
        }
        let ghost rules = self@.rules;
        let ghost dag = self@.dag;
        let ghost counters = self@.counters;
        let mut round: RoundNumber = last_decided_round;
        while round < highest_round
            invariant
                last_decided_round <= round <= highest_round,
                highest_round == dag.highest_round(),
                self.wf(),
                self@.dag == dag,
                self@.rules == rules,
                decisions_of(committed@) == commit_sequence(
                    rules,
                    dag,
                    last_decided_round,
                    round,
                ),
                self@.counters == recorded(counters, rules, dag, last_decided_round, round),
            decreases highest_round - round,
        {
            round = round + 1;
            if let Some(index) = self.committer_for(round) {
                assert(self@.rules[index as int].wf());
                let committer = &self.committers[index];
                let direct = committer.try_direct_decide(&self.block_store, round);
                let directly = direct.is_decided();
                let status = if directly {
                    direct
                } else {
                    committer.try_indirect_decide(&self.block_store, round)
                };
                if status.is_decided() {
                    self.update_metrics(&status, directly);
                    let ghost shorter = committed@;
                    committed.push(status);
                    assert(decisions_of(committed@) =~= decisions_of(shorter).push(status@));
                }
            }
        }
        committed
    }

    /// Update metrics: count the decided leader under its authority and the
    /// kind of its decision. An undecided leader is not counted.
    pub fn update_metrics(&mut self, leader: &LeaderStatus, direct_decide: bool)
        ensures
            final(self)@.dag == old(self)@.dag,
            final(self)@.rules == old(self)@.rules,
            final(self)@.counters == if leader@.is_decided() {
                counted(old(self)@.counters, counter_key(leader@, direct_decide))
            } else {
                old(self)@.counters
            },
    {
        let authority = leader.authority();
        let kind = match leader {
            LeaderStatus::Commit(_) => DecisionKind::of(true, direct_decide),
            LeaderStatus::Skip(_, _) => DecisionKind::of(false, direct_decide),
            LeaderStatus::Undecided(_, _) => {
                return ;
            },
        };
        self.metrics.inc(authority, kind);
        assert(self@.rules =~= old(self)@.rules);
    }
}

/// A builder for a universal committer. By default, the builder creates a single base committer
/// with no pipeline.
#[derive(Debug)]
pub struct UniversalCommitterBuilder {
    committee: Committee,
    block_store: BlockStore,
    metrics: Metrics,
    wave_length: RoundNumber,
    pipeline: bool,
}

impl UniversalCommitterBuilder {
    /// The committee the committer will decide for.
    pub closed spec fn stakes(&self) -> Seq<u64> {
        self.committee@
    }

    /// The DAG the committer will decide on.
    pub closed spec fn dag(&self) -> Dag {
        self.block_store@
    }

    /// The counters the committer will raise.
    pub closed spec fn counters(&self) -> Counters {
        self.metrics@
    }

    /// The configured number of rounds of a wave.
    pub closed spec fn wave_length(&self) -> RoundNumber {
        self.wave_length
    }

    /// Whether one committer per round of the wave is configured.
    pub closed spec fn pipeline(&self) -> bool {
        self.pipeline
    }

    /// The invariant of a builder: its committee and its DAG are well formed.
    pub closed spec fn wf(&self) -> bool {
        self.committee.wf() && self.block_store.wf()
    }

    /// A builder for `committee`, `block_store` and `metrics`, with waves of
    /// the default length and without pipelining.
    pub fn new(committee: Committee, block_store: BlockStore, metrics: Metrics) -> (builder: Self)
        requires
            committee.wf(),
            block_store.wf(),
        ensures
            builder.wf(),
            builder.stakes() == committee@,
            builder.dag() == block_store@,
            builder.counters() == metrics@,
            builder.wave_length() == DEFAULT_WAVE_LENGTH,
            !builder.pipeline(),
    {
        Self { committee, block_store, metrics, wave_length: DEFAULT_WAVE_LENGTH, pipeline: false }
    }

    /// The same builder with waves of `wave_length` rounds.
    pub fn with_wave_length(self, wave_length: RoundNumber) -> (builder: Self)
        ensures
            builder.wf() == self.wf(),
            builder.stakes() == self.stakes(),
            builder.dag() == self.dag(),
            builder.counters() == self.counters(),
            builder.wave_length() == wave_length,
            builder.pipeline() == self.pipeline(),
    {
        let mut builder = self;
        builder.wave_length = wave_length;
        builder
    }

    /// The same builder with pipelining switched on or off.
    pub fn with_pipeline(self, pipeline: bool) -> (builder: Self)
        ensures
            builder.wf() == self.wf(),
            builder.stakes() == self.stakes(),
            builder.dag() == self.dag(),
            builder.counters() == self.counters(),
            builder.wave_length() == self.wave_length(),
            builder.pipeline() == pipeline,
    {
        let mut builder = self;
        builder.pipeline = pipeline;
        builder
    }

    /// Builds the committer: with pipelining one base committer per round
    /// offset of the wave, else the single one of offset 0.
    pub fn build(self) -> (committer: UniversalCommitter)
        requires
            self.wf(),
        ensures
            committer.wf(),
            committer@.dag == self.dag(),
            committer@.counters == self.counters(),
            committer@.rules == pipeline_rules(self.stakes(), self.wave_length(), self.pipeline()),
    {
        let mut committers: Vec<BaseCommitter> = Vec::new();
        let pipeline_stages: RoundNumber = if self.pipeline {
            self.wave_length
        } else {
            1
        };
        let mut round_offset: RoundNumber = 0;
        while round_offset < pipeline_stages
            invariant
                round_offset <= pipeline_stages,
                self.wf(),
                committers@.len() == round_offset,
                forall|i: int|
                    0 <= i < round_offset ==> (#[trigger] committers@[i])@ == (CommitRule {
                        stakes: self.stakes(),
                        wave_length: self.wave_length(),
                        round_offset: i as RoundNumber,
                    }),
            decreases pipeline_stages - round_offset,
        {
            let options = BaseCommitterOptions { wave_length: self.wave_length, round_offset };
            let committer = BaseCommitter::new(self.committee.clone()).with_options(options);
            committers.push(committer);
            round_offset = round_offset + 1;
        }
        let committer = UniversalCommitter {
            block_store: self.block_store,
            committers,
            metrics: self.metrics,
        };
        assert(committer@.rules =~= pipeline_rules(
            self.stakes(),
            self.wave_length(),
            self.pipeline(),
        ));
        committer
    }
}

} // verus!
