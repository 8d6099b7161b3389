//! The commit rule for the waves of one pipeline offset.

use vstd::prelude::*;
use crate::block_store::{BlockStore, Dag};
use crate::committee::{quorum_of, stake_of_members, stake_sum, Committee};
use crate::consensus::{Decision, LeaderStatus, DEFAULT_WAVE_LENGTH};
use crate::types::{AuthorityIndex, BlockReference, BlockView, RoundNumber};

verus! {

/// How a base committer cuts the rounds into waves.
#[derive(Clone, Copy, Debug)]
pub struct BaseCommitterOptions {
    /// The number of rounds of a wave.
    pub wave_length: RoundNumber,
    /// Which round of each wave, counted from its start, holds the leader.
    pub round_offset: RoundNumber,
}

impl Default for BaseCommitterOptions {
    fn default() -> (options: Self)
        ensures
            options.wave_length == DEFAULT_WAVE_LENGTH,
            options.round_offset == 0,
    {
        BaseCommitterOptions { wave_length: DEFAULT_WAVE_LENGTH, round_offset: 0 }
    }
}

/// The commit rule as mathematics: the stakes of the committee and the waves
/// of one pipeline offset. Every outcome is a function of the rule and the DAG.
pub struct CommitRule {
    pub stakes: Seq<u64>,
    pub wave_length: RoundNumber,
    pub round_offset: RoundNumber,
}

impl CommitRule {
    /// The committee has a member, and its total stake fits in 64 bits.
    pub open spec fn wf(self) -> bool {
        &&& self.stakes.len() > 0
        &&& stake_sum(self.stakes) <= u64::MAX
    }

    /// The authority expected to lead `round`.
    pub open spec fn leader_for(self, round: RoundNumber) -> AuthorityIndex {
        (round as int % self.stakes.len() as int) as AuthorityIndex
    }

    /// Whether `round` is a leader round of this offset. Round 0 never is.
    pub open spec fn responsible(self, round: RoundNumber) -> bool {
        &&& self.wave_length > 0
        &&& round > 0
        &&& round as int % self.wave_length as int == self.round_offset
    }

    /// The stake that certifies an observation.
    pub open spec fn quorum(self) -> nat {
        quorum_of(stake_sum(self.stakes))
    }

    /// Whether the `index`-th block of `round` is the leader's block: the
    /// first block that the leader of `round` proposed for it.
    pub open spec fn leader_at(self, dag: Dag, round: RoundNumber, index: int) -> bool {
        dag.first_by(round as int, self.leader_for(round), index)
    }

    /// The leader's block of `round`, if the leader proposed one.
    pub open spec fn leader_block(self, dag: Dag, round: RoundNumber) -> Option<BlockView> {
        if exists|index: int| self.leader_at(dag, round, index) {
            Some(dag.blocks_at(round as int)[choose|index: int| self.leader_at(dag, round, index)])
        } else {
            None
        }
    }

    /// The authorities whose vote on `target`, cast in `round`, is in favour
    /// (`approve`) or against. An authority votes with the first block it
    /// proposed for the round: in favour if that block acknowledges `target`.
    pub open spec fn voters(self, dag: Dag, round: int, target: BlockReference, approve: bool) -> Set<
        int,
    > {
        Set::new(
            |a: int|
                exists|index: int|
                    0 <= a <= u64::MAX && #[trigger] dag.first_by(round, a as AuthorityIndex, index)
                        && dag.blocks_at(round)[index].acknowledges(target) == approve,
        )
    }

    /// The stake of the authorities that voted on `target` in `round`, in
    /// favour (`approve`) or against.
    pub open spec fn vote_stake(self, dag: Dag, round: int, target: BlockReference, approve: bool) -> nat {
        stake_of_members(self.stakes, self.voters(dag, round, target, approve), self.stakes.len())
    }

    /// The outcome for the leader of `round` from the votes of the next round alone.
    pub open spec fn direct_decision(self, dag: Dag, round: RoundNumber) -> Decision {
        let leader = self.leader_for(round);
        match self.leader_block(dag, round) {
            None => Decision::Skip(leader, round),
            Some(block) => {
                if self.vote_stake(dag, round + 1, block.reference, true) >= self.quorum() {
                    Decision::Commit(block)
                } else if self.vote_stake(dag, round + 1, block.reference, false) >= self.quorum() {
                    Decision::Skip(leader, round)
                } else {
                    Decision::Undecided(leader, round)
                }
            },
        }
    }

    /// Whether `anchor` is a later leader round of this offset whose leader
    /// is committed by the votes of its next round.
    pub open spec fn is_anchor(self, dag: Dag, round: RoundNumber, anchor: RoundNumber) -> bool {
        &&& round < anchor <= dag.highest_round()
        &&& self.responsible(anchor)
        &&& self.direct_decision(dag, anchor) is Commit
    }

    /// Whether `anchor` is an anchor for `round` whose leader block has the
    /// leader block of `round` in its causal history.
    pub open spec fn anchor_links(self, dag: Dag, round: RoundNumber, anchor: RoundNumber) -> bool {
        &&& self.is_anchor(dag, round, anchor)
        &&& self.leader_block(dag, round) is Some
        &&& dag.linked(
            self.leader_block(dag, anchor).unwrap().reference,
            self.leader_block(dag, round).unwrap().reference,
        )
    }

    /// Whether `anchor` is an anchor for `round` whose leader block has a
    /// block of the round after `round` in its causal history: its history
    /// is deep enough to tell whether it holds the leader's block of `round`.
    pub open spec fn anchor_reaches(self, dag: Dag, round: RoundNumber, anchor: RoundNumber) -> bool {
        &&& self.is_anchor(dag, round, anchor)
        &&& dag.reaches_round(self.leader_block(dag, anchor).unwrap().reference, round + 1)
    }

    /// The outcome for the leader of `round` from the later committed leaders:
    /// a commit if the history of one of them holds the leader's block, a
    /// skip if none does although the history of one of them reaches the
    /// round after `round`.
    pub open spec fn indirect_decision(self, dag: Dag, round: RoundNumber) -> Decision {
        let leader = self.leader_for(round);
        match self.leader_block(dag, round) {
            None => Decision::Skip(leader, round),
            Some(block) => {
                if exists|anchor: RoundNumber| self.anchor_links(dag, round, anchor) {
                    Decision::Commit(block)
                } else if exists|anchor: RoundNumber| self.anchor_reaches(dag, round, anchor) {
                    Decision::Skip(leader, round)
                } else {
                    Decision::Undecided(leader, round)
                }
            },
        }
    }

    /// The outcome for the leader of `round`: the direct one where the votes
    /// decide, else the indirect one. A round that is no leader round of
    /// this offset is never decided.
    pub open spec fn decision(self, dag: Dag, round: RoundNumber) -> Decision {
        if !self.responsible(round) {
            Decision::Undecided(self.leader_for(round), round)
        } else if self.direct_decision(dag, round).is_decided() {
            self.direct_decision(dag, round)
        } else {
            self.indirect_decision(dag, round)
        }
    }
}

/// Where the leader proposed a block, that block is the leader's block.
pub proof fn lemma_leader_block_at(rule: CommitRule, dag: Dag, round: RoundNumber, index: int)
    requires
        rule.leader_at(dag, round, index),
    ensures
        rule.leader_block(dag, round) == Some(dag.blocks_at(round as int)[index]),
{
    let chosen = choose|index: int| rule.leader_at(dag, round, index);
    assert(rule.leader_at(dag, round, chosen));
    assert(chosen == index);
}

/// An authority casts at most one vote on a block in a round, and only with
/// a block of that round.
pub proof fn lemma_one_vote(
    rule: CommitRule,
    dag: Dag,
    round: int,
    target: BlockReference,
    authority: AuthorityIndex,
    index: int,
)
    requires
        dag.first_by(round, authority, index),
    ensures
        rule.voters(dag, round, target, true).contains(authority as int) == dag.blocks_at(
            round,
        )[index].acknowledges(target),
        rule.voters(dag, round, target, false).contains(authority as int) == !dag.blocks_at(
            round,
        )[index].acknowledges(target),
{
    let vote = dag.blocks_at(round)[index].acknowledges(target);
    let a = authority as int;
    assert(dag.first_by(round, a as AuthorityIndex, index));
    assert(rule.voters(dag, round, target, vote).contains(a));
    if rule.voters(dag, round, target, !vote).contains(a) {
        let j = choose|j: int|
            #[trigger] dag.first_by(round, a as AuthorityIndex, j) && dag.blocks_at(
                round,
            )[j].acknowledges(target) == !vote;
        assert(j == index);
    }
}

/// An authority without a block in a round casts no vote in it.
pub proof fn lemma_no_vote(
    rule: CommitRule,
    dag: Dag,
    round: int,
    target: BlockReference,
    authority: AuthorityIndex,
)
    requires
        !dag.proposed(round, authority),
    ensures
        !rule.voters(dag, round, target, true).contains(authority as int),
        !rule.voters(dag, round, target, false).contains(authority as int),
{
}

/// No authority votes both in favour of a block and against it.
pub proof fn lemma_votes_exclude(rule: CommitRule, dag: Dag, round: int, target: BlockReference)
    ensures
        forall|a: int|
            !(rule.voters(dag, round, target, true).contains(a) && rule.voters(
                dag,
                round,
                target,
                false,
            ).contains(a)),
{
    assert forall|a: int|
        !(rule.voters(dag, round, target, true).contains(a) && rule.voters(
            dag,
            round,
            target,
            false,
        ).contains(a)) by {
        if rule.voters(dag, round, target, true).contains(a) {
            let i = choose|i: int|
                #[trigger] dag.first_by(round, a as AuthorityIndex, i) && dag.blocks_at(
                    round,
                )[i].acknowledges(target) == true;
            lemma_one_vote(rule, dag, round, target, a as AuthorityIndex, i);
        }
    }
}

/// The commit rule of one pipeline offset, bound to a committee.
#[derive(Debug)]
pub struct BaseCommitter {
    committee: Committee,
    options: BaseCommitterOptions,
}

impl View for BaseCommitter {
    type V = CommitRule;

    closed spec fn view(&self) -> CommitRule {
        CommitRule {
            stakes: self.committee@,
            wave_length: self.options.wave_length,
            round_offset: self.options.round_offset,
        }
    }
}

impl BaseCommitter {
    /// The invariant of a committer: its committee is well formed.
    pub open spec fn wf(&self) -> bool {
        self@.wf()
    }

    /// A committer for `committee` with the default options: waves of the
    /// default length, the leader in the first round of each.
    pub fn new(committee: Committee) -> (committer: Self)
        requires
            committee.wf(),
        ensures
            committer.wf(),
            committer@.stakes == committee@,
            committer@.wave_length == DEFAULT_WAVE_LENGTH,
            committer@.round_offset == 0,
    {
        BaseCommitter { committee, options: BaseCommitterOptions::default() }
    }

    /// The same committer with `options` in place of its own.
    pub fn with_options(self, options: BaseCommitterOptions) -> (committer: Self)
        ensures
            committer@.stakes == self@.stakes,
            committer@.wave_length == options.wave_length,
            committer@.round_offset == options.round_offset,
    {
        BaseCommitter { committee: self.committee, options }
    }

    /// The authority expected to lead `round`.
    pub fn leader_for(&self, round: RoundNumber) -> (leader: AuthorityIndex)
        requires
            self.wf(),
        ensures
            leader == self@.leader_for(round),
    {
        self.committee.leader_for(round)
    }

    /// Whether `round` is a leader round of this committer.
    pub fn is_responsible(&self, round: RoundNumber) -> (responsible: bool)
        ensures
            responsible == self@.responsible(round),
    {
        self.options.wave_length > 0 && round > 0 && round % self.options.wave_length
            == self.options.round_offset
    }

    /// The stake that voted on `target` in `round`: in favour, and against.
    fn vote_stakes(&self, store: &BlockStore, round: RoundNumber, target: BlockReference) -> (stakes:
        (u64, u64))
        requires
            self.wf(),
        ensures
            stakes.0 == self@.vote_stake(store@, round as int, target, true),
            stakes.1 == self@.vote_stake(store@, round as int, target, false),
    {
        let ghost rule = self@;
        let ghost dag = store@;
        let ghost approving = rule.voters(dag, round as int, target, true);
        let ghost blaming = rule.voters(dag, round as int, target, false);
        let members = self.committee.len();
        let mut support: u64 = 0;
        let mut blame: u64 = 0;
        let mut a: usize = 0;
        while a < members
            invariant
                a <= members,
                members == rule.stakes.len(),
                rule == self@,
                dag == store@,
                rule.wf(),
                approving == rule.voters(dag, round as int, target, true),
                blaming == rule.voters(dag, round as int, target, false),
                support == stake_of_members(rule.stakes, approving, a as nat),
                blame == stake_of_members(rule.stakes, blaming, a as nat),
                support + blame <= stake_of_members(rule.stakes, Set::full(), a as nat),
            decreases members - a,
        {
            proof {
                crate::committee::lemma_stake_prefix(
                    rule.stakes,
                    Set::full(),
                    (a + 1) as nat,
                    rule.stakes.len(),
                );
            }
            let authority = a as u64;
            let stake = self.committee.stake_of(authority);
            match store.first_block_by(round, authority) {
                Some(index) => {
                    proof {
                        lemma_one_vote(rule, dag, round as int, target, authority, index as int);
                    }
                    if store.block_at(round, index).acknowledges(target) {
                        support = support + stake;
                    } else {
                        blame = blame + stake;
                    }
                },
                None => {
                    proof {
                        lemma_no_vote(rule, dag, round as int, target, authority);
                    }
                },
            }
            a += 1;
        }
        (support, blame)
    }

    /// The first block that the leader of `round` proposed for it, if any.
    fn leader_block_index(&self, store: &BlockStore, round: RoundNumber) -> (place: Option<usize>)
        requires
            self.wf(),
        ensures
            match place {
                Some(index) => self@.leader_at(store@, round, index as int) && self@.leader_block(
                    store@,
                    round,
                ) == Some(store@.blocks_at(round as int)[index as int]),
                None => self@.leader_block(store@, round) is None,
            },
    {
        let leader = self.committee.leader_for(round);
        let place = store.first_block_by(round, leader);
        proof {
            if let Some(index) = place {
                lemma_leader_block_at(self@, store@, round, index as int);
            }
        }
        place
    }

    /// Decides the leader of `round` from the votes of the next round alone:
    /// a commit if a quorum acknowledges the leader's block, a skip if the
    /// leader proposed no block or a quorum does not acknowledge it.
    pub fn try_direct_decide(&self, store: &BlockStore, round: RoundNumber) -> (status: LeaderStatus)
        requires
            self.wf(),
            store.wf(),
        ensures
            status@ == self@.direct_decision(store@, round),
    {
        let leader = self.committee.leader_for(round);
        match self.leader_block_index(store, round) {
            None => LeaderStatus::Skip(leader, round),
            Some(index) => {
                let block = store.block_at(round, index);
                let quorum = self.committee.quorum_threshold();
                if round == u64::MAX {
                    proof {
                        lemma_silent_round(self@, store@, round + 1, block@.reference);
                    }
                    return LeaderStatus::Undecided(leader, round);
                }
                let (support, blame) = self.vote_stakes(store, round + 1, block.reference());
                if support >= quorum {
                    LeaderStatus::Commit(block.clone())
                } else if blame >= quorum {
                    LeaderStatus::Skip(leader, round)
                } else {
                    LeaderStatus::Undecided(leader, round)
                }
            },
        }
    }

    /// Decides the leader of `round` from the later leaders of this
    /// committer that are committed directly: a commit if the history of one
    /// of them holds the leader's block, a skip if none does although the
    /// history of one of them reaches the round after `round`.
    pub fn try_indirect_decide(&self, store: &BlockStore, round: RoundNumber) -> (status: LeaderStatus)
        requires
            self.wf(),
            store.wf(),
        ensures
            status@ == self@.indirect_decision(store@, round),
    {
        let leader = self.committee.leader_for(round);
        match self.leader_block_index(store, round) {
            None => LeaderStatus::Skip(leader, round),
            Some(index) => {
                let block = store.block_at(round, index);
                let target = block.reference();
                let highest = store.highest_round();
                let mut anchor: u64 = round;
                let mut anchored = false;
                while anchor < highest
                    invariant
                        round <= anchor,
                        anchor <= highest || anchor == round,
                        highest == store@.highest_round(),
                        self.wf(),
                        store.wf(),
                        self@.leader_block(store@, round) == Some(block@),
                        target == block@.reference,
                        forall|a: RoundNumber|
                            round < a <= anchor ==> !self@.anchor_links(store@, round, a),
                        anchored == exists|a: RoundNumber|
                            round < a <= anchor && self@.anchor_reaches(store@, round, a),
                    decreases highest - anchor,
                {
                    anchor = anchor + 1;
                    if self.is_responsible(anchor) {
                        let status = self.try_direct_decide(store, anchor);
                        if let LeaderStatus::Commit(later) = status {
                            assert(self@.is_anchor(store@, round, anchor));
                            if store.linked(later.reference(), target) {
                                assert(self@.anchor_links(store@, round, anchor));
                                return LeaderStatus::Commit(block.clone());
                            }
                            if !anchored && store.reaches_round(later.reference(), round + 1) {
                                assert(self@.anchor_reaches(store@, round, anchor));
                                anchored = true;
                            }
                        }
                    }
                }
                if anchored {
                    LeaderStatus::Skip(leader, round)
                } else {
                    LeaderStatus::Undecided(leader, round)
                }
            },
        }
    }

    /// Decides the leader of the leader round `round`: directly where the
    /// votes of the next round decide, else through the later committed
    /// leaders. A round that is no leader round of this committer stays
    /// undecided.
    pub fn decide_leader(&self, store: &BlockStore, round: RoundNumber) -> (status: LeaderStatus)
        requires
            self.wf(),
            store.wf(),
        ensures
            status@ == self@.decision(store@, round),
    {
        if !self.is_responsible(round) {
            return LeaderStatus::Undecided(self.committee.leader_for(round), round);
        }
        let direct = self.try_direct_decide(store, round);
        if direct.is_decided() {
            direct
        } else {
            self.try_indirect_decide(store, round)
        }
    }
}

/// In a round without blocks nobody votes.
pub proof fn lemma_silent_round(rule: CommitRule, dag: Dag, round: int, target: BlockReference)
    requires
        dag.blocks_at(round).len() == 0,
    ensures
        rule.vote_stake(dag, round, target, true) == 0,
        rule.vote_stake(dag, round, target, false) == 0,
{
    crate::committee::lemma_stake_of_nobody(rule.stakes, rule.voters(dag, round, target, true), rule.stakes.len());
    crate::committee::lemma_stake_of_nobody(rule.stakes, rule.voters(dag, round, target, false), rule.stakes.len());
}

} // verus!
