//! The commit rule: which leader blocks are final, and in which order.

use vstd::prelude::*;
use crate::types::{AuthorityIndex, BlockView, RoundNumber, StatementBlock};

pub mod base_committer;
pub mod guarantees;
pub mod universal_committer;

verus! {

/// The number of rounds of a wave unless configured otherwise.
pub const DEFAULT_WAVE_LENGTH: RoundNumber = 3;

/// The outcome of the commit rule for the leader of one round, as mathematics.
pub enum Decision {
    /// The leader's block is final and takes the slot of its round.
    Commit(BlockView),
    /// The round yields no final block; an empty slot is ordered instead.
    Skip(AuthorityIndex, RoundNumber),
    /// The DAG does not decide the round yet.
    Undecided(AuthorityIndex, RoundNumber),
}

impl Decision {
    /// The leader the decision is about.
    pub open spec fn authority(self) -> AuthorityIndex {
        match self {
            Decision::Commit(block) => block.reference.authority,
            Decision::Skip(authority, _) => authority,
            Decision::Undecided(authority, _) => authority,
        }
    }

    /// The leader round the decision is about.
    pub open spec fn round(self) -> RoundNumber {
        match self {
            Decision::Commit(block) => block.reference.round,
            Decision::Skip(_, round) => round,
            Decision::Undecided(_, round) => round,
        }
    }

    /// Whether the outcome is final.
    pub open spec fn is_decided(self) -> bool {
        !(self is Undecided)
    }
}

/// The outcome of the commit rule for the leader of one round.
#[derive(Debug)]
pub enum LeaderStatus {
    /// The leader's block is final and takes the slot of its round.
    Commit(StatementBlock),
    /// The round yields no final block; an empty slot is ordered instead.
    Skip(AuthorityIndex, RoundNumber),
    /// The DAG does not decide the round yet.
    Undecided(AuthorityIndex, RoundNumber),
}

impl View for LeaderStatus {
    type V = Decision;

    open spec fn view(&self) -> Decision {
        match self {
            LeaderStatus::Commit(block) => Decision::Commit(block@),
            LeaderStatus::Skip(authority, round) => Decision::Skip(*authority, *round),
            LeaderStatus::Undecided(authority, round) => Decision::Undecided(*authority, *round),
        }
    }
}

impl LeaderStatus {
    /// The leader round the outcome is about.
    pub fn round(&self) -> (round: RoundNumber)
        ensures
            round == self@.round(),
    {
        match self {
            LeaderStatus::Commit(block) => block.round(),
            LeaderStatus::Skip(_, round) => *round,
            LeaderStatus::Undecided(_, round) => *round,
        }
    }

    /// The leader the outcome is about.
    pub fn authority(&self) -> (authority: AuthorityIndex)
        ensures
            authority == self@.authority(),
    {
        match self {
            LeaderStatus::Commit(block) => block.author(),
            LeaderStatus::Skip(authority, _) => *authority,
            LeaderStatus::Undecided(authority, _) => *authority,
        }
    }

    /// Whether the outcome is final.
    pub fn is_decided(&self) -> (decided: bool)
        ensures
            decided == self@.is_decided(),
    {
        match self {
            LeaderStatus::Commit(_) => true,
            LeaderStatus::Skip(_, _) => true,
            LeaderStatus::Undecided(_, _) => false,
        }
    }

    /// The committed block, when the outcome is a commit.
    pub fn into_committed_block(self) -> (block: Option<StatementBlock>)
        ensures
            match block {
                Some(b) => self@ == Decision::Commit(b@),
                None => !(self@ is Commit),
            },
    {
        match self {
            LeaderStatus::Commit(block) => Some(block),
            _ => None,
        }
    }
}

impl Clone for LeaderStatus {
    fn clone(&self) -> (copy: Self)
        ensures
            copy@ == self@,
    {
        match self {
            LeaderStatus::Commit(block) => LeaderStatus::Commit(block.clone()),
            LeaderStatus::Skip(authority, round) => LeaderStatus::Skip(*authority, *round),
            LeaderStatus::Undecided(authority, round) => LeaderStatus::Undecided(*authority, *round),
        }
    }
}

} // verus!
