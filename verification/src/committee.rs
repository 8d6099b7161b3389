//! The frozen committee snapshot: stake weights, the quorum threshold and the
//! leader schedule that every honest authority derives from it.

use vstd::prelude::*;
use crate::types::{AuthorityIndex, RoundNumber};

verus! {

/// The stake held by those of the first `n` authorities that are in `members`.
pub open spec fn stake_of_members(stakes: Seq<u64>, members: Set<int>, n: nat) -> nat
    decreases n,
{
    if n == 0 {
        0
    } else {
        stake_of_members(stakes, members, (n - 1) as nat) + if members.contains(n - 1) {
            stakes[n - 1] as nat
        } else {
            0
        }
    }
}

/// The stake held by the first `n` authorities.
pub open spec fn stake_of_first(stakes: Seq<u64>, n: nat) -> nat {
    stake_of_members(stakes, Set::full(), n)
}

/// The stake of the whole committee.
pub open spec fn stake_sum(stakes: Seq<u64>) -> nat {
    stake_of_first(stakes, stakes.len())
}

/// The smallest stake that is more than two thirds of `total`: `2f + 1` when
/// the total is `3f + 1`.
pub open spec fn quorum_of(total: nat) -> nat {
    2 * total / 3 + 1
}

/// A group that is part of another holds no more stake than it.
pub proof fn lemma_stake_monotone(
    stakes: Seq<u64>,
    smaller: Set<int>,
    larger: Set<int>,
    n: nat,
)
    requires
        forall|a: int| 0 <= a < n && smaller.contains(a) ==> larger.contains(a),
    ensures
        stake_of_members(stakes, smaller, n) <= stake_of_members(stakes, larger, n),
    decreases n,
{
    if n > 0 {
        lemma_stake_monotone(stakes, smaller, larger, (n - 1) as nat);
    }
}

/// Two groups without a common member hold together no more than everyone.
pub proof fn lemma_stake_disjoint(
    stakes: Seq<u64>,
    one: Set<int>,
    other: Set<int>,
    n: nat,
)
    requires
        forall|a: int| 0 <= a < n ==> !(one.contains(a) && other.contains(a)),
    ensures
        stake_of_members(stakes, one, n) + stake_of_members(stakes, other, n) <= stake_of_first(
            stakes,
            n,
        ),
    decreases n,
{
    if n > 0 {
        lemma_stake_disjoint(stakes, one, other, (n - 1) as nat);
    }
}

/// The stake of a prefix of the committee never exceeds the stake of a longer prefix.
pub proof fn lemma_stake_prefix(stakes: Seq<u64>, members: Set<int>, m: nat, n: nat)
    requires
        m <= n,
    ensures
        stake_of_members(stakes, members, m) <= stake_of_members(stakes, members, n),
    decreases n,
{
    if m < n {
        lemma_stake_prefix(stakes, members, m, (n - 1) as nat);
    }
}

/// A group without members among the first `n` authorities holds no stake.
pub proof fn lemma_stake_of_nobody(stakes: Seq<u64>, members: Set<int>, n: nat)
    requires
        forall|a: int| 0 <= a < n ==> !members.contains(a),
    ensures
        stake_of_members(stakes, members, n) == 0,
    decreases n,
{
    if n > 0 {
        lemma_stake_of_nobody(stakes, members, (n - 1) as nat);
    }
}

/// Two quorums always overlap: together they hold more than the whole stake.
pub proof fn lemma_quorums_overlap(total: nat)
    ensures
        2 * quorum_of(total) > total,
        total > 0 ==> quorum_of(total) <= total,
{
}

/// With a total stake of `3f + 1` the quorum threshold is `2f + 1`.
pub proof fn law_quorum_is_two_f_plus_one(f: nat)
    ensures
        quorum_of(3 * f + 1) == 2 * f + 1,
{
}

/// Two groups that each hold a quorum of the stake share an authority.
pub proof fn law_quorums_share_an_authority(stakes: Seq<u64>, one: Set<int>, other: Set<int>)
    requires
        stake_of_members(stakes, one, stakes.len()) >= quorum_of(stake_sum(stakes)),
        stake_of_members(stakes, other, stakes.len()) >= quorum_of(stake_sum(stakes)),
    ensures
        exists|a: int| 0 <= a < stakes.len() && one.contains(a) && other.contains(a),
{
    if !exists|a: int| 0 <= a < stakes.len() && one.contains(a) && other.contains(a) {
        lemma_stake_disjoint(stakes, one, other, stakes.len());
        lemma_quorums_overlap(stake_sum(stakes));
    }
}

/// A stake-weighted set of authorities, identified by their index.
#[derive(Debug)]
pub struct Committee {
    stakes: Vec<u64>,
}

impl View for Committee {
    type V = Seq<u64>;

    /// The stake of each authority, by index.
    closed spec fn view(&self) -> Seq<u64> {
        self.stakes@
    }
}

impl Committee {
    /// A committee has at least one member, and its total stake fits in 64 bits.
    pub open spec fn wf(&self) -> bool {
        &&& self@.len() > 0
        &&& stake_sum(self@) <= u64::MAX
    }

    /// The stake of the whole committee.
    pub open spec fn spec_total_stake(&self) -> nat {
        stake_sum(self@)
    }

    /// The stake of `authority`; an index outside the committee holds none.
    pub open spec fn spec_stake_of(&self, authority: AuthorityIndex) -> nat {
        if authority < self@.len() {
            self@[authority as int] as nat
        } else {
            0
        }
    }

    /// The stake needed to certify an observation.
    pub open spec fn spec_quorum_threshold(&self) -> nat {
        quorum_of(stake_sum(self@))
    }

    /// The authority expected to lead `round`: authorities take turns by index.
    pub open spec fn spec_leader_for(&self, round: RoundNumber) -> AuthorityIndex {
        (round as int % self@.len() as int) as AuthorityIndex
    }

    /// Builds the committee whose authority `i` holds `stakes[i]`. There is no
    /// committee without members or with a total stake beyond 64 bits.
    pub fn new(stakes: Vec<u64>) -> (committee: Option<Committee>)
        ensures
            committee is Some <==> stakes@.len() > 0 && stake_sum(stakes@) <= u64::MAX,
            committee matches Some(c) ==> c@ == stakes@ && c.wf(),
    {
        if stakes.len() == 0 {
            return None;
        }
        let mut total: u64 = 0;
        let mut i: usize = 0;
        while i < stakes.len()
            invariant
                i <= stakes.len(),
                total == stake_of_first(stakes@, i as nat),
            decreases stakes.len() - i,
        {
            match total.checked_add(stakes[i]) {
                Some(sum) => {
                    total = sum;
                },
                None => {
                    proof {
                        lemma_stake_prefix(
                            stakes@,
                            Set::full(),
                            (i + 1) as nat,
                            stakes@.len(),
                        );
                    }
                    return None;
                },
            }
            i += 1;
        }
        Some(Committee { stakes })
    }

    /// The number of authorities.
    pub fn len(&self) -> (n: usize)
        ensures
            n == self@.len(),
    {
        self.stakes.len()
    }

    /// Whether `authority` is a member.
    pub fn known_authority(&self, authority: AuthorityIndex) -> (known: bool)
        ensures
            known == (authority < self@.len()),
    {
        authority < self.stakes.len() as u64
    }

    /// The stake of the whole committee.
    pub fn total_stake(&self) -> (total: u64)
        requires
            self.wf(),
        ensures
            total == self.spec_total_stake(),
    {
        let mut total: u64 = 0;
        let mut i: usize = 0;
        while i < self.stakes.len()
            invariant
                i <= self.stakes.len(),
                total == stake_of_first(self.stakes@, i as nat),
                stake_sum(self.stakes@) <= u64::MAX,
            decreases self.stakes.len() - i,
        {
            proof {
                lemma_stake_prefix(
                    self.stakes@,
                    Set::full(),
                    (i + 1) as nat,
                    self.stakes@.len(),
                );
            }
            total = total + self.stakes[i];
            i += 1;
        }
        total
    }

    /// The stake of `authority`; an index outside the committee holds none.
    pub fn stake_of(&self, authority: AuthorityIndex) -> (stake: u64)
        ensures
            stake == self.spec_stake_of(authority),
    {
        if authority < self.stakes.len() as u64 {
            self.stakes[authority as usize]
        } else {
            0
        }
    }

    /// The stake needed to certify an observation: more than two thirds of
    /// the total.
    pub fn quorum_threshold(&self) -> (threshold: u64)
        requires
            self.wf(),
        ensures
            threshold == self.spec_quorum_threshold(),
    {
        let total = self.total_stake();
        let thirds: u64 = total / 3;
        let rest: u64 = total % 3;
        2 * thirds + (2 * rest) / 3 + 1
    }

    /// Whether `stake` reaches the quorum threshold.
    pub fn is_quorum(&self, stake: u64) -> (reached: bool)
        requires
            self.wf(),
        ensures
            reached == (stake >= self.spec_quorum_threshold()),
    {
        stake >= self.quorum_threshold()
    }

    /// The authority expected to lead `round`. The schedule depends on the
    /// committee and the round alone.
    pub fn leader_for(&self, round: RoundNumber) -> (leader: AuthorityIndex)
        requires
            self.wf(),
        ensures
            leader == self.spec_leader_for(round),
            leader < self@.len(),
    {
        round % (self.stakes.len() as u64)
    }
}

impl Clone for Committee {
    fn clone(&self) -> (copy: Self)
        ensures
            copy@ == self@,
    {
        let stakes = self.stakes.clone();
        assert(stakes@ =~= self.stakes@);
        Committee { stakes }
    }
}

} // verus!
