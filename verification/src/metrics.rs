//! Counters of decided leaders. They observe the commit rule and never
//! influence it.

use vstd::prelude::*;
use crate::types::AuthorityIndex;

verus! {

/// How a leader was decided.
#[derive(Clone, Copy, Debug, PartialEq, Eq, Structural, Hash)]
pub enum DecisionKind {
    DirectCommit,
    DirectSkip,
    IndirectCommit,
    IndirectSkip,
}

impl DecisionKind {
    /// The kind of a commit or skip that was reached directly or indirectly.
    pub open spec fn spec_of(commit: bool, direct: bool) -> DecisionKind {
        if direct {
            if commit {
                DecisionKind::DirectCommit
            } else {
                DecisionKind::DirectSkip
            }
        } else {
            if commit {
                DecisionKind::IndirectCommit
            } else {
                DecisionKind::IndirectSkip
            }
        }
    }

    /// The kind of a commit or skip that was reached directly or indirectly.
    pub fn of(commit: bool, direct: bool) -> (kind: DecisionKind)
        ensures
            kind == Self::spec_of(commit, direct),
    {
        if direct {
            if commit {
                DecisionKind::DirectCommit
            } else {
                DecisionKind::DirectSkip
            }
        } else {
            if commit {
                DecisionKind::IndirectCommit
            } else {
                DecisionKind::IndirectSkip
            }
        }
    }

    /// The label under which the kind is reported.
    pub fn label(&self) -> (label: &'static str)
        ensures
            label@ == match self {
                DecisionKind::DirectCommit => "direct-commit"@,
                DecisionKind::DirectSkip => "direct-skip"@,
                DecisionKind::IndirectCommit => "indirect-commit"@,
                DecisionKind::IndirectSkip => "indirect-skip"@,
            },
    {
        match self {
            DecisionKind::DirectCommit => "direct-commit",
            DecisionKind::DirectSkip => "direct-skip",
            DecisionKind::IndirectCommit => "indirect-commit",
            DecisionKind::IndirectSkip => "indirect-skip",
        }
    }
}

/// The key of a counter: the leader and how it was decided.
pub type CounterKey = (AuthorityIndex, DecisionKind);

/// What the counters hold, as mathematics: for each key, how often it was counted.
pub type Counters = Map<CounterKey, nat>;

/// `counters` after `key` was counted once more.
pub open spec fn counted(counters: Counters, key: CounterKey) -> Counters {
    counters.insert(key, counters[key] + 1)
}

/// One cell of the counter table.
#[derive(Clone, Copy, Debug)]
struct LeaderCounter {
    authority: AuthorityIndex,
    kind: DecisionKind,
    count: u64,
}

/// The sum of the cells of `cells` that belong to `key`.
spec fn sum_for(cells: Seq<LeaderCounter>, key: CounterKey) -> nat
    decreases cells.len(),
{
    if cells.len() == 0 {
        0
    } else {
        sum_for(cells.drop_last(), key) + if cells.last().authority == key.0 && cells.last().kind
            == key.1 {
            cells.last().count as nat
        } else {
            0
        }
    }
}

/// Raising one cell by one raises the sum of its key by one and no other.
proof fn lemma_sum_after_raise(cells: Seq<LeaderCounter>, raised: Seq<LeaderCounter>, at: int, key: CounterKey)
    requires
        0 <= at < cells.len(),
        raised.len() == cells.len(),
        forall|i: int| 0 <= i < cells.len() && i != at ==> raised[i] == cells[i],
        raised[at].authority == cells[at].authority,
        raised[at].kind == cells[at].kind,
        raised[at].count == cells[at].count + 1,
    ensures
        sum_for(raised, key) == sum_for(cells, key) + if cells[at].authority == key.0
            && cells[at].kind == key.1 {
            1nat
        } else {
            0nat
        },
    decreases cells.len(),
{
    if at == cells.len() - 1 {
        assert(raised.drop_last() =~= cells.drop_last());
    } else {
        lemma_sum_after_raise(cells.drop_last(), raised.drop_last(), at, key);
    }
}

/// The counters of decided leaders, by leader and kind of decision.
#[derive(Debug)]
pub struct Metrics {
    committed_leaders_total: Vec<LeaderCounter>,
}

impl View for Metrics {
    type V = Counters;

    closed spec fn view(&self) -> Counters {
        Map::new(|key: CounterKey| true, |key: CounterKey| sum_for(self.committed_leaders_total@, key))
    }
}

impl Metrics {
    /// Counters that have counted nothing.
    pub fn new() -> (metrics: Self)
        ensures
            forall|key: CounterKey| #[trigger] metrics@[key] == 0,
            forall|key: CounterKey| metrics@.dom().contains(key),
    {
        Metrics { committed_leaders_total: Vec::new() }
    }

    /// Counts one more leader of `authority` decided in the way `kind`.
    pub fn inc(&mut self, authority: AuthorityIndex, kind: DecisionKind)
        ensures
            final(self)@ == counted(old(self)@, (authority, kind)),
    {
        let ghost before = self.committed_leaders_total@;
        let mut i: usize = 0;
        while i < self.committed_leaders_total.len()
            invariant
                i <= self.committed_leaders_total.len(),
                self.committed_leaders_total@ == before,
                before == old(self).committed_leaders_total@,
            decreases self.committed_leaders_total.len() - i,
        {
            let cell = self.committed_leaders_total[i];
            if cell.authority == authority && cell.kind == kind && cell.count < u64::MAX {
                self.committed_leaders_total.set(
                    i,
                    LeaderCounter { authority, kind, count: cell.count + 1 },
                );
                proof {
                    let after = self.committed_leaders_total@;
                    assert forall|key: CounterKey| #[trigger]
                        sum_for(after, key) == counted(old(self)@, (authority, kind))[key] by {
                        lemma_sum_after_raise(before, after, i as int, key);
                    }
                    assert(self@ =~= counted(old(self)@, (authority, kind)));
                }
                return ;
            }
            i += 1;
        }
        self.committed_leaders_total.push(LeaderCounter { authority, kind, count: 1 });
        proof {
            let after = self.committed_leaders_total@;
            assert(after.drop_last() =~= before);
            assert(self@ =~= counted(old(self)@, (authority, kind)));
        }
    }

    /// How many leaders of `authority` were decided in the way `kind`, as
    /// far as 64 bits can tell.
    pub fn committed_leaders(&self, authority: AuthorityIndex, kind: DecisionKind) -> (count: u64)
        ensures
            count == if self@[(authority, kind)] <= u64::MAX {
                self@[(authority, kind)]
            } else {
                u64::MAX as nat
            },
    {
        let mut total: u64 = 0;
        let mut i: usize = 0;
        let ghost key = (authority, kind);
        while i < self.committed_leaders_total.len()
            invariant
                i <= self.committed_leaders_total.len(),
                key == (authority, kind),
                total == if sum_for(self.committed_leaders_total@.take(i as int), key) <= u64::MAX {
                    sum_for(self.committed_leaders_total@.take(i as int), key)
                } else {
                    u64::MAX as nat
                },
            decreases self.committed_leaders_total.len() - i,
        {
            let cell = self.committed_leaders_total[i];
            proof {
                let cells = self.committed_leaders_total@;
                assert(cells.take(i + 1).drop_last() =~= cells.take(i as int));
            }
            if cell.authority == authority && cell.kind == kind {
                total = total.saturating_add(cell.count);
            }
            i += 1;
        }
        assert(self.committed_leaders_total@.take(i as int) =~= self.committed_leaders_total@);
        total
    }
}

} // verus!
