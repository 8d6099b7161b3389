//! The append-only store of the blocks received so far, indexed by round, and
//! the causal order between them.

use vstd::prelude::*;
use crate::types::{AuthorityIndex, BlockReference, BlockView, RoundNumber, StatementBlock};

verus! {

/// The DAG as mathematics: for each round, the blocks of that round in the
/// order in which they were first seen.
pub struct Dag {
    pub rounds: Seq<Seq<BlockView>>,
}

impl Dag {
    /// The blocks of `round`, in first-seen order; none for a round never reached.
    pub open spec fn blocks_at(self, round: int) -> Seq<BlockView> {
        if 0 <= round < self.rounds.len() {
            self.rounds[round]
        } else {
            Seq::empty()
        }
    }

    /// The highest round of which a block is known; 0 while the DAG is empty.
    pub open spec fn highest_round(self) -> int {
        if self.rounds.len() == 0 {
            0
        } else {
            self.rounds.len() - 1
        }
    }

    /// Whether the `index`-th block of `reference.round` is the block `reference`.
    pub open spec fn stored_at(self, reference: BlockReference, index: int) -> bool {
        &&& 0 <= index < self.blocks_at(reference.round as int).len()
        &&& self.blocks_at(reference.round as int)[index].reference == reference
    }

    /// Whether the block `reference` is known.
    pub open spec fn stored(self, reference: BlockReference) -> bool {
        exists|index: int| self.stored_at(reference, index)
    }

    /// The invariant of the store: a block sits in the bucket of its round, no
    /// reference occurs twice, parents are older than their children and are
    /// known before them, and the highest bucket is not empty.
    pub open spec fn wf(self) -> bool {
        &&& forall|k: int, i: int|
            0 <= k < self.rounds.len() && 0 <= i < self.rounds[k].len() ==> {
                &&& (#[trigger] self.rounds[k][i]).reference.round == k
                &&& self.rounds[k][i].parents_precede()
            }
        &&& forall|k: int, i: int, j: int|
            0 <= k < self.rounds.len() && 0 <= i < j < self.rounds[k].len() ==> (
            #[trigger] self.rounds[k][i]).reference != (#[trigger] self.rounds[k][j]).reference
        &&& forall|k: int, i: int, p: int|
            0 <= k < self.rounds.len() && 0 <= i < self.rounds[k].len() && 0 <= p
                < self.rounds[k][i].includes.len() ==> self.stored(
                #[trigger] self.rounds[k][i].includes[p],
            )
        &&& self.rounds.len() > 0 ==> self.rounds.last().len() > 0
        &&& self.rounds.len() <= u64::MAX
    }

    /// Whether `to` lies in the causal history of `from`: it is `from` itself,
    /// or a parent of a known block that lies in that history.
    pub open spec fn linked(self, from: BlockReference, to: BlockReference) -> bool
        decreases from.round - to.round,
    {
        from == to || (to.round < from.round && exists|k: int, i: int|
            to.round < k <= from.round && 0 <= i < self.blocks_at(k).len() && (
            #[trigger] self.blocks_at(k)[i]).reference.round == k && self.blocks_at(
                k,
            )[i].acknowledges(to) && self.linked(from, self.blocks_at(k)[i].reference))
    }

    /// Whether this DAG is `earlier` after more blocks arrived: every bucket
    /// of `earlier` is the beginning of the bucket of the same round here.
    pub open spec fn extends(self, earlier: Dag) -> bool {
        &&& earlier.rounds.len() <= self.rounds.len()
        &&& forall|k: int|
            0 <= k < earlier.rounds.len() ==> (#[trigger] earlier.rounds[k]).is_prefix_of(
                self.rounds[k],
            )
    }

    /// Whether the causal history of `from` holds a block of `round`.
    pub open spec fn reaches_round(self, from: BlockReference, round: int) -> bool {
        exists|index: int|
            0 <= index < self.blocks_at(round).len() && self.linked(
                from,
                (#[trigger] self.blocks_at(round)[index]).reference,
            )
    }

    /// Whether every block above round 0 acknowledges a block of the round
    /// before its own.
    pub open spec fn connected(self) -> bool {
        forall|k: int, i: int|
            0 < k < self.rounds.len() && 0 <= i < self.rounds[k].len() ==> exists|p: int|
                0 <= p < (#[trigger] self.rounds[k][i]).includes.len()
                    && self.rounds[k][i].includes[p].round == k - 1
    }

    /// Whether the `index`-th block of `round` is the first that `authority`
    /// proposed for that round. Of several blocks of one authority for one
    /// round only this one counts.
    pub open spec fn first_by(self, round: int, authority: AuthorityIndex, index: int) -> bool {
        &&& 0 <= index < self.blocks_at(round).len()
        &&& self.blocks_at(round)[index].reference.authority == authority
        &&& forall|j: int|
            0 <= j < index ==> (#[trigger] self.blocks_at(round)[j]).reference.authority != authority
    }

    /// Whether `authority` proposed a block for `round`.
    pub open spec fn proposed(self, round: int, authority: AuthorityIndex) -> bool {
        exists|index: int| self.first_by(round, authority, index)
    }

    /// This DAG with `block` appended to the bucket of its round.
    pub open spec fn with_block(self, block: BlockView) -> Dag {
        let round = block.reference.round as int;
        Dag {
            rounds: Seq::new(
                if round < self.rounds.len() {
                    self.rounds.len()
                } else {
                    (round + 1) as nat
                },
                |k: int|
                    if k == round {
                        self.blocks_at(k).push(block)
                    } else {
                        self.blocks_at(k)
                    },
            ),
        }
    }

    /// Whether `block` may join the DAG: it is new, its parents are older
    /// than it and are all known.
    pub open spec fn admits(self, block: BlockView) -> bool {
        &&& !self.stored(block.reference)
        &&& block.parents_precede()
        &&& forall|p: int| 0 <= p < block.includes.len() ==> self.stored(#[trigger] block.includes[p])
        &&& block.reference.round < usize::MAX
    }
}

/// A block from which another is reached, other than itself, is a known block.
pub proof fn lemma_linked_from_stored(dag: Dag, from: BlockReference, to: BlockReference)
    requires
        dag.linked(from, to),
        from != to,
    ensures
        dag.stored(from),
        to.round < from.round,
    decreases from.round - to.round,
{
    let (k, i) = choose|k: int, i: int|
        to.round < k <= from.round && 0 <= i < dag.blocks_at(k).len() && (
        #[trigger] dag.blocks_at(k)[i]).reference.round == k && dag.blocks_at(k)[i].acknowledges(to)
            && dag.linked(from, dag.blocks_at(k)[i].reference);
    let child = dag.blocks_at(k)[i].reference;
    if child == from {
        assert(dag.stored_at(from, i));
    } else {
        lemma_linked_from_stored(dag, from, child);
    }
}

/// What was known stays known when the DAG grows, at the same place.
pub proof fn lemma_extends_keeps_blocks(later: Dag, earlier: Dag, reference: BlockReference, index: int)
    requires
        later.extends(earlier),
        earlier.stored_at(reference, index),
    ensures
        later.stored_at(reference, index),
        later.blocks_at(reference.round as int)[index] == earlier.blocks_at(
            reference.round as int,
        )[index],
{
    let k = reference.round as int;
    assert(earlier.rounds[k].is_prefix_of(later.rounds[k]));
}

/// Growth of the DAG never removes a causal link.
pub proof fn lemma_linked_survives_growth(
    later: Dag,
    earlier: Dag,
    from: BlockReference,
    to: BlockReference,
)
    requires
        later.extends(earlier),
        earlier.linked(from, to),
    ensures
        later.linked(from, to),
    decreases from.round - to.round,
{
    if from != to {
        let (k, i) = choose|k: int, i: int|
            to.round < k <= from.round && 0 <= i < earlier.blocks_at(k).len() && (
            #[trigger] earlier.blocks_at(k)[i]).reference.round == k && earlier.blocks_at(
                k,
            )[i].acknowledges(to) && earlier.linked(from, earlier.blocks_at(k)[i].reference);
        let child = earlier.blocks_at(k)[i];
        lemma_linked_survives_growth(later, earlier, from, child.reference);
        assert(earlier.stored_at(child.reference, i));
        lemma_extends_keeps_blocks(later, earlier, child.reference, i);
        assert(later.blocks_at(k)[i] == child);
    }
}

/// Growth of the DAG adds nothing to the causal history of a known block:
/// whatever a known block reaches afterwards, it reached before, and that
/// block was known too.
pub proof fn lemma_history_is_closed(
    later: Dag,
    earlier: Dag,
    from: BlockReference,
    to: BlockReference,
)
    requires
        later.extends(earlier),
        later.wf(),
        earlier.wf(),
        earlier.stored(from),
        later.linked(from, to),
    ensures
        earlier.linked(from, to),
        earlier.stored(to),
    decreases from.round - to.round,
{
    if from != to {
        let (k, i) = choose|k: int, i: int|
            to.round < k <= from.round && 0 <= i < later.blocks_at(k).len() && (
            #[trigger] later.blocks_at(k)[i]).reference.round == k && later.blocks_at(
                k,
            )[i].acknowledges(to) && later.linked(from, later.blocks_at(k)[i].reference);
        let child = later.blocks_at(k)[i];
        lemma_history_is_closed(later, earlier, from, child.reference);
        let j = choose|j: int| earlier.stored_at(child.reference, j);
        lemma_extends_keeps_blocks(later, earlier, child.reference, j);
        assert(later.rounds[k][j].reference == later.rounds[k][i].reference);
        assert(i == j);
        assert(earlier.blocks_at(k)[i] == child);
        let p = choose|p: int| 0 <= p < child.includes.len() && child.includes[p] == to;
        assert(earlier.stored(earlier.rounds[k][i].includes[p]));
    }
}

/// A block that the DAG admits joins it without disturbing what is there.
pub proof fn lemma_with_block(dag: Dag, block: BlockView)
    requires
        dag.wf(),
        dag.admits(block),
    ensures
        dag.with_block(block).wf(),
        dag.with_block(block).extends(dag),
        dag.with_block(block).stored(block.reference),
{
    let grown = dag.with_block(block);
    let round = block.reference.round as int;
    assert(grown.extends(dag)) by {
        assert forall|k: int| 0 <= k < dag.rounds.len() implies (#[trigger] dag.rounds[k]).is_prefix_of(
            grown.rounds[k],
        ) by {
            if k == round {
                assert(dag.rounds[k] =~= grown.rounds[k].subrange(0, dag.rounds[k].len() as int));
            }
        }
    }
    assert(grown.stored_at(block.reference, dag.blocks_at(round).len() as int));
    assert forall|reference: BlockReference| dag.stored(reference) implies grown.stored(
        reference,
    ) by {
        let index = choose|index: int| dag.stored_at(reference, index);
        lemma_extends_keeps_blocks(grown, dag, reference, index);
    }
    assert forall|k: int, i: int, j: int|
        0 <= k < grown.rounds.len() && 0 <= i < j < grown.rounds[k].len() implies (
    #[trigger] grown.rounds[k][i]).reference != (#[trigger] grown.rounds[k][j]).reference by {
        if k == round && j == dag.blocks_at(k).len() {
            assert(dag.rounds[k][i].reference.round == k);
            if dag.rounds[k][i].reference == block.reference {
                assert(dag.stored_at(block.reference, i));
            }
        }
    }
    assert forall|k: int, i: int, p: int|
        0 <= k < grown.rounds.len() && 0 <= i < grown.rounds[k].len() && 0 <= p
            < grown.rounds[k][i].includes.len() implies grown.stored(
        #[trigger] grown.rounds[k][i].includes[p],
    ) by {
        if k == round && i == dag.blocks_at(k).len() {
            assert(dag.stored(block.includes[p]));
        } else {
            assert(dag.stored(dag.rounds[k][i].includes[p]));
        }
    }
}

/// The first block of an authority for a round stays its first when the DAG grows.
pub proof fn lemma_first_by_survives_growth(
    later: Dag,
    earlier: Dag,
    round: int,
    authority: AuthorityIndex,
    index: int,
)
    requires
        later.extends(earlier),
        earlier.first_by(round, authority, index),
    ensures
        later.first_by(round, authority, index),
        later.blocks_at(round)[index] == earlier.blocks_at(round)[index],
{
    assert(earlier.rounds[round].is_prefix_of(later.rounds[round]));
    assert forall|j: int| 0 <= j < index implies (#[trigger] later.blocks_at(
        round,
    )[j]).reference.authority != authority by {
        assert(later.blocks_at(round)[j] == earlier.blocks_at(round)[j]);
    }
}

/// What the history of a block holds of a round, it holds after the DAG grew.
pub proof fn lemma_reach_survives_growth(later: Dag, earlier: Dag, from: BlockReference, round: int)
    requires
        later.extends(earlier),
        earlier.reaches_round(from, round),
    ensures
        later.reaches_round(from, round),
{
    let index = choose|index: int|
        0 <= index < earlier.blocks_at(round).len() && earlier.linked(
            from,
            (#[trigger] earlier.blocks_at(round)[index]).reference,
        );
    let reached = earlier.blocks_at(round)[index].reference;
    lemma_linked_survives_growth(later, earlier, from, reached);
    assert(earlier.rounds[round].is_prefix_of(later.rounds[round]));
    assert(later.blocks_at(round)[index].reference == reached);
}

/// In a connected DAG the history of a known block holds a block of every
/// round up to its own.
pub proof fn lemma_connected_history_reaches(dag: Dag, from: BlockReference, round: int)
    requires
        dag.wf(),
        dag.connected(),
        dag.stored(from),
        0 <= round <= from.round,
    ensures
        dag.reaches_round(from, round),
    decreases from.round - round,
{
    if round == from.round {
        let index = choose|index: int| dag.stored_at(from, index);
        assert(dag.linked(from, dag.blocks_at(round)[index].reference));
    } else {
        lemma_connected_history_reaches(dag, from, round + 1);
        let above = choose|index: int|
            0 <= index < dag.blocks_at(round + 1).len() && dag.linked(
                from,
                (#[trigger] dag.blocks_at(round + 1)[index]).reference,
            );
        let child = dag.rounds[round + 1][above];
        let p = choose|p: int| 0 <= p < child.includes.len() && child.includes[p].round == round;
        let parent = child.includes[p];
        assert(dag.stored(dag.rounds[round + 1][above].includes[p]));
        let index = choose|index: int| dag.stored_at(parent, index);
        assert(dag.blocks_at(round + 1)[above].acknowledges(parent));
        assert(dag.linked(from, parent));
        assert(dag.linked(from, dag.blocks_at(round)[index].reference));
    }
}

/// Whether, of the rounds `top`, `top - 1`, ... that `marks` covers, the
/// `i`-th block of the `d`-th is marked and acknowledges `target`.
pub open spec fn marked_parent_of(
    dag: Dag,
    top: int,
    marks: Seq<Vec<bool>>,
    target: BlockReference,
    d: int,
    i: int,
) -> bool {
    &&& 0 <= d < marks.len()
    &&& 0 <= i < marks[d]@.len()
    &&& marks[d]@[i]
    &&& dag.blocks_at(top - d)[i].acknowledges(target)
}

/// Whether `marks` holds one row per round from `top` downwards, as long as
/// the bucket of that round.
pub open spec fn marks_fit(dag: Dag, top: int, marks: Seq<Vec<bool>>) -> bool {
    &&& marks.len() <= top + 1
    &&& top < dag.rounds.len()
    &&& forall|d: int| 0 <= d < marks.len() ==> (#[trigger] marks[d])@.len() == dag.rounds[top - d].len()
}

/// The blocks received so far.
#[derive(Debug)]
pub struct BlockStore {
    rounds: Vec<Vec<StatementBlock>>,
}

impl View for BlockStore {
    type V = Dag;

    closed spec fn view(&self) -> Dag {
        Dag {
            rounds: Seq::new(
                self.rounds@.len(),
                |k: int| Seq::new(self.rounds@[k]@.len(), |i: int| self.rounds@[k]@[i]@),
            ),
        }
    }
}

impl BlockStore {
    /// The invariant of the store, which `new` establishes and `insert` keeps.
    pub open spec fn wf(&self) -> bool {
        self@.wf()
    }

    /// An empty store.
    pub fn new() -> (store: Self)
        ensures
            store.wf(),
            store@.rounds.len() == 0,
    {
        let store = BlockStore { rounds: Vec::new() };
        assert(store@.rounds.len() == 0);
        store
    }

    /// The highest round of which a block is known; 0 while the store is empty.
    pub fn highest_round(&self) -> (round: RoundNumber)
        requires
            self.wf(),
        ensures
            round == self@.highest_round(),
    {
        if self.rounds.len() == 0 {
            0
        } else {
            (self.rounds.len() - 1) as u64
        }
    }

    /// The number of blocks known of `round`.
    pub fn count_at_round(&self, round: RoundNumber) -> (count: usize)
        ensures
            count == self@.blocks_at(round as int).len(),
    {
        if round < self.rounds.len() as u64 {
            self.rounds[round as usize].len()
        } else {
            0
        }
    }

    /// The `index`-th block of `round` in first-seen order.
    pub fn block_at(&self, round: RoundNumber, index: usize) -> (block: &StatementBlock)
        requires
            index < self@.blocks_at(round as int).len(),
        ensures
            block@ == self@.blocks_at(round as int)[index as int],
    {
        let known_rounds = self.rounds.len();
        assert(0 <= round < self@.rounds.len() == known_rounds);
        let bucket = &self.rounds[round as usize];
        assert(bucket@.len() == self@.rounds[round as int].len());
        &bucket[index]
    }

    /// The blocks of `round`, in first-seen order.
    pub fn get_blocks_by_round(&self, round: RoundNumber) -> (blocks: Vec<StatementBlock>)
        ensures
            blocks@.len() == self@.blocks_at(round as int).len(),
            forall|i: int| 0 <= i < blocks@.len() ==> (#[trigger] blocks@[i])@ == self@.blocks_at(round as int)[i],
    {
        let mut blocks: Vec<StatementBlock> = Vec::new();
        let count = self.count_at_round(round);
        let mut i: usize = 0;
        while i < count
            invariant
                i <= count,
                count == self@.blocks_at(round as int).len(),
                blocks@.len() == i,
                forall|j: int| 0 <= j < i ==> (#[trigger] blocks@[j])@ == self@.blocks_at(round as int)[j],
            decreases count - i,
        {
            blocks.push(self.block_at(round, i).clone());
            i += 1;
        }
        blocks
    }

    /// Where in the bucket of its round the block `reference` sits, if it is known.
    pub fn position(&self, reference: BlockReference) -> (place: Option<usize>)
        ensures
            place matches Some(index) ==> self@.stored_at(reference, index as int),
            place is None ==> !self@.stored(reference),
    {
        let count = self.count_at_round(reference.round);
        let mut i: usize = 0;
        while i < count
            invariant
                i <= count,
                count == self@.blocks_at(reference.round as int).len(),
                forall|j: int| 0 <= j < i ==> !self@.stored_at(reference, j),
            decreases count - i,
        {
            if self.block_at(reference.round, i).reference() == reference {
                return Some(i);
            }
            i += 1;
        }
        None
    }

    /// Whether the block `reference` is known.
    pub fn contains(&self, reference: BlockReference) -> (known: bool)
        ensures
            known == self@.stored(reference),
    {
        self.position(reference).is_some()
    }

    /// The block `reference`, if it is known.
    pub fn get(&self, reference: BlockReference) -> (block: Option<StatementBlock>)
        ensures
            block is Some <==> self@.stored(reference),
            block matches Some(b) ==> b@.reference == reference && exists|index: int|
                self@.stored_at(reference, index) && self@.blocks_at(reference.round as int)[index]
                    == b@,
    {
        match self.position(reference) {
            Some(index) => Some(self.block_at(reference.round, index).clone()),
            None => None,
        }
    }
    /// Appends `block` to the bucket of its round, unless the store cannot
    /// admit it: the block is already known, one of its parents is unknown
    /// or not older than it, or its round is beyond what can be indexed.
    /// The store keeps a bucket for every round up to the highest one.
    pub fn insert(&mut self, block: StatementBlock) -> (inserted: bool)
        requires
            old(self).wf(),
        ensures
            final(self).wf(),
            inserted == old(self)@.admits(block@),
            inserted ==> final(self)@ == old(self)@.with_block(block@),
            !inserted ==> final(self)@ == old(self)@,
            final(self)@.extends(old(self)@),
    {
        let reference = block.reference();
        if reference.round >= usize::MAX as u64 {
            return false;
        }
        if !block.parents_precede() || self.contains(reference) {
            return false;
        }
        let parents = block.includes();
        let mut p: usize = 0;
        while p < parents.len()
            invariant
                p <= parents.len(),
                parents@ == block@.includes,
                *self == *old(self),
                self.wf(),
                forall|q: int| 0 <= q < p ==> self@.stored(#[trigger] block@.includes[q]),
            decreases parents.len() - p,
        {
            if !self.contains(parents[p]) {
                assert(!self@.stored(block@.includes[p as int]));
                return false;
            }
            p += 1;
        }
        let round = reference.round as usize;
        let ghost before = self@;
        while self.rounds.len() <= round
            invariant
                before.rounds.len() <= self@.rounds.len(),
                self@.rounds.len() <= round + 1 || self@.rounds.len() == before.rounds.len(),
                round < usize::MAX,
                self@.rounds.len() == self.rounds@.len(),
                forall|k: int| 0 <= k < before.rounds.len() ==> self@.rounds[k] == before.rounds[k],
                forall|k: int|
                    before.rounds.len() <= k < self@.rounds.len() ==> (#[trigger] self@.rounds[k]).len()
                        == 0,
            decreases round + 1 - self.rounds.len(),
        {
            let ghost shorter = self@;
            self.rounds.push(Vec::new());
            assert(self@.rounds.len() == shorter.rounds.len() + 1);
            assert(self@.rounds[shorter.rounds.len() as int].len() == 0);
            assert forall|k: int| 0 <= k < shorter.rounds.len() implies (#[trigger] self@.rounds[k])
                == shorter.rounds[k] by {
                assert(self@.rounds[k] =~= shorter.rounds[k]);
            }
        }
        let ghost padded = self@;
        let ghost added = block@;
        self.rounds[round].push(block);
        proof {
            lemma_with_block(before, added);
            assert(self@.rounds.len() == padded.rounds.len());
            assert forall|k: int| 0 <= k < self@.rounds.len() implies self@.rounds[k]
                == before.with_block(added).rounds[k] by {
                if k == round {
                    assert(self@.rounds[k] =~= padded.rounds[k].push(added));
                } else {
                    assert(self@.rounds[k] =~= padded.rounds[k]);
                }
            }
            assert(self@.rounds =~= before.with_block(added).rounds);
        }
        true
    }
    /// Whether a marked block of the rounds that `marks` covers acknowledges `target`.
    fn marked_parent(&self, top: usize, marks: &Vec<Vec<bool>>, target: BlockReference) -> (found:
        bool)
        requires
            marks_fit(self@, top as int, marks@),
        ensures
            found == exists|d: int, i: int| marked_parent_of(self@, top as int, marks@, target, d, i),
    {
        let mut d: usize = 0;
        while d < marks.len()
            invariant
                d <= marks.len(),
                marks_fit(self@, top as int, marks@),
                forall|e: int, i: int|
                    0 <= e < d ==> !marked_parent_of(self@, top as int, marks@, target, e, i),
            decreases marks.len() - d,
        {
            let row = &marks[d];
            let round: u64 = (top - d) as u64;
            let mut i: usize = 0;
            while i < row.len()
                invariant
                    i <= row.len(),
                    d < marks.len(),
                    row == marks@[d as int],
                    round == top - d,
                    marks_fit(self@, top as int, marks@),
                    forall|j: int|
                        0 <= j < i ==> !marked_parent_of(self@, top as int, marks@, target, d as int, j),
                decreases row.len() - i,
            {
                if row[i] && self.block_at(round, i).acknowledges(target) {
                    assert(marked_parent_of(self@, top as int, marks@, target, d as int, i as int));
                    return true;
                }
                i += 1;
            }
            d += 1;
        }
        false
    }

    /// Whether `to` lies in the causal history of `from`.
    pub fn linked(&self, from: BlockReference, to: BlockReference) -> (reached: bool)
        requires
            self.wf(),
        ensures
            reached == self@.linked(from, to),
    {
        if from == to {
            return true;
        }
        if to.round >= from.round {
            return false;
        }
        if self.position(from).is_none() {
            proof {
                if self@.linked(from, to) {
                    lemma_linked_from_stored(self@, from, to);
                }
            }
            return false;
        }
        let known_rounds = self.rounds.len();
        assert(from.round < self@.rounds.len() == known_rounds);
        let top: usize = from.round as usize;
        let depth: usize = (from.round - to.round) as usize;
        let mut marks: Vec<Vec<bool>> = Vec::new();
        let mut d: usize = 0;
        while d < depth
            invariant
                d <= depth <= top,
                top == from.round,
                depth == from.round - to.round,
                marks@.len() == d,
                self.wf(),
                marks_fit(self@, top as int, marks@),
                forall|e: int, i: int|
                    0 <= e < d && 0 <= i < self@.rounds[top - e].len() ==> (#[trigger] marks@[e]@[i])
                        == self@.linked(from, self@.rounds[top - e][i].reference),
            decreases depth - d,
        {
            let round: u64 = (top - d) as u64;
            let count = self.count_at_round(round);
            let mut row: Vec<bool> = Vec::new();
            let mut i: usize = 0;
            while i < count
                invariant
                    i <= count,
                    d < depth <= top,
                    top == from.round,
                    round == top - d,
                    count == self@.rounds[round as int].len(),
                    row@.len() == i,
                    marks@.len() == d,
                    self.wf(),
                    marks_fit(self@, top as int, marks@),
                    forall|e: int, j: int|
                        0 <= e < d && 0 <= j < self@.rounds[top - e].len() ==> (
                        #[trigger] marks@[e]@[j]) == self@.linked(
                            from,
                            self@.rounds[top - e][j].reference,
                        ),
                    forall|j: int|
                        0 <= j < i ==> (#[trigger] row@[j]) == self@.linked(
                            from,
                            self@.rounds[round as int][j].reference,
                        ),
                decreases count - i,
            {
                let reference = self.block_at(round, i).reference();
                let marked = reference == from || self.marked_parent(top, &marks, reference);
                proof {
                    self.lemma_marks_decide(from, reference, marks@);
                }
                row.push(marked);
                i += 1;
            }
            marks.push(row);
            d += 1;
        }
        let reached = self.marked_parent(top, &marks, to);
        proof {
            self.lemma_marks_decide(from, to, marks@);
        }
        reached
    }

    /// Once every block of the rounds above `to` is marked exactly when it
    /// lies in the history of `from`, `to` lies in that history exactly when
    /// it is `from` or a marked block acknowledges it.
    proof fn lemma_marks_decide(&self, from: BlockReference, to: BlockReference, marks: Seq<Vec<bool>>)
        requires
            self.wf(),
            to.round <= from.round,
            marks.len() == from.round - to.round,
            marks_fit(self@, from.round as int, marks),
            forall|e: int, i: int|
                0 <= e < marks.len() && 0 <= i < self@.rounds[from.round - e].len() ==> (
                #[trigger] marks[e]@[i]) == self@.linked(
                    from,
                    self@.rounds[from.round - e][i].reference,
                ),
        ensures
            self@.linked(from, to) <==> from == to || exists|d: int, i: int|
                marked_parent_of(self@, from.round as int, marks, to, d, i),
    {
        let dag = self@;
        let top = from.round as int;
        if from != to && dag.linked(from, to) {
            let (k, i) = choose|k: int, i: int|
                to.round < k <= from.round && 0 <= i < dag.blocks_at(k).len() && (
                #[trigger] dag.blocks_at(k)[i]).reference.round == k && dag.blocks_at(
                    k,
                )[i].acknowledges(to) && dag.linked(from, dag.blocks_at(k)[i].reference);
            if k < dag.rounds.len() {
                assert(marks[top - k]@[i]);
                assert(marked_parent_of(dag, top, marks, to, top - k, i));
            }
        }
        if exists|d: int, i: int| marked_parent_of(dag, top, marks, to, d, i) {
            let (d, i) = choose|d: int, i: int| marked_parent_of(dag, top, marks, to, d, i);
            let k = top - d;
            assert(marks[d]@[i]);
            assert(dag.blocks_at(k)[i].reference.round == k);
            assert(dag.linked(from, dag.blocks_at(k)[i].reference));
        }
    }
    /// Where in the bucket of `round` the first block of `authority` sits, if
    /// the authority proposed one.
    pub fn first_block_by(&self, round: RoundNumber, authority: AuthorityIndex) -> (place: Option<
        usize,
    >)
        ensures
            place matches Some(index) ==> self@.first_by(round as int, authority, index as int),
            place is None ==> !self@.proposed(round as int, authority),
    {
        let count = self.count_at_round(round);
        let mut i: usize = 0;
        while i < count
            invariant
                i <= count,
                count == self@.blocks_at(round as int).len(),
                forall|j: int|
                    0 <= j < i ==> (#[trigger] self@.blocks_at(round as int)[j]).reference.authority
                        != authority,
            decreases count - i,
        {
            if self.block_at(round, i).author() == authority {
                return Some(i);
            }
            i += 1;
        }
        assert forall|index: int| !self@.first_by(round as int, authority, index) by {
            if 0 <= index < count {
                assert(self@.blocks_at(round as int)[index].reference.authority != authority);
            }
        }
        None
    }
    /// Whether the causal history of `from` holds a block of `round`.
    pub fn reaches_round(&self, from: BlockReference, round: RoundNumber) -> (reached: bool)
        requires
            self.wf(),
        ensures
            reached == self@.reaches_round(from, round as int),
    {
        let count = self.count_at_round(round);
        let mut i: usize = 0;
        while i < count
            invariant
                i <= count,
                self.wf(),
                count == self@.blocks_at(round as int).len(),
                forall|j: int|
                    0 <= j < i ==> !self@.linked(
                        from,
                        (#[trigger] self@.blocks_at(round as int)[j]).reference,
                    ),
            decreases count - i,
        {
            if self.linked(from, self.block_at(round, i).reference()) {
                return true;
            }
            i += 1;
        }
        false
    }
}

} // verus!
