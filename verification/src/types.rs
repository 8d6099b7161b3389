//! Identifiers and vertices of the block DAG.

use vstd::prelude::*;

verus! {

/// Index of a validator in the committee.
pub type AuthorityIndex = u64;

/// Round of the DAG. Round 0 is the genesis round.
pub type RoundNumber = u64;

/// Digest that tells apart blocks proposed for the same authority and round.
pub type BlockDigest = u64;

/// Globally unique identifier of a block.
#[derive(Clone, Copy, Debug, PartialEq, Eq, Structural, Hash)]
pub struct BlockReference {
    pub authority: AuthorityIndex,
    pub round: RoundNumber,
    pub digest: BlockDigest,
}

impl BlockReference {
    /// The round the referenced block was proposed in.
    pub fn round(&self) -> (r: RoundNumber)
        ensures
            r == self.round,
    {
        self.round
    }

    /// The authority that proposed the referenced block.
    pub fn authority(&self) -> (a: AuthorityIndex)
        ensures
            a == self.authority,
    {
        self.authority
    }
}

/// What a block is, mathematically: its own reference and the references of
/// the earlier blocks it acknowledges.
pub struct BlockView {
    pub reference: BlockReference,
    pub includes: Seq<BlockReference>,
}

impl BlockView {
    /// Whether the block acknowledges `target` among its parents.
    pub open spec fn acknowledges(self, target: BlockReference) -> bool {
        self.includes.contains(target)
    }

    /// Every parent lies in a strictly earlier round.
    pub open spec fn parents_precede(self) -> bool {
        forall|i: int|
            0 <= i < self.includes.len() ==> (#[trigger] self.includes[i]).round
                < self.reference.round
    }
}

/// A vertex of the DAG: one authority's proposal for one round.
#[derive(Debug)]
pub struct StatementBlock {
    reference: BlockReference,
    includes: Vec<BlockReference>,
}

impl View for StatementBlock {
    type V = BlockView;

    closed spec fn view(&self) -> BlockView {
        BlockView { reference: self.reference, includes: self.includes@ }
    }
}

impl StatementBlock {
    /// Builds the block `reference` with the parents `includes`.
    pub fn new(reference: BlockReference, includes: Vec<BlockReference>) -> (block: Self)
        ensures
            block@.reference == reference,
            block@.includes == includes@,
    {
        StatementBlock { reference, includes }
    }

    /// The block's own reference.
    pub fn reference(&self) -> (r: BlockReference)
        ensures
            r == self@.reference,
    {
        self.reference
    }

    /// The round the block was proposed in.
    pub fn round(&self) -> (r: RoundNumber)
        ensures
            r == self@.reference.round,
    {
        self.reference.round
    }

    /// The authority that proposed the block.
    pub fn author(&self) -> (a: AuthorityIndex)
        ensures
            a == self@.reference.authority,
    {
        self.reference.authority
    }

    /// The references of the block's parents, in the order the author listed them.
    pub fn includes(&self) -> (parents: &Vec<BlockReference>)
        ensures
            parents@ == self@.includes,
    {
        &self.includes
    }

    /// Whether `target` is one of the block's parents.
    pub fn acknowledges(&self, target: BlockReference) -> (found: bool)
        ensures
            found == self@.acknowledges(target),
    {
        let mut i: usize = 0;
        while i < self.includes.len()
            invariant
                i <= self.includes.len(),
                forall|j: int| 0 <= j < i ==> self.includes@[j] != target,
            decreases self.includes.len() - i,
        {
            if self.includes[i] == target {
                return true;
            }
            i += 1;
        }
        false
    }

    /// Whether every parent lies in a strictly earlier round than the block.
    pub fn parents_precede(&self) -> (ok: bool)
        ensures
            ok == self@.parents_precede(),
    {
        let mut i: usize = 0;
        while i < self.includes.len()
            invariant
                i <= self.includes.len(),
                forall|j: int| 0 <= j < i ==> (#[trigger] self.includes@[j]).round < self.reference.round,
            decreases self.includes.len() - i,
        {
            if self.includes[i].round >= self.reference.round {
                assert(self@.includes[i as int].round >= self@.reference.round);
                return false;
            }
            i += 1;
        }
        true
    }
}

impl Clone for StatementBlock {
    fn clone(&self) -> (copy: Self)
        ensures
            copy@ == self@,
    {
        let includes = self.includes.clone();
        assert(includes@ =~= self.includes@);
        StatementBlock { reference: self.reference, includes }
    }
}

} // verus!
