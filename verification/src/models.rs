//! Contiguous runs of numbered satoshis.

use vstd::prelude::*;

verus! {

/// A contiguous run of ordinals, from `start` up to and including `size`.
///
/// The field `size` holds the last ordinal of the run, not a count. An empty
/// run has `size == start - 1`.
#[derive(Clone, Copy, Debug, PartialEq, Eq)]
pub struct OrdinalsBlock {
    pub start: i128,
    pub size: i128,
}

/// Ordinals that move from an input to an output, numbered relative to
/// what the input carried.
#[derive(Clone, Debug, PartialEq, Eq)]
pub struct OrdinalsTransfer {
    pub input_utxo: String,
    pub output_utxo: String,
    pub relative_ordinals: OrdinalsBlock,
}

/// Ordinals assigned to an unspent output.
#[derive(Clone, Debug, PartialEq, Eq)]
pub struct OrdinalsAssignment {
    pub utxo: String,
    pub ordinals: OrdinalsBlock,
}

impl OrdinalsBlock {
    /// The run is made of non-negative ordinals and its length is not
    /// negative.
    pub open spec fn wf(&self) -> bool {
        &&& 0 <= self.start
        &&& self.start - 1 <= self.size
        &&& self.size < i128::MAX
    }

    /// Number of ordinals in the run.
    pub open spec fn spec_len(&self) -> int {
        self.size - self.start + 1
    }

    /// The ordinals of the run, as a set.
    pub open spec fn ordinals(&self) -> Set<int> {
        Set::new(|n: int| self.start <= n <= self.size)
    }

    /// The first `amount` ordinals of the run.
    pub open spec fn taken(&self, amount: int) -> OrdinalsBlock {
        OrdinalsBlock { start: self.start, size: (self.start + amount - 1) as i128 }
    }

    /// The run without its first `amount` ordinals.
    pub open spec fn remainder(&self, amount: int) -> OrdinalsBlock {
        OrdinalsBlock { start: (self.start + amount) as i128, size: self.size }
    }

    /// The run `[start, start + length - 1]`.
    pub fn new(start: u64, length: u64) -> (block: OrdinalsBlock)
        ensures
            block.wf(),
            block.start == start,
            block.spec_len() == length,
    {
        OrdinalsBlock { start: start as i128, size: start as i128 + length as i128 - 1 }
    }

    /// Number of ordinals in the run.
    pub fn len(&self) -> (n: i128)
        requires
            self.wf(),
        ensures
            n == self.spec_len(),
            n >= 0,
    {
        self.size - self.start + 1
    }

    /// Splits off the first `amount` ordinals: they are returned as a run of
    /// their own, and `self` keeps the rest.
    pub fn consume(&mut self, amount: i128) -> (taken: OrdinalsBlock)
        requires
            old(self).wf(),
            0 <= amount <= old(self).spec_len(),
        ensures
            taken == old(self).taken(amount as int),
            *final(self) == old(self).remainder(amount as int),
            taken.wf(),
            final(self).wf(),
            taken.spec_len() == amount,
            final(self).spec_len() == old(self).spec_len() - amount,
    {
        let new_range = OrdinalsBlock { start: self.start, size: self.start + amount - 1 };
        self.start = self.start + amount;
        new_range
    }
}

/// Consuming from a run parts its ordinals in two: what is taken has
/// exactly the asked length, what remains has the rest of the length, the
/// two adjoin, share no ordinal, and together are the run as it was.
pub proof fn lemma_consume_partitions(before: OrdinalsBlock, amount: int)
    requires
        before.wf(),
        0 <= amount <= before.spec_len(),
    ensures
        before.taken(amount).wf(),
        before.remainder(amount).wf(),
        before.taken(amount).spec_len() == amount,
        before.remainder(amount).spec_len() == before.spec_len() - amount,
        before.taken(amount).start == before.start,
        before.taken(amount).size + 1 == before.remainder(amount).start,
        before.remainder(amount).size == before.size,
        before.taken(amount).ordinals().disjoint(before.remainder(amount).ordinals()),
        before.taken(amount).ordinals().union(before.remainder(amount).ordinals())
            =~= before.ordinals(),
{
}

} // verus!
