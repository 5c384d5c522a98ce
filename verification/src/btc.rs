//! The parts of a Bitcoin block that the summaries are computed from.

use vstd::prelude::*;

verus! {

/// An input of a transaction: the output that it spends.
#[derive(Clone, Debug, PartialEq, Eq)]
pub struct Vin {
    pub txid: String,
    pub vout: u32,
}

/// An output of a transaction.
#[derive(Clone, Debug, PartialEq, Eq)]
pub struct Vout {
    /// Index of the output within its transaction.
    pub n: u32,
    /// Value in satoshis.
    pub value: u64,
    /// Address that the output pays to, where one can be derived.
    pub address: Option<String>,
}

/// A transaction as it stands in a block.
#[derive(Clone, Debug, PartialEq, Eq)]
pub struct Transaction {
    pub txid: String,
    /// The serialized transaction, in hexadecimal.
    pub hex: String,
    pub vin: Vec<Vin>,
    pub vout: Vec<Vout>,
}

/// A block: its height, its time, and its transactions, the coinbase
/// transaction first.
#[derive(Clone, Debug, PartialEq, Eq)]
pub struct Block {
    pub height: u64,
    pub time: u64,
    pub tx: Vec<Transaction>,
}

/// Sum of the values of a sequence of outputs.
pub open spec fn total_value(outputs: Seq<Vout>) -> nat
    decreases outputs.len(),
{
    if outputs.len() == 0 {
        0
    } else {
        total_value(outputs.drop_last()) + outputs.last().value as nat
    }
}

/// The outputs up to any point are worth no more than all of them.
pub proof fn lemma_total_value_prefix(outputs: Seq<Vout>, i: int)
    requires
        0 <= i <= outputs.len(),
    ensures
        total_value(outputs.take(i)) <= total_value(outputs),
    decreases outputs.len(),
{
    if i == outputs.len() {
        assert(outputs.take(i) =~= outputs);
    } else {
        lemma_total_value_prefix(outputs.drop_last(), i);
        assert(outputs.drop_last().take(i) =~= outputs.take(i));
    }
}

/// One more output adds its value to what came before.
pub proof fn lemma_total_value_step(outputs: Seq<Vout>, i: int)
    requires
        0 <= i < outputs.len(),
    ensures
        total_value(outputs.take(i + 1)) == total_value(outputs.take(i)) + outputs[i].value,
{
    assert(outputs.take(i + 1).drop_last() =~= outputs.take(i));
}

impl Transaction {
    /// Total value of the outputs, in satoshis.
    pub fn amount(&self) -> (total: u64)
        requires
            total_value(self.vout@) <= u64::MAX,
        ensures
            total as nat == total_value(self.vout@),
    {
        let mut total: u64 = 0;
        let mut i: usize = 0;
        while i < self.vout.len()
            invariant
                i <= self.vout.len(),
                total as nat == total_value(self.vout@.take(i as int)),
                total_value(self.vout@) <= u64::MAX,
            decreases self.vout.len() - i,
        {
            proof {
                lemma_total_value_step(self.vout@, i as int);
                lemma_total_value_prefix(self.vout@, i as int + 1);
            }
            total = total + self.vout[i].value;
            i = i + 1;
        }
        proof {
            assert(self.vout@.take(i as int) =~= self.vout@);
        }
        total
    }
}

} // verus!
