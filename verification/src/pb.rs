//! The records that a block is summarised into.

use vstd::prelude::*;

verus! {

/// A contiguous block of ordinals assigned to an unspent output: `size`
/// ordinals from `start` on.
#[derive(Clone, Debug, PartialEq, Eq)]
pub struct OrdinalsBlockAssignment {
    pub utxo: String,
    pub address: Option<String>,
    pub start: u64,
    pub size: u64,
}

/// One inscription recovered from an envelope.
#[derive(Clone, Debug, PartialEq, Eq)]
pub struct Inscription {
    pub id: String,
    pub content_type: Option<String>,
    pub pointer: Option<i64>,
    pub parent: Option<String>,
    pub metadata: Option<String>,
    pub metaprotocol: Option<String>,
    pub content_encoding: Option<String>,
    pub content: String,
}

/// The inscriptions of a block, in the order in which they were met.
#[derive(Clone, Debug, PartialEq, Eq)]
pub struct Inscriptions {
    pub inscriptions: Vec<Inscription>,
}

/// A transaction of a block, with what it assigns and inscribes.
#[derive(Clone, Debug, PartialEq, Eq)]
pub struct Transaction {
    pub txid: String,
    /// Position of the transaction within its block.
    pub idx: u64,
    /// Total value of the outputs, in satoshis.
    pub amount: u64,
    /// Absolute assignments to the outputs; only the coinbase transaction
    /// has any.
    pub assignments: Vec<OrdinalsBlockAssignment>,
    /// The outputs that the transaction spends.
    pub input_utxos: Vec<String>,
    /// Assignments to the outputs, numbered relative to the ordinals that
    /// the spent outputs carry.
    pub relative_assignments: Vec<OrdinalsBlockAssignment>,
    pub inscriptions: Vec<Inscription>,
}

/// Summary of a block.
#[derive(Clone, Debug, PartialEq, Eq)]
pub struct Block {
    pub timestamp: u64,
    pub number: u64,
    /// Total value of the coinbase outputs, in satoshis.
    pub miner_reward: u64,
    /// Newly minted satoshis.
    pub subsidy: u64,
    /// What the miner collected beyond the subsidy.
    pub fees: u64,
    pub txs: Vec<Transaction>,
}

/// The characters of an optional string.
pub open spec fn opt_text(text: Option<String>) -> Option<Seq<char>> {
    match text {
        Some(s) => Some(s@),
        None => None,
    }
}

/// What an inscription holds, as plain mathematical values.
pub ghost struct InscriptionView {
    pub id: Seq<char>,
    pub content_type: Option<Seq<char>>,
    pub pointer: Option<i64>,
    pub parent: Option<Seq<char>>,
    pub metadata: Option<Seq<char>>,
    pub metaprotocol: Option<Seq<char>>,
    pub content_encoding: Option<Seq<char>>,
    pub content: Seq<char>,
}

impl InscriptionView {
    /// The inscription with the given identifier and nothing else set.
    pub open spec fn empty(id: Seq<char>) -> InscriptionView {
        InscriptionView {
            id,
            content_type: None,
            pointer: None,
            parent: None,
            metadata: None,
            metaprotocol: None,
            content_encoding: None,
            content: Seq::empty(),
        }
    }
}

impl View for Inscription {
    type V = InscriptionView;

    open spec fn view(&self) -> InscriptionView {
        InscriptionView {
            id: self.id@,
            content_type: opt_text(self.content_type),
            pointer: self.pointer,
            parent: opt_text(self.parent),
            metadata: opt_text(self.metadata),
            metaprotocol: opt_text(self.metaprotocol),
            content_encoding: opt_text(self.content_encoding),
            content: self.content@,
        }
    }
}

/// The views of a sequence of inscriptions, in order.
pub open spec fn inscription_views(records: Seq<Inscription>) -> Seq<InscriptionView> {
    records.map_values(|r: Inscription| r@)
}

} // verus!
