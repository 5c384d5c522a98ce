//! Summary of a block: what each transaction assigns and inscribes.

use crate::btc::{lemma_total_value_prefix, lemma_total_value_step, total_value, Vin, Vout};
use crate::codec::{decimal_digits, decimal_string, hex_decode, hex_decode_spec, is_hex_text};
use crate::inscriptions::{decode_spec, parse_inscriptions, PUSHDATA4_LENGTH_BYTES};
use crate::pb::{
    inscription_views, opt_text, Inscription, InscriptionView, Inscriptions,
    OrdinalsBlockAssignment,
};
use crate::models::{OrdinalsAssignment, OrdinalsBlock};
use crate::sats_utils::{first_ordinal, first_ordinal_spec, subsidy, subsidy_spec};
use vstd::prelude::*;
use vstd::string::StringExecFns;

verus! {

/// Name of an output: the transaction's identifier, a colon, and the index
/// of the output in decimal.
pub open spec fn utxo_spec(txid: Seq<char>, n: u32) -> Seq<char> {
    txid + seq![':'] + decimal_digits(n as nat)
}

/// Builds the name of the output `n` of the transaction `txid`.
pub fn utxo(txid: &String, n: u32) -> (name: String)
    ensures
        name@ == utxo_spec(txid@, n),
{
    let number = decimal_string(n as usize);
    proof {
        reveal_strlit(":");
        assert(":"@ =~= seq![':']);
    }
    txid.clone().concat(":").concat(number.as_str())
}

/// `assigned` gives the output at `i` as many ordinals as it is worth,
/// starting where the outputs before it end when the first starts at
/// `first`.
pub open spec fn is_assignment_of(
    assigned: OrdinalsBlockAssignment,
    txid: Seq<char>,
    outputs: Seq<Vout>,
    first: nat,
    i: int,
) -> bool {
    &&& assigned.utxo@ == utxo_spec(txid, outputs[i].n)
    &&& opt_text(assigned.address) == opt_text(outputs[i].address)
    &&& assigned.start as nat == first + total_value(outputs.take(i))
    &&& assigned.size == outputs[i].value
}

/// `list` assigns to each output, in order, as `is_assignment_of` says.
pub open spec fn are_assignments_of(
    list: Seq<OrdinalsBlockAssignment>,
    txid: Seq<char>,
    outputs: Seq<Vout>,
    first: nat,
) -> bool {
    &&& list.len() == outputs.len()
    &&& forall|i: int|
        0 <= i < list.len() ==> is_assignment_of(#[trigger] list[i], txid, outputs, first, i)
}

/// Assigns consecutive runs of ordinals to the outputs of a transaction in
/// index order, the first run starting at `first`, each as long as its
/// output is worth.
pub fn assign_outputs(txid: &String, outputs: &Vec<Vout>, first: u64) -> (list: Vec<
    OrdinalsBlockAssignment,
>)
    requires
        first + total_value(outputs@) <= u64::MAX,
    ensures
        are_assignments_of(list@, txid@, outputs@, first as nat),
{
    let mut list: Vec<OrdinalsBlockAssignment> = Vec::new();
    let mut counter: u64 = first;
    let mut i: usize = 0;
    proof {
        assert(outputs@.take(0) =~= Seq::empty());
    }
    while i < outputs.len()
        invariant
            i <= outputs.len(),
            list.len() == i,
            first + total_value(outputs@) <= u64::MAX,
            counter as nat == first + total_value(outputs@.take(i as int)),
            forall|j: int|
                0 <= j < i ==> is_assignment_of(
                    #[trigger] list[j],
                    txid@,
                    outputs@,
                    first as nat,
                    j,
                ),
        decreases outputs.len() - i,
    {
        let output = &outputs[i];
        let address = match &output.address {
            Some(text) => Some(text.clone()),
            None => None,
        };
        proof {
            lemma_total_value_step(outputs@, i as int);
            lemma_total_value_prefix(outputs@, i as int + 1);
        }
        list.push(
            OrdinalsBlockAssignment {
                utxo: utxo(txid, output.n),
                address,
                start: counter,
                size: output.value,
            },
        );
        counter = counter + output.value;
        i = i + 1;
    }
    list
}

/// `assigned` gives the output at `i` the run that is taken from `range`
/// for it once the outputs before it have taken theirs.
pub open spec fn is_consumed_run_of(
    assigned: OrdinalsAssignment,
    txid: Seq<char>,
    outputs: Seq<Vout>,
    range: OrdinalsBlock,
    i: int,
) -> bool {
    &&& assigned.utxo@ == utxo_spec(txid, outputs[i].n)
    &&& assigned.ordinals == range.remainder(total_value(outputs.take(i)) as int).taken(
        outputs[i].value as int,
    )
}

/// Hands the ordinals of `range` to the outputs of a transaction in index
/// order: each output consumes as many as it is worth from the low end.
/// What no output has taken stays in `range`. The outputs may not be worth
/// more than the range is long.
pub fn assign_minted(txid: &String, outputs: &Vec<Vout>, range: &mut OrdinalsBlock) -> (list: Vec<
    OrdinalsAssignment,
>)
    requires
        old(range).wf(),
        total_value(outputs@) <= old(range).spec_len(),
    ensures
        list@.len() == outputs@.len(),
        forall|i: int|
            0 <= i < list@.len() ==> is_consumed_run_of(
                #[trigger] list@[i],
                txid@,
                outputs@,
                *old(range),
                i,
            ),
        *final(range) == old(range).remainder(total_value(outputs@) as int),
        final(range).wf(),
{
    let ghost minted = *range;
    let mut list: Vec<OrdinalsAssignment> = Vec::new();
    let mut i: usize = 0;
    proof {
        assert(outputs@.take(0) =~= Seq::empty());
    }
    while i < outputs.len()
        invariant
            i <= outputs.len(),
            list.len() == i,
            minted.wf(),
            total_value(outputs@) <= minted.spec_len(),
            range.wf(),
            *range == minted.remainder(total_value(outputs@.take(i as int)) as int),
            forall|j: int|
                0 <= j < i ==> is_consumed_run_of(#[trigger] list@[j], txid@, outputs@, minted, j),
        decreases outputs.len() - i,
    {
        proof {
            lemma_total_value_step(outputs@, i as int);
            lemma_total_value_prefix(outputs@, i as int + 1);
        }
        let output = &outputs[i];
        let ordinals = range.consume(output.value as i128);
        list.push(OrdinalsAssignment { utxo: utxo(txid, output.n), ordinals });
        i = i + 1;
    }
    proof {
        assert(outputs@.take(i as int) =~= outputs@);
    }
    list
}

/// `names` are the names of the outputs that `inputs` spend, in order.
pub open spec fn are_input_utxos_of(names: Seq<String>, inputs: Seq<Vin>) -> bool {
    &&& names.len() == inputs.len()
    &&& forall|i: int|
        0 <= i < names.len() ==> (#[trigger] names[i])@ == utxo_spec(
            inputs[i].txid@,
            inputs[i].vout,
        )
}

/// Names the outputs that the inputs of a transaction spend.
pub fn input_utxos(inputs: &Vec<Vin>) -> (names: Vec<String>)
    ensures
        are_input_utxos_of(names@, inputs@),
{
    let mut names: Vec<String> = Vec::new();
    let mut i: usize = 0;
    while i < inputs.len()
        invariant
            i <= inputs.len(),
            names.len() == i,
            forall|j: int|
                0 <= j < i ==> (#[trigger] names[j])@ == utxo_spec(
                    inputs[j].txid@,
                    inputs[j].vout,
                ),
        decreases inputs.len() - i,
    {
        names.push(utxo(&inputs[i].txid, inputs[i].vout));
        i = i + 1;
    }
    names
}

/// The inscriptions of a transaction given by its identifier and its
/// serialized form in hexadecimal: those that decoding finds, and none
/// where the text is not hexadecimal or decoding fails.
pub open spec fn inscriptions_spec(txid: Seq<char>, hex: Seq<char>) -> Seq<InscriptionView> {
    if is_hex_text(hex) {
        match decode_spec(txid, hex_decode_spec(hex), PUSHDATA4_LENGTH_BYTES as nat) {
            Ok(found) => found,
            Err(_) => Seq::empty(),
        }
    } else {
        Seq::empty()
    }
}

/// Decodes the inscriptions of a transaction. A transaction that cannot
/// be decoded has none: its failure does not reach the transactions
/// beside it.
pub fn transaction_inscriptions(tx: &crate::btc::Transaction) -> (found: Vec<Inscription>)
    ensures
        inscription_views(found@) == inscriptions_spec(tx.txid@, tx.hex@),
{
    let decoded = match hex_decode(&tx.hex) {
        Some(bytes) => parse_inscriptions(tx.txid.clone(), bytes),
        None => Err(crate::inscriptions::DecodeError::MalformedEnvelope),
    };
    match decoded {
        Ok(found) => found,
        Err(_) => {
            let none: Vec<Inscription> = Vec::new();
            proof {
                assert(inscription_views(none@) =~= Seq::empty());
            }
            none
        },
    }
}

/// `summary` is the summary of the transaction `tx` that stands at
/// `index` in a block whose first minted ordinal is `first`. The coinbase
/// transaction, at index 0, spends nothing and has absolute assignments
/// from `first` on; every other has assignments relative to what its
/// inputs carry, from 0 on.
pub open spec fn summarises(
    summary: crate::pb::Transaction,
    tx: crate::btc::Transaction,
    index: int,
    first: nat,
) -> bool {
    &&& summary.txid@ == tx.txid@
    &&& summary.idx == index
    &&& summary.amount as nat == total_value(tx.vout@)
    &&& inscription_views(summary.inscriptions@) == inscriptions_spec(tx.txid@, tx.hex@)
    &&& if index == 0 {
        &&& are_assignments_of(summary.assignments@, tx.txid@, tx.vout@, first)
        &&& summary.input_utxos@.len() == 0
        &&& summary.relative_assignments@.len() == 0
    } else {
        &&& summary.assignments@.len() == 0
        &&& are_input_utxos_of(summary.input_utxos@, tx.vin@)
        &&& are_assignments_of(summary.relative_assignments@, tx.txid@, tx.vout@, 0)
    }
}

/// Summarises the coinbase transaction of a block whose first minted
/// ordinal is `first`.
pub fn summarise_coinbase(tx: &crate::btc::Transaction, first: u64) -> (summary:
    crate::pb::Transaction)
    requires
        first + total_value(tx.vout@) <= u64::MAX,
    ensures
        summarises(summary, *tx, 0, first as nat),
{
    crate::pb::Transaction {
        txid: tx.txid.clone(),
        idx: 0,
        amount: tx.amount(),
        assignments: assign_outputs(&tx.txid, &tx.vout, first),
        input_utxos: Vec::new(),
        relative_assignments: Vec::new(),
        inscriptions: transaction_inscriptions(tx),
    }
}

/// Summarises the transaction that stands at `index`, after the coinbase
/// transaction, in its block.
pub fn summarise_transaction(tx: &crate::btc::Transaction, index: usize) -> (summary:
    crate::pb::Transaction)
    requires
        index > 0,
        total_value(tx.vout@) <= u64::MAX,
    ensures
        summarises(summary, *tx, index as int, 0),
{
    crate::pb::Transaction {
        txid: tx.txid.clone(),
        idx: index as u64,
        amount: tx.amount(),
        assignments: Vec::new(),
        input_utxos: input_utxos(&tx.vin),
        relative_assignments: assign_outputs(&tx.txid, &tx.vout, 0),
        inscriptions: transaction_inscriptions(tx),
    }
}

/// A block that can be summarised: it has a coinbase transaction, which
/// collects at least the subsidy, and its sums fit the 64 bits that
/// amounts are kept in.
pub open spec fn can_summarise(block: crate::btc::Block, supply_through_previous: u64) -> bool {
    &&& block.tx@.len() > 0
    &&& subsidy_spec(block.height) <= total_value(block.tx@[0].vout@)
    &&& first_ordinal_spec(block.height, supply_through_previous) + total_value(block.tx@[0].vout@)
        <= u64::MAX
    &&& forall|i: int|
        0 <= i < block.tx@.len() ==> total_value((#[trigger] block.tx@[i]).vout@) <= u64::MAX
}

/// Tests whether a block can be summarised.
pub fn can_be_summarised(block: &crate::btc::Block, supply_through_previous: u64) -> (ok: bool)
    ensures
        ok == can_summarise(*block, supply_through_previous),
{
    if block.tx.len() == 0 {
        return false;
    }
    let first = first_ordinal(block.height, supply_through_previous);
    let mut i: usize = 0;
    while i < block.tx.len()
        invariant
            i <= block.tx.len(),
            forall|j: int| 0 <= j < i ==> total_value((#[trigger] block.tx@[j]).vout@) <= u64::MAX,
        decreases block.tx.len() - i,
    {
        match checked_total(&block.tx[i].vout) {
            Some(_) => {},
            None => {
                return false;
            },
        }
        i = i + 1;
    }
    let reward = block.tx[0].amount();
    reward >= subsidy(block.height) && reward <= u64::MAX - first
}

/// Sum of the values of the outputs, or `None` if it does not fit 64
/// bits.
pub fn checked_total(outputs: &Vec<Vout>) -> (total: Option<u64>)
    ensures
        match total {
            Some(sum) => sum as nat == total_value(outputs@),
            None => total_value(outputs@) > u64::MAX,
        },
{
    let mut sum: u64 = 0;
    let mut i: usize = 0;
    proof {
        assert(outputs@.take(0) =~= Seq::empty());
    }
    while i < outputs.len()
        invariant
            i <= outputs.len(),
            sum as nat == total_value(outputs@.take(i as int)),
        decreases outputs.len() - i,
    {
        proof {
            lemma_total_value_step(outputs@, i as int);
            lemma_total_value_prefix(outputs@, i as int + 1);
        }
        if outputs[i].value > u64::MAX - sum {
            return None;
        }
        sum = sum + outputs[i].value;
        i = i + 1;
    }
    proof {
        assert(outputs@.take(i as int) =~= outputs@);
    }
    Some(sum)
}

/// `summary` is the summary of `block`: it has the block's height and
/// time, its subsidy, what the coinbase transaction collected and how much
/// of that is beyond the subsidy, and a summary of each transaction in
/// order.
pub open spec fn is_summary_of(
    summary: crate::pb::Block,
    block: crate::btc::Block,
    supply_through_previous: u64,
) -> bool {
    &&& summary.number == block.height
    &&& summary.timestamp == block.time
    &&& summary.subsidy as nat == subsidy_spec(block.height)
    &&& summary.miner_reward as nat == total_value(block.tx@[0].vout@)
    &&& summary.fees == summary.miner_reward - summary.subsidy
    &&& summary.txs@.len() == block.tx@.len()
    &&& forall|i: int|
        0 <= i < block.tx@.len() ==> summarises(
            #[trigger] summary.txs@[i],
            block.tx@[i],
            i,
            first_ordinal_spec(block.height, supply_through_previous),
        )
}

/// Summarises a block: its subsidy, what the miner collected, and for
/// each transaction its assignments and inscriptions.
/// `supply_through_previous` is the number of satoshis minted through the
/// block before this one; it is not read for the genesis block.
pub fn map_ordinals(block: &crate::btc::Block, supply_through_previous: u64) -> (summary:
    crate::pb::Block)
    requires
        can_summarise(*block, supply_through_previous),
    ensures
        is_summary_of(summary, *block, supply_through_previous),
{
    let block_subsidy = subsidy(block.height);
    let first = first_ordinal(block.height, supply_through_previous);
    let coinbase = summarise_coinbase(&block.tx[0], first);
    let miner_reward = coinbase.amount;
    let mut txs: Vec<crate::pb::Transaction> = Vec::new();
    txs.push(coinbase);
    let mut i: usize = 1;
    while i < block.tx.len()
        invariant
            1 <= i <= block.tx.len(),
            txs.len() == i,
            can_summarise(*block, supply_through_previous),
            forall|j: int|
                0 <= j < i ==> summarises(
                    #[trigger] txs@[j],
                    block.tx@[j],
                    j,
                    first_ordinal_spec(block.height, supply_through_previous),
                ),
        decreases block.tx.len() - i,
    {
        let tx_summary = summarise_transaction(&block.tx[i], i);
        txs.push(tx_summary);
        i = i + 1;
    }
    crate::pb::Block {
        number: block.height,
        timestamp: block.time,
        miner_reward,
        subsidy: block_subsidy,
        fees: miner_reward - block_subsidy,
        txs,
    }
}

/// Summarises a block if it can be summarised, as `map_ordinals` does;
/// `None` if it cannot.
pub fn try_map_ordinals(block: &crate::btc::Block, supply_through_previous: u64) -> (summary:
    Option<crate::pb::Block>)
    ensures
        summary is Some <==> can_summarise(*block, supply_through_previous),
        summary is Some ==> is_summary_of(summary->0, *block, supply_through_previous),
{
    if can_be_summarised(block, supply_through_previous) {
        Some(map_ordinals(block, supply_through_previous))
    } else {
        None
    }
}

/// The last transaction of a block.
pub fn map_transaction(block: &crate::btc::Block) -> (tx: &crate::btc::Transaction)
    requires
        block.tx@.len() > 0,
    ensures
        *tx == block.tx@.last(),
{
    &block.tx[block.tx.len() - 1]
}

/// The inscriptions of a sequence of transactions: those of each, in the
/// order of the transactions.
pub open spec fn block_inscriptions_spec(txs: Seq<crate::btc::Transaction>) -> Seq<InscriptionView>
    decreases txs.len(),
{
    if txs.len() == 0 {
        Seq::empty()
    } else {
        block_inscriptions_spec(txs.drop_last()) + inscriptions_spec(
            txs.last().txid@,
            txs.last().hex@,
        )
    }
}

/// Collects the inscriptions of all transactions of a block, in order. A
/// transaction that cannot be decoded adds none and stops nothing.
pub fn map_inscriptions(block: crate::btc::Block) -> (all: Inscriptions)
    ensures
        inscription_views(all.inscriptions@) == block_inscriptions_spec(block.tx@),
{
    let mut inscriptions: Vec<Inscription> = Vec::new();
    let mut i: usize = 0;
    proof {
        assert(block.tx@.take(0) =~= Seq::empty());
        assert(inscription_views(inscriptions@) =~= Seq::empty());
    }
    while i < block.tx.len()
        invariant
            i <= block.tx.len(),
            inscription_views(inscriptions@) == block_inscriptions_spec(block.tx@.take(i as int)),
        decreases block.tx.len() - i,
    {
        let mut found = transaction_inscriptions(&block.tx[i]);
        let ghost before = inscriptions@;
        let ghost added = found@;
        inscriptions.append(&mut found);
        proof {
            assert(block.tx@.take(i as int + 1).drop_last() =~= block.tx@.take(i as int));
            assert(inscription_views(before + added) =~= inscription_views(before)
                + inscription_views(added));
        }
        i = i + 1;
    }
    proof {
        assert(block.tx@.take(i as int) =~= block.tx@);
    }
    Inscriptions { inscriptions }
}

/// As long as the outputs up to and including the one at `i` are worth no
/// more than the block minted, the run assigned to that output is the run
/// that consuming the outputs' values in turn from the minted range takes
/// for it: it starts where the range stands after the earlier outputs and
/// is as long as the output is worth.
pub proof fn lemma_assignment_is_consumed_run(
    assigned: OrdinalsBlockAssignment,
    txid: Seq<char>,
    outputs: Seq<Vout>,
    first: nat,
    minted: nat,
    i: int,
)
    requires
        0 <= i < outputs.len(),
        is_assignment_of(assigned, txid, outputs, first, i),
        total_value(outputs.take(i + 1)) <= minted,
        first + minted < i128::MAX,
    ensures
        ({
            let range = OrdinalsBlock { start: first as i128, size: (first + minted - 1) as i128 };
            let left = range.remainder(total_value(outputs.take(i)) as int);
            let taken = left.taken(outputs[i].value as int);
            &&& range.wf()
            &&& left.wf()
            &&& outputs[i].value <= left.spec_len()
            &&& taken.start == assigned.start
            &&& taken.spec_len() == assigned.size
        }),
{
    lemma_total_value_step(outputs, i);
}

/// The inscriptions of a block are those of its transactions one after
/// another: what one transaction adds does not depend on the transactions
/// beside it, and one that cannot be decoded adds nothing.
pub proof fn lemma_block_inscriptions_concat(
    before: Seq<crate::btc::Transaction>,
    after: Seq<crate::btc::Transaction>,
)
    ensures
        block_inscriptions_spec(before + after) == block_inscriptions_spec(before)
            + block_inscriptions_spec(after),
    decreases after.len(),
{
    if after.len() == 0 {
        assert(before + after =~= before);
        assert(block_inscriptions_spec(before) + Seq::<InscriptionView>::empty()
            =~= block_inscriptions_spec(before));
    } else {
        lemma_block_inscriptions_concat(before, after.drop_last());
        assert((before + after).drop_last() =~= before + after.drop_last());
        assert((before + after).last() == after.last());
        let tail = inscriptions_spec(after.last().txid@, after.last().hex@);
        assert((block_inscriptions_spec(before) + block_inscriptions_spec(after.drop_last()))
            + tail =~= block_inscriptions_spec(before) + (block_inscriptions_spec(
            after.drop_last(),
        ) + tail));
    }
}

} // verus!
