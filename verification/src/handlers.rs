//! What the request layer asks of the ledger.

use crate::block::{transaction_views, Block, BlockView};
use crate::blockchain::{block_views, genesis, successor, Blockchain};
use crate::transaction::{issue, signed_transaction, Transaction};
use vstd::prelude::*;

verus! {

/// The state that the request handlers work on: the node's ledger.
#[derive(Debug)]
pub struct AppState {
    pub blockchain: Blockchain,
}

/// A request to record a prescription.
#[derive(Debug)]
pub struct PrescriptionRequest {
    pub doctor_id: String,
    pub patient_id: String,
    pub drug: String,
}

/// The answer to a recorded prescription: a status word and the index of
/// the block that holds it.
#[derive(Debug)]
pub struct PrescriptionResponse {
    pub status: String,
    pub block_index: u64,
}

/// The block that records one prescription after `prev`: its single
/// transaction is signed by `secret` over the drug name.
pub open spec fn prescription_block(
    prev: BlockView,
    secret: Seq<u8>,
    doctor_id: Seq<char>,
    patient_id: Seq<char>,
    drug: Seq<char>,
    timestamp: u64,
) -> BlockView {
    successor(prev, seq![signed_transaction(secret, doctor_id, patient_id, drug)], timestamp)
}

impl AppState {
    /// The state around a new ledger.
    pub fn new() -> (state: AppState)
        ensures
            state.blockchain.wf(),
            state.blockchain@.len() == 1,
            state.blockchain@[0] == genesis(state.blockchain@[0].timestamp),
    {
        AppState { blockchain: Blockchain::new() }
    }
}

/// Records a prescription: issues a signed transaction for it under a fresh
/// key, appends a block that holds this one transaction, and answers with
/// the block's index.
pub fn submit_prescription(state: &mut AppState, payload: PrescriptionRequest) -> (response:
    PrescriptionResponse)
    requires
        old(state).blockchain.wf(),
        old(state).blockchain@.last().index < u64::MAX,
    ensures
        response.status@ == "success"@,
        response.block_index == old(state).blockchain@.last().index + 1,
        exists|secret: Seq<u8>|
            final(state).blockchain@ == old(state).blockchain@.push(
                #[trigger] prescription_block(
                    old(state).blockchain@.last(),
                    secret,
                    payload.doctor_id@,
                    payload.patient_id@,
                    payload.drug@,
                    final(state).blockchain@.last().timestamp,
                ),
            ),
        final(state).blockchain@.last().transactions[0].well_shaped(),
{
    let (tx, keypair) = issue(payload.doctor_id, payload.patient_id, payload.drug);
    let mut transactions: Vec<Transaction> = Vec::new();
    transactions.push(tx);
    proof {
        assert(transaction_views(transactions@) =~= seq![tx@]);
    }
    let block = state.blockchain.add_block(transactions);
    let block_index = block.index;
    proof {
        assert(state.blockchain@ == old(state).blockchain@.push(
            prescription_block(
                old(state).blockchain@.last(),
                keypair@,
                payload.doctor_id@,
                payload.patient_id@,
                payload.drug@,
                state.blockchain@.last().timestamp,
            ),
        ));
    }
    PrescriptionResponse { status: "success".to_owned(), block_index }
}

/// A copy of the whole block sequence.
pub fn get_chain(state: &AppState) -> (blocks: Vec<Block>)
    ensures
        block_views(blocks@) == state.blockchain@,
{
    state.blockchain.snapshot()
}

/// A copy of the block at position `index`, or `None` when the ledger is
/// shorter.
pub fn get_block(state: &AppState, index: usize) -> (found: Option<Block>)
    ensures
        index < state.blockchain@.len() ==> found.is_some() && found.unwrap()@
            == state.blockchain@[index as int],
        index >= state.blockchain@.len() ==> found.is_none(),
{
    match state.blockchain.get_block(index) {
        Some(block) => Some(block.clone()),
        None => None,
    }
}

} // verus!
