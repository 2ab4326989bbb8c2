//! The ledger: an append-only sequence of blocks that begins with genesis.

use crate::block::{transaction_views, Block, BlockView};
use crate::clock::unix_seconds;
use crate::digest::sha256;
use crate::transaction::{Transaction, TransactionView};
use crate::uniqueness::lemma_hash_tells_blocks_apart;
use vstd::prelude::*;

verus! {

/// The ledger. `chain` is never empty while the ledger is used as meant:
/// `new` puts the genesis block there and nothing removes it.
#[derive(Debug)]
pub struct Blockchain {
    pub chain: Vec<Block>,
}

/// The views of a sequence of blocks.
pub open spec fn block_views(blocks: Seq<Block>) -> Seq<BlockView> {
    blocks.map_values(|block: Block| block@)
}

impl View for Blockchain {
    type V = Seq<BlockView>;

    open spec fn view(&self) -> Seq<BlockView> {
        block_views(self.chain@)
    }
}

/// The genesis block created at `timestamp`: index 0, the sentinel `"0"` as
/// previous hash, no transactions, nonce 0.
pub open spec fn genesis(timestamp: u64) -> BlockView {
    BlockView {
        index: 0,
        prev_hash: "0"@,
        timestamp,
        transactions: Seq::empty(),
        nonce: 0,
    }
}

/// The block that an append at `timestamp` puts after `prev`: the next
/// index, the hash of `prev`, the given transactions, nonce 0.
pub open spec fn successor(
    prev: BlockView,
    transactions: Seq<TransactionView>,
    timestamp: u64,
) -> BlockView {
    BlockView {
        index: (prev.index + 1) as u64,
        prev_hash: prev.hash(),
        timestamp,
        transactions,
        nonce: 0,
    }
}

/// Whether `curr` may stand directly after `prev` in a valid ledger: it
/// records the hash of `prev`, and all its transactions verify.
pub open spec fn follows(prev: BlockView, curr: BlockView) -> bool {
    curr.prev_hash == prev.hash() && curr.transactions_valid()
}

/// Whether every block after the first follows the block before it. The
/// first block is not examined, so a ledger of one block is valid.
pub open spec fn chain_valid(chain: Seq<BlockView>) -> bool {
    forall|i: int| 1 <= i < chain.len() ==> follows(chain[i - 1], #[trigger] chain[i])
}

/// Copies a list of blocks.
pub fn clone_blocks(blocks: &Vec<Block>) -> (copy: Vec<Block>)
    ensures
        block_views(copy@) == block_views(blocks@),
{
    let mut copy: Vec<Block> = Vec::new();
    let mut i: usize = 0;
    while i < blocks.len()
        invariant
            i <= blocks.len(),
            copy@.len() == i,
            forall|k: int| 0 <= k < i ==> (#[trigger] copy@[k])@ == blocks@[k]@,
        decreases blocks.len() - i,
    {
        copy.push(blocks[i].clone());
        i += 1;
    }
    proof {
        assert(block_views(copy@) =~= block_views(blocks@));
    }
    copy
}

impl Blockchain {
    /// Whether the ledger holds its genesis block.
    pub open spec fn wf(&self) -> bool {
        self@.len() > 0
    }

    /// A ledger that holds only the genesis block, stamped with the current
    /// time.
    pub fn new() -> (ledger: Blockchain)
        ensures
            ledger.wf(),
            ledger@.len() == 1,
            ledger@[0] == genesis(ledger@[0].timestamp),
    {
        Blockchain::with_genesis_at(unix_seconds())
    }

    /// A ledger that holds only the genesis block, stamped with `timestamp`.
    pub fn with_genesis_at(timestamp: u64) -> (ledger: Blockchain)
        ensures
            ledger.wf(),
            ledger@ == seq![genesis(timestamp)],
    {
        let block = Block {
            index: 0,
            prev_hash: "0".to_owned(),
            timestamp,
            transactions: Vec::new(),
            nonce: 0,
        };
        let mut chain: Vec<Block> = Vec::new();
        chain.push(block);
        let ledger = Blockchain { chain };
        proof {
            assert(block@.transactions =~= Seq::empty());
            assert(ledger@ =~= seq![genesis(timestamp)]);
        }
        ledger
    }

    /// The number of blocks.
    pub fn len(&self) -> (n: usize)
        ensures
            n == self@.len(),
    {
        self.chain.len()
    }

    /// The block at position `index`, or `None` when the ledger is shorter.
    pub fn get_block(&self, index: usize) -> (found: Option<&Block>)
        ensures
            index < self@.len() ==> found.is_some() && found.unwrap()@ == self@[index as int],
            index >= self@.len() ==> found.is_none(),
    {
        if index < self.chain.len() {
            Some(&self.chain[index])
        } else {
            None
        }
    }

    /// A copy of the whole block sequence.
    pub fn snapshot(&self) -> (blocks: Vec<Block>)
        ensures
            block_views(blocks@) == self@,
    {
        clone_blocks(&self.chain)
    }

    /// Appends a block with the given transactions, stamped with the
    /// current time, and returns it. The signatures are not checked here.
    pub fn add_block(&mut self, transactions: Vec<Transaction>) -> (block: &Block)
        requires
            old(self).wf(),
            old(self)@.last().index < u64::MAX,
        ensures
            final(self)@ == old(self)@.push(
                successor(
                    old(self)@.last(),
                    transaction_views(transactions@),
                    final(self)@.last().timestamp,
                ),
            ),
            block@ == final(self)@.last(),
    {
        self.add_block_at(transactions, unix_seconds())
    }

    /// Appends a block with the given transactions, stamped with
    /// `timestamp`, and returns it: its index is one more than the last
    /// block's, its previous hash is the hash of the last block, its nonce
    /// is 0. The signatures are not checked here.
    pub fn add_block_at(&mut self, transactions: Vec<Transaction>, timestamp: u64) -> (block: &Block)
        requires
            old(self).wf(),
            old(self)@.last().index < u64::MAX,
        ensures
            final(self)@ == old(self)@.push(
                successor(old(self)@.last(), transaction_views(transactions@), timestamp),
            ),
            block@ == final(self)@.last(),
    {
        let n = self.chain.len();
        let prev = &self.chain[n - 1];
        let block = Block {
            index: prev.index + 1,
            prev_hash: prev.calculate_hash(),
            timestamp,
            transactions,
            nonce: 0,
        };
        self.chain.push(block);
        proof {
            assert(self@ =~= old(self)@.push(
                successor(old(self)@.last(), transaction_views(transactions@), timestamp),
            ));
        }
        &self.chain[n]
    }

    /// Checks the whole ledger: every block after the first must record the
    /// hash of the block before it and hold only transactions whose
    /// signatures verify.
    pub fn validate_chain(&self) -> (ok: bool)
        ensures
            ok == chain_valid(self@),
    {
        let mut i: usize = 1;
        while i < self.chain.len()
            invariant
                1 <= i,
                forall|k: int| 1 <= k < i && k < self@.len() ==> follows(self@[k - 1], #[trigger] self@[k]),
            decreases self.chain.len() - i,
        {
            let expected = self.chain[i - 1].calculate_hash();
            let curr = &self.chain[i];
            if !curr.links_to(&expected) || !curr.transactions_valid() {
                proof {
                    assert(!follows(self@[i - 1], self@[i as int]));
                }
                return false;
            }
            i += 1;
        }
        true
    }

    /// Overwrites the ledger with `blocks`, whatever they hold. Nothing is
    /// validated.
    pub fn replace(&mut self, blocks: Vec<Block>)
        ensures
            final(self)@ == block_views(blocks@),
    {
        self.chain = blocks;
    }
}

/// The ledger that results from `chain` by one append per element of
/// `batches`, in order, the k-th stamped with `times[k]`.
pub open spec fn appended(
    chain: Seq<BlockView>,
    batches: Seq<Seq<TransactionView>>,
    times: Seq<u64>,
) -> Seq<BlockView>
    recommends
        chain.len() > 0,
        batches.len() == times.len(),
    decreases batches.len(),
{
    if batches.len() == 0 {
        chain
    } else {
        let before = appended(chain, batches.drop_last(), times.drop_last());
        before.push(successor(before.last(), batches.last(), times.last()))
    }
}

/// Whether every transaction of every batch has a valid signature.
pub open spec fn batches_valid(batches: Seq<Seq<TransactionView>>) -> bool {
    forall|k: int, j: int|
        0 <= k < batches.len() && 0 <= j < batches[k].len() ==> (#[trigger] batches[k][j]).is_valid()
}

/// Blocks with equal fields have equal hashes: the hash depends on nothing
/// but the five field values.
pub proof fn lemma_hash_deterministic(a: Block, b: Block)
    requires
        a@ == b@,
    ensures
        a@.hash() == b@.hash(),
{
}

/// A ledger of the genesis block alone is valid.
pub proof fn lemma_genesis_valid(timestamp: u64)
    ensures
        chain_valid(seq![genesis(timestamp)]),
{
}

/// Appends only add at the end. After `n` appends the ledger is `n` blocks
/// longer and the blocks it had are unchanged; the k-th appended block
/// holds the k-th batch, records the hash of the block that was last just
/// before that append, and has the index after that block's.
pub proof fn lemma_appended_shape(
    chain: Seq<BlockView>,
    batches: Seq<Seq<TransactionView>>,
    times: Seq<u64>,
)
    requires
        chain.len() > 0,
        batches.len() == times.len(),
        chain.last().index + batches.len() <= u64::MAX,
    ensures
        appended(chain, batches, times).len() == chain.len() + batches.len(),
        forall|i: int| 0 <= i < chain.len() ==> appended(chain, batches, times)[i] == chain[i],
        forall|k: int|
            #![trigger batches[k]]
            0 <= k < batches.len() ==> {
                let grown = appended(chain, batches, times);
                let pos = chain.len() + k;
                &&& grown[pos].transactions == batches[k]
                &&& grown[pos].timestamp == times[k]
                &&& grown[pos].nonce == 0
                &&& grown[pos].prev_hash == grown[pos - 1].hash()
                &&& grown[pos].index == grown[pos - 1].index + 1
                &&& grown[pos].index == chain.last().index + k + 1
            },
    decreases batches.len(),
{
    if batches.len() > 0 {
        let head = batches.drop_last();
        let head_times = times.drop_last();
        lemma_appended_shape(chain, head, head_times);
        let before = appended(chain, head, head_times);
        let grown = appended(chain, batches, times);
        assert(grown == before.push(successor(before.last(), batches.last(), times.last())));
        assert forall|k: int| #![trigger batches[k]] 0 <= k < batches.len() implies {
            let pos = chain.len() + k;
            &&& grown[pos].transactions == batches[k]
            &&& grown[pos].timestamp == times[k]
            &&& grown[pos].nonce == 0
            &&& grown[pos].prev_hash == grown[pos - 1].hash()
            &&& grown[pos].index == grown[pos - 1].index + 1
            &&& grown[pos].index == chain.last().index + k + 1
        } by {
            let pos = chain.len() + k;
            if k < head.len() {
                assert(head[k] == batches[k]);
                assert(head_times[k] == times[k]);
                assert(grown[pos] == before[pos]);
                assert(grown[pos - 1] == before[pos - 1]);
            } else {
                assert(grown[pos - 1] == before.last());
                if head.len() > 0 {
                    assert(head[head.len() - 1] == batches[head.len() - 1]);
                }
            }
        }
    }
}

/// A ledger grown from genesis by `n` appends has `n + 1` blocks, and the
/// block at each position has that position as its index.
pub proof fn lemma_ledger_indices(
    timestamp: u64,
    batches: Seq<Seq<TransactionView>>,
    times: Seq<u64>,
)
    requires
        batches.len() == times.len(),
        batches.len() <= u64::MAX,
    ensures
        appended(seq![genesis(timestamp)], batches, times).len() == batches.len() + 1,
        forall|i: int|
            0 <= i <= batches.len() ==> (#[trigger] appended(
                seq![genesis(timestamp)],
                batches,
                times,
            )[i]).index == i,
{
    let start = seq![genesis(timestamp)];
    let grown = appended(start, batches, times);
    lemma_appended_shape(start, batches, times);
    assert forall|i: int| 0 <= i <= batches.len() implies (#[trigger] grown[i]).index == i by {
        if i > 0 {
            let batch = batches[i - 1];
            assert(grown[start.len() + (i - 1)].index == start.last().index + i);
        }
    }
}

/// Appending correctly signed transactions to a valid ledger gives a valid
/// ledger. With `lemma_genesis_valid`: every ledger built from `new` by
/// appends of correctly signed transactions is valid.
pub proof fn lemma_appended_valid(
    chain: Seq<BlockView>,
    batches: Seq<Seq<TransactionView>>,
    times: Seq<u64>,
)
    requires
        chain.len() > 0,
        batches.len() == times.len(),
        chain_valid(chain),
        batches_valid(batches),
    ensures
        chain_valid(appended(chain, batches, times)),
    decreases batches.len(),
{
    if batches.len() > 0 {
        let head = batches.drop_last();
        let head_times = times.drop_last();
        assert(batches_valid(head)) by {
            assert forall|k: int, j: int| 0 <= k < head.len() && 0 <= j < head[k].len() implies (
            #[trigger] head[k][j]).is_valid() by {
                assert(head[k] == batches[k]);
                assert(batches[k][j].is_valid());
            }
        }
        lemma_appended_valid(chain, head, head_times);
        lemma_appended_len(chain, head, head_times);
        let before = appended(chain, head, head_times);
        let block = successor(before.last(), batches.last(), times.last());
        let grown = before.push(block);
        assert(block.transactions_valid()) by {
            assert forall|j: int| 0 <= j < block.transactions.len() implies (
            #[trigger] block.transactions[j]).is_valid() by {
                assert(batches[batches.len() - 1][j].is_valid());
            }
        }
        assert forall|i: int| 1 <= i < grown.len() implies follows(
            grown[i - 1],
            #[trigger] grown[i],
        ) by {
            if i < before.len() {
                assert(follows(before[i - 1], before[i]));
            }
        }
    }
}

/// Appends never shorten a ledger.
pub proof fn lemma_appended_len(
    chain: Seq<BlockView>,
    batches: Seq<Seq<TransactionView>>,
    times: Seq<u64>,
)
    ensures
        appended(chain, batches, times).len() == chain.len() + batches.len(),
    decreases batches.len(),
{
    if batches.len() > 0 {
        lemma_appended_len(chain, batches.drop_last(), times.drop_last());
    }
}

/// A forged link is detected: in a valid ledger, putting any other text in
/// the previous-hash field of a block after the first makes the ledger
/// invalid.
pub proof fn lemma_forged_link_invalid(chain: Seq<BlockView>, position: int, forged: Seq<char>)
    requires
        chain_valid(chain),
        1 <= position < chain.len(),
        forged != chain[position].prev_hash,
    ensures
        !chain_valid(
            chain.update(
                position,
                BlockView {
                    index: chain[position].index,
                    prev_hash: forged,
                    timestamp: chain[position].timestamp,
                    transactions: chain[position].transactions,
                    nonce: chain[position].nonce,
                },
            ),
        ),
{
    let forged_block = BlockView {
        index: chain[position].index,
        prev_hash: forged,
        timestamp: chain[position].timestamp,
        transactions: chain[position].transactions,
        nonce: chain[position].nonce,
    };
    let tampered = chain.update(position, forged_block);
    assert(follows(chain[position - 1], chain[position]));
    assert(tampered[position - 1] == chain[position - 1]);
    assert(!follows(tampered[position - 1], tampered[position]));
}

/// An invalid signature is detected: a ledger that holds, in any block
/// after the first, a transaction whose signature does not verify is
/// invalid.
pub proof fn lemma_bad_signature_invalid(chain: Seq<BlockView>, position: int, slot: int)
    requires
        1 <= position < chain.len(),
        0 <= slot < chain[position].transactions.len(),
        !chain[position].transactions[slot].is_valid(),
    ensures
        !chain_valid(chain),
{
    assert(!chain[position].transactions_valid());
    assert(!follows(chain[position - 1], chain[position]));
}

/// A change to an earlier block is detected as far as SHA-256 tells the
/// change: in a valid ledger, putting in the place of any block but the
/// last a block whose canonical bytes have another digest makes the ledger
/// invalid, because the next block no longer records its hash.
pub proof fn lemma_tampered_block_invalid(chain: Seq<BlockView>, position: int, forged: BlockView)
    requires
        chain_valid(chain),
        0 <= position,
        position + 1 < chain.len(),
        sha256(forged.canonical()) != sha256(chain[position].canonical()),
    ensures
        !chain_valid(chain.update(position, forged)),
{
    let tampered = chain.update(position, forged);
    lemma_hash_tells_blocks_apart(forged, chain[position]);
    assert(follows(chain[position], chain[position + 1]));
    assert(tampered[position + 1] == chain[position + 1]);
    assert(!follows(tampered[position + 1 - 1], tampered[position + 1]));
}

} // verus!
