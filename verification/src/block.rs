//! The hash-chained block.

use crate::canonical::{
    array_of, comma_joined, decimal, lemma_comma_joined_push, push_decimal, push_quoted, push_text,
    quoted,
};
use crate::digest::{digest_hex, sha256_hex};
use crate::transaction::{Transaction, TransactionView};
use vstd::prelude::*;
use vstd::utf8::encode_utf8;

verus! {

/// One block of the ledger: its position, the hash of the block before it,
/// its creation time in seconds since the epoch, its transactions, and a
/// nonce that is reserved and always zero.
#[derive(Debug)]
pub struct Block {
    pub index: u64,
    pub prev_hash: String,
    pub timestamp: u64,
    pub transactions: Vec<Transaction>,
    pub nonce: u64,
}

/// The mathematical content of a `Block`.
pub ghost struct BlockView {
    pub index: u64,
    pub prev_hash: Seq<char>,
    pub timestamp: u64,
    pub transactions: Seq<TransactionView>,
    pub nonce: u64,
}

/// The views of a sequence of transactions.
pub open spec fn transaction_views(transactions: Seq<Transaction>) -> Seq<TransactionView> {
    transactions.map_values(|tx: Transaction| tx@)
}

impl View for Block {
    type V = BlockView;

    open spec fn view(&self) -> BlockView {
        BlockView {
            index: self.index,
            prev_hash: self.prev_hash@,
            timestamp: self.timestamp,
            transactions: transaction_views(self.transactions@),
            nonce: self.nonce,
        }
    }
}

impl BlockView {
    /// The canonical encoding: an object with the five fields in the order
    /// `index`, `prev_hash`, `timestamp`, `transactions`, `nonce`.
    pub open spec fn canonical(self) -> Seq<u8> {
        encode_utf8("{\"index\":"@) + decimal(self.index as nat) + encode_utf8(",\"prev_hash\":"@)
            + quoted(self.prev_hash) + encode_utf8(",\"timestamp\":"@) + decimal(
            self.timestamp as nat,
        ) + encode_utf8(",\"transactions\":"@) + array_of(
            self.transactions.map_values(|tx: TransactionView| tx.canonical()),
        ) + encode_utf8(",\"nonce\":"@) + decimal(self.nonce as nat) + encode_utf8("}"@)
    }

    /// The content hash: SHA-256 over the canonical encoding, in lowercase
    /// hexadecimal. It is a function of the five fields alone.
    pub open spec fn hash(self) -> Seq<char> {
        sha256_hex(self.canonical())
    }

    /// Whether every transaction of the block has a valid signature.
    pub open spec fn transactions_valid(self) -> bool {
        forall|j: int| 0 <= j < self.transactions.len() ==> (#[trigger] self.transactions[j]).is_valid()
    }
}

/// Copies a list of transactions.
pub fn clone_transactions(transactions: &Vec<Transaction>) -> (copy: Vec<Transaction>)
    ensures
        transaction_views(copy@) == transaction_views(transactions@),
{
    let mut copy: Vec<Transaction> = Vec::new();
    let mut i: usize = 0;
    while i < transactions.len()
        invariant
            i <= transactions.len(),
            copy@.len() == i,
            forall|k: int| 0 <= k < i ==> (#[trigger] copy@[k])@ == transactions@[k]@,
        decreases transactions.len() - i,
    {
        copy.push(transactions[i].clone());
        i += 1;
    }
    proof {
        assert(transaction_views(copy@) =~= transaction_views(transactions@));
    }
    copy
}

impl Clone for Block {
    fn clone(&self) -> (copy: Block)
        ensures
            copy@ == self@,
    {
        Block {
            index: self.index,
            prev_hash: self.prev_hash.clone(),
            timestamp: self.timestamp,
            transactions: clone_transactions(&self.transactions),
            nonce: self.nonce,
        }
    }
}

impl Block {
    /// The canonical encoding of this block.
    pub fn canonical_bytes(&self) -> (out: Vec<u8>)
        ensures
            out@ == self@.canonical(),
    {
        let ghost parts = self@.transactions.map_values(|tx: TransactionView| tx.canonical());
        let mut out: Vec<u8> = Vec::new();
        push_text(&mut out, "{\"index\":");
        push_decimal(&mut out, self.index);
        push_text(&mut out, ",\"prev_hash\":");
        push_quoted(&mut out, self.prev_hash.as_str());
        push_text(&mut out, ",\"timestamp\":");
        push_decimal(&mut out, self.timestamp);
        push_text(&mut out, ",\"transactions\":");
        out.push(0x5b);
        let ghost head = out@;
        let mut i: usize = 0;
        while i < self.transactions.len()
            invariant
                i <= self.transactions.len(),
                parts == self@.transactions.map_values(|tx: TransactionView| tx.canonical()),
                out@ == head + comma_joined(parts.take(i as int)),
            decreases self.transactions.len() - i,
        {
            if i > 0 {
                out.push(0x2c);
            }
            self.transactions[i].write_canonical(&mut out);
            proof {
                let item = self.transactions@[i as int]@.canonical();
                assert(parts[i as int] == item);
                assert(parts.take(i + 1) == parts.take(i as int).push(item));
                lemma_comma_joined_push(parts.take(i as int), item);
                assert(out@ =~= head + comma_joined(parts.take(i + 1)));
            }
            i += 1;
        }
        out.push(0x5d);
        push_text(&mut out, ",\"nonce\":");
        push_decimal(&mut out, self.nonce);
        push_text(&mut out, "}");
        proof {
            assert(parts.take(self.transactions.len() as int) == parts);
            assert(out@ =~= self@.canonical());
        }
        out
    }

    /// The content hash of this block: 64 lowercase hexadecimal characters.
    /// Equal field values give equal hashes, on every call and in every
    /// process.
    pub fn calculate_hash(&self) -> (hash: String)
        ensures
            hash@ == self@.hash(),
            hash@.len() == 64,
    {
        let bytes = self.canonical_bytes();
        digest_hex(bytes.as_slice())
    }

    /// Whether this block names `hash` as the hash of the block before it.
    pub fn links_to(&self, hash: &String) -> (ok: bool)
        ensures
            ok == (self.prev_hash@ == hash@),
    {
        self.prev_hash == *hash
    }

    /// Whether every transaction of this block has a valid signature.
    pub fn transactions_valid(&self) -> (ok: bool)
        ensures
            ok == self@.transactions_valid(),
    {
        let mut i: usize = 0;
        while i < self.transactions.len()
            invariant
                i <= self.transactions.len(),
                forall|j: int| 0 <= j < i ==> (#[trigger] self@.transactions[j]).is_valid(),
            decreases self.transactions.len() - i,
        {
            if !self.transactions[i].verify_signature() {
                proof {
                    assert(!self@.transactions[i as int].is_valid());
                }
                return false;
            }
            i += 1;
        }
        true
    }
}

} // verus!
