//! A replicated, append-only ledger of signed prescription records.
//!
//! The modules, leaf first:
//!
//! - `text`, `clock`, `digest`, `crypto`: what the library takes from the
//!   standard library, from `sha2` and from `ed25519-dalek`, each behind a
//!   contract that is stated and not proved;
//! - `canonical`: the byte encoding that hashes are computed over, and
//!   `uniqueness`: the proof that it can be read back in one way only;
//! - `transaction`, `block`, `blockchain`: the signed record, the
//!   hash-chained block, and the ledger with its rules of validity;
//! - `config`, `node`, `network`, `handlers`: a node's settings, its
//!   longest-length-wins synchronization with peers, and what the request
//!   layer asks of the ledger.

pub mod block;
pub mod blockchain;
pub mod canonical;
pub mod clock;
pub mod config;
pub mod crypto;
pub mod digest;
pub mod handlers;
pub mod network;
pub mod node;
pub mod text;
pub mod transaction;
pub mod uniqueness;
