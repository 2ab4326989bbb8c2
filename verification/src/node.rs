//! A node: its configuration and the ledger it owns.

use crate::block::{Block, BlockView};
use crate::blockchain::{block_views, genesis, Blockchain};
use crate::config::NodeConfig;
use vstd::prelude::*;

verus! {

/// A node of the network. The node is the single owner of its ledger:
/// whoever shares a node shares this one value.
#[derive(Debug)]
pub struct Node {
    pub config: NodeConfig,
    pub blockchain: Blockchain,
}

/// Longest-length-wins: the ledger a node holds after it has seen a remote
/// snapshot. The snapshot takes the ledger's place exactly when it is
/// strictly longer; what the snapshot holds plays no part.
pub open spec fn synced(local: Seq<BlockView>, remote: Seq<BlockView>) -> Seq<BlockView> {
    if remote.len() > local.len() {
        remote
    } else {
        local
    }
}

/// The height to report after a remote snapshot of `remote` blocks was
/// seen by a ledger of `local` blocks: the new height if the ledger was
/// replaced.
pub open spec fn reported_height(local: nat, remote: nat) -> Option<usize> {
    if remote > local {
        Some(remote as usize)
    } else {
        None
    }
}

impl Node {
    /// A node with the given configuration and a new ledger.
    pub fn new(config: NodeConfig) -> (node: Node)
        ensures
            node.config == config,
            node.blockchain.wf(),
            node.blockchain@.len() == 1,
            node.blockchain@[0] == genesis(node.blockchain@[0].timestamp),
    {
        Node { config, blockchain: Blockchain::new() }
    }

    /// Longest-length-wins: takes over `remote_blocks` in place of the
    /// ledger if and only if they are strictly more than the ledger holds,
    /// without looking at what they hold. Returns the new height when the
    /// ledger was replaced, for the height gauge.
    pub fn sync_blocks(&mut self, remote_blocks: Vec<Block>) -> (height: Option<usize>)
        ensures
            final(self).config == old(self).config,
            final(self).blockchain@ == synced(old(self).blockchain@, block_views(remote_blocks@)),
            height == reported_height(old(self).blockchain@.len(), remote_blocks@.len()),
            old(self).blockchain.wf() ==> final(self).blockchain.wf(),
    {
        if remote_blocks.len() > self.blockchain.len() {
            let height = remote_blocks.len();
            self.blockchain.replace(remote_blocks);
            Some(height)
        } else {
            None
        }
    }
}

} // verus!
