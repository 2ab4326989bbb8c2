//! Peer synchronization as a state machine.
//!
//! The node decides; its driver acts. The driver performs each action (a
//! fetch of a peer's blocks, or a sleep), hands back what happened as an
//! event, and gets the next action. One cycle asks every configured peer
//! once, in order, and then sleeps.

use crate::block::{Block, BlockView};
use crate::blockchain::block_views;
use crate::node::{reported_height, synced, Node};
use vstd::prelude::*;
use vstd::string::StringExecFns;

verus! {

/// Seconds to sleep between two cycles.
pub const SYNC_INTERVAL_SECS: u64 = 5;

/// Where the synchronizer stands in its cycle.
#[derive(Debug, Clone, Copy, PartialEq, Eq)]
pub enum GossipState {
    /// The peer at this position has been asked for its blocks.
    Asking { peer: usize },
    /// Every peer has been asked; the synchronizer sleeps.
    Sleeping,
}

/// What the driver reports back.
#[derive(Debug)]
pub enum GossipEvent {
    /// The peer answered with a well-formed block sequence.
    Snapshot(Vec<Block>),
    /// The peer could not be reached, or its answer could not be decoded.
    Failed,
    /// The sleep is over.
    Woke,
}

/// What the driver is to do next.
#[derive(Debug)]
pub enum GossipAction {
    /// Read the blocks at this address.
    Fetch { url: String },
    /// Sleep this many seconds.
    Sleep { seconds: u64 },
}

/// The mathematical content of a `GossipAction`.
pub ghost enum GossipActionView {
    Fetch { url: Seq<char> },
    Sleep { seconds: u64 },
}

impl View for GossipAction {
    type V = GossipActionView;

    open spec fn view(&self) -> GossipActionView {
        match self {
            GossipAction::Fetch { url } => GossipActionView::Fetch { url: url@ },
            GossipAction::Sleep { seconds } => GossipActionView::Sleep { seconds: *seconds },
        }
    }
}

/// The outcome of one step: the new state, the next action, and the ledger
/// height to report if the step replaced the ledger.
#[derive(Debug)]
pub struct GossipStep {
    pub state: GossipState,
    pub action: GossipAction,
    pub height: Option<usize>,
}

/// The address at which `peer` serves its blocks.
pub open spec fn peer_url(peer: Seq<char>) -> Seq<char> {
    "http://"@ + peer + "/blocks"@
}

/// The position of the next peer to ask once the event of `state` is in:
/// the peer after the one that was asked, or the first peer after a sleep.
pub open spec fn next_peer(state: GossipState, peers: nat) -> nat {
    match state {
        GossipState::Asking { peer } => if peer < peers {
            (peer + 1) as nat
        } else {
            peers
        },
        GossipState::Sleeping => 0,
    }
}

/// The state in which the peer at `position` is asked, if there is one, and
/// the sleep otherwise.
pub open spec fn state_at(position: nat, peers: Seq<Seq<char>>) -> GossipState {
    if position < peers.len() {
        GossipState::Asking { peer: position as usize }
    } else {
        GossipState::Sleeping
    }
}

/// The action that goes with `state_at`: fetch from the peer at `position`,
/// or sleep for the fixed interval.
pub open spec fn action_at(position: nat, peers: Seq<Seq<char>>) -> GossipActionView {
    if position < peers.len() {
        GossipActionView::Fetch { url: peer_url(peers[position as int]) }
    } else {
        GossipActionView::Sleep { seconds: SYNC_INTERVAL_SECS }
    }
}

/// The ledger after an event: a snapshot that answers a request is applied
/// by longest-length-wins; any other event leaves the ledger alone.
pub open spec fn ledger_after(
    local: Seq<BlockView>,
    state: GossipState,
    event: GossipEvent,
) -> Seq<BlockView> {
    match (state, event) {
        (GossipState::Asking { .. }, GossipEvent::Snapshot(blocks)) => synced(
            local,
            block_views(blocks@),
        ),
        _ => local,
    }
}

/// The height to report after an event: the new height if the event
/// replaced the ledger.
pub open spec fn height_after(
    local: Seq<BlockView>,
    state: GossipState,
    event: GossipEvent,
) -> Option<usize> {
    match (state, event) {
        (GossipState::Asking { .. }, GossipEvent::Snapshot(blocks)) => reported_height(
            local.len(),
            blocks@.len(),
        ),
        _ => None,
    }
}

/// Builds the address at which `peer` serves its blocks.
pub fn blocks_url(peer: &str) -> (url: String)
    ensures
        url@ == peer_url(peer@),
{
    let mut url = String::from_str("http://");
    url.append(peer);
    url.append("/blocks");
    url
}

impl Node {
    /// One step of the synchronizer. Takes the event that ended the action
    /// of `state`, applies it to the ledger, and says what to do next.
    ///
    /// A snapshot that answers a request replaces the ledger if it is
    /// strictly longer; a failure skips that peer for this cycle. Then the
    /// next peer is asked, or, after the last peer, the synchronizer sleeps
    /// for the fixed interval and starts over with the first peer.
    pub fn gossip_step(&mut self, state: GossipState, event: GossipEvent) -> (step: GossipStep)
        ensures
            final(self).config == old(self).config,
            final(self).blockchain@ == ledger_after(old(self).blockchain@, state, event),
            step.height == height_after(old(self).blockchain@, state, event),
            step.state == state_at(
                next_peer(state, old(self).config@.peers.len()),
                old(self).config@.peers,
            ),
            step.action@ == action_at(
                next_peer(state, old(self).config@.peers.len()),
                old(self).config@.peers,
            ),
            old(self).blockchain.wf() ==> final(self).blockchain.wf(),
    {
        let peers = self.config.peers.len();
        let mut height: Option<usize> = None;
        let position: usize = match state {
            GossipState::Asking { peer } => {
                match event {
                    GossipEvent::Snapshot(blocks) => {
                        height = self.sync_blocks(blocks);
                    },
                    _ => {},
                }
                if peer < peers {
                    peer + 1
                } else {
                    peers
                }
            },
            GossipState::Sleeping => 0,
        };
        if position < peers {
            let url = blocks_url(self.config.peers[position].as_str());
            GossipStep { state: GossipState::Asking { peer: position }, action: GossipAction::Fetch { url }, height }
        } else {
            GossipStep {
                state: GossipState::Sleeping,
                action: GossipAction::Sleep { seconds: SYNC_INTERVAL_SECS },
                height,
            }
        }
    }
}

/// The state of a synchronizer that started asleep, after it has taken the
/// given number of steps.
pub open spec fn state_after(peers: Seq<Seq<char>>, steps: nat) -> GossipState
    decreases steps,
{
    if steps == 0 {
        GossipState::Sleeping
    } else {
        state_at(next_peer(state_after(peers, (steps - 1) as nat), peers.len()), peers)
    }
}

/// One cycle asks every peer once, in order, and then sleeps: from a
/// sleep, the k-th step after it asks the k-th peer, and the step after the
/// last peer is the next sleep. Which events come in makes no difference.
pub proof fn lemma_cycle_asks_each_peer_once(peers: Seq<Seq<char>>, start: nat, k: nat)
    requires
        peers.len() <= usize::MAX,
        state_after(peers, start) == GossipState::Sleeping,
        1 <= k <= peers.len() + 1,
    ensures
        state_after(peers, start + k) == state_at((k - 1) as nat, peers),
        k <= peers.len() ==> state_after(peers, start + k) == (GossipState::Asking {
            peer: (k - 1) as usize,
        }),
        k == peers.len() + 1 ==> state_after(peers, start + k) == GossipState::Sleeping,
    decreases k,
{
    if k > 1 {
        lemma_cycle_asks_each_peer_once(peers, start, (k - 1) as nat);
        assert(state_after(peers, (start + k - 1) as nat) == state_at((k - 2) as nat, peers));
    }
}

} // verus!
