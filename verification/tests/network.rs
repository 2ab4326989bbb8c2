use securerx::block::Block;
use securerx::blockchain::Blockchain;
use securerx::config::NodeConfig;
use securerx::network::{blocks_url, GossipAction, GossipEvent, GossipState, SYNC_INTERVAL_SECS};
use securerx::node::Node;
use securerx::transaction::issue;

fn node_with_peers(peers: &str) -> Node {
    Node::new(NodeConfig::from_values(None, None, None, Some(peers.to_string())))
}

fn ledger_of(length: usize) -> Blockchain {
    let mut ledger = Blockchain::new();
    for _ in 1..length {
        let (tx, _) = issue("doctor1".to_string(), "patient1".to_string(), "Aspirin".to_string());
        ledger.add_block(vec![tx]);
    }
    ledger
}

fn encodings(blocks: &[Block]) -> Vec<Vec<u8>> {
    blocks.iter().map(|b| b.canonical_bytes()).collect()
}

fn fetch_url(action: &GossipAction) -> &str {
    match action {
        GossipAction::Fetch { url } => url,
        GossipAction::Sleep { .. } => panic!("expected a fetch"),
    }
}

#[test]
fn new_node_has_a_new_ledger() {
    let node = node_with_peers("a,b");
    assert_eq!(node.config.peers, vec!["a".to_string(), "b".to_string()]);
    assert_eq!(node.blockchain.len(), 1);
    assert_eq!(node.blockchain.chain[0].index, 0);
    assert_eq!(node.blockchain.chain[0].prev_hash, "0");
    assert!(node.blockchain.validate_chain());
}

#[test]
fn longer_snapshot_replaces_the_ledger() {
    // Node A has three blocks, node B one: B takes over A's ledger.
    let node_a = ledger_of(3);
    let mut node_b = node_with_peers("");
    assert_eq!(node_b.blockchain.len(), 1);
    let height = node_b.sync_blocks(node_a.snapshot());
    assert_eq!(height, Some(3));
    assert_eq!(node_b.blockchain.len(), 3);
    assert_eq!(encodings(&node_b.blockchain.chain), encodings(&node_a.chain));
    assert!(node_b.blockchain.validate_chain());
}

#[test]
fn snapshot_of_equal_or_smaller_length_is_ignored() {
    let mut node = node_with_peers("");
    for _ in 0..2 {
        let (tx, _) = issue("d".to_string(), "p".to_string(), "Aspirin".to_string());
        node.blockchain.add_block(vec![tx]);
    }
    let before = encodings(&node.blockchain.chain);

    assert_eq!(node.sync_blocks(ledger_of(3).snapshot()), None);
    assert_eq!(encodings(&node.blockchain.chain), before);
    assert_eq!(node.sync_blocks(ledger_of(2).snapshot()), None);
    assert_eq!(encodings(&node.blockchain.chain), before);
    assert_eq!(node.sync_blocks(vec![]), None);
    assert_eq!(encodings(&node.blockchain.chain), before);
}

#[test]
fn replacement_happens_exactly_when_the_snapshot_is_longer() {
    for local in 1..5 {
        for remote in 0..6 {
            let mut node = node_with_peers("");
            node.blockchain = ledger_of(local);
            let before = encodings(&node.blockchain.chain);
            let snapshot = if remote == 0 { vec![] } else { ledger_of(remote).snapshot() };
            let expected = encodings(&snapshot);
            let height = node.sync_blocks(snapshot);
            if remote > local {
                assert_eq!(height, Some(remote));
                assert_eq!(encodings(&node.blockchain.chain), expected);
            } else {
                assert_eq!(height, None);
                assert_eq!(encodings(&node.blockchain.chain), before);
            }
        }
    }
}

#[test]
fn longer_invalid_snapshot_is_taken_over_all_the_same() {
    let mut remote = ledger_of(3).snapshot();
    remote[1].prev_hash = "forged".to_string();
    remote[2].transactions[0].signature[0] ^= 1;
    let expected = encodings(&remote);
    let mut node = node_with_peers("");
    assert_eq!(node.sync_blocks(remote), Some(3));
    assert_eq!(encodings(&node.blockchain.chain), expected);
    assert!(!node.blockchain.validate_chain());
}

#[test]
fn url_names_the_blocks_endpoint() {
    assert_eq!(blocks_url("node2:8081"), "http://node2:8081/blocks");
    assert_eq!(blocks_url(""), "http:///blocks");
}

#[test]
fn cycle_asks_every_peer_in_order_then_sleeps() {
    let mut node = node_with_peers("alpha:1,beta:2,gamma:3");
    let mut step = node.gossip_step(GossipState::Sleeping, GossipEvent::Woke);
    for round in 0..3 {
        assert_eq!(step.state, GossipState::Asking { peer: 0 }, "round {}", round);
        assert_eq!(fetch_url(&step.action), "http://alpha:1/blocks");
        step = node.gossip_step(step.state, GossipEvent::Failed);
        assert_eq!(step.state, GossipState::Asking { peer: 1 });
        assert_eq!(fetch_url(&step.action), "http://beta:2/blocks");
        step = node.gossip_step(step.state, GossipEvent::Snapshot(vec![]));
        assert_eq!(step.state, GossipState::Asking { peer: 2 });
        assert_eq!(fetch_url(&step.action), "http://gamma:3/blocks");
        step = node.gossip_step(step.state, GossipEvent::Failed);
        assert_eq!(step.state, GossipState::Sleeping);
        match step.action {
            GossipAction::Sleep { seconds } => {
                assert_eq!(seconds, 5);
                assert_eq!(seconds, SYNC_INTERVAL_SECS);
            }
            GossipAction::Fetch { .. } => panic!("expected a sleep"),
        }
        assert_eq!(step.height, None);
        step = node.gossip_step(step.state, GossipEvent::Woke);
    }
}

#[test]
fn node_without_peers_only_sleeps() {
    let mut node = node_with_peers("");
    for _ in 0..3 {
        let step = node.gossip_step(GossipState::Sleeping, GossipEvent::Woke);
        assert_eq!(step.state, GossipState::Sleeping);
        assert!(matches!(step.action, GossipAction::Sleep { seconds: 5 }));
        assert_eq!(step.height, None);
    }
}

#[test]
fn step_applies_a_snapshot_by_longest_length() {
    let mut node = node_with_peers("a,b");
    let remote = ledger_of(3);

    let step = node.gossip_step(
        GossipState::Asking { peer: 0 },
        GossipEvent::Snapshot(remote.snapshot()),
    );
    assert_eq!(step.height, Some(3));
    assert_eq!(step.state, GossipState::Asking { peer: 1 });
    assert_eq!(encodings(&node.blockchain.chain), encodings(&remote.chain));

    let step = node.gossip_step(
        GossipState::Asking { peer: 1 },
        GossipEvent::Snapshot(ledger_of(2).snapshot()),
    );
    assert_eq!(step.height, None);
    assert_eq!(step.state, GossipState::Sleeping);
    assert_eq!(encodings(&node.blockchain.chain), encodings(&remote.chain));
}

#[test]
fn failure_skips_the_peer_and_leaves_the_ledger() {
    let mut node = node_with_peers("a,b");
    let before = encodings(&node.blockchain.chain);
    let step = node.gossip_step(GossipState::Asking { peer: 0 }, GossipEvent::Failed);
    assert_eq!(step.state, GossipState::Asking { peer: 1 });
    assert_eq!(step.height, None);
    assert_eq!(encodings(&node.blockchain.chain), before);
}

#[test]
fn snapshot_that_answers_no_request_is_not_applied() {
    let mut node = node_with_peers("a");
    let before = encodings(&node.blockchain.chain);
    let step =
        node.gossip_step(GossipState::Sleeping, GossipEvent::Snapshot(ledger_of(3).snapshot()));
    assert_eq!(step.height, None);
    assert_eq!(step.state, GossipState::Asking { peer: 0 });
    assert_eq!(encodings(&node.blockchain.chain), before);
}

#[test]
fn state_beyond_the_peer_list_leads_to_sleep() {
    let mut node = node_with_peers("a,b");
    let step = node.gossip_step(GossipState::Asking { peer: usize::MAX }, GossipEvent::Failed);
    assert_eq!(step.state, GossipState::Sleeping);
    let step = node.gossip_step(GossipState::Asking { peer: 2 }, GossipEvent::Woke);
    assert_eq!(step.state, GossipState::Sleeping);
}
