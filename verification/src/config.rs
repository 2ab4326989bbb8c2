//! Node configuration.

use vstd::prelude::*;

verus! {

/// What a node is configured with: its name, its data directory, the
/// address it listens on, and the addresses of its peers.
#[derive(Debug)]
pub struct NodeConfig {
    pub node_id: String,
    pub data_dir: String,
    pub api_addr: String,
    pub peers: Vec<String>,
}

/// The mathematical content of a `NodeConfig`.
pub ghost struct NodeConfigView {
    pub node_id: Seq<char>,
    pub data_dir: Seq<char>,
    pub api_addr: Seq<char>,
    pub peers: Seq<Seq<char>>,
}

/// The views of a sequence of strings.
pub open spec fn string_views(strings: Seq<String>) -> Seq<Seq<char>> {
    strings.map_values(|s: String| s@)
}

impl View for NodeConfig {
    type V = NodeConfigView;

    open spec fn view(&self) -> NodeConfigView {
        NodeConfigView {
            node_id: self.node_id@,
            data_dir: self.data_dir@,
            api_addr: self.api_addr@,
            peers: string_views(self.peers@),
        }
    }
}

/// A scan of comma-separated text from the left: the non-empty pieces that
/// a comma has closed so far, and the piece that is still open.
pub open spec fn scan_pieces(text: Seq<char>) -> (Seq<Seq<char>>, Seq<char>)
    decreases text.len(),
{
    if text.len() == 0 {
        (Seq::empty(), Seq::empty())
    } else {
        let (closed, open) = scan_pieces(text.drop_last());
        if text.last() == ',' {
            (with_piece(closed, open), Seq::empty())
        } else {
            (closed, open.push(text.last()))
        }
    }
}

/// `pieces` with `piece` added at the end, unless `piece` is empty.
pub open spec fn with_piece(pieces: Seq<Seq<char>>, piece: Seq<char>) -> Seq<Seq<char>> {
    if piece.len() > 0 {
        pieces.push(piece)
    } else {
        pieces
    }
}

/// The peer addresses in a comma-separated list: the pieces between the
/// commas, in order, without the empty ones.
pub open spec fn peer_list(text: Seq<char>) -> Seq<Seq<char>> {
    with_piece(scan_pieces(text).0, scan_pieces(text).1)
}

/// Every peer address of a list is non-empty and holds no comma.
pub proof fn lemma_peer_list_pieces(text: Seq<char>)
    ensures
        forall|i: int|
            0 <= i < peer_list(text).len() ==> (#[trigger] peer_list(text)[i]).len() > 0
                && !peer_list(text)[i].contains(','),
        !scan_pieces(text).1.contains(','),
        forall|i: int|
            0 <= i < scan_pieces(text).0.len() ==> (#[trigger] scan_pieces(text).0[i]).len() > 0
                && !scan_pieces(text).0[i].contains(','),
    decreases text.len(),
{
    if text.len() > 0 {
        lemma_peer_list_pieces(text.drop_last());
        let (closed, open) = scan_pieces(text.drop_last());
        if text.last() != ',' {
            let grown = open.push(text.last());
            assert forall|k: int| 0 <= k < grown.len() implies grown[k] != ',' by {
                if k < open.len() {
                    assert(open.contains(open[k]));
                }
            }
        }
    }
}

/// Splits a comma-separated list of peer addresses; empty pieces are
/// dropped.
pub fn parse_peers(text: &str) -> (peers: Vec<String>)
    ensures
        string_views(peers@) == peer_list(text@),
{
    let mut peers: Vec<String> = Vec::new();
    let mut piece = String::new();
    for ch in it: text.chars()
        invariant
            it.seq() == text@,
            string_views(peers@) == scan_pieces(text@.take(it.index() as int)).0,
            piece@ == scan_pieces(text@.take(it.index() as int)).1,
    {
        proof {
            let next = text@.take(it.index() + 1);
            assert(next.drop_last() == text@.take(it.index() as int));
            assert(next.last() == ch);
        }
        if ch == ',' {
            if !piece.as_str().is_empty() {
                let ghost before = string_views(peers@);
                peers.push(piece);
                proof {
                    assert(string_views(peers@) =~= before.push(piece@));
                }
            }
            piece = String::new();
        } else {
            piece.push(ch);
        }
    }
    proof {
        assert(text@.take(text@.len() as int) == text@);
    }
    if !piece.as_str().is_empty() {
        let ghost before = string_views(peers@);
        peers.push(piece);
        proof {
            assert(string_views(peers@) =~= before.push(piece@));
        }
    }
    peers
}

/// The value that was set, or the default.
pub open spec fn value_or(value: Option<String>, default: Seq<char>) -> Seq<char> {
    match value {
        Some(text) => text@,
        None => default,
    }
}

fn or_default(value: Option<String>, default: &str) -> (text: String)
    ensures
        text@ == value_or(value, default@),
{
    match value {
        Some(text) => text,
        None => default.to_owned(),
    }
}

impl NodeConfig {
    /// The configuration for the given settings. A setting that is absent
    /// takes its default: `node1` as name, `./data` as data directory,
    /// `0.0.0.0:8081` as address, and no peers.
    pub fn from_values(
        node_id: Option<String>,
        data_dir: Option<String>,
        api_addr: Option<String>,
        peers: Option<String>,
    ) -> (config: NodeConfig)
        ensures
            config@.node_id == value_or(node_id, "node1"@),
            config@.data_dir == value_or(data_dir, "./data"@),
            config@.api_addr == value_or(api_addr, "0.0.0.0:8081"@),
            config@.peers == peer_list(value_or(peers, Seq::empty())),
    {
        let peer_text = match peers {
            Some(text) => text,
            None => String::new(),
        };
        NodeConfig {
            node_id: or_default(node_id, "node1"),
            data_dir: or_default(data_dir, "./data"),
            api_addr: or_default(api_addr, "0.0.0.0:8081"),
            peers: parse_peers(peer_text.as_str()),
        }
    }
}

impl Clone for NodeConfig {
    fn clone(&self) -> (copy: NodeConfig)
        ensures
            copy@ == self@,
    {
        let mut peers: Vec<String> = Vec::new();
        let mut i: usize = 0;
        while i < self.peers.len()
            invariant
                i <= self.peers.len(),
                peers@.len() == i,
                forall|k: int| 0 <= k < i ==> (#[trigger] peers@[k])@ == self.peers@[k]@,
            decreases self.peers.len() - i,
        {
            peers.push(self.peers[i].clone());
            i += 1;
        }
        proof {
            assert(string_views(peers@) =~= string_views(self.peers@));
        }
        NodeConfig {
            node_id: self.node_id.clone(),
            data_dir: self.data_dir.clone(),
            api_addr: self.api_addr.clone(),
            peers,
        }
    }
}

} // verus!
