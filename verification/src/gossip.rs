//! What nodes tell about themselves: the last state of each.
use crate::double::Double;
use crate::records::views;
use crate::table::{
    put_row, row_is_read_back, row_keeps_keys_unique, row_takes_its_place, row_with, unique_keys,
    with_row, Keyed, Row,
};
use crate::text::{copy_list, same_text, texts};
use vstd::prelude::*;

verus! {

/// What a node tells about itself.
pub struct NodeState {
    pub node_id: String,
    pub cpu_available: Double,
    pub mem_available_mb: Double,
    pub cached_images: Vec<String>,
}

#[verifier::ext_equal]
pub struct NodeStateView {
    pub node_id: Seq<char>,
    pub cpu_available: Double,
    pub mem_available_mb: Double,
    pub cached_images: Seq<Seq<char>>,
}

impl View for NodeState {
    type V = NodeStateView;

    open spec fn view(&self) -> NodeStateView {
        NodeStateView {
            node_id: self.node_id@,
            cpu_available: self.cpu_available,
            mem_available_mb: self.mem_available_mb,
            cached_images: texts(self.cached_images@),
        }
    }
}

impl Keyed for NodeStateView {
    type Key = Seq<char>;

    open spec fn key(self) -> Seq<char> {
        self.node_id
    }
}

impl Row for NodeState {
    fn same_key(&self, other: &Self) -> (same: bool) {
        same_text(self.node_id.as_str(), other.node_id.as_str())
    }
}

/// The last state of each node that was heard of.
pub struct GossipNetwork {
    peers: Vec<NodeState>,
}

impl View for GossipNetwork {
    type V = Seq<NodeStateView>;

    closed spec fn view(&self) -> Seq<NodeStateView> {
        views(self.peers@)
    }
}

impl GossipNetwork {
    /// No node was heard of twice.
    pub open spec fn wf(self) -> bool {
        unique_keys(self@)
    }

    /// No node was heard of.
    pub fn new() -> (network: Self)
        ensures
            network.wf(),
            network@ == Seq::<NodeStateView>::empty(),
    {
        let network = GossipNetwork { peers: Vec::new() };
        assert(network@ =~= Seq::empty());
        network
    }

    /// Takes note of a node's state, in the place of its last one.
    pub fn update_peer(&mut self, state: NodeState)
        ensures
            final(self)@ == with_row(old(self)@, state@),
            old(self).wf() ==> final(self).wf(),
    {
        proof {
            if self.wf() {
                row_keeps_keys_unique(self@, state@);
            }
        }
        put_row(&mut self.peers, state);
    }

    /// The last state of each node.
    pub fn get_peers(&self) -> (peers: Vec<NodeState>)
        ensures
            views(peers@) == self@,
    {
        let mut peers: Vec<NodeState> = Vec::new();
        for i in 0..self.peers.len()
            invariant
                i <= self.peers@.len(),
                views(peers@) == self@.take(i as int),
        {
            let ghost before = views(peers@);
            let peer = &self.peers[i];
            let copy = NodeState {
                node_id: peer.node_id.clone(),
                cpu_available: peer.cpu_available,
                mem_available_mb: peer.mem_available_mb,
                cached_images: copy_list(&peer.cached_images),
            };
            assert(copy@ == self@[i as int]);
            peers.push(copy);
            assert(views(peers@) =~= before.push(copy@));
            assert(self@.take(i + 1) =~= before.push(copy@));
        }
        assert(self@.take(self.peers@.len() as int) =~= self@);
        peers
    }
}

/// The last state that a node told is the one that counts, and what others
/// told stays as it was.
pub proof fn last_word_counts(
    peers: Seq<NodeStateView>,
    earlier: NodeStateView,
    later: NodeStateView,
    other: Seq<char>,
)
    requires
        earlier.node_id == later.node_id,
        other != later.node_id,
    ensures
        row_with(with_row(with_row(peers, earlier), later), later.node_id) == Some(later),
        row_with(with_row(with_row(peers, earlier), later), other) == row_with(peers, other),
        unique_keys(peers) ==> unique_keys(with_row(with_row(peers, earlier), later)),
{
    row_is_read_back(peers, earlier, other);
    row_is_read_back(with_row(peers, earlier), later, other);
    if unique_keys(peers) {
        row_keeps_keys_unique(peers, earlier);
        row_keeps_keys_unique(with_row(peers, earlier), later);
    }
}

/// What a node tells is what its fields say.
pub proof fn node_state_is_its_fields(state: NodeState)
    ensures
        state@.node_id == state.node_id@,
        state@.cpu_available == state.cpu_available,
        state@.mem_available_mb == state.mem_available_mb,
        state@.cached_images.len() == state.cached_images@.len(),
        forall|i: int|
            0 <= i < state.cached_images@.len() ==> #[trigger] state@.cached_images[i]
                == state.cached_images@[i]@,
{
}

/// A node that tells of itself has one state, the last that it told, and every
/// other node keeps its own.
pub proof fn nodes_are_told_apart(
    peers: Seq<NodeStateView>,
    state: NodeStateView,
    other: NodeStateView,
)
    requires
        forall|i: int, j: int|
            0 <= i < j < peers.len() ==> (#[trigger] peers[i]).node_id != (
            #[trigger] peers[j]).node_id,
        other.node_id != state.node_id,
    ensures
        with_row(peers, state).contains(state),
        forall|i: int|
            0 <= i < with_row(peers, state).len() && (#[trigger] with_row(
                peers,
                state,
            )[i]).node_id == state.node_id ==> with_row(peers, state)[i] == state,
        peers.contains(other) ==> with_row(peers, state).contains(other),
        with_row(peers, state).len() <= peers.len() + 1,
{
    let after = with_row(peers, state);
    assert forall|i: int, j: int| 0 <= i < j < peers.len() implies peers[i].key()
        != peers[j].key() by {
        assert(peers[i].node_id != peers[j].node_id);
    }
    row_takes_its_place(peers, state);
    if !after.contains(state) {
        assert(after.last() == state);
    }
    assert forall|i: int|
        0 <= i < after.len() && (#[trigger] after[i]).node_id == state.node_id implies after[i]
        == state by {
        assert(after[i].key() == state.key());
    }
    if peers.contains(other) {
        let i = choose|i: int| 0 <= i < peers.len() && peers[i] == other;
        assert(peers[i].key() != state.key());
        assert(after[i] == other);
    }
}

} // verus!
