//! The overlay network: which peers it reaches and where, and how its
//! interface is set up.
use crate::address::Ipv4;
use crate::records::views;
use crate::table::{
    first_is_position, found_row_has_the_key, has_key, put_row, row_is_read_back, row_is_taken_out, row_keeps_keys_unique,
    row_with, taking_out_keeps_keys_unique, unique_keys, with_row, without_key, Keyed, Row,
};
use crate::text::same_text;
use vstd::prelude::*;

verus! {

/// The name of the overlay's interface.
pub const VXLAN_INTERFACE: &'static str = "vxlan100";

/// The identifier of the overlay.
pub const VXLAN_VNI: u32 = 100;

/// The name of the bridge that the interface joins.
pub const BRIDGE_INTERFACE: &'static str = "quilt0";

/// The addresses behind a node, and where the node is.
pub struct PeerRoute {
    pub subnet: String,
    pub host_ip: Ipv4,
}

#[verifier::ext_equal]
pub struct RouteView {
    pub subnet: Seq<char>,
    pub host_ip: Ipv4,
}

impl View for PeerRoute {
    type V = RouteView;

    open spec fn view(&self) -> RouteView {
        RouteView { subnet: self.subnet@, host_ip: self.host_ip }
    }
}

impl Keyed for RouteView {
    type Key = Seq<char>;

    open spec fn key(self) -> Seq<char> {
        self.subnet
    }
}

impl Row for PeerRoute {
    fn same_key(&self, other: &Self) -> (same: bool) {
        same_text(self.subnet.as_str(), other.subnet.as_str())
    }
}

/// The peers that the overlay reaches.
pub struct VxlanManager {
    peers: Vec<PeerRoute>,
}

impl View for VxlanManager {
    type V = Seq<RouteView>;

    closed spec fn view(&self) -> Seq<RouteView> {
        views(self.peers@)
    }
}

impl VxlanManager {
    /// No addresses are behind two peers.
    pub open spec fn wf(self) -> bool {
        unique_keys(self@)
    }

    /// The overlay reaches no peer.
    pub fn new(_local_ip: Ipv4) -> (manager: Self)
        ensures
            manager.wf(),
            manager@ == Seq::<RouteView>::empty(),
    {
        let manager = VxlanManager { peers: Vec::new() };
        assert(manager@ =~= Seq::empty());
        manager
    }

    /// Takes note of a peer, where its forwarding entry was made; where that
    /// failed, for the reason that is given, nothing changes.
    pub fn add_peer(
        &mut self,
        subnet: String,
        peer_host_ip: Ipv4,
        entry: Result<(), String>,
    ) -> (done: Result<(), String>)
        ensures
            done == entry,
            entry is Ok ==> final(self)@ == with_row(
                old(self)@,
                (RouteView { subnet: subnet@, host_ip: peer_host_ip }),
            ),
            entry is Err ==> final(self)@ == old(self)@,
            old(self).wf() ==> final(self).wf(),
    {
        match entry {
            Ok(_) => {
                let route = PeerRoute { subnet, host_ip: peer_host_ip };
                proof {
                    if self.wf() {
                        row_keeps_keys_unique(self@, route@);
                    }
                }
                put_row(&mut self.peers, route);
                entry
            },
            Err(_) => entry,
        }
    }

    /// Forgets a peer, and gives back where it was: its forwarding entry is to
    /// be removed.
    pub fn remove_peer(&mut self, subnet: &str) -> (host_ip: Option<Ipv4>)
        ensures
            final(self)@ == without_key(old(self)@, subnet@),
            host_ip == match row_with(old(self)@, subnet@) {
                Some(route) => Some(route.host_ip),
                None => None,
            },
            old(self).wf() ==> final(self).wf(),
    {
        let ghost before = self@;
        let mut at: usize = 0;
        while at < self.peers.len()
            invariant
                at <= self.peers@.len(),
                *self == *old(self),
                before == self@,
                forall|i: int| 0 <= i < at ==> #[trigger] before[i].key() != subnet@,
            decreases self.peers@.len() - at,
        {
            assert(before[at as int] == self.peers@[at as int]@);
            if same_text(self.peers[at].subnet.as_str(), subnet) {
                proof {
                    first_is_position(before, subnet@, at as int);
                    if self.wf() {
                        taking_out_keeps_keys_unique(before, subnet@);
                    }
                }
                let route: PeerRoute = self.peers.remove(at);
                assert(self@ =~= before.remove(at as int));
                return Some(route.host_ip);
            }
            at = at + 1;
        }
        proof {
            first_is_position(before, subnet@, at as int);
        }
        None
    }

    /// What follows a step; `found` says whether what was looked for is there.
    pub fn setup_vxlan(&self, step: SetupStep, found: bool) -> (next: SetupStep)
        ensures
            next == step_after(step, found),
    {
        match step {
            SetupStep::LookForVxlan => if found {
                SetupStep::Finished(SetupEnd::Existing)
            } else {
                SetupStep::CreateVxlan
            },
            SetupStep::CreateVxlan => SetupStep::BringUp,
            SetupStep::BringUp => SetupStep::LookForBridge,
            SetupStep::LookForBridge => if found {
                SetupStep::Attach
            } else {
                SetupStep::Finished(SetupEnd::Unbridged)
            },
            SetupStep::Attach => SetupStep::Finished(SetupEnd::Bridged),
            SetupStep::Finished(end) => SetupStep::Finished(end),
        }
    }

    /// The peers that the overlay reaches.
    pub fn peers(&self) -> (peers: &Vec<PeerRoute>)
        ensures
            views(peers@) == self@,
    {
        &self.peers
    }
}

/// A peer that is added is reached where it is, one that is forgotten is not
/// reached any more, and neither touches another.
pub proof fn peers_come_and_go(peers: Seq<RouteView>, route: RouteView, other: Seq<char>)
    requires
        unique_keys(peers),
        other != route.subnet,
    ensures
        row_with(with_row(peers, route), route.subnet) == Some(route),
        row_with(with_row(peers, route), other) == row_with(peers, other),
        !has_key(without_key(with_row(peers, route), route.subnet), route.subnet),
        row_with(without_key(with_row(peers, route), route.subnet), other) == row_with(
            peers,
            other,
        ),
{
    row_is_read_back(peers, route, other);
    row_keeps_keys_unique(peers, route);
    row_is_taken_out(with_row(peers, route), route.subnet, other);
}

// ---------------------------------------------------------------------------
// Setting the interface up
// ---------------------------------------------------------------------------

/// How the setup ended.
#[derive(Clone, Copy, PartialEq, Eq, Structural, Debug)]
pub enum SetupEnd {
    /// The interface was there.
    Existing,
    /// The interface was made, and joined the bridge.
    Bridged,
    /// The interface was made; there is no bridge.
    Unbridged,
}

/// What is to be done next to set the interface up.
#[derive(Clone, Copy, PartialEq, Eq, Structural, Debug)]
pub enum SetupStep {
    /// See whether the interface is there.
    LookForVxlan,
    /// Make the interface.
    CreateVxlan,
    /// Bring the interface up.
    BringUp,
    /// See whether the bridge is there.
    LookForBridge,
    /// Let the interface join the bridge.
    Attach,
    /// Nothing.
    Finished(SetupEnd),
}

/// What follows a step; `found` says whether what was looked for is there.
pub open spec fn step_after(step: SetupStep, found: bool) -> SetupStep {
    match step {
        SetupStep::LookForVxlan => if found {
            SetupStep::Finished(SetupEnd::Existing)
        } else {
            SetupStep::CreateVxlan
        },
        SetupStep::CreateVxlan => SetupStep::BringUp,
        SetupStep::BringUp => SetupStep::LookForBridge,
        SetupStep::LookForBridge => if found {
            SetupStep::Attach
        } else {
            SetupStep::Finished(SetupEnd::Unbridged)
        },
        SetupStep::Attach => SetupStep::Finished(SetupEnd::Bridged),
        SetupStep::Finished(end) => SetupStep::Finished(end),
    }
}

/// The step after `n` steps from `step`, where the interface and the bridge are
/// there or not.
pub open spec fn after_steps(step: SetupStep, vxlan: bool, bridge: bool, n: nat) -> SetupStep
    decreases n,
{
    if n == 0 {
        step
    } else {
        let before = after_steps(step, vxlan, bridge, (n - 1) as nat);
        step_after(
            before,
            if before is LookForVxlan {
                vxlan
            } else {
                bridge
            },
        )
    }
}

/// The setup ends within five steps: at once where the interface is there, and
/// otherwise with the interface made, in the bridge where there is one.
pub proof fn setup_ends(vxlan: bool, bridge: bool)
    ensures
        after_steps(SetupStep::LookForVxlan, vxlan, bridge, 5) == SetupStep::Finished(
            if vxlan {
                SetupEnd::Existing
            } else if bridge {
                SetupEnd::Bridged
            } else {
                SetupEnd::Unbridged
            },
        ),
        vxlan ==> after_steps(SetupStep::LookForVxlan, vxlan, bridge, 1) is Finished,
{
    reveal_with_fuel(after_steps, 6);
}

/// An interface that is not there is made, then brought up, then the bridge is
/// looked for; where there is one the interface joins it, and then the setup is
/// over. Where the interface is there, nothing is done.
pub proof fn setup_takes_its_steps(vxlan: bool, bridge: bool)
    ensures
        ({
            let start = SetupStep::LookForVxlan;
            &&& after_steps(start, true, bridge, 1) == SetupStep::Finished(SetupEnd::Existing)
            &&& after_steps(start, false, bridge, 1) == SetupStep::CreateVxlan
            &&& after_steps(start, false, bridge, 2) == SetupStep::BringUp
            &&& after_steps(start, false, bridge, 3) == SetupStep::LookForBridge
            &&& after_steps(start, false, true, 4) == SetupStep::Attach
            &&& after_steps(start, false, true, 5) == SetupStep::Finished(SetupEnd::Bridged)
            &&& after_steps(start, false, false, 4) == SetupStep::Finished(SetupEnd::Unbridged)
        }),
{
    reveal_with_fuel(after_steps, 6);
}

/// What was looked for matters only where something is looked for, and an end
/// stays the end.
pub proof fn steps_follow_what_is_found(step: SetupStep, end: SetupEnd)
    ensures
        step !is LookForVxlan && step !is LookForBridge ==> step_after(step, true) == step_after(
            step,
            false,
        ),
        step_after(SetupStep::Finished(end), true) == SetupStep::Finished(end),
        step_after(SetupStep::LookForVxlan, true) != step_after(SetupStep::LookForVxlan, false),
        step_after(SetupStep::LookForBridge, true) != step_after(SetupStep::LookForBridge, false),
{
}

/// A peer that comes in is reached at its address; of two that come in for one
/// subnet the later is. A peer that goes is not reached, and every other peer
/// is reached where it was.
pub proof fn peers_are_reached_where_they_are(
    peers: Seq<RouteView>,
    subnet: Seq<char>,
    earlier: Ipv4,
    later: Ipv4,
    other: RouteView,
)
    requires
        forall|i: int, j: int|
            0 <= i < j < peers.len() ==> (#[trigger] peers[i]).subnet != (
            #[trigger] peers[j]).subnet,
        other.subnet != subnet,
    ensures
        ({
            let first = with_row(peers, RouteView { subnet, host_ip: earlier });
            let both = with_row(first, RouteView { subnet, host_ip: later });
            let left = without_key(both, subnet);
            &&& both.contains(RouteView { subnet, host_ip: later })
            &&& forall|i: int|
                0 <= i < both.len() && (#[trigger] both[i]).subnet == subnet ==> both[i].host_ip
                    == later
            &&& forall|i: int| 0 <= i < left.len() ==> (#[trigger] left[i]).subnet != subnet
            &&& peers.contains(other) <==> both.contains(other)
            &&& peers.contains(other) <==> left.contains(other)
        }),
{
    let a = RouteView { subnet, host_ip: earlier };
    let b = RouteView { subnet, host_ip: later };
    let first = with_row(peers, a);
    let both = with_row(first, b);
    let left = without_key(both, subnet);
    assert forall|i: int, j: int| 0 <= i < j < peers.len() implies peers[i].key()
        != peers[j].key() by {
        assert(peers[i].subnet != peers[j].subnet);
    }
    row_keeps_keys_unique(peers, a);
    row_keeps_keys_unique(first, b);
    taking_out_keeps_keys_unique(both, subnet);
    row_is_read_back(peers, a, other.subnet);
    row_is_read_back(first, b, other.subnet);
    row_is_taken_out(both, subnet, other.subnet);
    found_row_has_the_key(both, subnet);
    found_row_has_the_key(left, subnet);
    found_row_has_the_key(peers, other.subnet);
    found_row_has_the_key(both, other.subnet);
    found_row_has_the_key(left, other.subnet);
    assert forall|i: int|
        0 <= i < both.len() && (#[trigger] both[i]).subnet == subnet implies both[i].host_ip
        == later by {
        assert(both[i].key() == subnet);
    }
    assert forall|i: int| 0 <= i < left.len() implies (#[trigger] left[i]).subnet != subnet by {
        assert(left[i].key() == left[i].subnet);
    }
    if peers.contains(other) {
        let i = choose|i: int| 0 <= i < peers.len() && peers[i] == other;
        assert(peers[i].key() == other.subnet);
    }
    if both.contains(other) {
        let i = choose|i: int| 0 <= i < both.len() && both[i] == other;
        assert(both[i].key() == other.subnet);
    }
    if left.contains(other) {
        let i = choose|i: int| 0 <= i < left.len() && left[i] == other;
        assert(left[i].key() == other.subnet);
    }
}

} // verus!
