//! Keeping the overlay in step with the cluster: which peers are new, which
//! are gone, and which are known afterwards.
use crate::address::{ipv4_of, ipv4_text, is_ipv4_text, parse_ipv4, Ipv4};
use crate::overlay::{PeerRoute, RouteView};
use crate::records::views;
use crate::text::{copy_list, list_has, texts};
use crate::types::{AgentPeer, ListAgentPeersResponse, PeerInfo, PeerView};
use vstd::prelude::*;

verus! {

/// What a node that the control plane tells of is here.
pub open spec fn peer_of(peer: AgentPeer) -> PeerView {
    PeerView {
        node_id: peer.node_id@,
        host_ip: peer.reachable_ip@,
        subnet: peer.allocation.pod_cidr@,
    }
}

/// The nodes that the control plane tells of.
pub fn peer_infos(response: ListAgentPeersResponse) -> (peers: Vec<PeerInfo>)
    ensures
        views(peers@) == response.peers@.map_values(|peer: AgentPeer| peer_of(peer)),
{
    let told: Vec<AgentPeer> = response.peers;
    let ghost all = told@.map_values(|peer: AgentPeer| peer_of(peer));
    let mut peers: Vec<PeerInfo> = Vec::new();
    assert(views(peers@) =~= all.take(0));
    for peer in it: told
        invariant
            it.seq() == told@,
            all == told@.map_values(|peer: AgentPeer| peer_of(peer)),
            views(peers@) == all.take(it.index()),
    {
        let ghost before = views(peers@);
        let ghost n = it.index();
        let info = PeerInfo {
            node_id: peer.node_id,
            host_ip: peer.reachable_ip,
            subnet: peer.allocation.pod_cidr,
        };
        assert(info@ == all[n]);
        peers.push(info);
        assert(views(peers@) =~= before.push(info@));
        assert(all.take(n + 1) =~= before.push(info@));
    }
    assert(all.take(all.len() as int) =~= all);
    peers
}

/// What is to be done to keep in step.
pub struct PeerPlan {
    /// The peers that are new, to be added in this order.
    pub added: Vec<PeerRoute>,
    /// The addresses of new peers that are no addresses.
    pub rejected: Vec<String>,
    /// The subnets of the peers that are gone.
    pub removed: Vec<String>,
    /// The subnets of the peers that are known afterwards.
    pub known: Vec<String>,
}

/// The subnets of peers.
pub open spec fn subnets(peers: Seq<PeerView>) -> Seq<Seq<char>> {
    peers.map_values(|peer: PeerView| peer.subnet)
}

/// The peer is to be added: its subnet is not known, and its address is one.
pub open spec fn is_new(known: Seq<Seq<char>>, peer: PeerView) -> bool {
    !known.contains(peer.subnet) && ipv4_of(peer.host_ip) is Some
}

/// The subnets that are known once the peers were looked at in turn.
pub open spec fn known_with(known: Seq<Seq<char>>, peers: Seq<PeerView>) -> Seq<Seq<char>>
    decreases peers.len(),
{
    if peers.len() == 0 {
        known
    } else {
        let so_far = known_with(known, peers.drop_last());
        if is_new(so_far, peers.last()) {
            so_far.push(peers.last().subnet)
        } else {
            so_far
        }
    }
}

/// The peers that are added while the peers are looked at in turn.
pub open spec fn routes_added(known: Seq<Seq<char>>, peers: Seq<PeerView>) -> Seq<RouteView>
    decreases peers.len(),
{
    if peers.len() == 0 {
        Seq::empty()
    } else {
        let so_far = routes_added(known, peers.drop_last());
        let peer = peers.last();
        if is_new(known_with(known, peers.drop_last()), peer) {
            so_far.push(RouteView { subnet: peer.subnet, host_ip: ipv4_of(peer.host_ip)->0 })
        } else {
            so_far
        }
    }
}

/// The addresses that are passed over while the peers are looked at in turn.
pub open spec fn addresses_rejected(known: Seq<Seq<char>>, peers: Seq<PeerView>) -> Seq<Seq<char>>
    decreases peers.len(),
{
    if peers.len() == 0 {
        Seq::empty()
    } else {
        let so_far = addresses_rejected(known, peers.drop_last());
        let peer = peers.last();
        if !known_with(known, peers.drop_last()).contains(peer.subnet) && ipv4_of(
            peer.host_ip,
        ) is None {
            so_far.push(peer.host_ip)
        } else {
            so_far
        }
    }
}

/// The subnets that are known and still listed, once the peers were looked at.
pub open spec fn known_after(known: Seq<Seq<char>>, peers: Seq<PeerView>) -> Seq<Seq<char>> {
    known_with(known, peers).filter(|subnet: Seq<char>| subnets(peers).contains(subnet))
}

/// The subnets that were known and are listed no more.
pub open spec fn gone(known: Seq<Seq<char>>, peers: Seq<PeerView>) -> Seq<Seq<char>> {
    known_with(known, peers).filter(|subnet: Seq<char>| !subnets(peers).contains(subnet))
}

/// What is to be done to keep in step with `peers`, where the subnets `known`
/// are known. What fails of it is not tried again.
pub fn plan_peer_sync(known: &Vec<String>, peers: &Vec<PeerInfo>) -> (plan: PeerPlan)
    ensures
        views(plan.added@) == routes_added(texts(known@), views(peers@)),
        texts(plan.rejected@) == addresses_rejected(texts(known@), views(peers@)),
        texts(plan.removed@) == gone(texts(known@), views(peers@)),
        texts(plan.known@) == known_after(texts(known@), views(peers@)),
{
    let ghost before = texts(known@);
    let ghost all = views(peers@);
    let mut seen: Vec<String> = copy_list(known);
    let mut current: Vec<String> = Vec::new();
    let mut added: Vec<PeerRoute> = Vec::new();
    let mut rejected: Vec<String> = Vec::new();
    assert(all.take(0) =~= Seq::empty());
    assert(views(added@) =~= Seq::empty());
    assert(texts(rejected@) =~= Seq::empty());
    assert(texts(current@) =~= subnets(all).take(0));
    for i in 0..peers.len()
        invariant
            before == texts(known@),
            all == views(peers@),
            texts(seen@) == known_with(before, all.take(i as int)),
            texts(current@) == subnets(all).take(i as int),
            views(added@) == routes_added(before, all.take(i as int)),
            texts(rejected@) == addresses_rejected(before, all.take(i as int)),
    {
        let peer = &peers[i];
        assert(all.take(i + 1).drop_last() =~= all.take(i as int));
        assert(all.take(i + 1).last() == peer@);
        let ghost listed = texts(current@);
        current.push(peer.subnet.clone());
        assert(texts(current@) =~= listed.push(peer@.subnet));
        assert(subnets(all).take(i + 1) =~= listed.push(peer@.subnet));
        if !list_has(&seen, peer.subnet.as_str()) {
            match parse_ipv4(peer.host_ip.as_str()) {
                Some(host_ip) => {
                    let ghost routes = views(added@);
                    let route = PeerRoute { subnet: peer.subnet.clone(), host_ip };
                    added.push(route);
                    assert(views(added@) =~= routes.push(route@));
                    let ghost names = texts(seen@);
                    seen.push(peer.subnet.clone());
                    assert(texts(seen@) =~= names.push(peer@.subnet));
                },
                None => {
                    let ghost passed = texts(rejected@);
                    rejected.push(peer.host_ip.clone());
                    assert(texts(rejected@) =~= passed.push(peer@.host_ip));
                },
            }
        }
    }
    assert(all.take(all.len() as int) =~= all);
    assert(subnets(all).take(subnets(all).len() as int) =~= subnets(all));
    let ghost names = texts(seen@);
    let ghost stays = |subnet: Seq<char>| subnets(all).contains(subnet);
    let ghost goes = |subnet: Seq<char>| !subnets(all).contains(subnet);
    let mut removed: Vec<String> = Vec::new();
    let mut kept: Vec<String> = Vec::new();
    proof {
        reveal(Seq::filter);
        assert(names.take(0).filter(stays) =~= Seq::empty());
        assert(names.take(0).filter(goes) =~= Seq::empty());
        assert(texts(removed@) =~= Seq::empty());
        assert(texts(kept@) =~= Seq::empty());
    }
    for i in 0..seen.len()
        invariant
            names == texts(seen@),
            texts(current@) == subnets(all),
            stays == (|subnet: Seq<char>| subnets(all).contains(subnet)),
            goes == (|subnet: Seq<char>| !subnets(all).contains(subnet)),
            texts(kept@) == names.take(i as int).filter(stays),
            texts(removed@) == names.take(i as int).filter(goes),
    {
        proof {
            reveal(Seq::filter);
            assert(names.take(i + 1).drop_last() =~= names.take(i as int));
            assert(names.take(i + 1).last() == seen@[i as int]@);
        }
        if list_has(&current, seen[i].as_str()) {
            let ghost so_far = texts(kept@);
            kept.push(seen[i].clone());
            assert(texts(kept@) =~= so_far.push(seen@[i as int]@));
        } else {
            let ghost so_far = texts(removed@);
            removed.push(seen[i].clone());
            assert(texts(removed@) =~= so_far.push(seen@[i as int]@));
        }
    }
    assert(names.take(names.len() as int) =~= names);
    PeerPlan { added, rejected, removed, known: kept }
}

// ---------------------------------------------------------------------------
// Laws
// ---------------------------------------------------------------------------

/// Some listed peer with the subnet has an address.
pub open spec fn is_reachable(peers: Seq<PeerView>, subnet: Seq<char>) -> bool {
    exists|i: int|
        0 <= i < peers.len() && (#[trigger] peers[i]).subnet == subnet && ipv4_of(
            peers[i].host_ip,
        ) is Some
}

proof fn lemma_known_with(known: Seq<Seq<char>>, peers: Seq<PeerView>, subnet: Seq<char>)
    ensures
        known_with(known, peers).contains(subnet) <==> known.contains(subnet) || is_reachable(
            peers,
            subnet,
        ),
        known.no_duplicates() ==> known_with(known, peers).no_duplicates(),
    decreases peers.len(),
{
    if peers.len() > 0 {
        let front = peers.drop_last();
        let last = peers[peers.len() - 1];
        let so_far = known_with(known, front);
        lemma_known_with(known, front, subnet);
        lemma_known_with(known, front, last.subnet);
        assert(is_reachable(peers, subnet) <==> is_reachable(front, subnet) || (last.subnet
            == subnet && ipv4_of(last.host_ip) is Some)) by {
            if is_reachable(front, subnet) {
                let i = choose|i: int|
                    0 <= i < front.len() && (#[trigger] front[i]).subnet == subnet && ipv4_of(
                        front[i].host_ip,
                    ) is Some;
                assert(peers[i] == front[i]);
            }
            if is_reachable(peers, subnet) {
                let i = choose|i: int|
                    0 <= i < peers.len() && (#[trigger] peers[i]).subnet == subnet && ipv4_of(
                        peers[i].host_ip,
                    ) is Some;
                if i < front.len() {
                    assert(front[i] == peers[i]);
                }
            }
        }
        if is_new(so_far, last) {
            let more = so_far.push(last.subnet);
            assert(more.contains(subnet) <==> so_far.contains(subnet) || subnet == last.subnet) by {
                if so_far.contains(subnet) {
                    let k = choose|k: int| 0 <= k < so_far.len() && so_far[k] == subnet;
                    assert(more[k] == subnet);
                }
                if subnet == last.subnet {
                    assert(more[more.len() - 1] == subnet);
                }
                if more.contains(subnet) && subnet != last.subnet {
                    let k = choose|k: int| 0 <= k < more.len() && more[k] == subnet;
                    assert(so_far[k] == subnet);
                }
            }
            if known.no_duplicates() {
                assert forall|i: int, j: int|
                    0 <= i < more.len() && 0 <= j < more.len() && i != j implies more[i]
                    != more[j] by {
                    if i == so_far.len() {
                        assert(so_far.contains(so_far[j]));
                    }
                    if j == so_far.len() {
                        assert(so_far.contains(so_far[i]));
                    }
                }
            }
        }
    }
}

proof fn lemma_kept(names: Seq<Seq<char>>, keep: spec_fn(Seq<char>) -> bool, subnet: Seq<char>)
    ensures
        names.filter(keep).contains(subnet) <==> names.contains(subnet) && keep(subnet),
        names.no_duplicates() ==> names.filter(keep).no_duplicates(),
    decreases names.len(),
{
    reveal(Seq::filter);
    if names.len() > 0 {
        let front = names.drop_last();
        let last = names[names.len() - 1];
        let kept = front.filter(keep);
        lemma_kept(front, keep, subnet);
        lemma_kept(front, keep, last);
        assert(names.contains(subnet) <==> front.contains(subnet) || subnet == last) by {
            if front.contains(subnet) {
                let k = choose|k: int| 0 <= k < front.len() && front[k] == subnet;
                assert(names[k] == subnet);
            }
            if names.contains(subnet) && subnet != last {
                let k = choose|k: int| 0 <= k < names.len() && names[k] == subnet;
                assert(front[k] == subnet);
            }
        }
        if keep(last) {
            let more = kept.push(last);
            assert(more.contains(subnet) <==> kept.contains(subnet) || subnet == last) by {
                if kept.contains(subnet) {
                    let k = choose|k: int| 0 <= k < kept.len() && kept[k] == subnet;
                    assert(more[k] == subnet);
                }
                if subnet == last {
                    assert(more[more.len() - 1] == subnet);
                }
                if more.contains(subnet) && subnet != last {
                    let k = choose|k: int| 0 <= k < more.len() && more[k] == subnet;
                    assert(kept[k] == subnet);
                }
            }
            if names.no_duplicates() {
                assert(!front.contains(last)) by {
                    if front.contains(last) {
                        let k = choose|k: int| 0 <= k < front.len() && front[k] == last;
                        assert(names[k] == names[names.len() - 1]);
                    }
                }
                assert forall|i: int, j: int|
                    0 <= i < more.len() && 0 <= j < more.len() && i != j implies more[i]
                    != more[j] by {
                    if i == kept.len() {
                        assert(kept.contains(kept[j]));
                    }
                    if j == kept.len() {
                        assert(kept.contains(kept[i]));
                    }
                }
            }
        }
    }
}

/// Afterwards exactly those subnets are known that are listed and were known or
/// are reachable; none is known twice; and those that are gone were known and
/// are not listed.
pub proof fn sync_keeps_in_step(known: Seq<Seq<char>>, peers: Seq<PeerView>, subnet: Seq<char>)
    ensures
        known_after(known, peers).contains(subnet) <==> subnets(peers).contains(subnet) && (
        known.contains(subnet) || is_reachable(peers, subnet)),
        gone(known, peers).contains(subnet) <==> known.contains(subnet) && !subnets(
            peers,
        ).contains(subnet),
        known.no_duplicates() ==> known_after(known, peers).no_duplicates(),
{
    lemma_known_with(known, peers, subnet);
    let names = known_with(known, peers);
    lemma_kept(names, |s: Seq<char>| subnets(peers).contains(s), subnet);
    lemma_kept(names, |s: Seq<char>| !subnets(peers).contains(s), subnet);
    if is_reachable(peers, subnet) {
        let i = choose|i: int|
            0 <= i < peers.len() && (#[trigger] peers[i]).subnet == subnet && ipv4_of(
                peers[i].host_ip,
            ) is Some;
        assert(subnets(peers)[i] == subnet);
    }
}

proof fn lemma_nothing_new(known: Seq<Seq<char>>, peers: Seq<PeerView>)
    requires
        forall|i: int|
            0 <= i < peers.len() ==> known.contains((#[trigger] peers[i]).subnet) || ipv4_of(
                peers[i].host_ip,
            ) is None,
    ensures
        known_with(known, peers) == known,
        routes_added(known, peers) == Seq::<RouteView>::empty(),
    decreases peers.len(),
{
    if peers.len() > 0 {
        let front = peers.drop_last();
        assert forall|i: int| 0 <= i < front.len() implies known.contains(
            (#[trigger] front[i]).subnet,
        ) || ipv4_of(front[i].host_ip) is None by {
            assert(front[i] == peers[i]);
        }
        lemma_nothing_new(known, front);
        assert(known.contains(peers[peers.len() - 1].subnet) || ipv4_of(
            peers[peers.len() - 1].host_ip,
        ) is None);
    }
}

proof fn lemma_filter_all(names: Seq<Seq<char>>, keep: spec_fn(Seq<char>) -> bool)
    requires
        forall|i: int| 0 <= i < names.len() ==> keep(#[trigger] names[i]),
    ensures
        names.filter(keep) == names,
    decreases names.len(),
{
    reveal(Seq::filter);
    if names.len() > 0 {
        let front = names.drop_last();
        assert forall|i: int| 0 <= i < front.len() implies keep(#[trigger] front[i]) by {
            assert(front[i] == names[i]);
        }
        lemma_filter_all(front, keep);
        assert(keep(names[names.len() - 1]));
        assert(front.push(names.last()) =~= names);
    }
}

proof fn lemma_filter_none(names: Seq<Seq<char>>, keep: spec_fn(Seq<char>) -> bool)
    requires
        forall|i: int| 0 <= i < names.len() ==> !keep(#[trigger] names[i]),
    ensures
        names.filter(keep) == Seq::<Seq<char>>::empty(),
    decreases names.len(),
{
    reveal(Seq::filter);
    if names.len() > 0 {
        let front = names.drop_last();
        assert forall|i: int| 0 <= i < front.len() implies !keep(#[trigger] front[i]) by {
            assert(front[i] == names[i]);
        }
        lemma_filter_none(front, keep);
        assert(!keep(names[names.len() - 1]));
    } else {
        assert(names.filter(keep) =~= Seq::empty());
    }
}

/// As long as the list of peers stays there is nothing more to do: no peer is
/// added, none removed, and the same are known.
pub proof fn sync_settles(known: Seq<Seq<char>>, peers: Seq<PeerView>)
    ensures
        ({
            let after = known_after(known, peers);
            &&& routes_added(after, peers) == Seq::<RouteView>::empty()
            &&& gone(after, peers) == Seq::<Seq<char>>::empty()
            &&& known_after(after, peers) == after
        }),
{
    let after = known_after(known, peers);
    let listed = |s: Seq<char>| subnets(peers).contains(s);
    let unlisted = |s: Seq<char>| !subnets(peers).contains(s);
    assert forall|i: int| 0 <= i < peers.len() implies after.contains((#[trigger] peers[i]).subnet)
        || ipv4_of(peers[i].host_ip) is None by {
        sync_keeps_in_step(known, peers, peers[i].subnet);
        assert(subnets(peers)[i] == peers[i].subnet);
    }
    lemma_nothing_new(after, peers);
    assert forall|i: int| 0 <= i < after.len() implies listed(#[trigger] after[i]) by {
        assert(after.contains(after[i]));
        sync_keeps_in_step(known, peers, after[i]);
    }
    assert forall|i: int| 0 <= i < after.len() implies !unlisted(#[trigger] after[i]) by {
        assert(listed(after[i]));
    }
    lemma_filter_all(after, listed);
    lemma_filter_none(after, unlisted);
}

/// Every peer that is added is listed, with its address, and was not known.
pub proof fn added_peers_are_listed(known: Seq<Seq<char>>, peers: Seq<PeerView>)
    ensures
        forall|k: int|
            0 <= k < routes_added(known, peers).len() ==> is_listed_new(
                known,
                peers,
                #[trigger] routes_added(known, peers)[k],
            ),
    decreases peers.len(),
{
    if peers.len() > 0 {
        let front = peers.drop_last();
        let last = peers[peers.len() - 1];
        added_peers_are_listed(known, front);
        assert forall|k: int| 0 <= k < routes_added(known, peers).len() implies is_listed_new(
            known,
            peers,
            #[trigger] routes_added(known, peers)[k],
        ) by {
            let before = routes_added(known, front);
            if k < before.len() {
                let route = before[k];
                assert(is_listed_new(known, front, route));
                let i = choose|i: int|
                    0 <= i < front.len() && (#[trigger] front[i]).subnet == route.subnet && ipv4_of(
                        front[i].host_ip,
                    ) == Some(route.host_ip);
                assert(peers[i] == front[i]);
            } else {
                lemma_known_with(known, front, last.subnet);
                assert(peers[peers.len() - 1].subnet == last.subnet);
            }
        }
    }
}

/// The route is that of a listed peer with an address whose subnet was not
/// known.
pub open spec fn is_listed_new(
    known: Seq<Seq<char>>,
    peers: Seq<PeerView>,
    route: RouteView,
) -> bool {
    &&& !known.contains(route.subnet)
    &&& exists|i: int|
        0 <= i < peers.len() && (#[trigger] peers[i]).subnet == route.subnet && ipv4_of(
            peers[i].host_ip,
        ) == Some(route.host_ip)
}

/// The peer at `i` is the first of its subnet whose address is one, and the
/// route leads there.
pub open spec fn leads_to(peers: Seq<PeerView>, i: int, route: RouteView) -> bool {
    &&& 0 <= i < peers.len()
    &&& peers[i].subnet == route.subnet
    &&& peers[i].host_ip == ipv4_text(route.host_ip)
    &&& forall|j: int, ip: Ipv4|
        0 <= j < i && (#[trigger] peers[j]).subnet == route.subnet ==> peers[j].host_ip
            != #[trigger] ipv4_text(ip)
}

/// One of the routes is for the subnet, and leads to the first peer of it.
pub open spec fn is_routed(
    routes: Seq<RouteView>,
    peers: Seq<PeerView>,
    subnet: Seq<char>,
) -> bool {
    exists|k: int, i: int|
        0 <= k < routes.len() && (#[trigger] routes[k]).subnet == subnet && #[trigger] leads_to(
            peers,
            i,
            routes[k],
        )
}

proof fn lemma_routed(known: Seq<Seq<char>>, peers: Seq<PeerView>, subnet: Seq<char>)
    requires
        known_with(known, peers).contains(subnet),
        !known.contains(subnet),
    ensures
        is_routed(routes_added(known, peers), peers, subnet),
    decreases peers.len(),
{
    if peers.len() > 0 {
        let front = peers.drop_last();
        let last = peers[peers.len() - 1];
        let so_far = known_with(known, front);
        let routes = routes_added(known, front);
        let all = routes_added(known, peers);
        if so_far.contains(subnet) {
            lemma_routed(known, front, subnet);
            let (k, i) = choose|k: int, i: int|
                0 <= k < routes.len() && (#[trigger] routes[k]).subnet == subnet
                    && #[trigger] leads_to(front, i, routes[k]);
            assert(all[k] == routes[k]);
            assert(peers[i] == front[i]);
            assert forall|j: int, ip: Ipv4|
                0 <= j < i && (#[trigger] peers[j]).subnet == all[k].subnet implies peers[j].host_ip
                != #[trigger] ipv4_text(ip) by {
                assert(front[j] == peers[j]);
            }
            assert(leads_to(peers, i, all[k]));
        } else {
            lemma_known_with(known, front, subnet);
            lemma_known_with(known, peers, subnet);
            assert(is_new(so_far, last) && last.subnet == subnet) by {
                if !(is_new(so_far, last) && last.subnet == subnet) {
                    let more = known_with(known, peers);
                    let at = choose|at: int| 0 <= at < more.len() && more[at] == subnet;
                    assert(so_far.contains(so_far[at]));
                }
            }
            let k = all.len() - 1;
            let i = peers.len() - 1;
            assert forall|j: int, ip: Ipv4|
                0 <= j < i && (#[trigger] peers[j]).subnet == all[k].subnet implies peers[j].host_ip
                != #[trigger] ipv4_text(ip) by {
                assert(front[j] == peers[j]);
                if peers[j].host_ip == ipv4_text(ip) {
                    assert(is_ipv4_text(front[j].host_ip));
                    assert(is_reachable(front, subnet));
                }
            }
            assert(all[k].subnet == subnet);
            assert(leads_to(peers, i, all[k]));
        }
    }
}

proof fn lemma_routes_are_new(known: Seq<Seq<char>>, peers: Seq<PeerView>)
    ensures
        forall|k: int|
            0 <= k < routes_added(known, peers).len() ==> known_with(known, peers).contains(
                (#[trigger] routes_added(known, peers)[k]).subnet,
            ) && !known.contains(routes_added(known, peers)[k].subnet),
        forall|j: int, k: int|
            0 <= j < k < routes_added(known, peers).len() ==> (#[trigger] routes_added(
                known,
                peers,
            )[j]).subnet != (#[trigger] routes_added(known, peers)[k]).subnet,
    decreases peers.len(),
{
    if peers.len() > 0 {
        let front = peers.drop_last();
        let last = peers[peers.len() - 1];
        let so_far = known_with(known, front);
        let more = known_with(known, peers);
        let routes = routes_added(known, front);
        let all = routes_added(known, peers);
        lemma_routes_are_new(known, front);
        assert forall|k: int| 0 <= k < all.len() implies more.contains((#[trigger] all[k]).subnet)
            && !known.contains(all[k].subnet) by {
            if k < routes.len() {
                assert(all[k] == routes[k]);
                let at = choose|at: int| 0 <= at < so_far.len() && so_far[at] == routes[k].subnet;
                assert(more[at] == routes[k].subnet);
            } else {
                assert(more[more.len() - 1] == last.subnet);
                lemma_known_with(known, front, last.subnet);
            }
        }
        assert forall|j: int, k: int| 0 <= j < k < all.len() implies (#[trigger] all[j]).subnet != (
        #[trigger] all[k]).subnet by {
            assert(all[j] == routes[j]);
            if k < routes.len() {
                assert(all[k] == routes[k]);
            }
        }
    }
}

/// Every subnet that is known after a sync and was not known before it gets a
/// route: to the address of the first listed peer of that subnet that has one.
/// No subnet gets two, and none that was known or is not known afterwards gets
/// any.
pub proof fn new_subnets_are_routed(known: Seq<Seq<char>>, peers: Seq<PeerView>, subnet: Seq<char>)
    ensures
        known_after(known, peers).contains(subnet) && !known.contains(subnet) ==> is_routed(
            routes_added(known, peers),
            peers,
            subnet,
        ),
        forall|j: int, k: int|
            0 <= j < k < routes_added(known, peers).len() ==> (#[trigger] routes_added(
                known,
                peers,
            )[j]).subnet != (#[trigger] routes_added(known, peers)[k]).subnet,
        forall|k: int|
            0 <= k < routes_added(known, peers).len() ==> known_after(known, peers).contains(
                (#[trigger] routes_added(known, peers)[k]).subnet,
            ) && !known.contains(routes_added(known, peers)[k].subnet),
{
    let names = known_with(known, peers);
    let listed = |s: Seq<char>| subnets(peers).contains(s);
    let routes = routes_added(known, peers);
    lemma_routes_are_new(known, peers);
    lemma_kept(names, listed, subnet);
    if known_after(known, peers).contains(subnet) && !known.contains(subnet) {
        lemma_routed(known, peers, subnet);
    }
    added_peers_are_listed(known, peers);
    assert forall|k: int| 0 <= k < routes.len() implies known_after(known, peers).contains(
        (#[trigger] routes[k]).subnet,
    ) && !known.contains(routes[k].subnet) by {
        let name = routes[k].subnet;
        assert(is_listed_new(known, peers, routes[k]));
        let i = choose|i: int|
            0 <= i < peers.len() && (#[trigger] peers[i]).subnet == name && ipv4_of(
                peers[i].host_ip,
            ) == Some(routes[k].host_ip);
        assert(subnets(peers)[i] == name);
        lemma_kept(names, listed, name);
    }
}

/// A listed peer is in reach after a sync: its subnet was known, or has an
/// address among the listed peers of it and is routed. A subnet stays unknown
/// only where none of its listed peers has an address.
pub proof fn listed_peers_are_reached(known: Seq<Seq<char>>, peers: Seq<PeerView>, i: int)
    requires
        0 <= i < peers.len(),
    ensures
        known_after(known, peers).contains(peers[i].subnet) || forall|j: int, ip: Ipv4|
            0 <= j < peers.len() && (#[trigger] peers[j]).subnet == peers[i].subnet
                ==> peers[j].host_ip != #[trigger] ipv4_text(ip),
        known.contains(peers[i].subnet) ==> known_after(known, peers).contains(peers[i].subnet),
        known_after(known, peers).contains(peers[i].subnet) && !known.contains(peers[i].subnet)
            ==> is_routed(routes_added(known, peers), peers, peers[i].subnet),
{
    let subnet = peers[i].subnet;
    sync_keeps_in_step(known, peers, subnet);
    new_subnets_are_routed(known, peers, subnet);
    assert(subnets(peers)[i] == subnet);
    if !known_after(known, peers).contains(subnet) {
        assert forall|j: int, ip: Ipv4|
            0 <= j < peers.len() && (#[trigger] peers[j]).subnet == subnet implies peers[j].host_ip
            != #[trigger] ipv4_text(ip) by {
            if peers[j].host_ip == ipv4_text(ip) {
                assert(is_ipv4_text(peers[j].host_ip));
                assert(is_reachable(peers, subnet));
            }
        }
    }
}

/// A peer is gone exactly where its subnet was known and no listed peer has it,
/// and it is gone once; what is gone is not known afterwards, and is not routed.
pub proof fn unlisted_peers_are_gone(known: Seq<Seq<char>>, peers: Seq<PeerView>, subnet: Seq<char>)
    ensures
        gone(known, peers).contains(subnet) <==> known.contains(subnet) && forall|i: int|
            0 <= i < peers.len() ==> (#[trigger] peers[i]).subnet != subnet,
        known.no_duplicates() ==> gone(known, peers).no_duplicates(),
        gone(known, peers).contains(subnet) ==> !known_after(known, peers).contains(subnet),
        known.contains(subnet) ==> gone(known, peers).contains(subnet) || known_after(
            known,
            peers,
        ).contains(subnet),
{
    let names = known_with(known, peers);
    sync_keeps_in_step(known, peers, subnet);
    lemma_known_with(known, peers, subnet);
    lemma_kept(names, |s: Seq<char>| !subnets(peers).contains(s), subnet);
    if subnets(peers).contains(subnet) {
        let i = choose|i: int| 0 <= i < subnets(peers).len() && subnets(peers)[i] == subnet;
        assert(peers[i].subnet == subnet);
    } else {
        assert forall|i: int| 0 <= i < peers.len() implies (#[trigger] peers[i]).subnet
            != subnet by {
            assert(subnets(peers)[i] == peers[i].subnet);
        }
    }
}

/// The peer at `i` is passed over: its address is none, its subnet was not
/// known, and no peer before it has that subnet and an address.
pub open spec fn is_passed_over(known: Seq<Seq<char>>, peers: Seq<PeerView>, i: int) -> bool {
    &&& 0 <= i < peers.len()
    &&& forall|ip: Ipv4| peers[i].host_ip != #[trigger] ipv4_text(ip)
    &&& !known.contains(peers[i].subnet)
    &&& forall|j: int, ip: Ipv4|
        0 <= j < i && (#[trigger] peers[j]).subnet == peers[i].subnet ==> peers[j].host_ip
            != #[trigger] ipv4_text(ip)
}

/// Exactly the addresses of the peers that are passed over are rejected.
pub proof fn bad_addresses_are_rejected(
    known: Seq<Seq<char>>,
    peers: Seq<PeerView>,
    address: Seq<char>,
)
    ensures
        addresses_rejected(known, peers).contains(address) <==> exists|i: int| #[trigger]
            is_passed_over(known, peers, i) && peers[i].host_ip == address,
    decreases peers.len(),
{
    let all = addresses_rejected(known, peers);
    if peers.len() > 0 {
        let front = peers.drop_last();
        let last = peers[peers.len() - 1];
        let so_far = addresses_rejected(known, front);
        bad_addresses_are_rejected(known, front, address);
        lemma_known_with(known, front, last.subnet);
        assert forall|i: int| 0 <= i < front.len() implies (#[trigger] is_passed_over(
            known,
            peers,
            i,
        ) <==> is_passed_over(known, front, i)) by {
            assert(front[i] == peers[i]);
            if is_passed_over(known, front, i) {
                assert forall|j: int, ip: Ipv4|
                    0 <= j < i && (#[trigger] peers[j]).subnet
                        == peers[i].subnet implies peers[j].host_ip != #[trigger] ipv4_text(ip) by {
                    assert(front[j] == peers[j]);
                }
            }
            if is_passed_over(known, peers, i) {
                assert forall|j: int, ip: Ipv4|
                    0 <= j < i && (#[trigger] front[j]).subnet
                        == front[i].subnet implies front[j].host_ip != #[trigger] ipv4_text(ip) by {
                    assert(front[j] == peers[j]);
                }
            }
        }
        let passed = !known_with(known, front).contains(last.subnet) && ipv4_of(
            last.host_ip,
        ) is None;
        assert(is_passed_over(known, peers, peers.len() - 1) <==> passed) by {
            if passed {
                assert forall|j: int, ip: Ipv4|
                    0 <= j < peers.len() - 1 && (#[trigger] peers[j]).subnet
                        == last.subnet implies peers[j].host_ip != #[trigger] ipv4_text(ip) by {
                    assert(front[j] == peers[j]);
                    if peers[j].host_ip == ipv4_text(ip) {
                        assert(is_ipv4_text(front[j].host_ip));
                        assert(is_reachable(front, last.subnet));
                    }
                }
            }
            if is_passed_over(known, peers, peers.len() - 1) {
                if is_reachable(front, last.subnet) {
                    let j = choose|j: int|
                        0 <= j < front.len() && (#[trigger] front[j]).subnet == last.subnet
                            && ipv4_of(front[j].host_ip) is Some;
                    assert(peers[j] == front[j]);
                    let ip = choose|ip: Ipv4| front[j].host_ip == #[trigger] ipv4_text(ip);
                    assert(peers[j].host_ip != ipv4_text(ip));
                }
            }
        }
        if all.contains(address) {
            let k = choose|k: int| 0 <= k < all.len() && all[k] == address;
            if k < so_far.len() {
                assert(so_far[k] == address);
                let i = choose|i: int| #[trigger]
                    is_passed_over(known, front, i) && front[i].host_ip == address;
                assert(is_passed_over(known, peers, i) && peers[i].host_ip == address);
            } else {
                assert(is_passed_over(known, peers, peers.len() - 1));
            }
        }
        if exists|i: int| #[trigger]
            is_passed_over(known, peers, i) && peers[i].host_ip == address {
            let i = choose|i: int| #[trigger]
                is_passed_over(known, peers, i) && peers[i].host_ip == address;
            if i < front.len() {
                assert(is_passed_over(known, front, i) && front[i].host_ip == address);
                let k = choose|k: int| 0 <= k < so_far.len() && so_far[k] == address;
                assert(all[k] == address);
            } else {
                assert(all[all.len() - 1] == address);
            }
        }
    }
}

/// A peer is where the control plane says that it is reached, and the addresses
/// behind it are those that were assigned to it.
pub proof fn peer_is_where_it_is_told(peer: AgentPeer)
    ensures
        peer_of(peer).node_id == peer.node_id@,
        peer_of(peer).host_ip == peer.reachable_ip@,
        peer_of(peer).subnet == peer.allocation.pod_cidr@,
{
}

/// A peer and a route are what their fields say.
pub proof fn peers_are_their_fields(peer: PeerInfo, route: PeerRoute)
    ensures
        peer@.node_id == peer.node_id@,
        peer@.host_ip == peer.host_ip@,
        peer@.subnet == peer.subnet@,
        route@.subnet == route.subnet@,
        route@.host_ip == route.host_ip,
{
}

/// The routes are added in the order in which their peers are listed.
pub proof fn routes_are_added_in_order(known: Seq<Seq<char>>, peers: Seq<PeerView>, j: int, k: int)
    requires
        0 <= j < k < routes_added(known, peers).len(),
    ensures
        exists|a: int, b: int|
            a < b && #[trigger] leads_to(peers, a, routes_added(known, peers)[j])
                && #[trigger] leads_to(peers, b, routes_added(known, peers)[k]),
    decreases peers.len(),
{
    let front = peers.drop_last();
    let last = peers[peers.len() - 1];
    let routes = routes_added(known, front);
    let all = routes_added(known, peers);
    let n = peers.len() - 1;
    if k < routes.len() {
        routes_are_added_in_order(known, front, j, k);
        let (a, b) = choose|a: int, b: int|
            a < b && #[trigger] leads_to(front, a, routes[j]) && #[trigger] leads_to(
                front,
                b,
                routes[k],
            );
        lemma_leads_on(peers, a, routes[j]);
        lemma_leads_on(peers, b, routes[k]);
        assert(leads_to(peers, a, all[j]) && leads_to(peers, b, all[k]));
    } else {
        lemma_routes_are_new(known, front);
        lemma_routes_are_new(known, peers);
        lemma_routed(known, front, routes[j].subnet);
        let (m, a) = choose|m: int, a: int|
            0 <= m < routes.len() && (#[trigger] routes[m]).subnet == routes[j].subnet
                && #[trigger] leads_to(front, a, routes[m]);
        assert(m == j) by {
            if m < j {
                assert(routes[m].subnet != routes[j].subnet);
            }
            if j < m {
                assert(routes[j].subnet != routes[m].subnet);
            }
        }
        lemma_leads_on(peers, a, routes[j]);
        assert(all[k].subnet == last.subnet);
        lemma_routed(known, peers, last.subnet);
        let (q, b) = choose|q: int, b: int|
            0 <= q < all.len() && (#[trigger] all[q]).subnet == last.subnet && #[trigger] leads_to(
                peers,
                b,
                all[q],
            );
        assert(q == k) by {
            if q < k {
                assert(all[q].subnet != all[k].subnet);
            }
        }
        assert(b == n) by {
            if b < n {
                lemma_known_with(known, front, last.subnet);
                assert(front[b] == peers[b]);
                assert(is_ipv4_text(front[b].host_ip));
                assert(is_reachable(front, last.subnet));
            }
        }
        assert(leads_to(peers, a, all[j]) && leads_to(peers, b, all[k]));
    }
}

proof fn lemma_leads_on(peers: Seq<PeerView>, i: int, route: RouteView)
    requires
        peers.len() > 0,
        leads_to(peers.drop_last(), i, route),
    ensures
        leads_to(peers, i, route),
{
    let front = peers.drop_last();
    assert(peers[i] == front[i]);
    assert forall|j: int, ip: Ipv4|
        0 <= j < i && (#[trigger] peers[j]).subnet == route.subnet implies peers[j].host_ip
        != #[trigger] ipv4_text(ip) by {
        assert(front[j] == peers[j]);
    }
}

} // verus!
