//! Picking a node for a workload: nodes are scored, and one of the best is
//! drawn, so that not every workload lands on the same node.
use crate::double::{parts_order_as_numbers, Double};
use crate::order::{
    arrange_all, arranged, arranged_rows_are_in_order, arranged_rows_are_the_rows, places_fit,
    rows_at, Order,
};
use crate::queue::at_most;
use crate::records::views;
use crate::text::opt_text;
use rand::seq::SliceRandom;
use vstd::prelude::*;

verus! {

/// A node and how well it suits.
pub struct NodeScore {
    pub node_id: String,
    pub score: Double,
}

#[verifier::ext_equal]
pub struct NodeScoreView {
    pub node_id: Seq<char>,
    pub score: Double,
}

impl View for NodeScore {
    type V = NodeScoreView;

    open spec fn view(&self) -> NodeScoreView {
        NodeScoreView { node_id: self.node_id@, score: self.score }
    }
}

/// The score of a node in parts of 1024: ten for a core, five for a gibibyte,
/// and a hundred where the image is there.
pub open spec fn score_parts(cores: int, mem_mb: int, has_cached_image: bool) -> int {
    cores * 10240 + mem_mb * 5 + if has_cached_image {
        102400
    } else {
        0int
    }
}

/// Scores a node with the given cores and mebibytes to spare.
pub fn score_node(node_id: &str, cpu_available: u32, mem_available_mb: u32, has_cached_image: bool)
    -> (scored: NodeScore)
    ensures
        scored.node_id@ == node_id@,
        scored.score.is_1024ths(
            score_parts(cpu_available as int, mem_available_mb as int, has_cached_image),
        ),
{
    let parts: u64 = cpu_available as u64 * 10240 + mem_available_mb as u64 * 5;
    let total: u64 = if has_cached_image {
        parts + 102400
    } else {
        parts
    };
    NodeScore { node_id: node_id.to_owned(), score: Double::from_1024ths(total) }
}

/// Nodes from the best to the worst.
pub struct BestFirst;

impl Order<NodeScore> for BestFirst {
    open spec fn before(a: NodeScoreView, b: NodeScoreView) -> bool {
        a.score.reaches(b.score)
    }

    fn stands_before(a: &NodeScore, b: &NodeScore) -> (yes: bool) {
        a.score.ge(b.score)
    }
}

/// Every score is a number.
pub open spec fn scores_are_numbers(nodes: Seq<NodeScoreView>) -> bool {
    forall|i: int| 0 <= i < nodes.len() ==> !(#[trigger] nodes[i]).score.is_nan()
}

/// The best nodes, no more than `top_k`, the best first.
pub open spec fn best(nodes: Seq<NodeScoreView>, top_k: nat) -> Seq<NodeScoreView> {
    at_most(arranged::<NodeScore, BestFirst>(nodes), top_k)
}

/// The best nodes, no more than `top_k`, the best first; of equally good nodes
/// the earlier first.
pub fn top_nodes(nodes: &Vec<NodeScore>, top_k: usize) -> (top: Vec<NodeScore>)
    requires
        scores_are_numbers(views(nodes@)),
    ensures
        views(top@) == best(views(nodes@), top_k as nat),
{
    let ghost rows = views(nodes@);
    let places: Vec<usize> = arrange_all::<NodeScore, BestFirst>(nodes);
    let count: usize = if places.len() <= top_k {
        places.len()
    } else {
        top_k
    };
    let ghost sorted = rows_at(rows, places@);
    assert(at_most(sorted, top_k as nat) =~= sorted.take(count as int));
    let mut top: Vec<NodeScore> = Vec::new();
    for n in 0..count
        invariant
            count <= places@.len(),
            rows == views(nodes@),
            sorted == rows_at(rows, places@),
            places_fit(places@, nodes@.len()),
            views(top@) == sorted.take(n as int),
    {
        let ghost before = views(top@);
        let node = &nodes[places[n]];
        let copy = NodeScore { node_id: node.node_id.clone(), score: node.score };
        assert(copy@ == sorted[n as int]);
        top.push(copy);
        assert(views(top@) =~= before.push(copy@));
        assert(sorted.take(n + 1) =~= before.push(copy@));
    }
    top
}

/// `SliceRandom::choose` of `rand` with its thread-local generator: some
/// element of the list, drawn at random, or nothing where the list is empty.
#[verifier::external_body]
fn choose_node(nodes: &Vec<NodeScore>) -> (chosen: Option<&NodeScore>)
    ensures
        chosen is Some <==> nodes@.len() > 0,
        chosen matches Some(node) ==> nodes@.contains(*node),
{
    nodes.choose(&mut rand::thread_rng())
}

/// The name of the node that was chosen, if one was.
pub fn chosen_name(chosen: Option<&NodeScore>) -> (name: Option<String>)
    ensures
        chosen is None ==> name is None,
        chosen matches Some(node) ==> opt_text(name) == Some(node@.node_id),
{
    match chosen {
        Some(node) => Some(node.node_id.clone()),
        None => None,
    }
}

/// One of the `top_k` best nodes, drawn at random; nothing where there are no
/// nodes or none is to be taken.
pub fn jitter_top_nodes(nodes: Vec<NodeScore>, top_k: usize) -> (name: Option<String>)
    requires
        scores_are_numbers(views(nodes@)),
    ensures
        name is Some <==> nodes@.len() > 0 && top_k > 0,
        name matches Some(name) ==> exists|i: int|
            0 <= i < best(views(nodes@), top_k as nat).len() && (#[trigger] best(
                views(nodes@),
                top_k as nat,
            )[i]).node_id == name@,
{
    let top: Vec<NodeScore> = top_nodes(&nodes, top_k);
    proof {
        arranged_rows_are_the_rows::<NodeScore, BestFirst>(views(nodes@));
        assert(views(top@).len() == top@.len());
    }
    let chosen = choose_node(&top);
    proof {
        if let Some(node) = chosen {
            let i = choose|i: int| 0 <= i < top@.len() && top@[i] == *node;
            assert(views(top@)[i].node_id == node@.node_id);
        }
    }
    chosen_name(chosen)
}

/// The nodes that a workload can be placed on here.
pub fn simulated_nodes() -> (nodes: Vec<NodeScore>)
    ensures
        nodes@.len() == 3,
        nodes@[0].node_id@ == "node-1"@ && nodes@[0].score.is_1024ths(61440int),
        nodes@[1].node_id@ == "node-2"@ && nodes@[1].score.is_1024ths(133120int),
        nodes@[2].node_id@ == "node-3"@ && nodes@[2].score.is_1024ths(122880int),
{
    let mut nodes: Vec<NodeScore> = Vec::new();
    nodes.push(score_node("node-1", 4, 4096, false));
    nodes.push(score_node("node-2", 2, 2048, true));
    nodes.push(score_node("node-3", 8, 8192, false));
    nodes
}

proof fn lemma_two_best(nodes: Seq<NodeScoreView>)
    requires
        nodes.len() == 3,
        nodes[0].score.is_1024ths(61440int),
        nodes[1].score.is_1024ths(133120int),
        nodes[2].score.is_1024ths(122880int),
    ensures
        scores_are_numbers(nodes),
        best(nodes, 2) == seq![nodes[1], nodes[2]],
{
    parts_order_as_numbers(nodes[0].score, 61440int, nodes[1].score, 133120int);
    parts_order_as_numbers(nodes[0].score, 61440int, nodes[2].score, 122880int);
    parts_order_as_numbers(nodes[2].score, 122880int, nodes[1].score, 133120int);
    reveal_with_fuel(arranged, 4);
    reveal_with_fuel(crate::order::placed, 4);
    let two = nodes.drop_last();
    let one = two.drop_last();
    assert(one.drop_last() =~= Seq::empty());
    assert(arranged::<NodeScore, BestFirst>(one) =~= seq![nodes[0]]);
    assert(seq![nodes[0]].drop_last() =~= Seq::empty());
    assert(arranged::<NodeScore, BestFirst>(two) =~= seq![nodes[1], nodes[0]]);
    assert(seq![nodes[1], nodes[0]].drop_last() =~= seq![nodes[1]]);
    assert(arranged::<NodeScore, BestFirst>(nodes) =~= seq![nodes[1], nodes[2], nodes[0]]);
    assert(best(nodes, 2) =~= seq![nodes[1], nodes[2]]);
}

/// A node for a workload: one of the two best, drawn at random.
pub fn local_schedule_workload(_tenant_id: &str, _workload_id: &str) -> (name: Option<String>)
    ensures
        name matches Some(name) && (name@ == "node-2"@ || name@ == "node-3"@),
{
    let nodes: Vec<NodeScore> = simulated_nodes();
    proof {
        lemma_two_best(views(nodes@));
    }
    jitter_top_nodes(nodes, 2)
}

/// No node that is left out is better than one that is taken, and the nodes
/// that are taken stand from the best to the worst.
pub proof fn best_nodes_are_best(nodes: Seq<NodeScoreView>, top_k: nat)
    requires
        scores_are_numbers(nodes),
    ensures
        best(nodes, top_k).len() == if nodes.len() <= top_k {
            nodes.len()
        } else {
            top_k
        },
        forall|i: int, j: int|
            0 <= i < j < best(nodes, top_k).len() ==> (#[trigger] best(
                nodes,
                top_k,
            )[i]).score.reaches((#[trigger] best(nodes, top_k)[j]).score),
        forall|i: int, node: NodeScoreView|
            0 <= i < best(nodes, top_k).len() && #[trigger] nodes.contains(node) && !best(
                nodes,
                top_k,
            ).contains(node) ==> (#[trigger] best(nodes, top_k)[i]).score.reaches(node.score),
{
    assert forall|a: NodeScoreView, b: NodeScoreView|
        nodes.contains(a) && nodes.contains(b) implies #[trigger] BestFirst::before(a, b)
        || BestFirst::before(b, a) by {
        let i = choose|i: int| 0 <= i < nodes.len() && nodes[i] == a;
        let j = choose|j: int| 0 <= j < nodes.len() && nodes[j] == b;
        assert(!nodes[i].score.is_nan() && !nodes[j].score.is_nan());
    }
    let sorted = arranged::<NodeScore, BestFirst>(nodes);
    let top = best(nodes, top_k);
    arranged_rows_are_in_order::<NodeScore, BestFirst>(nodes);
    arranged_rows_are_the_rows::<NodeScore, BestFirst>(nodes);
    assert forall|i: int, j: int| 0 <= i < j < top.len() implies (
    #[trigger] top[i]).score.reaches((#[trigger] top[j]).score) by {
        assert(BestFirst::before(sorted[i], sorted[j]));
    }
    assert forall|i: int, node: NodeScoreView|
        0 <= i < top.len() && #[trigger] nodes.contains(node) && !top.contains(
            node,
        ) implies (#[trigger] top[i]).score.reaches(node.score) by {
        assert(sorted.contains(node));
        let k = choose|k: int| 0 <= k < sorted.len() && sorted[k] == node;
        if k < top.len() {
            assert(top[k] == node);
        }
        assert(BestFirst::before(sorted[i], sorted[k]));
    }
}

/// A node scores ten for each core to spare, five for each gibibyte, and a
/// hundred where the image is there; with nothing to spare it scores nothing.
pub proof fn scores_add_up(cores: int, mem_mb: int, more: int, cached: bool)
    ensures
        score_parts(0, 0, false) == 0,
        score_parts(cores + more, mem_mb, cached) == score_parts(cores, mem_mb, cached) + more * 10
            * 1024,
        score_parts(cores, mem_mb + more, cached) == score_parts(cores, mem_mb, cached) + more * 5,
        score_parts(cores, mem_mb, true) == score_parts(cores, mem_mb, false) + 100 * 1024,
{
}

/// The names that may be drawn are those of nodes that are among the best:
/// fewer than `top_k` nodes score more than any of them.
pub proof fn drawn_node_is_among_the_best(nodes: Seq<NodeScoreView>, top_k: nat, i: int)
    requires
        scores_are_numbers(nodes),
        0 <= i < best(nodes, top_k).len(),
    ensures
        nodes.contains(best(nodes, top_k)[i]),
        forall|node: NodeScoreView|
            #[trigger] nodes.contains(node) && node.score.exceeds(best(nodes, top_k)[i].score)
                ==> exists|j: int| 0 <= j < i && #[trigger] best(nodes, top_k)[j] == node,
        i < top_k,
{
    best_nodes_are_best(nodes, top_k);
    let sorted = arranged::<NodeScore, BestFirst>(nodes);
    let top = best(nodes, top_k);
    arranged_rows_are_the_rows::<NodeScore, BestFirst>(nodes);
    assert(sorted.contains(sorted[i]));
    assert forall|node: NodeScoreView|
        #[trigger] nodes.contains(node) && node.score.exceeds(top[i].score) implies exists|j: int|
        0 <= j < i && #[trigger] top[j] == node by {
        if !top.contains(node) {
            assert(top[i].score.reaches(node.score));
        } else {
            let j = choose|j: int| 0 <= j < top.len() && top[j] == node;
            if j > i {
                assert(top[i].score.reaches(top[j].score));
            }
            assert(top[j] == node);
        }
    }
}

/// A score is what its fields say.
pub proof fn node_score_is_its_fields(node: NodeScore)
    ensures
        node@.node_id == node.node_id@,
        node@.score == node.score,
{
}

} // verus!
