use quilt_mesh::double::Double;
use quilt_mesh::gossip::{GossipNetwork, NodeState};
use quilt_mesh::scheduler::{
    chosen_name, jitter_top_nodes, local_schedule_workload, score_node, simulated_nodes, top_nodes,
    NodeScore,
};

fn node(name: &str, score: f64) -> NodeScore {
    NodeScore {
        node_id: name.to_string(),
        score: Double {
            bits: score.to_bits(),
        },
    }
}

#[test]
fn scores_are_those_of_floating_point() {
    for cores in [0u32, 1, 2, 4, 8, 63, 4_000_000_000] {
        for mem in [0u32, 1, 512, 1024, 2048, 4095, 4096, 8192, 4_294_967_295] {
            for cached in [false, true] {
                let mut expected = f64::from(cores) * 10.0 + (f64::from(mem) / 1024.0) * 5.0;
                if cached {
                    expected += 100.0;
                }
                let scored = score_node("n", cores, mem, cached);
                assert_eq!(scored.score.bits, expected.to_bits(), "{} {} {}", cores, mem, cached);
                assert_eq!(scored.node_id, "n");
            }
        }
    }
}

#[test]
fn the_best_come_first_and_ties_keep_their_order() {
    let nodes = vec![node("a", 1.0), node("b", 3.0), node("c", 2.0), node("d", 3.0)];
    let top = top_nodes(&nodes, 3);
    let names: Vec<&str> = top.iter().map(|n| n.node_id.as_str()).collect();
    assert_eq!(names, vec!["b", "d", "c"]);
    assert_eq!(top_nodes(&nodes, 9).len(), 4);
    assert_eq!(top_nodes(&nodes, 0).len(), 0);
}

#[test]
fn one_of_the_best_is_drawn() {
    let mut drawn: Vec<String> = Vec::new();
    for _ in 0..200 {
        let nodes = vec![node("low", -1.0), node("mid", 5.0), node("high", 9.0)];
        match jitter_top_nodes(nodes, 2) {
            Some(name) => {
                assert!(name == "mid" || name == "high");
                if !drawn.contains(&name) {
                    drawn.push(name);
                }
            }
            None => panic!("a node was expected"),
        }
    }
    assert_eq!(drawn.len(), 2);
    assert_eq!(jitter_top_nodes(Vec::new(), 2), None);
    assert_eq!(jitter_top_nodes(vec![node("a", 1.0)], 0), None);
    assert_eq!(jitter_top_nodes(vec![node("a", 1.0)], 5), Some("a".to_string()));
}

#[test]
fn the_choice_names_its_node() {
    assert_eq!(chosen_name(None), None);
    assert_eq!(chosen_name(Some(&node("x", 0.0))), Some("x".to_string()));
}

#[test]
fn workloads_land_on_the_two_best_nodes() {
    let scores: Vec<f64> = simulated_nodes()
        .iter()
        .map(|n| f64::from_bits(n.score.bits))
        .collect();
    assert_eq!(scores, vec![60.0, 130.0, 120.0]);
    for _ in 0..50 {
        let name = local_schedule_workload("tenant", "workload");
        assert!(name == Some("node-2".to_string()) || name == Some("node-3".to_string()));
    }
}

fn state(name: &str, cpu: f64) -> NodeState {
    NodeState {
        node_id: name.to_string(),
        cpu_available: Double { bits: cpu.to_bits() },
        mem_available_mb: Double {
            bits: 1024f64.to_bits(),
        },
        cached_images: vec!["image".to_string()],
    }
}

#[test]
fn the_last_word_of_a_node_counts() {
    let mut network = GossipNetwork::new();
    assert_eq!(network.get_peers().len(), 0);
    network.update_peer(state("a", 1.0));
    network.update_peer(state("b", 2.0));
    network.update_peer(state("a", 3.0));
    let peers = network.get_peers();
    assert_eq!(peers.len(), 2);
    for peer in &peers {
        let cpu = f64::from_bits(peer.cpu_available.bits);
        assert_eq!(cpu, if peer.node_id == "a" { 3.0 } else { 2.0 });
        assert_eq!(peer.cached_images, vec!["image".to_string()]);
    }
}
