use quilt_mesh::address::{format_ipv4, parse_ipv4, Ipv4};
use quilt_mesh::control_client::{check_call, read_reply, ControlClient};
use quilt_mesh::enrol::{
    check_pod_cidr, daemon_endpoint, host_address, parse_labels, parse_log_level, ready_heartbeat,
    registration, LocalNetwork, LogLevel,
};
use quilt_mesh::overlay::{
    SetupEnd, SetupStep, VxlanManager, BRIDGE_INTERFACE, VXLAN_INTERFACE, VXLAN_VNI,
};
use quilt_mesh::peers::{peer_infos, plan_peer_sync};
use quilt_mesh::types::{
    AgentPeer, ListAgentPeersResponse, NodeAllocationResponse, PeerInfo, TlsConfig,
};
use std::path::PathBuf;

const HOST: Ipv4 = Ipv4 {
    a: 10,
    b: 0,
    c: 0,
    d: 7,
};

#[test]
fn addresses_are_four_numbers_with_dots() {
    for text in ["10.0.0.1", "0.0.0.0", "255.255.255.255", "127.0.0.1", "192.168.100.200"] {
        match parse_ipv4(text) {
            Some(ip) => assert_eq!(format_ipv4(ip), text),
            None => panic!("{}", text),
        }
    }
    let ip = parse_ipv4("192.168.100.7").unwrap();
    assert_eq!((ip.a, ip.b, ip.c, ip.d), (192, 168, 100, 7));
    for text in [
        "256.0.0.1", "1.2.3", "1.2.3.4.5", "01.2.3.4", "1.2.3.04", "", ".", "1..2.3", "1.2.3.4 ",
        " 1.2.3.4", "a.b.c.d", "1.2.3.-4", "1.2.3.4.", ".1.2.3.4", "999.1.1.1", "1000.1.1.1",
        "00.0.0.0", "1.2.3.é", "1,2,3,4",
    ] {
        assert_eq!(parse_ipv4(text), None, "{:?}", text);
    }
}

#[test]
fn every_number_of_an_address_is_read_back() {
    for n in 0..=255u8 {
        let ip = Ipv4 {
            a: n,
            b: 255 - n,
            c: n / 2,
            d: n,
        };
        assert_eq!(parse_ipv4(&format_ipv4(ip)), Some(ip));
    }
}

#[test]
fn the_host_needs_an_address() {
    assert_eq!(host_address("10.0.0.7"), Ok(HOST));
    assert_eq!(host_address("host"), Err("Invalid host IP address".to_string()));
}

#[test]
fn levels_are_named_in_whatever_letters() {
    assert_eq!(parse_log_level("TRACE"), LogLevel::Trace);
    assert_eq!(parse_log_level("Debug"), LogLevel::Debug);
    assert_eq!(parse_log_level("info"), LogLevel::Info);
    assert_eq!(parse_log_level("wArN"), LogLevel::Warn);
    assert_eq!(parse_log_level("error"), LogLevel::Error);
    assert_eq!(parse_log_level("loud"), LogLevel::Info);
    assert_eq!(parse_log_level(""), LogLevel::Info);
}

#[test]
fn labels_are_an_object_of_texts() {
    assert_eq!(parse_labels(None), Ok(Vec::new()));
    assert_eq!(parse_labels(Some("  \n")), Ok(Vec::new()));
    assert_eq!(
        parse_labels(Some("{\"zone\":\"a\"}")),
        Ok(vec![("zone".to_string(), "a".to_string())])
    );
    assert_eq!(
        parse_labels(Some("{\"zone\":1}")),
        Err("Invalid labels JSON: {\"zone\":1}".to_string())
    );
    assert_eq!(
        parse_labels(Some("oops")),
        Err("Invalid labels JSON: oops".to_string())
    );
}

#[test]
fn the_daemon_is_called_encrypted_where_it_can_be() {
    assert_eq!(daemon_endpoint("http://127.0.0.1:50051", true), "https://127.0.0.1:50051");
    assert_eq!(daemon_endpoint("http://127.0.0.1:50051", false), "http://127.0.0.1:50051");
    assert_eq!(daemon_endpoint("https://host", true), "https://host");
    for endpoint in ["http://http://x", "host:1", "httphttp://", "xhttp://y", ""] {
        assert_eq!(daemon_endpoint(endpoint, true), endpoint.replace("http://", "https://"));
    }
}

#[test]
fn a_node_says_what_it_is() {
    let network = LocalNetwork {
        pod_cidr: "10.70.1.0/24".to_string(),
        bridge_name: "quilt0".to_string(),
        dns_port: 53,
    };
    let request = registration(
        "node-a".to_string(),
        HOST,
        None,
        Some("192.0.2.1".to_string()),
        "v1".to_string(),
        vec![("zone".to_string(), "a".to_string())],
        &network,
    );
    assert_eq!(request.name, "node-a");
    assert_eq!(request.public_ip.as_deref(), Some("10.0.0.7"));
    assert_eq!(request.private_ip.as_deref(), Some("192.0.2.1"));
    assert_eq!(request.agent_version.as_deref(), Some("v1"));
    assert_eq!(request.labels.len(), 1);
    assert_eq!(request.bridge_name, "quilt0");
    assert_eq!(request.dns_port, 53);
    assert_eq!(request.egress_limit_mbit, 0);
    assert!(request.gpu_devices.is_empty());
    assert!(!request.gpu_runtime.runtime_compatible);
    assert!(!request.vmm_runtime.kvm_available);
    let ready = ready_heartbeat();
    assert_eq!(ready.state, "ready");
    assert!(ready.gpu_devices.is_empty());
}

#[test]
fn the_assigned_addresses_must_fit() {
    assert_eq!(check_pod_cidr("10.70.1.0/24", "10.70.1.0/24"), Ok(()));
    assert_eq!(
        check_pod_cidr("a", "b"),
        Err("local Quilt daemon PodCIDR a does not match backend-assigned PodCIDR b; start the node-local Quilt daemon with the assigned PodCIDR before joining the cluster".to_string())
    );
}

#[test]
fn requests_go_where_they_belong() {
    let client = ControlClient::new("http://backend".to_string());
    let register = client.register_node("c1", "join");
    assert!(register.posts);
    assert_eq!(register.url, "http://backend/api/agent/clusters/c1/nodes/register");
    assert_eq!(
        register.header,
        ("X-Quilt-Join-Token".to_string(), "join".to_string())
    );
    let heartbeat = client.heartbeat("c1", "n1", "token");
    assert!(heartbeat.posts);
    assert_eq!(heartbeat.url, "http://backend/api/agent/clusters/c1/nodes/n1/heartbeat");
    assert_eq!(
        heartbeat.header,
        ("X-Quilt-Node-Token".to_string(), "token".to_string())
    );
    let peers = client.list_peers("c1", "n1", "token");
    assert!(!peers.posts);
    assert_eq!(peers.url, "http://backend/api/agent/clusters/c1/nodes/n1/peers");
    let leave = client.deregister("c1", "n1", "token");
    assert!(leave.posts);
    assert_eq!(leave.url, "http://backend/api/agent/clusters/c1/nodes/n1/deregister");
}

#[test]
fn answers_are_taken_by_their_status() {
    for status in [200u16, 201, 299] {
        assert_eq!(
            read_reply("Heartbeat", status, "text", "body".to_string()),
            Ok("body".to_string())
        );
    }
    for status in [199u16, 300, 404, 500] {
        assert_eq!(
            read_reply("Heartbeat", status, "404 Not Found", "gone".to_string()),
            Err("Heartbeat failed (404 Not Found): gone".to_string())
        );
    }
    assert_eq!(check_call("UpsertHostRoute", true, "ignored"), Ok(()));
    assert_eq!(
        check_call("UpsertHostRoute", false, "no route"),
        Err("UpsertHostRoute failed: no route".to_string())
    );
}

fn peer(subnet: &str, host_ip: &str) -> PeerInfo {
    PeerInfo {
        node_id: "n".to_string(),
        host_ip: host_ip.to_string(),
        subnet: subnet.to_string(),
    }
}

#[test]
fn peers_come_and_go_with_the_list() {
    let known = vec!["10.1.0.0/24".to_string(), "10.2.0.0/24".to_string()];
    let listed = vec![
        peer("10.2.0.0/24", "192.0.2.2"),
        peer("10.3.0.0/24", "192.0.2.3"),
        peer("10.3.0.0/24", "192.0.2.33"),
        peer("10.4.0.0/24", "nowhere"),
    ];
    let plan = plan_peer_sync(&known, &listed);
    assert_eq!(plan.added.len(), 1);
    assert_eq!(plan.added[0].subnet, "10.3.0.0/24");
    assert_eq!(format_ipv4(plan.added[0].host_ip), "192.0.2.3");
    assert_eq!(plan.rejected, vec!["nowhere".to_string()]);
    assert_eq!(plan.removed, vec!["10.1.0.0/24".to_string()]);
    assert_eq!(
        plan.known,
        vec!["10.2.0.0/24".to_string(), "10.3.0.0/24".to_string()]
    );
    let again = plan_peer_sync(&plan.known, &listed);
    assert!(again.added.is_empty());
    assert!(again.removed.is_empty());
    assert_eq!(again.known, plan.known);
}

#[test]
fn what_is_told_of_peers_is_kept() {
    let told = ListAgentPeersResponse {
        peers: vec![AgentPeer {
            node_id: "n1".to_string(),
            reachable_ip: "192.0.2.9".to_string(),
            allocation: NodeAllocationResponse {
                pod_cidr: "10.9.0.0/24".to_string(),
                bridge_name: "quilt0".to_string(),
                dns_port: 53,
                egress_limit_mbit: 0,
                allocated_at: 1,
            },
        }],
    };
    let peers = peer_infos(told);
    assert_eq!(peers.len(), 1);
    assert_eq!(peers[0].node_id, "n1");
    assert_eq!(peers[0].host_ip, "192.0.2.9");
    assert_eq!(peers[0].subnet, "10.9.0.0/24");
}

#[test]
fn the_overlay_remembers_its_peers() {
    let mut manager = VxlanManager::new(HOST);
    let far = Ipv4 {
        a: 192,
        b: 0,
        c: 2,
        d: 1,
    };
    assert_eq!(manager.add_peer("s1".to_string(), far, Ok(())), Ok(()));
    assert_eq!(
        manager.add_peer("s2".to_string(), far, Err("no entry".to_string())),
        Err("no entry".to_string())
    );
    assert_eq!(manager.peers().len(), 1);
    assert_eq!(manager.add_peer("s1".to_string(), HOST, Ok(())), Ok(()));
    assert_eq!(manager.peers().len(), 1);
    assert_eq!(manager.peers()[0].host_ip, HOST);
    assert_eq!(manager.remove_peer("s2"), None);
    assert_eq!(manager.remove_peer("s1"), Some(HOST));
    assert_eq!(manager.remove_peer("s1"), None);
    assert!(manager.peers().is_empty());
}

#[test]
fn the_interface_is_set_up_once() {
    let manager = VxlanManager::new(HOST);
    let course = |vxlan: bool, bridge: bool| {
        let mut step = SetupStep::LookForVxlan;
        let mut steps = Vec::new();
        for _ in 0..5 {
            let found = if step == SetupStep::LookForVxlan {
                vxlan
            } else {
                bridge
            };
            step = manager.setup_vxlan(step, found);
            steps.push(step);
        }
        steps
    };
    assert_eq!(course(true, true)[0], SetupStep::Finished(SetupEnd::Existing));
    assert_eq!(
        course(false, true),
        vec![
            SetupStep::CreateVxlan,
            SetupStep::BringUp,
            SetupStep::LookForBridge,
            SetupStep::Attach,
            SetupStep::Finished(SetupEnd::Bridged),
        ]
    );
    assert_eq!(course(false, false)[3], SetupStep::Finished(SetupEnd::Unbridged));
    assert_eq!(VXLAN_INTERFACE, "vxlan100");
    assert_eq!(VXLAN_VNI, 100);
    assert_eq!(BRIDGE_INTERFACE, "quilt0");
}

#[test]
fn certificates_need_an_authority() {
    let ca = PathBuf::from("ca.pem");
    let cert = Some(PathBuf::from("cert.pem"));
    let key = Some(PathBuf::from("key.pem"));
    assert!(TlsConfig::from_paths(None, cert.clone(), key.clone()).is_none());
    let full = TlsConfig::from_paths(Some(ca.clone()), cert.clone(), key).unwrap();
    assert_eq!(full.ca_cert, ca);
    assert_eq!(
        full.identity(),
        Some((&PathBuf::from("cert.pem"), &PathBuf::from("key.pem")))
    );
    let half = TlsConfig::from_paths(Some(ca), cert, None).unwrap();
    assert_eq!(half.identity(), None);
}
