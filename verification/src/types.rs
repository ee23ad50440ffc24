//! What an agent tells the control plane, and what it is told.
use std::path::PathBuf;
use vstd::prelude::*;

verus! {

/// `std::path::PathBuf`, which is only carried.
#[verifier::external_type_specification]
#[verifier::external_body]
pub struct ExPathBuf(std::path::PathBuf);

/// Where the certificates for encrypted connections are.
pub struct TlsConfig {
    pub ca_cert: PathBuf,
    pub client_cert: Option<PathBuf>,
    pub client_key: Option<PathBuf>,
}

/// What a node tells about itself when it joins. No two labels have one name.
pub struct RegisterNodeRequest {
    pub name: String,
    pub public_ip: Option<String>,
    pub private_ip: Option<String>,
    pub agent_version: Option<String>,
    pub labels: Vec<(String, String)>,
    pub gpu_runtime: NodeGpuRuntimeCapabilityRequest,
    pub vmm_runtime: NodeVmmRuntimeCapabilityRequest,
    pub bridge_name: String,
    pub dns_port: i64,
    pub egress_limit_mbit: i64,
    pub gpu_devices: Vec<NodeGpuDeviceRequest>,
}

/// What a node tells about itself from time to time.
pub struct NodeHeartbeatRequest {
    pub state: String,
    pub gpu_runtime: NodeGpuRuntimeCapabilityRequest,
    pub vmm_runtime: NodeVmmRuntimeCapabilityRequest,
    pub gpu_devices: Vec<NodeGpuDeviceRequest>,
}

/// What a node can do with accelerators.
pub struct NodeGpuRuntimeCapabilityRequest {
    pub accelerator_vendor: Option<String>,
    pub execution_mode: Option<String>,
    pub qgpu_version: Option<String>,
    pub runtime_compatible: bool,
    pub compatibility_message: Option<String>,
}

/// What a node can do with virtual machines.
pub struct NodeVmmRuntimeCapabilityRequest {
    pub kvm_available: bool,
    pub vm_runtime_version: Option<String>,
    pub supported_guest_architectures: Vec<String>,
    pub supported_firmware_profiles: Vec<String>,
    pub confidential_capabilities: Vec<String>,
    pub max_vcpu: Option<i64>,
    pub max_memory_mb: Option<i64>,
}

/// An accelerator of a node.
pub struct NodeGpuDeviceRequest {
    pub id: String,
    pub vendor: String,
    pub card_index: i64,
    pub device_path: String,
    pub model: Option<String>,
    pub driver_version: Option<String>,
    pub major: i64,
    pub minor: i64,
}

/// A node as the control plane knows it.
pub struct NodeResponse {
    pub id: String,
}

/// What the control plane assigns to a node.
pub struct NodeAllocationResponse {
    pub pod_cidr: String,
    pub bridge_name: String,
    pub dns_port: i64,
    pub egress_limit_mbit: i64,
    pub allocated_at: i64,
}

/// What a node is told when it has joined.
pub struct RegisterNodeResponse {
    pub node: NodeResponse,
    pub allocation: NodeAllocationResponse,
    pub node_token: String,
}

/// Another node, as the control plane tells of it.
pub struct AgentPeer {
    pub node_id: String,
    pub reachable_ip: String,
    pub allocation: NodeAllocationResponse,
}

/// The other nodes, as the control plane tells of them.
pub struct ListAgentPeersResponse {
    pub peers: Vec<AgentPeer>,
}

/// Another node: where it is, and which addresses are behind it.
pub struct PeerInfo {
    pub node_id: String,
    pub host_ip: String,
    pub subnet: String,
}

impl NodeGpuRuntimeCapabilityRequest {
    /// Nothing is known of accelerators.
    pub open spec fn is_bare(self) -> bool {
        &&& self.accelerator_vendor is None
        &&& self.execution_mode is None
        &&& self.qgpu_version is None
        &&& !self.runtime_compatible
        &&& self.compatibility_message is None
    }
}

impl Default for NodeGpuRuntimeCapabilityRequest {
    fn default() -> (bare: Self)
        ensures
            bare.is_bare(),
    {
        NodeGpuRuntimeCapabilityRequest {
            accelerator_vendor: None,
            execution_mode: None,
            qgpu_version: None,
            runtime_compatible: false,
            compatibility_message: None,
        }
    }
}

impl NodeVmmRuntimeCapabilityRequest {
    /// Nothing is known of virtual machines.
    pub open spec fn is_bare(self) -> bool {
        &&& !self.kvm_available
        &&& self.vm_runtime_version is None
        &&& self.supported_guest_architectures@.len() == 0
        &&& self.supported_firmware_profiles@.len() == 0
        &&& self.confidential_capabilities@.len() == 0
        &&& self.max_vcpu is None
        &&& self.max_memory_mb is None
    }
}

impl Default for NodeVmmRuntimeCapabilityRequest {
    fn default() -> (bare: Self)
        ensures
            bare.is_bare(),
    {
        NodeVmmRuntimeCapabilityRequest {
            kvm_available: false,
            vm_runtime_version: None,
            supported_guest_architectures: Vec::new(),
            supported_firmware_profiles: Vec::new(),
            confidential_capabilities: Vec::new(),
            max_vcpu: None,
            max_memory_mb: None,
        }
    }
}

impl TlsConfig {
    /// The configuration, where an authority is given; without one connections
    /// are not encrypted.
    pub fn from_paths(
        ca_cert: Option<PathBuf>,
        client_cert: Option<PathBuf>,
        client_key: Option<PathBuf>,
    ) -> (config: Option<TlsConfig>)
        ensures
            config is Some <==> ca_cert is Some,
            config matches Some(config) ==> ca_cert == Some(config.ca_cert) && config.client_cert
                == client_cert && config.client_key == client_key,
    {
        match ca_cert {
            Some(ca_cert) => Some(TlsConfig { ca_cert, client_cert, client_key }),
            None => None,
        }
    }

    /// Where the node's own certificate and key are, where both are given.
    pub fn identity(&self) -> (paths: Option<(&PathBuf, &PathBuf)>)
        ensures
            paths is Some <==> self.client_cert is Some && self.client_key is Some,
            paths matches Some(paths) ==> self.client_cert == Some(*paths.0) && self.client_key
                == Some(*paths.1),
    {
        match (&self.client_cert, &self.client_key) {
            (Some(cert), Some(key)) => Some((cert, key)),
            _ => None,
        }
    }
}

#[verifier::ext_equal]
pub struct PeerView {
    pub node_id: Seq<char>,
    pub host_ip: Seq<char>,
    pub subnet: Seq<char>,
}

impl View for PeerInfo {
    type V = PeerView;

    open spec fn view(&self) -> PeerView {
        PeerView { node_id: self.node_id@, host_ip: self.host_ip@, subnet: self.subnet@ }
    }
}

} // verus!
