//! The records of the orchestrator: what tenants ask for, what is observed,
//! what is intended, and the actions that carry an intent out.
use crate::double::Double;
use crate::json::{Json, JsonView};
use crate::text::{opt_text, texts};
use vstd::prelude::*;

verus! {

/// How the control plane reaches the runtime.
pub struct ExecutionConfig {
    pub control_base_url: Option<String>,
    pub control_api_key: Option<String>,
    pub local_scheduler: bool,
}

/// What a tenant allows a workload.
pub struct WorkloadPolicyRequest {
    pub runtime_function_id: String,
    pub max_concurrency: u32,
    pub hard_quota: u32,
    pub soft_burst: u32,
    pub absolute_limit: u32,
    pub priority: i64,
    pub cooldown_seconds: u32,
    pub hysteresis_pct: Double,
    pub burst_cpu_cap: Double,
    pub burst_mem_mb: u32,
    pub burst_ttl_seconds: u32,
    pub target_container_ids: Vec<String>,
}

/// What a tenant asks of a workload's service.
pub struct WorkloadSloRequest {
    pub p95_latency_ms: u32,
    pub max_cold_start_pct: Double,
    pub max_reject_pct: Double,
    pub rto_seconds: u32,
    pub max_cost_per_compute_unit: Double,
}

/// What was last observed of a workload.
pub struct WorkloadObservation {
    pub tenant_id: String,
    pub workload_id: String,
    pub node_group: String,
    pub queue_depth: u32,
    pub cpu_pressure: Double,
    pub mem_pressure: Double,
    pub io_pressure: Double,
    pub cold_start_pct: Double,
    pub invoke_p95_ms: u32,
    pub reject_pct: Double,
    pub active_compute_units: u32,
    pub cost_per_compute_unit: Double,
}

/// What was last observed of a node group.
pub struct NodeGroupObservation {
    pub node_group: String,
    pub cpu_pressure: Double,
    pub mem_pressure: Double,
    pub io_pressure: Double,
    pub warm_ready: u32,
    pub warm_hit_rate: Double,
    pub capacity_units: u32,
    pub used_units: u32,
}

/// Observations that come in together.
pub struct ObservationIngestRequest {
    pub workloads: Vec<WorkloadObservation>,
    pub node_groups: Vec<NodeGroupObservation>,
}

/// What the orchestrator intends for a workload.
pub struct OrchestratorIntent {
    pub tenant_id: String,
    pub workload_id: String,
    pub target_concurrency: u32,
    pub burst_cpu_cap: Double,
    pub burst_mem_mb: u32,
    pub burst_ttl_seconds: u32,
    pub pool_min_ready: u32,
    pub pool_target_ready: u32,
    pub pool_max_ready: u32,
    pub preferred_node_group: String,
    pub anti_affinity: bool,
    pub reason_code: String,
    pub effective_at: i64,
    pub ttl_seconds: u32,
    pub updated_at: i64,
}

/// A policy as it is kept: the list of containers is kept as text.
pub struct PolicyRecord {
    pub tenant_id: String,
    pub workload_id: String,
    pub runtime_function_id: String,
    pub max_concurrency: u32,
    pub hard_quota: u32,
    pub soft_burst: u32,
    pub absolute_limit: u32,
    pub priority: i64,
    pub cooldown_seconds: u32,
    pub hysteresis_pct: Double,
    pub burst_cpu_cap: Double,
    pub burst_mem_mb: u32,
    pub burst_ttl_seconds: u32,
    pub target_container_ids_json: String,
    pub updated_at: i64,
}

/// What is asked of a workload's service, as it is kept.
pub struct SloRecord {
    pub tenant_id: String,
    pub workload_id: String,
    pub p95_latency_ms: u32,
    pub max_cold_start_pct: Double,
    pub max_reject_pct: Double,
    pub rto_seconds: u32,
    pub max_cost_per_compute_unit: Double,
    pub updated_at: i64,
}

/// A workload's observation as it is kept.
pub struct WorkloadRecord {
    pub seen: WorkloadObservation,
    pub updated_at: i64,
}

/// A node group's observation as it is kept.
pub struct NodeGroupRecord {
    pub seen: NodeGroupObservation,
    pub updated_at: i64,
}

/// An action as it is kept: its documents are kept as text.
pub struct ActionRecord {
    pub action_id: String,
    pub tenant_id: String,
    pub workload_id: String,
    pub action_type: String,
    pub payload_json: String,
    pub ttl_seconds: u32,
    pub rollback_action_json: Option<String>,
    pub parent_action_id: Option<String>,
    pub idempotency_key: String,
    pub decision_window_start: i64,
    pub status: String,
    pub reason_code: Option<String>,
    pub reason_message: Option<String>,
    pub effective_at: i64,
    pub outbound_requested_at: Option<i64>,
    pub runtime_operation_id: Option<String>,
    pub runtime_operation_type: Option<String>,
    pub terminal_status: Option<String>,
    pub terminal_at: Option<i64>,
    pub total_latency_ms: Option<i64>,
    pub attempt_count: u32,
    pub next_retry_at: i64,
    pub created_at: i64,
    pub updated_at: i64,
}

/// An action as it is listed.
pub struct OrchestratorAction {
    pub action_id: String,
    pub tenant_id: String,
    pub workload_id: String,
    pub action_type: String,
    pub payload_json: Json,
    pub ttl_seconds: u32,
    pub rollback_action_json: Option<Json>,
    pub parent_action_id: Option<String>,
    pub idempotency_key: String,
    pub decision_window_start: i64,
    pub status: String,
    pub reason_code: Option<String>,
    pub reason_message: Option<String>,
    pub effective_at: i64,
    pub outbound_requested_at: Option<i64>,
    pub runtime_operation_id: Option<String>,
    pub runtime_operation_type: Option<String>,
    pub terminal_status: Option<String>,
    pub terminal_at: Option<i64>,
    pub total_latency_ms: Option<i64>,
    pub attempt_count: u32,
    pub next_retry_at: i64,
    pub created_at: i64,
    pub updated_at: i64,
}

/// What the dispatcher needs of an action.
pub struct DispatchAction {
    pub action_id: String,
    pub tenant_id: String,
    pub workload_id: String,
    pub action_type: String,
    pub payload_json: Json,
    pub ttl_seconds: u32,
    pub rollback_action_json: Option<Json>,
    pub idempotency_key: String,
    pub status: String,
    pub effective_at: i64,
    pub runtime_operation_id: Option<String>,
    pub attempt_count: u32,
    pub created_at: i64,
}

/// What the planner needs of a policy.
pub struct WorkloadPolicyRow {
    pub runtime_function_id: String,
    pub max_concurrency: u32,
    pub hard_quota: u32,
    pub soft_burst: u32,
    pub absolute_limit: u32,
    pub cooldown_seconds: u32,
    pub hysteresis_pct: Double,
    pub burst_cpu_cap: Double,
    pub burst_mem_mb: u32,
    pub burst_ttl_seconds: u32,
    pub target_container_ids: Vec<String>,
}

/// What the planner needs of what is asked of a workload's service.
#[derive(Clone, Copy)]
pub struct WorkloadSloRow {
    pub p95_latency_ms: u32,
    pub max_cold_start_pct: Double,
    pub max_reject_pct: Double,
    pub max_cost_per_compute_unit: Double,
}

/// An operation of the runtime, as the runtime reports it.
pub struct RuntimeOperation {
    pub operation_id: String,
    pub operation_type: Option<String>,
    pub status: String,
    pub reason_code: Option<String>,
    pub reason_message: Option<String>,
}

/// An action that is to be queued.
pub struct NewAction {
    pub tenant_id: String,
    pub workload_id: String,
    pub action_type: String,
    pub payload: Json,
    pub ttl_seconds: u32,
    pub decision_window_start: i64,
    pub rollback_action: Option<Json>,
    pub parent_action_id: Option<String>,
}

// ---------------------------------------------------------------------------
// What the records hold
// ---------------------------------------------------------------------------

/// What an optional document holds.
pub open spec fn opt_json(document: Option<Json>) -> Option<JsonView> {
    match document {
        Some(document) => Some(document@),
        None => None,
    }
}

pub struct ConfigView {
    pub control_base_url: Option<Seq<char>>,
    pub control_api_key: Option<Seq<char>>,
    pub local_scheduler: bool,
}

impl View for ExecutionConfig {
    type V = ConfigView;

    open spec fn view(&self) -> ConfigView {
        ConfigView {
            control_base_url: opt_text(self.control_base_url),
            control_api_key: opt_text(self.control_api_key),
            local_scheduler: self.local_scheduler,
        }
    }
}

#[verifier::ext_equal]
pub struct PolicyRequestView {
    pub runtime_function_id: Seq<char>,
    pub max_concurrency: u32,
    pub hard_quota: u32,
    pub soft_burst: u32,
    pub absolute_limit: u32,
    pub priority: i64,
    pub cooldown_seconds: u32,
    pub hysteresis_pct: Double,
    pub burst_cpu_cap: Double,
    pub burst_mem_mb: u32,
    pub burst_ttl_seconds: u32,
    pub target_container_ids: Seq<Seq<char>>,
}

impl View for WorkloadPolicyRequest {
    type V = PolicyRequestView;

    open spec fn view(&self) -> PolicyRequestView {
        PolicyRequestView {
            runtime_function_id: self.runtime_function_id@,
            max_concurrency: self.max_concurrency,
            hard_quota: self.hard_quota,
            soft_burst: self.soft_burst,
            absolute_limit: self.absolute_limit,
            priority: self.priority,
            cooldown_seconds: self.cooldown_seconds,
            hysteresis_pct: self.hysteresis_pct,
            burst_cpu_cap: self.burst_cpu_cap,
            burst_mem_mb: self.burst_mem_mb,
            burst_ttl_seconds: self.burst_ttl_seconds,
            target_container_ids: texts(self.target_container_ids@),
        }
    }
}

#[verifier::ext_equal]
pub struct PolicyView {
    pub tenant_id: Seq<char>,
    pub workload_id: Seq<char>,
    pub runtime_function_id: Seq<char>,
    pub max_concurrency: u32,
    pub hard_quota: u32,
    pub soft_burst: u32,
    pub absolute_limit: u32,
    pub priority: i64,
    pub cooldown_seconds: u32,
    pub hysteresis_pct: Double,
    pub burst_cpu_cap: Double,
    pub burst_mem_mb: u32,
    pub burst_ttl_seconds: u32,
    pub target_container_ids_json: Seq<char>,
    pub updated_at: i64,
}

impl View for PolicyRecord {
    type V = PolicyView;

    open spec fn view(&self) -> PolicyView {
        PolicyView {
            tenant_id: self.tenant_id@,
            workload_id: self.workload_id@,
            runtime_function_id: self.runtime_function_id@,
            max_concurrency: self.max_concurrency,
            hard_quota: self.hard_quota,
            soft_burst: self.soft_burst,
            absolute_limit: self.absolute_limit,
            priority: self.priority,
            cooldown_seconds: self.cooldown_seconds,
            hysteresis_pct: self.hysteresis_pct,
            burst_cpu_cap: self.burst_cpu_cap,
            burst_mem_mb: self.burst_mem_mb,
            burst_ttl_seconds: self.burst_ttl_seconds,
            target_container_ids_json: self.target_container_ids_json@,
            updated_at: self.updated_at,
        }
    }
}

#[verifier::ext_equal]
pub struct PolicyRowView {
    pub runtime_function_id: Seq<char>,
    pub max_concurrency: u32,
    pub hard_quota: u32,
    pub soft_burst: u32,
    pub absolute_limit: u32,
    pub cooldown_seconds: u32,
    pub hysteresis_pct: Double,
    pub burst_cpu_cap: Double,
    pub burst_mem_mb: u32,
    pub burst_ttl_seconds: u32,
    pub target_container_ids: Seq<Seq<char>>,
}

impl View for WorkloadPolicyRow {
    type V = PolicyRowView;

    open spec fn view(&self) -> PolicyRowView {
        PolicyRowView {
            runtime_function_id: self.runtime_function_id@,
            max_concurrency: self.max_concurrency,
            hard_quota: self.hard_quota,
            soft_burst: self.soft_burst,
            absolute_limit: self.absolute_limit,
            cooldown_seconds: self.cooldown_seconds,
            hysteresis_pct: self.hysteresis_pct,
            burst_cpu_cap: self.burst_cpu_cap,
            burst_mem_mb: self.burst_mem_mb,
            burst_ttl_seconds: self.burst_ttl_seconds,
            target_container_ids: texts(self.target_container_ids@),
        }
    }
}

#[verifier::ext_equal]
pub struct SloView {
    pub tenant_id: Seq<char>,
    pub workload_id: Seq<char>,
    pub p95_latency_ms: u32,
    pub max_cold_start_pct: Double,
    pub max_reject_pct: Double,
    pub rto_seconds: u32,
    pub max_cost_per_compute_unit: Double,
    pub updated_at: i64,
}

impl View for SloRecord {
    type V = SloView;

    open spec fn view(&self) -> SloView {
        SloView {
            tenant_id: self.tenant_id@,
            workload_id: self.workload_id@,
            p95_latency_ms: self.p95_latency_ms,
            max_cold_start_pct: self.max_cold_start_pct,
            max_reject_pct: self.max_reject_pct,
            rto_seconds: self.rto_seconds,
            max_cost_per_compute_unit: self.max_cost_per_compute_unit,
            updated_at: self.updated_at,
        }
    }
}

#[verifier::ext_equal]
pub struct WorkloadView {
    pub tenant_id: Seq<char>,
    pub workload_id: Seq<char>,
    pub node_group: Seq<char>,
    pub queue_depth: u32,
    pub cpu_pressure: Double,
    pub mem_pressure: Double,
    pub io_pressure: Double,
    pub cold_start_pct: Double,
    pub invoke_p95_ms: u32,
    pub reject_pct: Double,
    pub active_compute_units: u32,
    pub cost_per_compute_unit: Double,
}

impl View for WorkloadObservation {
    type V = WorkloadView;

    open spec fn view(&self) -> WorkloadView {
        WorkloadView {
            tenant_id: self.tenant_id@,
            workload_id: self.workload_id@,
            node_group: self.node_group@,
            queue_depth: self.queue_depth,
            cpu_pressure: self.cpu_pressure,
            mem_pressure: self.mem_pressure,
            io_pressure: self.io_pressure,
            cold_start_pct: self.cold_start_pct,
            invoke_p95_ms: self.invoke_p95_ms,
            reject_pct: self.reject_pct,
            active_compute_units: self.active_compute_units,
            cost_per_compute_unit: self.cost_per_compute_unit,
        }
    }
}

#[verifier::ext_equal]
pub struct NodeGroupView {
    pub node_group: Seq<char>,
    pub cpu_pressure: Double,
    pub mem_pressure: Double,
    pub io_pressure: Double,
    pub warm_ready: u32,
    pub warm_hit_rate: Double,
    pub capacity_units: u32,
    pub used_units: u32,
}

impl View for NodeGroupObservation {
    type V = NodeGroupView;

    open spec fn view(&self) -> NodeGroupView {
        NodeGroupView {
            node_group: self.node_group@,
            cpu_pressure: self.cpu_pressure,
            mem_pressure: self.mem_pressure,
            io_pressure: self.io_pressure,
            warm_ready: self.warm_ready,
            warm_hit_rate: self.warm_hit_rate,
            capacity_units: self.capacity_units,
            used_units: self.used_units,
        }
    }
}

/// A workload's observation and when it came.
#[verifier::ext_equal]
pub struct WorkloadRecordView {
    pub seen: WorkloadView,
    pub updated_at: i64,
}

impl View for WorkloadRecord {
    type V = WorkloadRecordView;

    open spec fn view(&self) -> WorkloadRecordView {
        WorkloadRecordView { seen: self.seen@, updated_at: self.updated_at }
    }
}

/// A node group's observation and when it came.
#[verifier::ext_equal]
pub struct NodeGroupRecordView {
    pub seen: NodeGroupView,
    pub updated_at: i64,
}

impl View for NodeGroupRecord {
    type V = NodeGroupRecordView;

    open spec fn view(&self) -> NodeGroupRecordView {
        NodeGroupRecordView { seen: self.seen@, updated_at: self.updated_at }
    }
}

#[verifier::ext_equal]
pub struct IntentView {
    pub tenant_id: Seq<char>,
    pub workload_id: Seq<char>,
    pub target_concurrency: u32,
    pub burst_cpu_cap: Double,
    pub burst_mem_mb: u32,
    pub burst_ttl_seconds: u32,
    pub pool_min_ready: u32,
    pub pool_target_ready: u32,
    pub pool_max_ready: u32,
    pub preferred_node_group: Seq<char>,
    pub anti_affinity: bool,
    pub reason_code: Seq<char>,
    pub effective_at: i64,
    pub ttl_seconds: u32,
    pub updated_at: i64,
}

impl View for OrchestratorIntent {
    type V = IntentView;

    open spec fn view(&self) -> IntentView {
        IntentView {
            tenant_id: self.tenant_id@,
            workload_id: self.workload_id@,
            target_concurrency: self.target_concurrency,
            burst_cpu_cap: self.burst_cpu_cap,
            burst_mem_mb: self.burst_mem_mb,
            burst_ttl_seconds: self.burst_ttl_seconds,
            pool_min_ready: self.pool_min_ready,
            pool_target_ready: self.pool_target_ready,
            pool_max_ready: self.pool_max_ready,
            preferred_node_group: self.preferred_node_group@,
            anti_affinity: self.anti_affinity,
            reason_code: self.reason_code@,
            effective_at: self.effective_at,
            ttl_seconds: self.ttl_seconds,
            updated_at: self.updated_at,
        }
    }
}

#[verifier::ext_equal]
pub struct ActionView {
    pub action_id: Seq<char>,
    pub tenant_id: Seq<char>,
    pub workload_id: Seq<char>,
    pub action_type: Seq<char>,
    pub payload_json: Seq<char>,
    pub ttl_seconds: u32,
    pub rollback_action_json: Option<Seq<char>>,
    pub parent_action_id: Option<Seq<char>>,
    pub idempotency_key: Seq<char>,
    pub decision_window_start: i64,
    pub status: Seq<char>,
    pub reason_code: Option<Seq<char>>,
    pub reason_message: Option<Seq<char>>,
    pub effective_at: i64,
    pub outbound_requested_at: Option<i64>,
    pub runtime_operation_id: Option<Seq<char>>,
    pub runtime_operation_type: Option<Seq<char>>,
    pub terminal_status: Option<Seq<char>>,
    pub terminal_at: Option<i64>,
    pub total_latency_ms: Option<i64>,
    pub attempt_count: u32,
    pub next_retry_at: i64,
    pub created_at: i64,
    pub updated_at: i64,
}

impl View for ActionRecord {
    type V = ActionView;

    open spec fn view(&self) -> ActionView {
        ActionView {
            action_id: self.action_id@,
            tenant_id: self.tenant_id@,
            workload_id: self.workload_id@,
            action_type: self.action_type@,
            payload_json: self.payload_json@,
            ttl_seconds: self.ttl_seconds,
            rollback_action_json: opt_text(self.rollback_action_json),
            parent_action_id: opt_text(self.parent_action_id),
            idempotency_key: self.idempotency_key@,
            decision_window_start: self.decision_window_start,
            status: self.status@,
            reason_code: opt_text(self.reason_code),
            reason_message: opt_text(self.reason_message),
            effective_at: self.effective_at,
            outbound_requested_at: self.outbound_requested_at,
            runtime_operation_id: opt_text(self.runtime_operation_id),
            runtime_operation_type: opt_text(self.runtime_operation_type),
            terminal_status: opt_text(self.terminal_status),
            terminal_at: self.terminal_at,
            total_latency_ms: self.total_latency_ms,
            attempt_count: self.attempt_count,
            next_retry_at: self.next_retry_at,
            created_at: self.created_at,
            updated_at: self.updated_at,
        }
    }
}

#[verifier::ext_equal]
pub struct ListedView {
    pub action_id: Seq<char>,
    pub tenant_id: Seq<char>,
    pub workload_id: Seq<char>,
    pub action_type: Seq<char>,
    pub payload_json: JsonView,
    pub ttl_seconds: u32,
    pub rollback_action_json: Option<JsonView>,
    pub parent_action_id: Option<Seq<char>>,
    pub idempotency_key: Seq<char>,
    pub decision_window_start: i64,
    pub status: Seq<char>,
    pub reason_code: Option<Seq<char>>,
    pub reason_message: Option<Seq<char>>,
    pub effective_at: i64,
    pub outbound_requested_at: Option<i64>,
    pub runtime_operation_id: Option<Seq<char>>,
    pub runtime_operation_type: Option<Seq<char>>,
    pub terminal_status: Option<Seq<char>>,
    pub terminal_at: Option<i64>,
    pub total_latency_ms: Option<i64>,
    pub attempt_count: u32,
    pub next_retry_at: i64,
    pub created_at: i64,
    pub updated_at: i64,
}

impl View for OrchestratorAction {
    type V = ListedView;

    open spec fn view(&self) -> ListedView {
        ListedView {
            action_id: self.action_id@,
            tenant_id: self.tenant_id@,
            workload_id: self.workload_id@,
            action_type: self.action_type@,
            payload_json: self.payload_json@,
            ttl_seconds: self.ttl_seconds,
            rollback_action_json: opt_json(self.rollback_action_json),
            parent_action_id: opt_text(self.parent_action_id),
            idempotency_key: self.idempotency_key@,
            decision_window_start: self.decision_window_start,
            status: self.status@,
            reason_code: opt_text(self.reason_code),
            reason_message: opt_text(self.reason_message),
            effective_at: self.effective_at,
            outbound_requested_at: self.outbound_requested_at,
            runtime_operation_id: opt_text(self.runtime_operation_id),
            runtime_operation_type: opt_text(self.runtime_operation_type),
            terminal_status: opt_text(self.terminal_status),
            terminal_at: self.terminal_at,
            total_latency_ms: self.total_latency_ms,
            attempt_count: self.attempt_count,
            next_retry_at: self.next_retry_at,
            created_at: self.created_at,
            updated_at: self.updated_at,
        }
    }
}

#[verifier::ext_equal]
pub struct DispatchView {
    pub action_id: Seq<char>,
    pub tenant_id: Seq<char>,
    pub workload_id: Seq<char>,
    pub action_type: Seq<char>,
    pub payload_json: JsonView,
    pub ttl_seconds: u32,
    pub rollback_action_json: Option<JsonView>,
    pub idempotency_key: Seq<char>,
    pub status: Seq<char>,
    pub effective_at: i64,
    pub runtime_operation_id: Option<Seq<char>>,
    pub attempt_count: u32,
    pub created_at: i64,
}

impl View for DispatchAction {
    type V = DispatchView;

    open spec fn view(&self) -> DispatchView {
        DispatchView {
            action_id: self.action_id@,
            tenant_id: self.tenant_id@,
            workload_id: self.workload_id@,
            action_type: self.action_type@,
            payload_json: self.payload_json@,
            ttl_seconds: self.ttl_seconds,
            rollback_action_json: opt_json(self.rollback_action_json),
            idempotency_key: self.idempotency_key@,
            status: self.status@,
            effective_at: self.effective_at,
            runtime_operation_id: opt_text(self.runtime_operation_id),
            attempt_count: self.attempt_count,
            created_at: self.created_at,
        }
    }
}

#[verifier::ext_equal]
pub struct OperationView {
    pub operation_id: Seq<char>,
    pub operation_type: Option<Seq<char>>,
    pub status: Seq<char>,
    pub reason_code: Option<Seq<char>>,
    pub reason_message: Option<Seq<char>>,
}

impl View for RuntimeOperation {
    type V = OperationView;

    open spec fn view(&self) -> OperationView {
        OperationView {
            operation_id: self.operation_id@,
            operation_type: opt_text(self.operation_type),
            status: self.status@,
            reason_code: opt_text(self.reason_code),
            reason_message: opt_text(self.reason_message),
        }
    }
}

#[verifier::ext_equal]
pub struct NewActionView {
    pub tenant_id: Seq<char>,
    pub workload_id: Seq<char>,
    pub action_type: Seq<char>,
    pub payload: JsonView,
    pub ttl_seconds: u32,
    pub decision_window_start: i64,
    pub rollback_action: Option<JsonView>,
    pub parent_action_id: Option<Seq<char>>,
}

impl View for NewAction {
    type V = NewActionView;

    open spec fn view(&self) -> NewActionView {
        NewActionView {
            tenant_id: self.tenant_id@,
            workload_id: self.workload_id@,
            action_type: self.action_type@,
            payload: self.payload@,
            ttl_seconds: self.ttl_seconds,
            decision_window_start: self.decision_window_start,
            rollback_action: opt_json(self.rollback_action),
            parent_action_id: opt_text(self.parent_action_id),
        }
    }
}

/// What each record of a list holds.
pub open spec fn views<T: View>(records: Seq<T>) -> Seq<T::V> {
    records.map_values(|record: T| record@)
}

/// How the runtime is reached is what its fields say, each under its own name.
pub proof fn config_is_its_fields(r: ExecutionConfig)
    ensures
        r@.control_base_url is Some <==> r.control_base_url is Some,
        r.control_base_url matches Some(held) ==> r@.control_base_url == Some(held@),
        r@.control_api_key is Some <==> r.control_api_key is Some,
        r.control_api_key matches Some(held) ==> r@.control_api_key == Some(held@),
        r@.local_scheduler == r.local_scheduler,
{
}

/// What a tenant asks for is what its fields say, each under its own name.
pub proof fn policy_request_is_its_fields(r: WorkloadPolicyRequest)
    ensures
        r@.runtime_function_id == r.runtime_function_id@,
        r@.max_concurrency == r.max_concurrency,
        r@.hard_quota == r.hard_quota,
        r@.soft_burst == r.soft_burst,
        r@.absolute_limit == r.absolute_limit,
        r@.priority == r.priority,
        r@.cooldown_seconds == r.cooldown_seconds,
        r@.hysteresis_pct == r.hysteresis_pct,
        r@.burst_cpu_cap == r.burst_cpu_cap,
        r@.burst_mem_mb == r.burst_mem_mb,
        r@.burst_ttl_seconds == r.burst_ttl_seconds,
        r@.target_container_ids.len() == r.target_container_ids@.len(),
        forall|i: int|
            0 <= i < r.target_container_ids@.len() ==> #[trigger] r@.target_container_ids[i] == r.target_container_ids@[i]@,
{
}

/// A policy that is kept is what its fields say, each under its own name.
pub proof fn policy_is_its_fields(r: PolicyRecord)
    ensures
        r@.tenant_id == r.tenant_id@,
        r@.workload_id == r.workload_id@,
        r@.runtime_function_id == r.runtime_function_id@,
        r@.max_concurrency == r.max_concurrency,
        r@.hard_quota == r.hard_quota,
        r@.soft_burst == r.soft_burst,
        r@.absolute_limit == r.absolute_limit,
        r@.priority == r.priority,
        r@.cooldown_seconds == r.cooldown_seconds,
        r@.hysteresis_pct == r.hysteresis_pct,
        r@.burst_cpu_cap == r.burst_cpu_cap,
        r@.burst_mem_mb == r.burst_mem_mb,
        r@.burst_ttl_seconds == r.burst_ttl_seconds,
        r@.target_container_ids_json == r.target_container_ids_json@,
        r@.updated_at == r.updated_at,
{
}

/// A policy that is loaded is what its fields say, each under its own name.
pub proof fn policy_row_is_its_fields(r: WorkloadPolicyRow)
    ensures
        r@.runtime_function_id == r.runtime_function_id@,
        r@.max_concurrency == r.max_concurrency,
        r@.hard_quota == r.hard_quota,
        r@.soft_burst == r.soft_burst,
        r@.absolute_limit == r.absolute_limit,
        r@.cooldown_seconds == r.cooldown_seconds,
        r@.hysteresis_pct == r.hysteresis_pct,
        r@.burst_cpu_cap == r.burst_cpu_cap,
        r@.burst_mem_mb == r.burst_mem_mb,
        r@.burst_ttl_seconds == r.burst_ttl_seconds,
        r@.target_container_ids.len() == r.target_container_ids@.len(),
        forall|i: int|
            0 <= i < r.target_container_ids@.len() ==> #[trigger] r@.target_container_ids[i] == r.target_container_ids@[i]@,
{
}

/// What is asked of a service is what its fields say, each under its own name.
pub proof fn slo_is_its_fields(r: SloRecord)
    ensures
        r@.tenant_id == r.tenant_id@,
        r@.workload_id == r.workload_id@,
        r@.p95_latency_ms == r.p95_latency_ms,
        r@.max_cold_start_pct == r.max_cold_start_pct,
        r@.max_reject_pct == r.max_reject_pct,
        r@.rto_seconds == r.rto_seconds,
        r@.max_cost_per_compute_unit == r.max_cost_per_compute_unit,
        r@.updated_at == r.updated_at,
{
}

/// What is seen of a workload is what its fields say, each under its own name.
pub proof fn workload_is_its_fields(r: WorkloadObservation)
    ensures
        r@.tenant_id == r.tenant_id@,
        r@.workload_id == r.workload_id@,
        r@.node_group == r.node_group@,
        r@.queue_depth == r.queue_depth,
        r@.cpu_pressure == r.cpu_pressure,
        r@.mem_pressure == r.mem_pressure,
        r@.io_pressure == r.io_pressure,
        r@.cold_start_pct == r.cold_start_pct,
        r@.invoke_p95_ms == r.invoke_p95_ms,
        r@.reject_pct == r.reject_pct,
        r@.active_compute_units == r.active_compute_units,
        r@.cost_per_compute_unit == r.cost_per_compute_unit,
{
}

/// What is seen of a node group is what its fields say, each under its own name.
pub proof fn group_is_its_fields(r: NodeGroupObservation)
    ensures
        r@.node_group == r.node_group@,
        r@.cpu_pressure == r.cpu_pressure,
        r@.mem_pressure == r.mem_pressure,
        r@.io_pressure == r.io_pressure,
        r@.warm_ready == r.warm_ready,
        r@.warm_hit_rate == r.warm_hit_rate,
        r@.capacity_units == r.capacity_units,
        r@.used_units == r.used_units,
{
}

/// An intent is what its fields say, each under its own name.
pub proof fn intent_is_its_fields(r: OrchestratorIntent)
    ensures
        r@.tenant_id == r.tenant_id@,
        r@.workload_id == r.workload_id@,
        r@.target_concurrency == r.target_concurrency,
        r@.burst_cpu_cap == r.burst_cpu_cap,
        r@.burst_mem_mb == r.burst_mem_mb,
        r@.burst_ttl_seconds == r.burst_ttl_seconds,
        r@.pool_min_ready == r.pool_min_ready,
        r@.pool_target_ready == r.pool_target_ready,
        r@.pool_max_ready == r.pool_max_ready,
        r@.preferred_node_group == r.preferred_node_group@,
        r@.anti_affinity == r.anti_affinity,
        r@.reason_code == r.reason_code@,
        r@.effective_at == r.effective_at,
        r@.ttl_seconds == r.ttl_seconds,
        r@.updated_at == r.updated_at,
{
}

/// The row of an action is what its fields say, each under its own name.
pub proof fn action_is_its_fields(r: ActionRecord)
    ensures
        r@.action_id == r.action_id@,
        r@.tenant_id == r.tenant_id@,
        r@.workload_id == r.workload_id@,
        r@.action_type == r.action_type@,
        r@.payload_json == r.payload_json@,
        r@.ttl_seconds == r.ttl_seconds,
        r@.rollback_action_json is Some <==> r.rollback_action_json is Some,
        r.rollback_action_json matches Some(held) ==> r@.rollback_action_json == Some(held@),
        r@.parent_action_id is Some <==> r.parent_action_id is Some,
        r.parent_action_id matches Some(held) ==> r@.parent_action_id == Some(held@),
        r@.idempotency_key == r.idempotency_key@,
        r@.decision_window_start == r.decision_window_start,
        r@.status == r.status@,
        r@.reason_code is Some <==> r.reason_code is Some,
        r.reason_code matches Some(held) ==> r@.reason_code == Some(held@),
        r@.reason_message is Some <==> r.reason_message is Some,
        r.reason_message matches Some(held) ==> r@.reason_message == Some(held@),
        r@.effective_at == r.effective_at,
        r@.outbound_requested_at == r.outbound_requested_at,
        r@.runtime_operation_id is Some <==> r.runtime_operation_id is Some,
        r.runtime_operation_id matches Some(held) ==> r@.runtime_operation_id == Some(held@),
        r@.runtime_operation_type is Some <==> r.runtime_operation_type is Some,
        r.runtime_operation_type matches Some(held) ==> r@.runtime_operation_type == Some(held@),
        r@.terminal_status is Some <==> r.terminal_status is Some,
        r.terminal_status matches Some(held) ==> r@.terminal_status == Some(held@),
        r@.terminal_at == r.terminal_at,
        r@.total_latency_ms == r.total_latency_ms,
        r@.attempt_count == r.attempt_count,
        r@.next_retry_at == r.next_retry_at,
        r@.created_at == r.created_at,
        r@.updated_at == r.updated_at,
{
}

/// An action that is listed is what its fields say, each under its own name.
pub proof fn listed_is_its_fields(r: OrchestratorAction)
    ensures
        r@.action_id == r.action_id@,
        r@.tenant_id == r.tenant_id@,
        r@.workload_id == r.workload_id@,
        r@.action_type == r.action_type@,
        r@.payload_json == r.payload_json@,
        r@.ttl_seconds == r.ttl_seconds,
        r@.rollback_action_json is Some <==> r.rollback_action_json is Some,
        r.rollback_action_json matches Some(held) ==> r@.rollback_action_json == Some(held@),
        r@.parent_action_id is Some <==> r.parent_action_id is Some,
        r.parent_action_id matches Some(held) ==> r@.parent_action_id == Some(held@),
        r@.idempotency_key == r.idempotency_key@,
        r@.decision_window_start == r.decision_window_start,
        r@.status == r.status@,
        r@.reason_code is Some <==> r.reason_code is Some,
        r.reason_code matches Some(held) ==> r@.reason_code == Some(held@),
        r@.reason_message is Some <==> r.reason_message is Some,
        r.reason_message matches Some(held) ==> r@.reason_message == Some(held@),
        r@.effective_at == r.effective_at,
        r@.outbound_requested_at == r.outbound_requested_at,
        r@.runtime_operation_id is Some <==> r.runtime_operation_id is Some,
        r.runtime_operation_id matches Some(held) ==> r@.runtime_operation_id == Some(held@),
        r@.runtime_operation_type is Some <==> r.runtime_operation_type is Some,
        r.runtime_operation_type matches Some(held) ==> r@.runtime_operation_type == Some(held@),
        r@.terminal_status is Some <==> r.terminal_status is Some,
        r.terminal_status matches Some(held) ==> r@.terminal_status == Some(held@),
        r@.terminal_at == r.terminal_at,
        r@.total_latency_ms == r.total_latency_ms,
        r@.attempt_count == r.attempt_count,
        r@.next_retry_at == r.next_retry_at,
        r@.created_at == r.created_at,
        r@.updated_at == r.updated_at,
{
}

/// An action that is to be dispatched is what its fields say, each under its own name.
pub proof fn candidate_is_its_fields(r: DispatchAction)
    ensures
        r@.action_id == r.action_id@,
        r@.tenant_id == r.tenant_id@,
        r@.workload_id == r.workload_id@,
        r@.action_type == r.action_type@,
        r@.payload_json == r.payload_json@,
        r@.ttl_seconds == r.ttl_seconds,
        r@.rollback_action_json is Some <==> r.rollback_action_json is Some,
        r.rollback_action_json matches Some(held) ==> r@.rollback_action_json == Some(held@),
        r@.idempotency_key == r.idempotency_key@,
        r@.status == r.status@,
        r@.effective_at == r.effective_at,
        r@.runtime_operation_id is Some <==> r.runtime_operation_id is Some,
        r.runtime_operation_id matches Some(held) ==> r@.runtime_operation_id == Some(held@),
        r@.attempt_count == r.attempt_count,
        r@.created_at == r.created_at,
{
}

/// An operation is what its fields say, each under its own name.
pub proof fn operation_is_its_fields(r: RuntimeOperation)
    ensures
        r@.operation_id == r.operation_id@,
        r@.operation_type is Some <==> r.operation_type is Some,
        r.operation_type matches Some(held) ==> r@.operation_type == Some(held@),
        r@.status == r.status@,
        r@.reason_code is Some <==> r.reason_code is Some,
        r.reason_code matches Some(held) ==> r@.reason_code == Some(held@),
        r@.reason_message is Some <==> r.reason_message is Some,
        r.reason_message matches Some(held) ==> r@.reason_message == Some(held@),
{
}

/// A new action is what its fields say, each under its own name.
pub proof fn new_action_is_its_fields(r: NewAction)
    ensures
        r@.tenant_id == r.tenant_id@,
        r@.workload_id == r.workload_id@,
        r@.action_type == r.action_type@,
        r@.payload == r.payload@,
        r@.ttl_seconds == r.ttl_seconds,
        r@.decision_window_start == r.decision_window_start,
        r@.rollback_action is Some <==> r.rollback_action is Some,
        r.rollback_action matches Some(held) ==> r@.rollback_action == Some(held@),
        r@.parent_action_id is Some <==> r.parent_action_id is Some,
        r.parent_action_id matches Some(held) ==> r@.parent_action_id == Some(held@),
{
}

/// A list of records is what its records are, one for one and in order.
pub proof fn views_are_one_for_one<T: View>(records: Seq<T>)
    ensures
        views(records).len() == records.len(),
        forall|i: int| 0 <= i < records.len() ==> #[trigger] views(records)[i] == records[i]@,
{
}

} // verus!
