use quilt_mesh::json::{json_text, Json};
use quilt_mesh::keys::deterministic_idempotency_key;
use quilt_mesh::queue::enqueue_action;
use quilt_mesh::reasons::{
    is_runtime_non_terminal, is_runtime_terminal_failure, is_runtime_terminal_success,
    normalize_reason_code, parse_dispatch_error, RC_IDEMPOTENCY_REPLAY, RC_INVALID_ARGUMENT,
    RC_OPERATION_FAILED, RC_RESOURCE_PRESSURE,
};
use quilt_mesh::records::NewAction;
use quilt_mesh::runtime::parse_runtime_response;
use quilt_mesh::store::Store;

#[test]
fn idempotency_key_is_deterministic() {
    let payload = Json::empty_object()
        .with("b", Json::unsigned(1))
        .with("a", Json::unsigned(2));
    let k1 = deterministic_idempotency_key("t1", "w1", "SetPoolTarget", &payload, 100);
    let swapped = Json::empty_object()
        .with("a", Json::unsigned(2))
        .with("b", Json::unsigned(1));
    let k2 = deterministic_idempotency_key("t1", "w1", "SetPoolTarget", &swapped, 100);
    assert_eq!(k1, k2);
}

#[test]
fn status_mapping_helpers() {
    assert!(is_runtime_non_terminal("accepted"));
    assert!(is_runtime_terminal_success("succeeded"));
    assert!(is_runtime_terminal_failure("timed_out"));
}

#[test]
fn reason_normalization_keeps_contract_codes() {
    let known = normalize_reason_code(Some(RC_IDEMPOTENCY_REPLAY));
    assert_eq!(known, RC_IDEMPOTENCY_REPLAY);
    let unknown = normalize_reason_code(None);
    assert_eq!(unknown, RC_OPERATION_FAILED);
}

#[test]
fn parse_dispatch_error_reads_retryable_hint() {
    let (code, retryable, detail) =
        parse_dispatch_error("ELASTICITY_RESOURCE_PRESSURE|retryable=true|busy");
    assert_eq!(code, RC_RESOURCE_PRESSURE);
    assert_eq!(retryable, Some(true));
    assert_eq!(detail, "busy");
}

#[test]
fn parse_dispatch_error_keeps_plain_reason_code() {
    let (code, retryable, detail) = parse_dispatch_error("ELASTICITY_INVALID_ARGUMENT");
    assert_eq!(code, RC_INVALID_ARGUMENT);
    assert_eq!(retryable, None);
    assert_eq!(detail, "ELASTICITY_INVALID_ARGUMENT");
}

fn pool_target(payload: Json) -> NewAction {
    NewAction {
        tenant_id: "tenant-a".to_string(),
        workload_id: "workload-a".to_string(),
        action_type: "SetPoolTarget".to_string(),
        payload,
        ttl_seconds: 30,
        decision_window_start: 100,
        rollback_action: None,
        parent_action_id: None,
    }
}

#[test]
fn duplicate_dispatch_key_collapses_to_single_action() {
    let mut store = Store::new();
    let first = pool_target(
        Json::empty_object()
            .with("min_instances", Json::unsigned(1))
            .with("max_instances", Json::unsigned(3)),
    );
    enqueue_action(&mut store, &first, 1_000);
    let second = pool_target(
        Json::empty_object()
            .with("max_instances", Json::unsigned(3))
            .with("min_instances", Json::unsigned(1)),
    );
    enqueue_action(&mut store, &second, 1_000);
    assert_eq!(store.actions.len(), 1);
}

#[test]
fn replay_reason_code_is_treated_as_success_path() {
    let body = Json::empty_object()
        .with("operation_id", Json::text("op_123"))
        .with("operation_type", Json::text("elasticity.resize_container"))
        .with("status", Json::text("accepted"))
        .with("reason_code", Json::text(RC_IDEMPOTENCY_REPLAY))
        .with("reason_message", Json::text("replayed"));
    let op = match parse_runtime_response(409, json_text(&body)) {
        Ok(op) => op,
        Err(message) => panic!("replay should not fail: {}", message),
    };
    assert_eq!(op.operation_id, "op_123");
    assert_eq!(op.reason_code.as_deref(), Some(RC_IDEMPOTENCY_REPLAY));
}
