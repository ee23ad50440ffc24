use quilt_mesh::dispatch::{
    action_can_be_begun, begin_action, control_operation, dispatch_can_be_entered,
    dispatch_outcome, expire_action_as, finish_dispatch, finish_poll, local_placement, next_move,
    poll_can_be_entered, poll_outcome, Move, Step,
};
use quilt_mesh::double::Double;
use quilt_mesh::json::{json_text, parse_or_empty};
use quilt_mesh::queue::{
    enqueue_action_as, load_dispatch_candidates, ActionChange,
};
use quilt_mesh::reasons::{failure_message, parse_dispatch_error};
use quilt_mesh::records::{
    DispatchAction, ExecutionConfig, NewAction, RuntimeOperation, WorkloadPolicyRequest,
};
use quilt_mesh::store::{upsert_workload_policy, Store};

fn config(base: Option<&str>, local: bool) -> ExecutionConfig {
    ExecutionConfig {
        control_base_url: base.map(|b| b.to_string()),
        control_api_key: Some("key".to_string()),
        local_scheduler: local,
    }
}

fn action(kind: &str, payload: &str) -> DispatchAction {
    DispatchAction {
        action_id: "act".to_string(),
        tenant_id: "t".to_string(),
        workload_id: "w".to_string(),
        action_type: kind.to_string(),
        payload_json: parse_or_empty(payload),
        ttl_seconds: 30,
        rollback_action_json: None,
        idempotency_key: "idem".to_string(),
        status: "pending".to_string(),
        effective_at: 1_000,
        runtime_operation_id: None,
        attempt_count: 0,
        created_at: 1_000,
    }
}

fn operation(kind: &str, payload: &str) -> Option<(String, String)> {
    control_operation(&action(kind, payload)).map(|(path, body)| (path, json_text(&body)))
}

fn posted(path: &str, body: &str) -> Option<(String, String)> {
    Some((path.to_string(), body.to_string()))
}

#[test]
fn operations_go_to_their_paths() {
    assert_eq!(
        operation(
            "SetPoolTarget",
            "{\"function_id\":\" f1 \",\"min_instances\":1,\"max_instances\":3}"
        ),
        posted(
            "/api/elasticity/control/functions/f1/pool-target",
            "{\"max_instances\":3,\"min_instances\":1}"
        )
    );
    assert_eq!(
        operation(
            "SetBurstPolicy",
            "{\"container_id\":\" c \",\"memory_limit_mb\":64,\"cpu_limit_percent\":150}"
        ),
        posted(
            "/api/elasticity/control/containers/ c /resize",
            "{\"cpu_limit_percent\":150,\"memory_limit_mb\":64}"
        )
    );
    assert_eq!(
        operation(
            "SetPlacementPreference",
            "{\"workload_id\":\"w\",\"node_group\":\" g\",\"anti_affinity\":true}"
        ),
        posted(
            "/api/elasticity/control/workloads/w/placement-preference",
            "{\"anti_affinity\":true,\"node_group\":\"g\"}"
        )
    );
    assert_eq!(
        operation("SetPlacementPreference", "{\"workload_id\":\"w\",\"node_group\":\"g\"}"),
        posted(
            "/api/elasticity/control/workloads/w/placement-preference",
            "{\"anti_affinity\":false,\"node_group\":\"g\"}"
        )
    );
    for kind in ["ScaleNodeGroupUp", "ScaleNodeGroupDown"] {
        assert_eq!(
            operation(kind, "{\"node_group\":\"g\",\"delta_units\":-2}"),
            posted(
                "/api/elasticity/control/node-groups/g/scale",
                "{\"delta_units\":-2}"
            )
        );
    }
    assert_eq!(
        operation("RollbackAction", "{\"target_action_id\":\" a \",\"payload\":[1]}"),
        posted(
            "/api/elasticity/control/actions/a/rollback",
            "{\"payload\":[1],\"reason_code\":null,\"reason_message\":null,\"target_action_id\":\" a \",\"target_operation_id\":null}"
        )
    );
    assert_eq!(
        operation("RollbackAction", "{\"reason_code\":\"C\"}"),
        posted(
            "/api/elasticity/control/actions/act/rollback",
            "{\"payload\":null,\"reason_code\":\"C\",\"reason_message\":null,\"target_action_id\":null,\"target_operation_id\":null}"
        )
    );
}

#[test]
fn payloads_that_lack_something_are_not_sent() {
    for (kind, payload) in [
        ("SetPoolTarget", "{\"min_instances\":1,\"max_instances\":3}"),
        ("SetPoolTarget", "{\"function_id\":\"  \",\"min_instances\":1,\"max_instances\":3}"),
        ("SetPoolTarget", "{\"function_id\":\"f\",\"min_instances\":-1,\"max_instances\":3}"),
        ("SetPoolTarget", "{\"function_id\":\"f\",\"min_instances\":1}"),
        ("SetBurstPolicy", "{\"memory_limit_mb\":64,\"cpu_limit_percent\":150}"),
        ("SetBurstPolicy", "{\"container_id\":\"c\",\"cpu_limit_percent\":150}"),
        ("SetPlacementPreference", "{\"workload_id\":\"w\"}"),
        ("ScaleNodeGroupUp", "{\"node_group\":\"g\",\"delta_units\":1.5}"),
        ("ScaleNodeGroupDown", "{\"delta_units\":1}"),
    ] {
        assert_eq!(operation(kind, payload), None, "{} {}", kind, payload);
        for base in [Some("http://rt"), None] {
            let step = next_move(&config(base, false), &action(kind, payload), true, 1_001);
            assert!(matches!(step, Move::Abort));
        }
    }
}

#[test]
fn a_request_names_its_action() {
    let ready = action(
        "SetPoolTarget",
        "{\"function_id\":\"f\",\"min_instances\":1,\"max_instances\":3}",
    );
    match next_move(&config(Some("http://rt"), false), &ready, true, 1_030) {
        Move::Send(request) => {
            assert_eq!(
                request.url,
                "http://rt/api/elasticity/control/functions/f/pool-target"
            );
            let headers: Vec<(&str, &str)> = request
                .headers
                .iter()
                .map(|(name, held)| (name.as_str(), held.as_str()))
                .collect();
            assert_eq!(
                headers,
                vec![
                    ("Idempotency-Key", "idem"),
                    ("X-Tenant-Id", "t"),
                    ("X-Orch-Action-Id", "act"),
                    ("X-Api-Key", "key"),
                ]
            );
            assert!(request.payload.is_some());
        }
        _ => panic!("a request was expected"),
    }
}

#[test]
fn an_operation_under_way_is_asked_after() {
    let mut started = action("SetPoolTarget", "{}");
    started.status = "running".to_string();
    started.runtime_operation_id = Some("op-1".to_string());
    let mut cfg = config(Some("http://rt"), false);
    cfg.control_api_key = None;
    match next_move(&cfg, &started, false, 1_001) {
        Move::Poll(request) => {
            assert_eq!(request.url, "http://rt/api/elasticity/control/operations/op-1");
            assert_eq!(request.headers.len(), 2);
            assert!(request.payload.is_none());
        }
        _ => panic!("a poll was expected"),
    }
    match next_move(&config(None, false), &started, false, 1_001) {
        Move::FailPoll(message) => assert_eq!(message, "ORCH_DEPENDENCY_UNAVAILABLE"),
        _ => panic!("a failure was expected"),
    }
}

#[test]
fn moves_follow_lifetime_ownership_and_type() {
    let cfg = config(None, true);
    let pool = action(
        "SetPoolTarget",
        "{\"function_id\":\"f\",\"min_instances\":1,\"max_instances\":3}",
    );
    assert!(matches!(next_move(&cfg, &pool, true, 1_031), Move::Expire));
    assert!(matches!(next_move(&cfg, &pool, false, 1_030), Move::Disown));
    match next_move(&cfg, &pool, true, 1_030) {
        Move::Fail(message) => assert_eq!(message, "ORCH_DEPENDENCY_UNAVAILABLE"),
        _ => panic!("a failure was expected"),
    }
    match next_move(&cfg, &action("Dance", "{}"), true, 1_001) {
        Move::Fail(message) => assert_eq!(message, "ORCH_ACTION_UNSUPPORTED"),
        _ => panic!("a failure was expected"),
    }
    match next_move(&cfg, &action("SetPlacementPreference", "{\"workload_id\":\"x\"}"), true, 1_001) {
        Move::PlaceLocally(workload) => assert_eq!(workload, "x"),
        _ => panic!("a placement was expected"),
    }
    match next_move(&cfg, &action("SetPlacementPreference", "{}"), true, 1_001) {
        Move::PlaceLocally(workload) => assert_eq!(workload, "unknown"),
        _ => panic!("a placement was expected"),
    }
    let mut platform = action("ScaleNodeGroupUp", "{\"node_group\":\"g\",\"delta_units\":1}");
    platform.tenant_id = "platform".to_string();
    assert!(matches!(
        next_move(&config(Some("b"), false), &platform, false, 1_001),
        Move::Send(_)
    ));
}

/// What is to become of a failed action: an end, or a wait in seconds.
fn reference(kind: &str, message: &str, attempts: u32) -> Option<i64> {
    let (code, hint, _) = parse_dispatch_error(message);
    let wait = 2i64.pow((attempts + 1).min(6));
    if kind == "SetPoolTarget" {
        let over = code == "ELASTICITY_INVALID_ARGUMENT"
            || code == "ELASTICITY_TARGET_NOT_FOUND"
            || (code == "ELASTICITY_OPERATION_FAILED" && hint != Some(true))
            || (code == "ELASTICITY_RESOURCE_PRESSURE" && hint != Some(true));
        if over {
            None
        } else if code == "ELASTICITY_RESOURCE_PRESSURE" && hint == Some(true) {
            Some(15)
        } else if hint == Some(true) {
            Some(wait)
        } else {
            None
        }
    } else if code == "ELASTICITY_INVALID_ARGUMENT" || code == "ORCH_ACTION_UNSUPPORTED" {
        None
    } else if code == "ELASTICITY_RESOURCE_PRESSURE" {
        Some(15)
    } else {
        Some(wait)
    }
}

#[test]
fn failures_end_an_action_or_put_it_off() {
    let codes = [
        "ELASTICITY_INVALID_ARGUMENT",
        "ELASTICITY_TARGET_NOT_FOUND",
        "ELASTICITY_RESOURCE_PRESSURE",
        "ELASTICITY_OPERATION_FAILED",
        "ELASTICITY_IDEMPOTENCY_REPLAY",
        "ORCH_ACTION_UNSUPPORTED",
        "ORCH_DEPENDENCY_UNAVAILABLE",
        "ODD_CODE",
    ];
    for kind in ["SetPoolTarget", "SetBurstPolicy", "RollbackAction"] {
        for code in codes {
            for attempts in [0u32, 4, 9] {
                let mut messages = vec![code.to_string()];
                for hint in [Some(true), Some(false), None] {
                    messages.push(failure_message(code, hint, "detail"));
                }
                for message in messages {
                    let mut failed = action(kind, "{}");
                    failed.attempt_count = attempts;
                    let expected = reference(kind, &message, attempts);
                    let (code, _, detail) = parse_dispatch_error(&message);
                    match dispatch_outcome(&failed, Err(message.clone()), 1_010) {
                        ActionChange::Terminal {
                            status,
                            reason_code,
                            reason_message,
                            latency_ms,
                        } => {
                            assert_eq!(expected, None, "{} {}", kind, message);
                            assert_eq!(status, "failed");
                            assert_eq!(reason_code, Some(code));
                            assert_eq!(reason_message, Some(detail));
                            assert_eq!(latency_ms, 10_000);
                        }
                        ActionChange::Retry {
                            attempt_count,
                            next_retry_at,
                            reason_code,
                            reason_message,
                        } => {
                            assert_eq!(expected, Some(next_retry_at - 1_010), "{} {}", kind, message);
                            assert_eq!(attempt_count, attempts + 1);
                            assert_eq!(reason_code, code);
                            assert_eq!(reason_message, detail);
                        }
                        _ => panic!("an end or a delay was expected"),
                    }
                }
            }
        }
    }
}

fn reported(status: &str) -> RuntimeOperation {
    RuntimeOperation {
        operation_id: "op".to_string(),
        operation_type: None,
        status: status.to_string(),
        reason_code: Some("C".to_string()),
        reason_message: None,
    }
}

#[test]
fn what_a_poll_reports_is_entered() {
    let asked = action("SetPoolTarget", "{}");
    for status in ["accepted", "queued", "running"] {
        match poll_outcome(&asked, Ok(reported(status)), 1_010) {
            Some(ActionChange::Status { status: s, reason_code, .. }) => {
                assert_eq!(s, status);
                assert_eq!(reason_code.as_deref(), Some("C"));
            }
            _ => panic!("a status was expected"),
        }
    }
    for status in ["succeeded", "failed", "cancelled", "timed_out"] {
        match poll_outcome(&asked, Ok(reported(status)), 1_010) {
            Some(ActionChange::Terminal { status: s, latency_ms, .. }) => {
                assert_eq!(s, status);
                assert_eq!(latency_ms, 10_000);
            }
            _ => panic!("an end was expected"),
        }
    }
    assert!(poll_outcome(&asked, Ok(reported("odd")), 1_010).is_none());
    match poll_outcome(&asked, Err("runtime poll failed".to_string()), 1_010) {
        Some(ActionChange::Retry { attempt_count, next_retry_at, reason_code, reason_message }) => {
            assert_eq!(attempt_count, 1);
            assert_eq!(next_retry_at, 1_012);
            assert_eq!(reason_code, "ORCH_DEPENDENCY_UNAVAILABLE");
            assert_eq!(reason_message, "runtime poll failed");
        }
        _ => panic!("a delay was expected"),
    }
}

#[test]
fn a_placement_without_the_runtime_succeeds_at_once() {
    match local_placement(Some("node-2".to_string()), "id".to_string()) {
        Ok(op) => {
            assert_eq!(op.operation_id, "local-placement-id");
            assert_eq!(op.operation_type.as_deref(), Some("SetPlacementPreference"));
            assert_eq!(op.status, "succeeded");
            assert_eq!(op.reason_code, None);
            assert_eq!(op.reason_message.as_deref(), Some("Assigned to node node-2"));
        }
        Err(message) => panic!("{}", message),
    }
    match local_placement(None, "id".to_string()) {
        Ok(_) => panic!("a failure was expected"),
        Err(message) => assert_eq!(message, "ELASTICITY_RESOURCE_PRESSURE"),
    }
}

fn store_with(kind: &str, payload: &str, rollback: Option<&str>) -> Store {
    let mut store = Store::new();
    let policy = WorkloadPolicyRequest {
        runtime_function_id: "f".to_string(),
        max_concurrency: 1,
        hard_quota: 1,
        soft_burst: 1,
        absolute_limit: 1,
        priority: 0,
        cooldown_seconds: 0,
        hysteresis_pct: Double { bits: 0 },
        burst_cpu_cap: Double { bits: 0 },
        burst_mem_mb: 64,
        burst_ttl_seconds: 30,
        target_container_ids: Vec::new(),
    };
    assert!(upsert_workload_policy(&mut store, "t", "w", policy, 1_000).is_ok());
    let new = NewAction {
        tenant_id: "t".to_string(),
        workload_id: "w".to_string(),
        action_type: kind.to_string(),
        payload: parse_or_empty(payload),
        ttl_seconds: 30,
        decision_window_start: 1_000,
        rollback_action: rollback.map(parse_or_empty),
        parent_action_id: None,
    };
    enqueue_action_as(&mut store, &new, "act".to_string(), 1_000);
    store
}

fn only(store: &Store, now: i64) -> DispatchAction {
    let mut due = load_dispatch_candidates(store, now);
    assert_eq!(due.len(), 1);
    due.remove(0)
}

const POOL: &str = "{\"function_id\":\"f\",\"min_instances\":1,\"max_instances\":3}";

#[test]
fn an_action_is_carried_to_its_end() {
    let cfg = config(Some("http://rt"), false);
    let mut store = store_with("SetPoolTarget", POOL, None);
    let first = only(&store, 1_001);
    assert!(action_can_be_begun(&store, &cfg, &first, 1_001));
    assert!(matches!(begin_action(&mut store, &cfg, &first, 1_001), Step::Send(_)));
    finish_dispatch(&mut store, &first, Ok(reported("accepted")), 1_002);
    assert_eq!(store.actions[0].status, "accepted");
    let second = only(&store, 1_003);
    assert_eq!(second.attempt_count, 1);
    assert!(matches!(begin_action(&mut store, &cfg, &second, 1_003), Step::Poll(_)));
    finish_poll(&mut store, &second, Ok(reported("succeeded")), 1_004);
    assert_eq!(store.actions[0].status, "succeeded");
    assert_eq!(store.actions[0].terminal_status.as_deref(), Some("succeeded"));
    assert_eq!(store.actions[0].total_latency_ms, Some(4_000));
    assert!(load_dispatch_candidates(&store, 9_999).is_empty());
}

#[test]
fn an_expired_action_fails_and_is_rolled_back() {
    let cfg = config(Some("http://rt"), false);
    let mut store = store_with("SetPoolTarget", POOL, Some("{\"undo\":1}"));
    let late = only(&store, 1_040);
    assert!(matches!(begin_action(&mut store, &cfg, &late, 1_040), Step::Done));
    assert_eq!(store.actions.len(), 2);
    assert_eq!(store.actions[0].status, "failed");
    assert_eq!(
        store.actions[0].reason_code.as_deref(),
        Some("ORCH_ROLLBACK_TRIGGERED")
    );
    assert_eq!(store.actions[1].action_type, "RollbackAction");
    assert_eq!(store.actions[1].status, "pending");

    let mut store = store_with("SetPoolTarget", POOL, None);
    let late = only(&store, 1_040);
    expire_action_as(&mut store, &late, "unused".to_string(), 1_040);
    assert_eq!(store.actions.len(), 1);
    assert_eq!(store.actions[0].reason_code.as_deref(), Some("ORCH_TTL_EXPIRED"));
    assert_eq!(
        store.actions[0].reason_message.as_deref(),
        Some("TTL expired before completion")
    );
}

#[test]
fn a_foreign_workload_is_not_touched() {
    let cfg = config(Some("http://rt"), false);
    let mut store = store_with("SetPoolTarget", POOL, None);
    store.policies.clear();
    let foreign = only(&store, 1_001);
    assert!(matches!(begin_action(&mut store, &cfg, &foreign, 1_001), Step::Done));
    assert_eq!(store.actions[0].status, "failed");
    assert_eq!(
        store.actions[0].reason_message.as_deref(),
        Some("Cross-tenant or unknown workload ownership")
    );
}

#[test]
fn a_round_stops_at_a_payload_that_lacks_something() {
    let cfg = config(Some("http://rt"), false);
    let mut store = store_with("SetPoolTarget", "{}", None);
    let broken = only(&store, 1_001);
    match begin_action(&mut store, &cfg, &broken, 1_001) {
        Step::Stop(reason) => assert_eq!(reason, "ELASTICITY_INVALID_ARGUMENT"),
        _ => panic!("a stop was expected"),
    }
    assert_eq!(store.actions[0].status, "pending");
}

#[test]
fn placements_and_failures_need_no_runtime() {
    let mut store = store_with("SetPlacementPreference", "{\"workload_id\":\"w\"}", None);
    let placed = only(&store, 1_001);
    assert!(matches!(
        begin_action(&mut store, &config(None, true), &placed, 1_001),
        Step::Done
    ));
    assert_eq!(store.actions[0].status, "succeeded");
    assert_eq!(store.actions[0].attempt_count, 1);
    let operation = store.actions[0].runtime_operation_id.clone().unwrap();
    assert!(operation.starts_with("local-placement-"));
    assert_eq!(operation.len(), 16 + 36);

    let mut store = store_with("Dance", "{}", None);
    let odd = only(&store, 1_001);
    assert!(matches!(
        begin_action(&mut store, &config(None, false), &odd, 1_001),
        Step::Done
    ));
    assert_eq!(store.actions[0].status, "failed");
    assert_eq!(
        store.actions[0].reason_code.as_deref(),
        Some("ORCH_ACTION_UNSUPPORTED")
    );

    let mut store = store_with("SetPoolTarget", POOL, None);
    store.actions[0].status = "running".to_string();
    store.actions[0].runtime_operation_id = Some("op".to_string());
    let asked = only(&store, 1_001);
    assert!(matches!(
        begin_action(&mut store, &config(None, false), &asked, 1_001),
        Step::Done
    ));
    assert_eq!(store.actions[0].status, "running");
    assert_eq!(store.actions[0].next_retry_at, 1_003);
}

#[test]
fn only_what_is_entered_has_to_fit() {
    let cfg = config(Some("http://rt"), false);
    let mut store = store_with("SetPoolTarget", POOL, None);
    store.actions[0].attempt_count = u32::MAX;
    let worn = only(&store, 1_001);
    let retried = Err("ELASTICITY_RUNTIME_UNAVAILABLE|retryable=true|later".to_string());
    let refused = Err("ELASTICITY_INVALID_ARGUMENT".to_string());

    assert!(action_can_be_begun(&store, &cfg, &worn, 1_001));
    assert!(poll_can_be_entered(&worn, &Ok(reported("succeeded")), 1_001));
    assert!(poll_can_be_entered(&worn, &Ok(reported("running")), 1_001));
    assert!(!poll_can_be_entered(&worn, &Err("lost".to_string()), 1_001));
    assert!(!dispatch_can_be_entered(&store, &worn, &Ok(reported("accepted")), 1_001));
    assert!(!dispatch_can_be_entered(&store, &worn, &retried, 1_001));
    assert!(dispatch_can_be_entered(&store, &worn, &refused, 1_001));
    finish_dispatch(&mut store, &worn, refused, 1_001);
    assert_eq!(store.actions[0].status, "failed");

    let mut store = store_with("SetPoolTarget", POOL, None);
    store.actions[0].attempt_count = u32::MAX;
    let late = only(&store, 1_040);
    assert!(action_can_be_begun(&store, &cfg, &late, 1_040));
    assert!(matches!(begin_action(&mut store, &cfg, &late, 1_040), Step::Done));
    assert_eq!(store.actions[0].status, "failed");

    let store = store_with("SetPoolTarget", POOL, None);
    let mut fresh = only(&store, 1_001);
    assert!(dispatch_can_be_entered(&store, &fresh, &Ok(reported("accepted")), 1_001));
    fresh.created_at = i64::MIN;
    assert!(dispatch_can_be_entered(&store, &fresh, &Ok(reported("accepted")), 1_001));
    assert!(!dispatch_can_be_entered(&store, &fresh, &Ok(reported("succeeded")), 1_001));
    assert!(!poll_can_be_entered(&fresh, &Ok(reported("failed")), 1_001));
    assert!(!action_can_be_begun(&store, &cfg, &fresh, 1_040));
    fresh.effective_at = i64::MAX;
    assert!(!action_can_be_begun(&store, &cfg, &fresh, 1_001));
}
