use quilt_mesh::json::{json_text, Json};
use quilt_mesh::queue::{
    apply_change, attempts_can_grow, backoff_seconds, enqueue_action, enqueue_action_as,
    enqueue_all, enqueue_rollback, enqueue_rollback_as, fresh_ids, latency_ms, list_actions,
    load_dispatch_candidates, mark_terminal, row_to_action, schedule_retry, set_action_status,
    update_action_result, ActionChange, MAX_DISPATCH_BATCH,
};
use quilt_mesh::records::{DispatchAction, NewAction};
use quilt_mesh::store::Store;

fn new_action(tenant: &str, workload: &str, window: i64) -> NewAction {
    NewAction {
        tenant_id: tenant.to_string(),
        workload_id: workload.to_string(),
        action_type: "SetPoolTarget".to_string(),
        payload: Json::empty_object()
            .with("b", Json::unsigned(1))
            .with("a", Json::text("x")),
        ttl_seconds: 30,
        decision_window_start: window,
        rollback_action: Some(Json::empty_object().with("undo", Json::Bool(true))),
        parent_action_id: None,
    }
}

fn queued(count: i64) -> Store {
    let mut store = Store::new();
    for n in 0..count {
        enqueue_action_as(
            &mut store,
            &new_action("t", "w", n),
            format!("id-{}", n),
            1_000 + n,
        );
    }
    store
}

fn candidate(store: &Store, now: i64, id: &str) -> DispatchAction {
    for action in load_dispatch_candidates(store, now) {
        if action.action_id == id {
            return action;
        }
    }
    panic!("no candidate {}", id)
}

#[test]
fn a_queued_action_waits_with_what_it_was_given() {
    let store = queued(1);
    let row = &store.actions[0];
    assert_eq!(row.action_id, "id-0");
    assert_eq!(row.payload_json, "{\"a\":\"x\",\"b\":1}");
    assert_eq!(row.rollback_action_json.as_deref(), Some("{\"undo\":true}"));
    assert_eq!(row.status, "pending");
    assert_eq!(row.attempt_count, 0);
    assert_eq!(
        (row.effective_at, row.next_retry_at, row.created_at, row.updated_at),
        (1_000, 1_000, 1_000, 1_000)
    );
    assert_eq!(row.idempotency_key.len(), 64);
    assert_eq!(row.terminal_status, None);
    assert_eq!(row.runtime_operation_id, None);
    let action = row_to_action(row);
    assert_eq!(json_text(&action.payload_json), "{\"a\":\"x\",\"b\":1}");
    assert_eq!(action.ttl_seconds, 30);
}

#[test]
fn queueing_again_changes_nothing() {
    let mut store = queued(2);
    let mut again = new_action("t", "w", 0);
    again.payload = Json::empty_object()
        .with("a", Json::text("x"))
        .with("b", Json::unsigned(1));
    again.ttl_seconds = 99;
    enqueue_action_as(&mut store, &again, "other".to_string(), 5_000);
    assert_eq!(store.actions.len(), 2);
    assert_eq!(store.actions[0].ttl_seconds, 30);
    let news = vec![new_action("t", "w", 0), new_action("t", "v", 0), new_action("t", "v", 0)];
    enqueue_all(&mut store, &news, &fresh_ids(3), 6_000);
    assert_eq!(store.actions.len(), 3);
    let before = store.actions.len();
    enqueue_all(&mut store, &news, &fresh_ids(3), 7_000);
    assert_eq!(store.actions.len(), before);
    assert!(store.is_sound());
}

#[test]
fn ids_are_drawn_for_each_action() {
    let ids = fresh_ids(3);
    assert_eq!(ids.len(), 3);
    for id in &ids {
        assert_eq!(id.len(), 36);
        for (i, c) in id.chars().enumerate() {
            match i {
                8 | 13 | 18 | 23 => assert_eq!(c, '-'),
                14 => assert_eq!(c, '4'),
                19 => assert!("89ab".contains(c)),
                _ => assert!("0123456789abcdef".contains(c)),
            }
        }
    }
    assert_ne!(ids[0], ids[1]);
    let mut store = Store::new();
    enqueue_action(&mut store, &new_action("t", "w", 1), 1_000);
    assert_eq!(store.actions[0].action_id.len(), 36);
}

#[test]
fn waits_double_up_to_a_bound() {
    let waits: Vec<i64> = (0..9).map(backoff_seconds).collect();
    assert_eq!(waits, vec![1, 2, 4, 8, 16, 32, 64, 64, 64]);
    assert_eq!(backoff_seconds(u32::MAX), 64);
    assert_eq!(latency_ms(1_000, 1_003), 3_000);
    assert_eq!(latency_ms(1_003, 1_000), -3_000);
}

#[test]
fn a_delayed_action_is_not_due_before_its_time() {
    let mut store = queued(1);
    schedule_retry(&mut store, "id-0", 3, "CODE", "why", 2_000);
    let row = &store.actions[0];
    assert_eq!(row.attempt_count, 3);
    assert_eq!(row.next_retry_at, 2_008);
    assert_eq!(row.reason_code.as_deref(), Some("CODE"));
    assert_eq!(row.reason_message.as_deref(), Some("why"));
    assert_eq!(row.status, "pending");
    assert!(load_dispatch_candidates(&store, 2_007).is_empty());
    assert_eq!(load_dispatch_candidates(&store, 2_008).len(), 1);
}

#[test]
fn an_ended_action_is_never_due_again() {
    let mut store = queued(2);
    let action = candidate(&store, 3_000, "id-0");
    mark_terminal(&mut store, &action, "failed", Some("CODE"), None, 3_000);
    let row = &store.actions[0];
    assert_eq!(row.status, "failed");
    assert_eq!(row.terminal_status.as_deref(), Some("failed"));
    assert_eq!(row.reason_code.as_deref(), Some("CODE"));
    assert_eq!(row.reason_message, None);
    assert_eq!(row.terminal_at, Some(3_000));
    assert_eq!(row.total_latency_ms, Some(2_000_000));
    for now in [3_000, 10_000, 1_000_000_000] {
        let due = load_dispatch_candidates(&store, now);
        assert_eq!(due.len(), 1);
        assert_eq!(due[0].action_id, "id-1");
    }
}

#[test]
fn batches_are_bounded_and_the_earliest_come_first() {
    let mut store = Store::new();
    for n in 0..130i64 {
        enqueue_action_as(
            &mut store,
            &new_action("t", "w", n),
            format!("id-{}", n),
            2_000 - n,
        );
    }
    let due = load_dispatch_candidates(&store, 2_000);
    assert_eq!(due.len(), MAX_DISPATCH_BATCH);
    assert_eq!(due[0].action_id, "id-129");
    for pair in due.windows(2) {
        assert!(pair[0].created_at <= pair[1].created_at);
    }
    assert_eq!(load_dispatch_candidates(&store, 1_871).len(), 1);
    assert_eq!(load_dispatch_candidates(&store, 1_870).len(), 0);
}

#[test]
fn actions_at_one_time_keep_their_order() {
    let mut store = Store::new();
    for n in 0..3i64 {
        enqueue_action_as(&mut store, &new_action("t", "w", n), format!("id-{}", n), 500);
    }
    let due: Vec<String> = load_dispatch_candidates(&store, 500)
        .into_iter()
        .map(|a| a.action_id)
        .collect();
    assert_eq!(due, vec!["id-0", "id-1", "id-2"]);
    let listed: Vec<String> = list_actions(&store, None, None, 10)
        .into_iter()
        .map(|a| a.action_id)
        .collect();
    assert_eq!(listed, vec!["id-0", "id-1", "id-2"]);
}

#[test]
fn actions_are_listed_by_tenant_and_status() {
    let mut store = Store::new();
    for n in 0..6i64 {
        let tenant = if n % 2 == 0 { "even" } else { "odd" };
        enqueue_action_as(
            &mut store,
            &new_action(tenant, "w", n),
            format!("id-{}", n),
            100 + n,
        );
    }
    assert!(set_action_status(&mut store, "id-4", "running", None, None, 200));
    let names = |tenant: Option<&str>, status: Option<&str>, limit: usize| -> Vec<String> {
        list_actions(&store, tenant, status, limit)
            .into_iter()
            .map(|a| a.action_id)
            .collect()
    };
    assert_eq!(names(None, None, 3), vec!["id-5", "id-4", "id-3"]);
    assert_eq!(names(Some("even"), None, 9), vec!["id-4", "id-2", "id-0"]);
    assert_eq!(names(None, Some("running"), 9), vec!["id-4"]);
    assert_eq!(names(Some("even"), Some("pending"), 9), vec!["id-2", "id-0"]);
    assert_eq!(names(Some("odd"), Some("running"), 9), Vec::<String>::new());
    assert_eq!(names(None, None, 0), Vec::<String>::new());
}

#[test]
fn a_report_sets_the_status_of_a_known_action() {
    let mut store = queued(2);
    assert_eq!(
        update_action_result(&mut store, "id-1", "running", Some("C"), Some("m"), 9),
        Ok(())
    );
    assert_eq!(store.actions[1].status, "running");
    assert_eq!(store.actions[1].reason_code.as_deref(), Some("C"));
    assert_eq!(store.actions[1].updated_at, 9);
    assert_eq!(store.actions[0].status, "pending");
    assert_eq!(
        update_action_result(&mut store, "nobody", "failed", None, None, 10),
        Err("Action not found".to_string())
    );
    assert_eq!(store.actions[0].updated_at, 1_000);
}

#[test]
fn documents_that_cannot_be_read_count_as_empty() {
    let mut store = queued(1);
    store.actions[0].payload_json = "oops".to_string();
    store.actions[0].rollback_action_json = Some("oops".to_string());
    let listed = row_to_action(&store.actions[0]);
    assert_eq!(json_text(&listed.payload_json), "{}");
    assert!(listed.rollback_action_json.is_none());
    let action = candidate(&store, 2_000, "id-0");
    assert_eq!(json_text(&action.payload_json), "{}");
    assert!(action.rollback_action_json.is_none());
}

#[test]
fn a_rollback_is_queued_for_its_action() {
    let mut store = queued(1);
    let action = candidate(&store, 1_003, "id-0");
    enqueue_rollback_as(&mut store, &action, "undo".to_string(), 1_003);
    assert_eq!(store.actions.len(), 2);
    assert_eq!(store.actions[0].status, "failed");
    assert_eq!(
        store.actions[0].reason_code.as_deref(),
        Some("ORCH_ROLLBACK_TRIGGERED")
    );
    assert_eq!(
        store.actions[0].reason_message.as_deref(),
        Some("Rollback action enqueued")
    );
    let rollback = &store.actions[1];
    assert_eq!(rollback.action_id, "undo");
    assert_eq!(rollback.action_type, "RollbackAction");
    assert_eq!(rollback.parent_action_id.as_deref(), Some("id-0"));
    assert_eq!(rollback.payload_json, "{\"undo\":true}");
    assert_eq!(rollback.decision_window_start, 1_000);
    assert_eq!(rollback.ttl_seconds, 30);
    assert_eq!(rollback.rollback_action_json, None);
    enqueue_rollback(&mut store, &action, 1_004);
    assert_eq!(store.actions.len(), 2);
}

#[test]
fn an_action_without_a_rollback_stays() {
    let mut store = queued(1);
    store.actions[0].rollback_action_json = None;
    let action = candidate(&store, 1_003, "id-0");
    enqueue_rollback(&mut store, &action, 1_003);
    assert_eq!(store.actions.len(), 1);
    assert_eq!(store.actions[0].status, "pending");
}

#[test]
fn a_hand_over_is_entered() {
    let mut store = queued(1);
    let change = ActionChange::Dispatched {
        operation_id: "op".to_string(),
        operation_type: Some("kind".to_string()),
        status: "accepted".to_string(),
        reason_code: None,
        reason_message: Some("m".to_string()),
        latency_ms: None,
    };
    assert!(attempts_can_grow(&store, "id-0"));
    assert!(apply_change(&mut store, "id-0", &change, 1_010));
    let row = &store.actions[0];
    assert_eq!(row.outbound_requested_at, Some(1_010));
    assert_eq!(row.runtime_operation_id.as_deref(), Some("op"));
    assert_eq!(row.runtime_operation_type.as_deref(), Some("kind"));
    assert_eq!(row.status, "accepted");
    assert_eq!(row.attempt_count, 1);
    assert_eq!(row.next_retry_at, 1_010);
    assert_eq!(row.terminal_status, None);
    assert!(!apply_change(&mut store, "nobody", &change, 1_011));
    store.actions[0].attempt_count = u32::MAX;
    assert!(!attempts_can_grow(&store, "id-0"));
    assert!(attempts_can_grow(&store, "nobody"));
}

#[test]
fn queued_documents_come_back() {
    let mut new = new_action("t", "w", 0);
    new.payload = Json::empty_object().with(
        "steps",
        Json::Array(vec![Json::empty_object().with("n", Json::signed(-3)), Json::Null]),
    );
    new.rollback_action = Some(Json::empty_object().with(
        "undo",
        Json::Array(vec![Json::Array(vec![Json::text("x")])]),
    ));
    let mut store = Store::new();
    enqueue_action_as(&mut store, &new, "id-0".to_string(), 1_000);
    let listed = row_to_action(&store.actions[0]);
    assert_eq!(json_text(&listed.payload_json), "{\"steps\":[{\"n\":-3},null]}");
    assert_eq!(
        listed.rollback_action_json.as_ref().map(json_text).as_deref(),
        Some("{\"undo\":[[\"x\"]]}")
    );
    let due = candidate(&store, 1_000, "id-0");
    assert_eq!(json_text(&due.payload_json), json_text(&listed.payload_json));
    assert_eq!(
        due.rollback_action_json.as_ref().map(json_text).as_deref(),
        Some("{\"undo\":[[\"x\"]]}")
    );
}
