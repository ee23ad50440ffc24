//! What dispatching does, from the rows of the queue to the requests that are
//! sent and to the rows that are left: each law speaks of the words, the rows
//! and the numbers themselves.
use crate::dispatch::{
    begin_fits, begun, dispatched, expired, op_view, polled, request_view, ControlRequest, Move,
    MoveView, RequestView, Step,
};
use crate::json::{parsed, printed, Json, JsonView, NumberView};
use crate::keys::{hex_of, sha256_of};
use crate::queue::{batch_is_due, dispatch_view, due_rows, enqueued, is_id, retry_wait};
use crate::reasons::{decoded, status_kinds_exclude_each_other};
use crate::records::{ActionView, ConfigView, DispatchView, NewActionView, OperationView};
use crate::store::StoreView;
use crate::table::{position_is_first, Keyed};
use crate::text::{signed_decimal, trimmed};
use vstd::arithmetic::power2::lemma2_to64;
use vstd::prelude::*;
use vstd::utf8::encode_utf8;

verus! {

// ---------------------------------------------------------------------------
// Failures
// ---------------------------------------------------------------------------

/// How long an action waits before the given attempt, in seconds: two before
/// the first, twice as long before each further one, and no longer than before
/// the sixth.
pub open spec fn doubled(attempt: int) -> int {
    if attempt >= 6 {
        64
    } else if attempt == 5 {
        32
    } else if attempt == 4 {
        16
    } else if attempt == 3 {
        8
    } else if attempt == 2 {
        4
    } else if attempt == 1 {
        2
    } else {
        1
    }
}

/// Waits double up to the sixth attempt.
pub proof fn waits_double(attempt: u32)
    ensures
        retry_wait(attempt) == doubled(attempt as int),
{
    lemma2_to64();
}

/// There is no point in trying the action again after a failure with this code
/// and hint. A pool target is tried again only where the runtime says so, and
/// never where the request or its target was at fault; every other action
/// unless the request was at fault or the runtime does not know the action.
pub open spec fn is_hopeless(action_type: Seq<char>, code: Seq<char>, hint: Option<bool>) -> bool {
    ||| code == "ELASTICITY_INVALID_ARGUMENT"@
    ||| action_type != "SetPoolTarget"@ && code == "ORCH_ACTION_UNSUPPORTED"@
    ||| action_type == "SetPoolTarget"@ && (code == "ELASTICITY_TARGET_NOT_FOUND"@ || hint != Some(
        true,
    ))
}

/// An action of any type but a pool target ends by a failure exactly where the
/// request was at fault or the runtime does not know the action; after every
/// other failure it is tried again, whatever the runtime says of that.
pub proof fn other_actions_are_tried_again(action: DispatchView, message: Seq<char>, now: i64)
    requires
        action.action_type != "SetPoolTarget"@,
    ensures
        crate::dispatch::failure_change(action, message, now) is Terminal <==> (decoded(message).0
            == "ELASTICITY_INVALID_ARGUMENT"@ || decoded(message).0 == "ORCH_ACTION_UNSUPPORTED"@),
        crate::dispatch::failure_change(action, message, now) is Retry <==> (decoded(message).0
            != "ELASTICITY_INVALID_ARGUMENT"@ && decoded(message).0 != "ORCH_ACTION_UNSUPPORTED"@),
{
}

/// A pool target ends by a failure exactly where the request or its target was
/// at fault, or the runtime did not say that it may be tried again.
pub proof fn pool_targets_are_tried_again_on_request(
    action: DispatchView,
    message: Seq<char>,
    now: i64,
)
    requires
        action.action_type == "SetPoolTarget"@,
    ensures
        crate::dispatch::failure_change(action, message, now) is Retry <==> (decoded(message).1
            == Some(true) && decoded(message).0 != "ELASTICITY_INVALID_ARGUMENT"@ && decoded(
            message,
        ).0 != "ELASTICITY_TARGET_NOT_FOUND"@),
        crate::dispatch::failure_change(action, message, now) is Terminal <==> (decoded(message).1
            != Some(true) || decoded(message).0 == "ELASTICITY_INVALID_ARGUMENT"@ || decoded(
            message,
        ).0 == "ELASTICITY_TARGET_NOT_FOUND"@),
{
}

/// The row of an action that ended at `now` with this status and reason.
pub open spec fn ended_row(
    row: ActionView,
    created_at: i64,
    status: Seq<char>,
    reason_code: Option<Seq<char>>,
    reason_message: Option<Seq<char>>,
    now: i64,
) -> ActionView {
    ActionView {
        status,
        terminal_status: Some(status),
        terminal_at: Some(now),
        total_latency_ms: Some(((now - created_at) * 1000) as i64),
        reason_code,
        reason_message,
        updated_at: now,
        ..row
    }
}

/// The row of an action that is to be tried again `wait` seconds after `now`.
pub open spec fn delayed_row(
    row: ActionView,
    attempt_count: int,
    wait: int,
    reason_code: Seq<char>,
    reason_message: Seq<char>,
    now: i64,
) -> ActionView {
    ActionView {
        attempt_count: attempt_count as u32,
        next_retry_at: (now + wait) as i64,
        reason_code: Some(reason_code),
        reason_message: Some(reason_message),
        updated_at: now,
        ..row
    }
}

/// Only the rows of the action have changed, and only in the table of actions.
pub open spec fn only_touches(before: StoreView, after: StoreView, action_id: Seq<char>) -> bool {
    &&& after.policies == before.policies
    &&& after.slos == before.slos
    &&& after.workloads == before.workloads
    &&& after.groups == before.groups
    &&& after.intents == before.intents
    &&& after.actions.len() >= before.actions.len()
    &&& forall|i: int|
        0 <= i < before.actions.len() && (#[trigger] before.actions[i]).action_id != action_id
            ==> after.actions[i] == before.actions[i]
}

/// A failure to hand an action over is entered in its row alone: where there is
/// no point in trying again the action has failed, for the reason that the
/// message gives; and otherwise one attempt more is counted, and the next comes
/// fifteen seconds on where resources were short, or else after the doubled
/// wait.
pub proof fn failed_hand_over_is_entered(
    store: StoreView,
    action: DispatchView,
    message: Seq<char>,
    now: i64,
    i: int,
)
    requires
        0 <= i < store.actions.len(),
        store.actions[i].action_id == action.action_id,
    ensures
        ({
            let after = dispatched(store, action, Err(message), now);
            let (code, hint, detail) = decoded(message);
            let row = store.actions[i];
            &&& only_touches(store, after, action.action_id)
            &&& after.actions.len() == store.actions.len()
            &&& after.actions[i] == if is_hopeless(action.action_type, code, hint) {
                ended_row(row, action.created_at, "failed"@, Some(code), Some(detail), now)
            } else {
                delayed_row(
                    row,
                    action.attempt_count + 1,
                    if code == "ELASTICITY_RESOURCE_PRESSURE"@ {
                        15
                    } else {
                        doubled((action.attempt_count + 1) as u32 as int)
                    },
                    code,
                    detail,
                    now,
                )
            }
        }),
{
    waits_double((action.attempt_count + 1) as u32);
}

/// What the runtime reports on an action that is handed over is entered in its
/// row alone: the operation, its status and reason, one attempt more; and the
/// end, where the status is one of those that end an operation.
pub proof fn hand_over_is_entered(
    store: StoreView,
    action: DispatchView,
    op: OperationView,
    now: i64,
    i: int,
)
    requires
        0 <= i < store.actions.len(),
        store.actions[i].action_id == action.action_id,
    ensures
        ({
            let after = dispatched(store, action, Ok(op), now);
            let row = store.actions[i];
            let under_way = ActionView {
                outbound_requested_at: Some(now),
                runtime_operation_id: Some(op.operation_id),
                runtime_operation_type: op.operation_type,
                status: op.status,
                reason_code: op.reason_code,
                reason_message: op.reason_message,
                attempt_count: (row.attempt_count + 1) as u32,
                next_retry_at: now,
                updated_at: now,
                ..row
            };
            &&& only_touches(store, after, action.action_id)
            &&& after.actions.len() == store.actions.len()
            &&& op.status == "succeeded"@ || op.status == "failed"@ || op.status == "cancelled"@
                || op.status == "timed_out"@ ==> after.actions[i] == ended_row(
                under_way,
                action.created_at,
                op.status,
                op.reason_code,
                op.reason_message,
                now,
            )
            &&& op.status != "succeeded"@ && op.status != "failed"@ && op.status != "cancelled"@
                && op.status != "timed_out"@ ==> after.actions[i] == under_way
        }),
{
}

/// What the runtime reports on an operation that is asked after is entered in
/// the action's row alone: while it is accepted, queued or running its status
/// and reason; its end, where it has ended; nothing, where the word is unknown.
/// Where nothing was learned, it is asked after again after the doubled wait.
pub proof fn poll_is_entered(
    store: StoreView,
    action: DispatchView,
    outcome: Result<OperationView, Seq<char>>,
    now: i64,
    i: int,
)
    requires
        0 <= i < store.actions.len(),
        store.actions[i].action_id == action.action_id,
    ensures
        ({
            let after = polled(store, action, outcome, now);
            let row = store.actions[i];
            &&& only_touches(store, after, action.action_id)
            &&& after.actions.len() == store.actions.len()
            &&& outcome matches Ok(op) ==> {
                let under_way = op.status == "accepted"@ || op.status == "queued"@ || op.status
                    == "running"@;
                let over = op.status == "succeeded"@ || op.status == "failed"@ || op.status
                    == "cancelled"@ || op.status == "timed_out"@;
                &&& under_way ==> after.actions[i] == (ActionView {
                    status: op.status,
                    reason_code: op.reason_code,
                    reason_message: op.reason_message,
                    updated_at: now,
                    ..row
                })
                &&& over ==> after.actions[i] == ended_row(
                    row,
                    action.created_at,
                    op.status,
                    op.reason_code,
                    op.reason_message,
                    now,
                )
                &&& !under_way && !over ==> after.actions[i] == row
            }
            &&& outcome matches Err(message) ==> after.actions[i] == delayed_row(
                row,
                action.attempt_count + 1,
                doubled((action.attempt_count + 1) as u32 as int),
                "ORCH_DEPENDENCY_UNAVAILABLE"@,
                message,
                now,
            )
        }),
{
    waits_double((action.attempt_count + 1) as u32);
    if let Ok(op) = outcome {
        status_kinds_exclude_each_other(op.status);
    }
}

// ---------------------------------------------------------------------------
// Candidates
// ---------------------------------------------------------------------------

/// The row waits for its time, and the time has come.
pub open spec fn waits(row: ActionView, now: i64) -> bool {
    &&& row.status == "pending"@ || row.status == "accepted"@ || row.status == "queued"@
        || row.status == "running"@
    &&& row.next_retry_at <= now
}

/// The candidate is what the row says: whose action it is, what it asks, under
/// which key, and how far it has come.
pub open spec fn shows(candidate: DispatchView, row: ActionView) -> bool {
    &&& candidate.action_id == row.action_id
    &&& candidate.tenant_id == row.tenant_id
    &&& candidate.workload_id == row.workload_id
    &&& candidate.action_type == row.action_type
    &&& candidate.idempotency_key == row.idempotency_key
    &&& candidate.status == row.status
    &&& candidate.runtime_operation_id == row.runtime_operation_id
    &&& candidate.ttl_seconds == row.ttl_seconds
    &&& candidate.effective_at == row.effective_at
    &&& candidate.created_at == row.created_at
    &&& candidate.attempt_count == row.attempt_count
    &&& parsed(row.payload_json) matches Some(document) ==> candidate.payload_json == document
    &&& parsed(row.payload_json) is None ==> candidate.payload_json == JsonView::Object(
        Map::<Seq<char>, JsonView>::empty(),
    )
    &&& row.rollback_action_json matches Some(text) ==> candidate.rollback_action_json == parsed(
        text,
    )
    &&& row.rollback_action_json is None ==> candidate.rollback_action_json is None
}

/// The candidate is some row that waits and whose time has come.
pub open spec fn is_one_waiting(candidate: DispatchView, store: StoreView, now: i64) -> bool {
    exists|k: int|
        0 <= k < store.actions.len() && waits(#[trigger] store.actions[k], now) && shows(
            candidate,
            store.actions[k],
        )
}

/// The row is among the candidates.
pub open spec fn is_among(row: ActionView, candidates: Seq<DispatchView>) -> bool {
    exists|i: int| 0 <= i < candidates.len() && shows(#[trigger] candidates[i], row)
}

/// The candidates of a round are actions of the table that wait and whose time
/// has come, each as its row says, the earliest first and a hundred at most;
/// and all such actions, where there are fewer than a hundred.
pub proof fn candidates_are_waiting_rows(store: StoreView, now: i64)
    ensures
        ({
            let batch = due_rows(store, now).map_values(|row: ActionView| dispatch_view(row));
            &&& batch.len() <= 100
            &&& forall|i: int|
                0 <= i < batch.len() ==> is_one_waiting(#[trigger] batch[i], store, now)
            &&& forall|i: int, j: int|
                0 <= i < j < batch.len() ==> (#[trigger] batch[i]).created_at <= (
                #[trigger] batch[j]).created_at
            &&& batch.len() < 100 ==> forall|k: int|
                0 <= k < store.actions.len() && waits(#[trigger] store.actions[k], now)
                    ==> is_among(store.actions[k], batch)
        }),
{
    batch_is_due(store, now);
    let rows = due_rows(store, now);
    let batch = rows.map_values(|row: ActionView| dispatch_view(row));
    assert forall|i: int| 0 <= i < batch.len() implies is_one_waiting(
        #[trigger] batch[i],
        store,
        now,
    ) by {
        assert(store.actions.contains(rows[i]));
        let k = choose|k: int| 0 <= k < store.actions.len() && store.actions[k] == rows[i];
        assert(waits(store.actions[k], now) && shows(batch[i], store.actions[k]));
    }
    assert forall|i: int, j: int| 0 <= i < j < batch.len() implies (#[trigger] batch[i]).created_at
        <= (#[trigger] batch[j]).created_at by {
        assert(rows[i].created_at <= rows[j].created_at);
    }
    if batch.len() < 100 {
        assert forall|k: int|
            0 <= k < store.actions.len() && waits(#[trigger] store.actions[k], now) implies is_among(
            store.actions[k],
            batch,
        ) by {
            assert(crate::queue::is_due(store.actions[k], now));
            assert(rows.contains(store.actions[k]));
            let i = choose|i: int| 0 <= i < rows.len() && rows[i] == store.actions[k];
            assert(shows(batch[i], store.actions[k]));
        }
    }
}

// ---------------------------------------------------------------------------
// From the queue to the request
// ---------------------------------------------------------------------------

/// From `from` on, the headers say whose the action is and which it is, and
/// show the key to the runtime where there is one; there are no others.
pub open spec fn say_who_asks(
    headers: Seq<(Seq<char>, Seq<char>)>,
    from: int,
    cfg: ConfigView,
    tenant_id: Seq<char>,
    action_id: Seq<char>,
) -> bool {
    &&& headers.len() > from + 1
    &&& headers[from] == ("X-Tenant-Id"@, tenant_id)
    &&& headers[from + 1] == ("X-Orch-Action-Id"@, action_id)
    &&& cfg.control_api_key matches Some(api_key) ==> headers.len() == from + 3 && headers[from + 2]
        == ("X-Api-Key"@, api_key)
    &&& cfg.control_api_key is None ==> headers.len() == from + 2
}

/// The request posts `body` to `path` of the runtime, under the key, for the
/// tenant and the action.
pub open spec fn is_post(
    request: RequestView,
    cfg: ConfigView,
    key: Seq<char>,
    tenant_id: Seq<char>,
    action_id: Seq<char>,
    path: Seq<char>,
    body: JsonView,
) -> bool {
    &&& cfg.control_base_url matches Some(base) && request.url == base + path
    &&& request.payload == Some(body)
    &&& request.headers.len() > 0
    &&& request.headers[0] == ("Idempotency-Key"@, key)
    &&& say_who_asks(request.headers, 1, cfg, tenant_id, action_id)
}

/// The key of a decision: the hexadecimal SHA-256 digest of its tenant, its
/// workload, the type of its action, its payload and its window, with bars
/// between them.
pub open spec fn decision_key(new: NewActionView) -> Seq<char> {
    hex_of(
        sha256_of(
            encode_utf8(
                new.tenant_id + seq!['|'] + new.workload_id + seq!['|'] + new.action_type + seq![
                    '|',
                ] + printed(new.payload) + seq!['|'] + signed_decimal(
                    new.decision_window_start as int,
                ),
            ),
        ),
    )
}

/// The row of a decision that is queued at `now` as `id`: all that it was
/// queued with, its key and its payload's text, not yet tried, due at once.
pub open spec fn fresh_row(new: NewActionView, id: Seq<char>, now: i64) -> ActionView {
    ActionView {
        action_id: id,
        tenant_id: new.tenant_id,
        workload_id: new.workload_id,
        action_type: new.action_type,
        payload_json: printed(new.payload),
        ttl_seconds: new.ttl_seconds,
        rollback_action_json: match new.rollback_action {
            Some(document) => Some(printed(document)),
            None => None,
        },
        parent_action_id: new.parent_action_id,
        idempotency_key: decision_key(new),
        decision_window_start: new.decision_window_start,
        status: "pending"@,
        reason_code: None,
        reason_message: None,
        effective_at: now,
        outbound_requested_at: None,
        runtime_operation_id: None,
        runtime_operation_type: None,
        terminal_status: None,
        terminal_at: None,
        total_latency_ms: None,
        attempt_count: 0,
        next_retry_at: now,
        created_at: now,
        updated_at: now,
    }
}

/// A decision that is queued for the first time gets a row of its own, at the
/// end: with all that it was queued with, its key and its payload's text, not
/// yet tried, due at once. One whose key is there changes nothing.
pub proof fn decision_is_queued_once(store: StoreView, new: NewActionView, id: Seq<char>, now: i64)
    ensures
        ({
            let after = enqueued(store, new, id, now);
            let there = exists|i: int|
                0 <= i < store.actions.len() && (#[trigger] store.actions[i]).idempotency_key
                    == decision_key(new);
            &&& there ==> after == store
            &&& !there ==> only_touches(store, after, id) && after.actions.len()
                == store.actions.len() + 1 && store.actions.is_prefix_of(after.actions)
                && after.actions.last() == fresh_row(new, id, now)
        }),
{
    let key = decision_key(new);
    assert(key == crate::queue::new_key(new));
    position_is_first(store.actions, key);
    assert forall|i: int| 0 <= i < store.actions.len() && (
    #[trigger] store.actions[i]).idempotency_key == key implies store.actions[i].key() == key by {}
    let after = enqueued(store, new, id, now);
    let there = exists|i: int|
        0 <= i < store.actions.len() && (#[trigger] store.actions[i]).idempotency_key == key;
    if crate::table::has_key(store.actions, key) {
        assert(store.actions[crate::table::position(store.actions, key)].idempotency_key == key);
    } else if there {
        let i = choose|i: int|
            0 <= i < store.actions.len() && (#[trigger] store.actions[i]).idempotency_key == key;
        assert(store.actions[i].key() == key);
    }
}

/// A decision that is queued and then handed to the runtime is posted under the
/// key of the decision, whatever id it was given: the key depends on the
/// decision alone, so that the runtime can tell a repetition.
pub proof fn queued_decision_is_posted_under_its_key(
    cfg: ConfigView,
    store: StoreView,
    new: NewActionView,
    id: Seq<char>,
    queued_at: i64,
    after: StoreView,
    step: Step,
    now: i64,
    i: int,
)
    requires
        forall|k: int|
            0 <= k < store.actions.len() ==> (#[trigger] store.actions[k]).action_id != id
                && store.actions[k].idempotency_key != decision_key(new),
        0 <= i < due_rows(enqueued(store, new, id, queued_at), now).len(),
        ({
            let batch = due_rows(enqueued(store, new, id, queued_at), now).map_values(
                |row: ActionView| dispatch_view(row),
            );
            &&& batch[i].action_id == id
            &&& begun(cfg, batch[i], enqueued(store, new, id, queued_at), after, step, now)
        }),
    ensures
        step matches Step::Send(request) ==> request@.headers.len() > 0 && request@.headers[0] == (
            "Idempotency-Key"@,
            decision_key(new),
        ) && forall|h: int|
            0 < h < request@.headers.len() ==> (#[trigger] request@.headers[h]).0
                != "Idempotency-Key"@,
{
    let queued = enqueued(store, new, id, queued_at);
    let rows = due_rows(queued, now);
    decision_is_queued_once(store, new, id, queued_at);
    batch_is_due(queued, now);
    assert(queued.actions.contains(rows[i]));
    let k = choose|k: int| 0 <= k < queued.actions.len() && queued.actions[k] == rows[i];
    if k < store.actions.len() {
        assert(queued.actions[k] == store.actions[k]);
    }
    assert(rows[i].idempotency_key == decision_key(new));
    reveal_strlit("Idempotency-Key");
    reveal_strlit("X-Tenant-Id");
    reveal_strlit("X-Orch-Action-Id");
    reveal_strlit("X-Api-Key");
    assert("Idempotency-Key"@.len() == 15 && "X-Tenant-Id"@.len() == 11
        && "X-Orch-Action-Id"@.len() == 16 && "X-Api-Key"@.len() == 9);
}

// ---------------------------------------------------------------------------
// What is done about an action
// ---------------------------------------------------------------------------

/// The action's time is over at `now`.
pub open spec fn is_late(action: DispatchView, now: i64) -> bool {
    now > action.effective_at + action.ttl_seconds
}

/// The tenant has a policy for the workload.
pub open spec fn has_policy(store: StoreView, tenant_id: Seq<char>, workload_id: Seq<char>) -> bool {
    exists|i: int|
        0 <= i < store.policies.len() && (#[trigger] store.policies[i]).tenant_id == tenant_id
            && store.policies[i].workload_id == workload_id
}

/// The action is in time, nothing was started for it, and its tenant has a
/// policy for the workload or is the platform.
pub open spec fn may_be_started(store: StoreView, action: DispatchView, now: i64) -> bool {
    &&& !is_late(action, now)
    &&& action.status == "pending"@ || action.runtime_operation_id is None
    &&& has_policy(store, action.tenant_id, action.workload_id) || action.tenant_id == "platform"@
}

proof fn lemma_owned(store: StoreView, tenant_id: Seq<char>, workload_id: Seq<char>)
    ensures
        crate::store::owned(store, tenant_id, workload_id) <==> has_policy(
            store,
            tenant_id,
            workload_id,
        ),
{
    let key = (tenant_id, workload_id);
    position_is_first(store.policies, key);
    if has_policy(store, tenant_id, workload_id) {
        let i = choose|i: int|
            0 <= i < store.policies.len() && (#[trigger] store.policies[i]).tenant_id == tenant_id
                && store.policies[i].workload_id == workload_id;
        assert(store.policies[i].key() == key);
    }
    if crate::store::owned(store, tenant_id, workload_id) {
        let at = crate::table::position(store.policies, key);
        assert(store.policies[at].key() == key);
    }
}

/// An action whose time is over has failed for that reason, and where it holds
/// a rollback, because that was queued; nothing is sent. The rollback is an
/// action of the same tenant and workload and with the same lifetime, names the
/// action it rolls back, and is due at once.
pub proof fn late_action_fails_and_is_rolled_back(
    cfg: ConfigView,
    action: DispatchView,
    before: StoreView,
    after: StoreView,
    step: Step,
    now: i64,
)
    requires
        begun(cfg, action, before, after, step, now),
        is_late(action, now),
        now >= 0,
    ensures
        step is Done,
        only_touches(before, after, action.action_id),
        forall|i: int|
            0 <= i < before.actions.len() && (#[trigger] before.actions[i]).action_id
                == action.action_id ==> after.actions[i] == ended_row(
                before.actions[i],
                action.created_at,
                "failed"@,
                Some(
                    if action.rollback_action_json is Some {
                        "ORCH_ROLLBACK_TRIGGERED"@
                    } else {
                        "ORCH_TTL_EXPIRED"@
                    },
                ),
                Some(
                    if action.rollback_action_json is Some {
                        "Rollback action enqueued"@
                    } else {
                        "TTL expired before completion"@
                    },
                ),
                now,
            ),
        action.rollback_action_json is None ==> after.actions.len() == before.actions.len(),
        action.rollback_action_json matches Some(document) ==> {
            let new = NewActionView {
                tenant_id: action.tenant_id,
                workload_id: action.workload_id,
                action_type: "RollbackAction"@,
                payload: document,
                ttl_seconds: action.ttl_seconds,
                decision_window_start: (now - now % 5) as i64,
                rollback_action: None,
                parent_action_id: Some(action.action_id),
            };
            &&& exists|i: int|
                0 <= i < after.actions.len() && (#[trigger] after.actions[i]).idempotency_key
                    == decision_key(new)
            &&& after.actions.len() <= before.actions.len() + 1
            &&& after.actions.len() == before.actions.len() + 1 && after.actions.last().action_id
                != action.action_id ==> after.actions.last() == fresh_row(new, after.actions.last().action_id, now)
        },
{
    let id = choose|id: Seq<char>|
        is_id(id) && after == #[trigger] expired(before, action, id, now);
    let ended = crate::queue::changed(
        before,
        action.action_id,
        crate::dispatch::expiry(action, now),
        now,
    );
    match action.rollback_action_json {
        Some(document) => {
            let new = NewActionView {
                tenant_id: action.tenant_id,
                workload_id: action.workload_id,
                action_type: "RollbackAction"@,
                payload: document,
                ttl_seconds: action.ttl_seconds,
                decision_window_start: (now - now % 5) as i64,
                rollback_action: None,
                parent_action_id: Some(action.action_id),
            };
            assert(crate::queue::rollback_of(action, document, now) == new);
            let queued = enqueued(ended, new, id, now);
            decision_is_queued_once(ended, new, id, now);
            let there = exists|i: int|
                0 <= i < ended.actions.len() && (#[trigger] ended.actions[i]).idempotency_key
                    == decision_key(new);
            let at = if there {
                choose|i: int|
                    0 <= i < ended.actions.len() && (#[trigger] ended.actions[i]).idempotency_key
                        == decision_key(new)
            } else {
                queued.actions.len() - 1
            };
            assert(queued.actions[at].idempotency_key == decision_key(new));
            assert(after.actions[at].idempotency_key == decision_key(new));
            assert forall|i: int| 0 <= i < before.actions.len() implies queued.actions[i]
                == #[trigger] ended.actions[i] by {}
            assert forall|i: int|
                0 <= i < before.actions.len() && (#[trigger] before.actions[i]).action_id
                    == action.action_id implies after.actions[i] == ended_row(
                before.actions[i],
                action.created_at,
                "failed"@,
                Some("ORCH_ROLLBACK_TRIGGERED"@),
                Some("Rollback action enqueued"@),
                now,
            ) by {
                assert(queued.actions[i] == ended.actions[i]);
            }
            assert forall|i: int|
                0 <= i < before.actions.len() && (#[trigger] before.actions[i]).action_id
                    != action.action_id implies after.actions[i] == before.actions[i] by {
                assert(queued.actions[i] == ended.actions[i]);
            }
        },
        None => {},
    }
}

/// An operation that was started for an action in time is asked after: where
/// the runtime is, under the operation's id, for the tenant and the action, and
/// nothing is posted. Where it is not known where the runtime is, the action is
/// put off.
pub proof fn started_operation_is_polled(
    cfg: ConfigView,
    action: DispatchView,
    before: StoreView,
    after: StoreView,
    step: Step,
    now: i64,
)
    requires
        begun(cfg, action, before, after, step, now),
        !is_late(action, now),
        action.status != "pending"@,
        action.runtime_operation_id is Some,
    ensures
        cfg.control_base_url matches Some(base) ==> after == before && (step matches Step::Poll(
            request,
        ) && request@.url == base + "/api/elasticity/control/operations/"@
            + action.runtime_operation_id->0 && request@.payload is None && say_who_asks(
            request@.headers,
            0,
            cfg,
            action.tenant_id,
            action.action_id,
        )),
        cfg.control_base_url is None ==> step is Done && only_touches(
            before,
            after,
            action.action_id,
        ) && forall|i: int|
            0 <= i < before.actions.len() && (#[trigger] before.actions[i]).action_id
                == action.action_id ==> after.actions[i] == delayed_row(
                before.actions[i],
                action.attempt_count + 1,
                doubled((action.attempt_count + 1) as u32 as int),
                "ORCH_DEPENDENCY_UNAVAILABLE"@,
                "ORCH_DEPENDENCY_UNAVAILABLE"@,
                now,
            ),
{
    waits_double((action.attempt_count + 1) as u32);
}

/// An action for a workload for which its tenant has no policy fails, and
/// nothing is sent, unless the tenant is the platform.
pub proof fn foreign_action_fails(
    cfg: ConfigView,
    action: DispatchView,
    before: StoreView,
    after: StoreView,
    step: Step,
    now: i64,
)
    requires
        begun(cfg, action, before, after, step, now),
        !is_late(action, now),
        action.status == "pending"@ || action.runtime_operation_id is None,
        !has_policy(before, action.tenant_id, action.workload_id),
        action.tenant_id != "platform"@,
    ensures
        step is Done,
        only_touches(before, after, action.action_id),
        after.actions.len() == before.actions.len(),
        forall|i: int|
            0 <= i < before.actions.len() && (#[trigger] before.actions[i]).action_id
                == action.action_id ==> after.actions[i] == ended_row(
                before.actions[i],
                action.created_at,
                "failed"@,
                Some("ORCH_DEPENDENCY_UNAVAILABLE"@),
                Some("Cross-tenant or unknown workload ownership"@),
                now,
            ),
{
    lemma_owned(before, action.tenant_id, action.workload_id);
}

/// Without knowing where the runtime is an action whose payload lacks nothing
/// is not sent: a pool target has failed, and every other action is put off.
pub proof fn unreachable_runtime_is_entered(
    cfg: ConfigView,
    action: DispatchView,
    before: StoreView,
    after: StoreView,
    step: Step,
    now: i64,
    i: int,
)
    requires
        begun(cfg, action, before, after, step, now),
        may_be_started(before, action, now),
        cfg.control_base_url is None,
        !cfg.local_scheduler,
        0 <= i < before.actions.len(),
        before.actions[i].action_id == action.action_id,
        action.action_type == "SetPoolTarget"@ || action.action_type == "SetBurstPolicy"@
            || action.action_type == "SetPlacementPreference"@ || action.action_type
            == "ScaleNodeGroupUp"@ || action.action_type == "ScaleNodeGroupDown"@
            || action.action_type == "RollbackAction"@,
        !(step is Stop),
    ensures
        step is Done,
        only_touches(before, after, action.action_id),
        after.actions[i] == if action.action_type == "SetPoolTarget"@ {
            ended_row(
                before.actions[i],
                action.created_at,
                "failed"@,
                Some("ORCH_DEPENDENCY_UNAVAILABLE"@),
                Some("ORCH_DEPENDENCY_UNAVAILABLE"@),
                now,
            )
        } else {
            delayed_row(
                before.actions[i],
                action.attempt_count + 1,
                doubled((action.attempt_count + 1) as u32 as int),
                "ORCH_DEPENDENCY_UNAVAILABLE"@,
                "ORCH_DEPENDENCY_UNAVAILABLE"@,
                now,
            )
        },
{
    lemma_owned(before, action.tenant_id, action.workload_id);
    let code = "ORCH_DEPENDENCY_UNAVAILABLE"@;
    crate::reasons::plain_code_is_kept(code);
    lemma_codes_differ();
    failed_hand_over_is_entered(before, action, code, now, i);
}

proof fn lemma_codes_differ()
    ensures
        "ORCH_DEPENDENCY_UNAVAILABLE"@ != "ELASTICITY_INVALID_ARGUMENT"@,
        "ORCH_DEPENDENCY_UNAVAILABLE"@ != "ELASTICITY_TARGET_NOT_FOUND"@,
        "ORCH_DEPENDENCY_UNAVAILABLE"@ != "ORCH_ACTION_UNSUPPORTED"@,
        "ORCH_DEPENDENCY_UNAVAILABLE"@ != "ELASTICITY_RESOURCE_PRESSURE"@,
        "ORCH_ACTION_UNSUPPORTED"@ != "ELASTICITY_INVALID_ARGUMENT"@,
{
    reveal_strlit("ORCH_DEPENDENCY_UNAVAILABLE");
    reveal_strlit("ELASTICITY_INVALID_ARGUMENT");
    reveal_strlit("ELASTICITY_TARGET_NOT_FOUND");
    reveal_strlit("ORCH_ACTION_UNSUPPORTED");
    reveal_strlit("ELASTICITY_RESOURCE_PRESSURE");
    assert("ORCH_DEPENDENCY_UNAVAILABLE"@[0] == 'O' && "ORCH_ACTION_UNSUPPORTED"@[0] == 'O'
        && "ELASTICITY_INVALID_ARGUMENT"@[0] == 'E' && "ELASTICITY_TARGET_NOT_FOUND"@[0] == 'E'
        && "ELASTICITY_RESOURCE_PRESSURE"@[0] == 'E');
    assert("ORCH_DEPENDENCY_UNAVAILABLE"@[5] == 'D' && "ORCH_ACTION_UNSUPPORTED"@[5] == 'A');
}

/// An action of a type that the runtime does not know has failed, and nothing
/// is sent.
pub proof fn unknown_action_fails(
    cfg: ConfigView,
    action: DispatchView,
    before: StoreView,
    after: StoreView,
    step: Step,
    now: i64,
    i: int,
)
    requires
        begun(cfg, action, before, after, step, now),
        may_be_started(before, action, now),
        0 <= i < before.actions.len(),
        before.actions[i].action_id == action.action_id,
        action.action_type != "SetPoolTarget"@,
        action.action_type != "SetBurstPolicy"@,
        action.action_type != "SetPlacementPreference"@,
        action.action_type != "ScaleNodeGroupUp"@,
        action.action_type != "ScaleNodeGroupDown"@,
        action.action_type != "RollbackAction"@,
    ensures
        step is Done,
        only_touches(before, after, action.action_id),
        after.actions[i] == ended_row(
            before.actions[i],
            action.created_at,
            "failed"@,
            Some("ORCH_ACTION_UNSUPPORTED"@),
            Some("ORCH_ACTION_UNSUPPORTED"@),
            now,
        ),
{
    lemma_owned(before, action.tenant_id, action.workload_id);
    let code = "ORCH_ACTION_UNSUPPORTED"@;
    crate::reasons::plain_code_is_kept(code);
    failed_hand_over_is_entered(before, action, code, now, i);
}

/// The document is an object with a member of this name.
pub open spec fn names(document: JsonView, name: Seq<char>) -> bool {
    document matches JsonView::Object(members) && members.contains_key(name)
}

/// What the member of this name holds.
pub open spec fn held(document: JsonView, name: Seq<char>) -> JsonView {
    document->Object_0[name]
}

/// The member of this name holds a text with more in it than white space.
pub open spec fn has_word(document: JsonView, name: Seq<char>) -> bool {
    &&& names(document, name)
    &&& held(document, name) matches JsonView::Text(text) && trimmed(text).len() > 0
}

/// The text of the member of this name, without the white space around it.
pub open spec fn word(document: JsonView, name: Seq<char>) -> Seq<char> {
    trimmed(held(document, name)->Text_0)
}

/// The member of this name holds a number from zero up.
pub open spec fn has_count(document: JsonView, name: Seq<char>) -> bool {
    names(document, name) && held(document, name) matches JsonView::Number(NumberView::Unsigned(_))
}

/// The step stops the round because the payload lacks something, and nothing
/// has changed.
pub open spec fn is_stopped(before: StoreView, after: StoreView, step: Step) -> bool {
    after == before && (step matches Step::Stop(reason) && reason@
        == "ELASTICITY_INVALID_ARGUMENT"@)
}

/// A pool target is posted to its function, with the two sizes that its payload
/// gives; where the function or a size is missing, the round stops.
pub proof fn pool_target_is_posted(
    cfg: ConfigView,
    action: DispatchView,
    before: StoreView,
    after: StoreView,
    step: Step,
    now: i64,
)
    requires
        begun(cfg, action, before, after, step, now),
        may_be_started(before, action, now),
        cfg.control_base_url is Some,
        action.action_type == "SetPoolTarget"@,
    ensures
        ({
            let payload = action.payload_json;
            let complete = has_word(payload, "function_id"@) && has_count(
                payload,
                "min_instances"@,
            ) && has_count(payload, "max_instances"@);
            &&& complete ==> after == before && (step matches Step::Send(request) && is_post(
                request@,
                cfg,
                action.idempotency_key,
                action.tenant_id,
                action.action_id,
                "/api/elasticity/control/functions/"@ + word(payload, "function_id"@)
                    + "/pool-target"@,
                JsonView::Object(
                    map![
                        "min_instances"@ => held(payload, "min_instances"@),
                        "max_instances"@ => held(payload, "max_instances"@),
                    ],
                ),
            ))
            &&& !complete ==> is_stopped(before, after, step)
        }),
{
    lemma_owned(before, action.tenant_id, action.workload_id);
    lemma_types_differ();
}

/// A limit is posted to its container, as the payload gives it; where the
/// container or a limit is missing, the round stops.
pub proof fn burst_policy_is_posted(
    cfg: ConfigView,
    action: DispatchView,
    before: StoreView,
    after: StoreView,
    step: Step,
    now: i64,
)
    requires
        begun(cfg, action, before, after, step, now),
        may_be_started(before, action, now),
        cfg.control_base_url is Some,
        action.action_type == "SetBurstPolicy"@,
    ensures
        ({
            let payload = action.payload_json;
            let complete = names(payload, "container_id"@) && held(
                payload,
                "container_id"@,
            ) is Text && has_count(payload, "memory_limit_mb"@) && has_count(
                payload,
                "cpu_limit_percent"@,
            );
            &&& complete ==> after == before && (step matches Step::Send(request) && is_post(
                request@,
                cfg,
                action.idempotency_key,
                action.tenant_id,
                action.action_id,
                "/api/elasticity/control/containers/"@ + held(
                    payload,
                    "container_id"@,
                )->Text_0 + "/resize"@,
                JsonView::Object(
                    map![
                        "memory_limit_mb"@ => held(payload, "memory_limit_mb"@),
                        "cpu_limit_percent"@ => held(payload, "cpu_limit_percent"@),
                    ],
                ),
            ))
            &&& !complete ==> is_stopped(before, after, step)
        }),
{
    lemma_owned(before, action.tenant_id, action.workload_id);
    lemma_types_differ();
}

/// A placement is posted to its workload, with the node group, and apart from
/// others where the payload says so; where the workload or the group is
/// missing, the round stops.
pub proof fn placement_is_posted(
    cfg: ConfigView,
    action: DispatchView,
    before: StoreView,
    after: StoreView,
    step: Step,
    now: i64,
)
    requires
        begun(cfg, action, before, after, step, now),
        may_be_started(before, action, now),
        cfg.control_base_url is Some,
        !cfg.local_scheduler,
        action.action_type == "SetPlacementPreference"@,
    ensures
        ({
            let payload = action.payload_json;
            let complete = has_word(payload, "workload_id"@) && has_word(payload, "node_group"@);
            &&& complete ==> after == before && (step matches Step::Send(request) && is_post(
                request@,
                cfg,
                action.idempotency_key,
                action.tenant_id,
                action.action_id,
                "/api/elasticity/control/workloads/"@ + word(payload, "workload_id"@)
                    + "/placement-preference"@,
                JsonView::Object(
                    map![
                        "node_group"@ => JsonView::Text(word(payload, "node_group"@)),
                        "anti_affinity"@ => JsonView::Bool(
                            names(payload, "anti_affinity"@) && held(payload, "anti_affinity"@)
                                == JsonView::Bool(true),
                        ),
                    ],
                ),
            ))
            &&& !complete ==> is_stopped(before, after, step)
        }),
{
    lemma_owned(before, action.tenant_id, action.workload_id);
    lemma_types_differ();
}

/// The member of this name holds a whole number that fits 64 bits with a sign.
pub open spec fn has_amount(document: JsonView, name: Seq<char>) -> bool {
    &&& names(document, name)
    &&& match held(document, name) {
        JsonView::Number(NumberView::Unsigned(n)) => n <= i64::MAX,
        JsonView::Number(NumberView::Negative(_)) => true,
        _ => false,
    }
}

/// A scaling, up or down, is posted to its node group, with the units that the
/// payload gives; where the group or the units are missing, the round stops.
pub proof fn scaling_is_posted(
    cfg: ConfigView,
    action: DispatchView,
    before: StoreView,
    after: StoreView,
    step: Step,
    now: i64,
)
    requires
        begun(cfg, action, before, after, step, now),
        may_be_started(before, action, now),
        cfg.control_base_url is Some,
        action.action_type == "ScaleNodeGroupUp"@ || action.action_type == "ScaleNodeGroupDown"@,
        held(action.payload_json, "delta_units"@) matches JsonView::Number(
            NumberView::Negative(n),
        ) ==> n < 0,
    ensures
        ({
            let payload = action.payload_json;
            let complete = has_word(payload, "node_group"@) && has_amount(
                payload,
                "delta_units"@,
            );
            &&& complete ==> after == before && (step matches Step::Send(request) && is_post(
                request@,
                cfg,
                action.idempotency_key,
                action.tenant_id,
                action.action_id,
                "/api/elasticity/control/node-groups/"@ + word(payload, "node_group"@)
                    + "/scale"@,
                JsonView::Object(map!["delta_units"@ => held(payload, "delta_units"@)]),
            ))
            &&& !complete ==> is_stopped(before, after, step)
        }),
{
    lemma_owned(before, action.tenant_id, action.workload_id);
    lemma_types_differ();
}

/// The text that the member of this name holds, or null.
pub open spec fn text_or_nothing(document: JsonView, name: Seq<char>) -> JsonView {
    if names(document, name) && held(document, name) is Text {
        held(document, name)
    } else {
        JsonView::Null
    }
}

/// A rollback is posted to the action that its payload names, or else to
/// itself, with what the payload says of the action, its operation, the reason
/// and what to undo; what is missing is null.
pub proof fn rollback_is_posted(
    cfg: ConfigView,
    action: DispatchView,
    before: StoreView,
    after: StoreView,
    step: Step,
    now: i64,
)
    requires
        begun(cfg, action, before, after, step, now),
        may_be_started(before, action, now),
        cfg.control_base_url is Some,
        action.action_type == "RollbackAction"@,
    ensures
        ({
            let payload = action.payload_json;
            after == before && (step matches Step::Send(request) && is_post(
                request@,
                cfg,
                action.idempotency_key,
                action.tenant_id,
                action.action_id,
                "/api/elasticity/control/actions/"@ + (if has_word(payload, "target_action_id"@) {
                    word(payload, "target_action_id"@)
                } else {
                    action.action_id
                }) + "/rollback"@,
                JsonView::Object(
                    map![
                        "target_action_id"@ => text_or_nothing(payload, "target_action_id"@),
                        "target_operation_id"@ => text_or_nothing(payload, "target_operation_id"@),
                        "reason_code"@ => text_or_nothing(payload, "reason_code"@),
                        "reason_message"@ => text_or_nothing(payload, "reason_message"@),
                        "payload"@ => if names(payload, "payload"@) {
                            held(payload, "payload"@)
                        } else {
                            JsonView::Null
                        },
                    ],
                ),
            ))
        }),
{
    lemma_owned(before, action.tenant_id, action.workload_id);
    lemma_types_differ();
}

/// Where the orchestrator places workloads itself, a placement is not sent: it
/// has succeeded at once, on one of the two nodes that suit best.
pub proof fn local_placement_succeeds(
    cfg: ConfigView,
    action: DispatchView,
    before: StoreView,
    after: StoreView,
    step: Step,
    now: i64,
    i: int,
)
    requires
        begun(cfg, action, before, after, step, now),
        may_be_started(before, action, now),
        cfg.local_scheduler,
        action.action_type == "SetPlacementPreference"@,
        0 <= i < before.actions.len(),
        before.actions[i].action_id == action.action_id,
    ensures
        step is Done,
        only_touches(before, after, action.action_id),
        exists|node: Seq<char>, id: Seq<char>|
            (node == "node-2"@ || node == "node-3"@) && is_id(id) && after.actions[i]
                == #[trigger] placed_row(before.actions[i], action.created_at, node, id, now),
{
    lemma_owned(before, action.tenant_id, action.workload_id);
    lemma_types_differ();
    let (node, id) = choose|node: Seq<char>, id: Seq<char>|
        is_id(id) && (node == "node-2"@ || node == "node-3"@) && after == dispatched(
            before,
            action,
            #[trigger] crate::dispatch::placement_outcome(Some(node), id),
            now,
        );
    let op = crate::dispatch::placement_outcome(Some(node), id)->Ok_0;
    hand_over_is_entered(before, action, op, now, i);
    assert(after.actions[i] == placed_row(before.actions[i], action.created_at, node, id, now));
}

/// The row of a placement that was made on `node` without the runtime.
pub open spec fn placed_row(
    row: ActionView,
    created_at: i64,
    node: Seq<char>,
    id: Seq<char>,
    now: i64,
) -> ActionView {
    ActionView {
        outbound_requested_at: Some(now),
        runtime_operation_id: Some("local-placement-"@ + id),
        runtime_operation_type: Some("SetPlacementPreference"@),
        status: "succeeded"@,
        terminal_status: Some("succeeded"@),
        terminal_at: Some(now),
        total_latency_ms: Some(((now - created_at) * 1000) as i64),
        reason_code: None,
        reason_message: Some("Assigned to node "@ + node),
        attempt_count: (row.attempt_count + 1) as u32,
        next_retry_at: now,
        updated_at: now,
        ..row
    }
}

proof fn lemma_types_differ()
    ensures
        "SetPoolTarget"@ != "SetBurstPolicy"@,
        "SetPoolTarget"@ != "SetPlacementPreference"@,
        "SetPoolTarget"@ != "ScaleNodeGroupUp"@,
        "SetPoolTarget"@ != "ScaleNodeGroupDown"@,
        "SetPoolTarget"@ != "RollbackAction"@,
        "SetBurstPolicy"@ != "SetPlacementPreference"@,
        "SetBurstPolicy"@ != "ScaleNodeGroupUp"@,
        "SetBurstPolicy"@ != "ScaleNodeGroupDown"@,
        "SetBurstPolicy"@ != "RollbackAction"@,
        "SetPlacementPreference"@ != "ScaleNodeGroupUp"@,
        "SetPlacementPreference"@ != "ScaleNodeGroupDown"@,
        "SetPlacementPreference"@ != "RollbackAction"@,
        "ScaleNodeGroupUp"@ != "RollbackAction"@,
        "ScaleNodeGroupDown"@ != "RollbackAction"@,
        "ScaleNodeGroupUp"@ != "ScaleNodeGroupDown"@,
{
    reveal_strlit("SetPoolTarget");
    reveal_strlit("SetBurstPolicy");
    reveal_strlit("SetPlacementPreference");
    reveal_strlit("RollbackAction");
    reveal_strlit("ScaleNodeGroupUp");
    reveal_strlit("ScaleNodeGroupDown");
    assert("SetPoolTarget"@.len() == 13 && "SetBurstPolicy"@.len() == 14
        && "SetPlacementPreference"@.len() == 22 && "RollbackAction"@.len() == 14
        && "ScaleNodeGroupUp"@.len() == 16 && "ScaleNodeGroupDown"@.len() == 18);
    assert("SetBurstPolicy"@[0] == 'S' && "RollbackAction"@[0] == 'R');
}

/// What queueing several decisions in turn does: the rows that are there stay
/// as they are, the key of each decision is there afterwards, and every row
/// that is added is the fresh row of one of the decisions, with the id for it.
pub proof fn decisions_are_queued(
    store: StoreView,
    new: Seq<NewActionView>,
    ids: Seq<Seq<char>>,
    now: i64,
)
    requires
        ids.len() == new.len(),
    ensures
        ({
            let after = crate::queue::all_enqueued(store, new, ids, now);
            &&& store.actions.is_prefix_of(after.actions)
            &&& forall|n: int| 0 <= n < new.len() ==> has_row_for(after, #[trigger] new[n])
            &&& forall|k: int|
                store.actions.len() <= k < after.actions.len() ==> is_fresh(
                    #[trigger] after.actions[k],
                    new,
                    ids,
                    now,
                )
        }),
    decreases new.len(),
{
    if new.len() > 0 {
        let front = new.drop_last();
        let firsts = ids.drop_last();
        let most = crate::queue::all_enqueued(store, front, firsts, now);
        let after = crate::queue::all_enqueued(store, new, ids, now);
        decisions_are_queued(store, front, firsts, now);
        decision_is_queued_once(most, new.last(), ids.last(), now);
        assert(most.actions.is_prefix_of(after.actions));
        assert forall|n: int| 0 <= n < new.len() implies has_row_for(after, #[trigger] new[n]) by {
            if n < front.len() {
                assert(has_row_for(most, front[n]));
                let k = choose|k: int|
                    0 <= k < most.actions.len() && (#[trigger] most.actions[k]).idempotency_key
                        == decision_key(front[n]);
                assert(after.actions[k] == most.actions[k]);
            } else if after != most {
                let k = after.actions.len() - 1;
                assert(after.actions[k].idempotency_key == decision_key(new[n]));
            }
        }
        assert forall|k: int| store.actions.len() <= k < after.actions.len() implies is_fresh(
            #[trigger] after.actions[k],
            new,
            ids,
            now,
        ) by {
            if k < most.actions.len() {
                assert(after.actions[k] == most.actions[k]);
                assert(is_fresh(most.actions[k], front, firsts, now));
                let n = choose|n: int|
                    0 <= n < front.len() && most.actions[k] == #[trigger] fresh_row(
                        front[n],
                        firsts[n],
                        now,
                    );
                assert(after.actions[k] == fresh_row(new[n], ids[n], now));
            } else {
                let n = new.len() - 1;
                assert(after.actions[k] == fresh_row(new[n], ids[n], now));
            }
        }
    }
}

/// Some row has the key of the decision.
pub open spec fn has_row_for(store: StoreView, new: NewActionView) -> bool {
    exists|k: int|
        0 <= k < store.actions.len() && (#[trigger] store.actions[k]).idempotency_key
            == decision_key(new)
}

/// The row is the fresh row of one of the decisions, with the id for it.
pub open spec fn is_fresh(
    row: ActionView,
    new: Seq<NewActionView>,
    ids: Seq<Seq<char>>,
    now: i64,
) -> bool {
    exists|n: int| 0 <= n < new.len() && row == #[trigger] fresh_row(new[n], ids[n], now)
}

/// A placement without the runtime names the node and is known by the id; where
/// no node was found, resources are short.
pub proof fn placement_names_its_node(node: Seq<char>, id: Seq<char>)
    ensures
        crate::dispatch::placement_outcome(Some(node), id) == Ok::<OperationView, Seq<char>>(
            OperationView {
                operation_id: "local-placement-"@ + id,
                operation_type: Some("SetPlacementPreference"@),
                status: "succeeded"@,
                reason_code: None,
                reason_message: Some("Assigned to node "@ + node),
            },
        ),
        crate::dispatch::placement_outcome(None, id) == Err::<OperationView, Seq<char>>(
            "ELASTICITY_RESOURCE_PRESSURE"@,
        ),
{
}

/// A request is its address, its headers, each with its name and what it holds,
/// in order, and its payload.
pub proof fn request_is_its_fields(request: ControlRequest)
    ensures
        request@.url == request.url@,
        request@.headers.len() == request.headers@.len(),
        forall|i: int|
            0 <= i < request.headers@.len() ==> (#[trigger] request@.headers[i]).0
                == request.headers@[i].0@ && request@.headers[i].1 == request.headers@[i].1@,
        request@.payload is Some <==> request.payload is Some,
        request.payload matches Some(document) ==> request@.payload == Some(document@),
{
}

/// What is to be done is told as it is: the request, the workload or the message
/// that goes with it.
pub proof fn moves_are_what_they_hold(request: ControlRequest, text: String, op: (String, Json))
    ensures
        Move::Expire@ is Expire,
        Move::Disown@ is Disown,
        Move::Abort@ is Abort,
        Move::Poll(request)@ == MoveView::Poll(request@),
        Move::Send(request)@ == MoveView::Send(request@),
        Move::FailPoll(text)@ == MoveView::FailPoll(text@),
        Move::Fail(text)@ == MoveView::Fail(text@),
        Move::PlaceLocally(text)@ == MoveView::PlaceLocally(text@),
        op_view(Some(op)) == Some((op.0@, op.1@)),
        op_view(None) is None,
        request_view(Ok(request)) == Ok::<RequestView, Seq<char>>(request@),
        request_view(Err(text)) == Err::<RequestView, Seq<char>>(text@),
{
}

/// What can be begun and entered is what fits the machine's numbers: the end of
/// a lifetime, and the count and the time of a further attempt.
pub proof fn attempts_fit_the_machine(action: DispatchView, now: i64)
    ensures
        crate::dispatch::lifetime_fits(action) <==> action.effective_at + action.ttl_seconds
            <= 0x7fff_ffff_ffff_ffff,
        crate::dispatch::retry_fits(action, now) <==> action.attempt_count < 0xffff_ffff && now
            + 64 <= 0x7fff_ffff_ffff_ffff,
{
}

/// An action can be begun with, and whatever comes of it entered, where its
/// lifetime, its latency, its attempts and the time of the next one fit.
pub proof fn nothing_else_stands_in_the_way(
    cfg: ConfigView,
    store: StoreView,
    action: DispatchView,
    outcome: Result<OperationView, Seq<char>>,
    now: i64,
)
    requires
        action.effective_at + action.ttl_seconds <= 0x7fff_ffff_ffff_ffff,
        -0x8000_0000_0000_0000 <= (now - action.created_at) * 1000 <= 0x7fff_ffff_ffff_ffff,
        action.attempt_count < 0xffff_ffff,
        now + 64 <= 0x7fff_ffff_ffff_ffff,
        forall|i: int|
            0 <= i < store.actions.len() && (#[trigger] store.actions[i]).action_id
                == action.action_id ==> store.actions[i].attempt_count < 0xffff_ffff,
    ensures
        begin_fits(cfg, store, action, now),
        crate::dispatch::poll_fits(action, outcome, now),
        crate::dispatch::dispatch_fits(store, action, outcome, now),
{
}

} // verus!
