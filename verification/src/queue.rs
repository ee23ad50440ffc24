//! The action queue: what is put into it, what becomes of an action, which
//! actions are due, and how the queue is listed.
use crate::json::{
    copy_json, is_plain, json_text, parse_json, parse_or_empty, parsed, parsed_or_empty, printed,
    reads_back, Json, JsonView,
};
use crate::keys::{decision_window_start, deterministic_idempotency_key, key_of, window_start_of};
use crate::order::{
    arrange, arranged, arranged_rows_are_in_order, arranged_rows_are_the_rows, places_fit, rows_at,
    Order,
};
use crate::reasons::{
    is_runtime_non_terminal, non_terminal, opt_str, status_kinds_exclude_each_other,
    terminal_failure, terminal_success, RC_ORCH_ROLLBACK_TRIGGERED,
};
use crate::records::{
    opt_json, views, ActionRecord, ActionView, DispatchAction, DispatchView, ListedView, NewAction,
    NewActionView, OrchestratorAction,
};
use crate::store::{is_time, Store, StoreView};
use crate::table::{first_is_position, has_key, position, position_is_first, Keyed};
use crate::text::{copy_opt, opt_text, same_text};
use vstd::arithmetic::power2::{lemma2_to64, pow2};
use vstd::prelude::*;

verus! {

/// How many actions one round of dispatching takes.
pub const MAX_DISPATCH_BATCH: usize = 100;

/// Seconds between two runs of the fast loop, and the length of its decision
/// windows.
pub const FAST_LOOP_SECONDS: u64 = 5;

// ---------------------------------------------------------------------------
// Queueing
// ---------------------------------------------------------------------------

/// The text of an optional document.
pub open spec fn opt_printed(document: Option<JsonView>) -> Option<Seq<char>> {
    match document {
        Some(document) => Some(printed(document)),
        None => None,
    }
}

/// The idempotency key of a new action.
pub open spec fn new_key(new: NewActionView) -> Seq<char> {
    key_of(
        new.tenant_id,
        new.workload_id,
        new.action_type,
        new.payload,
        new.decision_window_start as int,
    )
}

/// The row of an action that is queued at `now` as `action_id`.
pub open spec fn pending(new: NewActionView, action_id: Seq<char>, now: i64) -> ActionView {
    ActionView {
        action_id,
        tenant_id: new.tenant_id,
        workload_id: new.workload_id,
        action_type: new.action_type,
        payload_json: printed(new.payload),
        ttl_seconds: new.ttl_seconds,
        rollback_action_json: opt_printed(new.rollback_action),
        parent_action_id: new.parent_action_id,
        idempotency_key: new_key(new),
        decision_window_start: new.decision_window_start,
        status: "pending"@,
        reason_code: None,
        reason_message: None,
        effective_at: now,
        outbound_requested_at: None,
        runtime_operation_id: None,
        runtime_operation_type: None,
        terminal_status: None,
        terminal_at: None,
        total_latency_ms: None,
        attempt_count: 0,
        next_retry_at: now,
        created_at: now,
        updated_at: now,
    }
}

/// The tables after an action was queued. Nothing changes where an action with
/// its idempotency key is there.
pub open spec fn enqueued(
    store: StoreView,
    new: NewActionView,
    action_id: Seq<char>,
    now: i64,
) -> StoreView {
    if has_key(store.actions, new_key(new)) {
        store
    } else {
        StoreView { actions: store.actions.push(pending(new, action_id, now)), ..store }
    }
}

/// The tables after each of the actions was queued in turn, with the ids in
/// turn.
pub open spec fn all_enqueued(
    store: StoreView,
    new: Seq<NewActionView>,
    ids: Seq<Seq<char>>,
    now: i64,
) -> StoreView
    decreases new.len(),
{
    if new.len() == 0 {
        store
    } else {
        enqueued(
            all_enqueued(store, new.drop_last(), ids.drop_last(), now),
            new.last(),
            ids.last(),
            now,
        )
    }
}

/// The character is a hexadecimal digit, with a small letter where it is one.
pub open spec fn is_hex(c: char) -> bool {
    '0' <= c <= '9' || 'a' <= c <= 'f'
}

/// The text has the form of an id: five groups of hexadecimal digits with
/// hyphens between them, marked as one drawn at random.
pub open spec fn is_id(text: Seq<char>) -> bool {
    &&& text.len() == 36
    &&& forall|i: int|
        0 <= i < 36 ==> if i == 8 || i == 13 || i == 18 || i == 23 {
            #[trigger] text[i] == '-'
        } else {
            is_hex(text[i])
        }
    &&& text[14] == '4'
    &&& text[19] == '8' || text[19] == '9' || text[19] == 'a' || text[19] == 'b'
}

/// `Uuid::new_v4` of `uuid`, written out by its `Display`: a random UUID in
/// small letters with hyphens. It ends the program where the operating system
/// gives no random numbers.
#[verifier::external_body]
pub(crate) fn fresh_id() -> (id: String)
    ensures
        is_id(id@),
{
    uuid::Uuid::new_v4().to_string()
}

/// Texts of the form of an id.
pub open spec fn are_ids(ids: Seq<Seq<char>>) -> bool {
    forall|i: int| 0 <= i < ids.len() ==> is_id(#[trigger] ids[i])
}

/// `n` ids, drawn at random.
pub fn fresh_ids(n: usize) -> (ids: Vec<String>)
    ensures
        ids@.len() == n,
        are_ids(crate::text::texts(ids@)),
{
    let mut ids: Vec<String> = Vec::new();
    for i in 0..n
        invariant
            ids@.len() == i,
            forall|k: int| 0 <= k < i ==> is_id((#[trigger] ids@[k])@),
    {
        ids.push(fresh_id());
    }
    ids
}

/// What a new action holds is read back from the queue, where it is plain.
pub open spec fn documents_read_back(new: NewActionView) -> bool {
    &&& reads_back(new.payload)
    &&& new.rollback_action matches Some(document) ==> reads_back(document)
}

/// What each of the new actions holds is read back from the queue, where it is
/// plain.
pub open spec fn all_read_back(new: Seq<NewActionView>) -> bool {
    forall|i: int| 0 <= i < new.len() ==> documents_read_back(#[trigger] new[i])
}

proof fn lemma_enqueued_sound(store: StoreView, new: NewActionView, id: Seq<char>, now: i64)
    requires
        store.sound(),
        is_time(now),
    ensures
        enqueued(store, new, id, now).sound(),
{
    position_is_first(store.actions, new_key(new));
}

/// Queues an action as `action_id`. Nothing changes where an action with its
/// idempotency key is there.
pub fn enqueue_action_as(store: &mut Store, new: &NewAction, action_id: String, now: i64)
    ensures
        final(store)@ == enqueued(old(store)@, new@, action_id@, now),
        old(store)@.sound() && is_time(now) ==> final(store)@.sound(),
        documents_read_back(new@),
{
    let key: String = deterministic_idempotency_key(
        new.tenant_id.as_str(),
        new.workload_id.as_str(),
        new.action_type.as_str(),
        &new.payload,
        new.decision_window_start,
    );
    let payload_json: String = json_text(&new.payload);
    let rollback_action_json: Option<String> = match &new.rollback_action {
        Some(document) => Some(json_text(document)),
        None => None,
    };
    let ghost rows = store@.actions;
    proof {
        if store@.sound() && is_time(now) {
            lemma_enqueued_sound(store@, new@, action_id@, now);
        }
    }
    let mut at: usize = 0;
    while at < store.actions.len()
        invariant
            at <= store.actions@.len(),
            rows == store@.actions,
            key@ == new_key(new@),
            *store == *old(store),
            documents_read_back(new@),
            forall|i: int| 0 <= i < at ==> #[trigger] rows[i].idempotency_key != key@,
        decreases store.actions@.len() - at,
    {
        assert(rows[at as int] == store.actions@[at as int]@);
        if same_text(store.actions[at].idempotency_key.as_str(), key.as_str()) {
            proof {
                first_is_position(rows, key@, at as int);
            }
            return;
        }
        at = at + 1;
    }
    proof {
        first_is_position(rows, key@, at as int);
    }
    let record = ActionRecord {
        action_id,
        tenant_id: new.tenant_id.clone(),
        workload_id: new.workload_id.clone(),
        action_type: new.action_type.clone(),
        payload_json,
        ttl_seconds: new.ttl_seconds,
        rollback_action_json,
        parent_action_id: copy_opt(&new.parent_action_id),
        idempotency_key: key,
        decision_window_start: new.decision_window_start,
        status: "pending".to_owned(),
        reason_code: None,
        reason_message: None,
        effective_at: now,
        outbound_requested_at: None,
        runtime_operation_id: None,
        runtime_operation_type: None,
        terminal_status: None,
        terminal_at: None,
        total_latency_ms: None,
        attempt_count: 0,
        next_retry_at: now,
        created_at: now,
        updated_at: now,
    };
    assert(record@ == pending(new@, action_id@, now));
    store.actions.push(record);
    assert(store@.actions =~= rows.push(record@));
}

/// Queues an action under an id drawn at random. Nothing changes where an
/// action with its idempotency key is there.
pub fn enqueue_action(store: &mut Store, new: &NewAction, now: i64)
    ensures
        exists|id: Seq<char>|
            is_id(id) && final(store)@ == #[trigger] enqueued(old(store)@, new@, id, now),
        old(store)@.sound() && is_time(now) ==> final(store)@.sound(),
        documents_read_back(new@),
{
    let id: String = fresh_id();
    let ghost drawn = id@;
    enqueue_action_as(store, new, id, now);
    assert(store@ == enqueued(old(store)@, new@, drawn, now));
}

/// Queues actions in turn, with the ids in turn.
pub fn enqueue_all(store: &mut Store, new: &Vec<NewAction>, ids: &Vec<String>, now: i64)
    requires
        ids@.len() == new@.len(),
    ensures
        final(store)@ == all_enqueued(
            old(store)@,
            views(new@),
            crate::text::texts(ids@),
            now,
        ),
        old(store)@.sound() && is_time(now) ==> final(store)@.sound(),
        all_read_back(views(new@)),
{
    let ghost all = views(new@);
    let ghost named = crate::text::texts(ids@);
    for i in 0..new.len()
        invariant
            ids@.len() == new@.len(),
            all == views(new@),
            named == crate::text::texts(ids@),
            store@ == all_enqueued(old(store)@, all.take(i as int), named.take(i as int), now),
            old(store)@.sound() && is_time(now) ==> store@.sound(),
            forall|k: int| 0 <= k < i ==> documents_read_back(#[trigger] all[k]),
    {
        assert(all[i as int] == new@[i as int]@);
        enqueue_action_as(store, &new[i], ids[i].clone(), now);
        assert(all.take(i + 1).drop_last() =~= all.take(i as int));
        assert(named.take(i + 1).drop_last() =~= named.take(i as int));
        assert(all.take(i + 1).last() == new@[i as int]@);
        assert(named.take(i + 1).last() == ids@[i as int]@);
    }
    assert(all.take(new@.len() as int) =~= all);
    assert(named.take(new@.len() as int) =~= named);
}

/// Queueing again for the same decision in the same window changes nothing,
/// however the payload was written down, whatever the id, the time, the
/// lifetime or the rollback.
pub proof fn duplicate_collapses(
    store: StoreView,
    first: NewActionView,
    second: NewActionView,
    first_id: Seq<char>,
    second_id: Seq<char>,
    first_now: i64,
    second_now: i64,
)
    requires
        first.tenant_id == second.tenant_id,
        first.workload_id == second.workload_id,
        first.action_type == second.action_type,
        first.payload == second.payload,
        first.decision_window_start == second.decision_window_start,
    ensures
        enqueued(
            enqueued(store, first, first_id, first_now),
            second,
            second_id,
            second_now,
        ) == enqueued(store, first, first_id, first_now),
{
    let after = enqueued(store, first, first_id, first_now);
    let key = new_key(first);
    position_is_first(store.actions, key);
    if !has_key(store.actions, key) {
        first_is_position(after.actions, key, store.actions.len() as int);
    }
}

/// Queueing touches no table but that of the actions.
pub proof fn queueing_leaves_the_rest(
    store: StoreView,
    new: Seq<NewActionView>,
    ids: Seq<Seq<char>>,
    now: i64,
)
    ensures
        all_enqueued(store, new, ids, now) == (StoreView {
            actions: all_enqueued(store, new, ids, now).actions,
            ..store
        }),
    decreases new.len(),
{
    if new.len() > 0 {
        queueing_leaves_the_rest(store, new.drop_last(), ids.drop_last(), now);
    }
}

/// Queueing keeps every action that is there as it is, and where it is.
pub proof fn queueing_keeps_actions(
    store: StoreView,
    new: Seq<NewActionView>,
    ids: Seq<Seq<char>>,
    now: i64,
)
    requires
        ids.len() == new.len(),
    ensures
        store.actions.is_prefix_of(all_enqueued(store, new, ids, now).actions),
        all_enqueued(store, new, ids, now).actions.len() <= store.actions.len() + new.len(),
    decreases new.len(),
{
    if new.len() > 0 {
        queueing_keeps_actions(store, new.drop_last(), ids.drop_last(), now);
    }
}

proof fn lemma_keys_are_there(
    store: StoreView,
    new: Seq<NewActionView>,
    ids: Seq<Seq<char>>,
    now: i64,
    i: int,
)
    requires
        ids.len() == new.len(),
        0 <= i < new.len(),
    ensures
        has_key(all_enqueued(store, new, ids, now).actions, new_key(new[i])),
    decreases new.len(),
{
    let front = all_enqueued(store, new.drop_last(), ids.drop_last(), now);
    let after = all_enqueued(store, new, ids, now);
    let key = new_key(new[i]);
    position_is_first(front.actions, key);
    if i == new.len() - 1 {
        if !has_key(front.actions, key) {
            first_is_position(after.actions, key, front.actions.len() as int);
        }
    } else {
        lemma_keys_are_there(store, new.drop_last(), ids.drop_last(), now, i);
        let at = position(front.actions, key);
        first_is_position(after.actions, key, at);
    }
}

proof fn lemma_nothing_new(
    store: StoreView,
    new: Seq<NewActionView>,
    ids: Seq<Seq<char>>,
    now: i64,
)
    requires
        forall|i: int| 0 <= i < new.len() ==> has_key(store.actions, #[trigger] new_key(new[i])),
    ensures
        all_enqueued(store, new, ids, now) == store,
    decreases new.len(),
{
    if new.len() > 0 {
        assert forall|i: int| 0 <= i < new.drop_last().len() implies has_key(
            store.actions,
            #[trigger] new_key(new.drop_last()[i]),
        ) by {
            assert(new.drop_last()[i] == new[i]);
        }
        lemma_nothing_new(store, new.drop_last(), ids.drop_last(), now);
        assert(has_key(store.actions, new_key(new[new.len() - 1])));
    }
}

/// Queueing the same actions again changes nothing, whatever the ids and the
/// time.
pub proof fn requeueing_changes_nothing(
    store: StoreView,
    new: Seq<NewActionView>,
    ids: Seq<Seq<char>>,
    now: i64,
    other_ids: Seq<Seq<char>>,
    other_now: i64,
)
    requires
        ids.len() == new.len(),
    ensures
        all_enqueued(all_enqueued(store, new, ids, now), new, other_ids, other_now) == all_enqueued(
            store,
            new,
            ids,
            now,
        ),
{
    let once = all_enqueued(store, new, ids, now);
    assert forall|i: int| 0 <= i < new.len() implies has_key(
        once.actions,
        #[trigger] new_key(new[i]),
    ) by {
        lemma_keys_are_there(store, new, ids, now, i);
    }
    lemma_nothing_new(once, new, other_ids, other_now);
}

// ---------------------------------------------------------------------------
// What becomes of an action
// ---------------------------------------------------------------------------

/// What happens to an action.
#[allow(inconsistent_fields)]
pub enum ActionChange {
    /// It stands at this status now.
    Status { status: String, reason_code: Option<String>, reason_message: Option<String> },
    /// It is tried again later.
    Retry {
        attempt_count: u32,
        next_retry_at: i64,
        reason_code: String,
        reason_message: String,
    },
    /// It has ended.
    Terminal {
        status: String,
        reason_code: Option<String>,
        reason_message: Option<String>,
        latency_ms: i64,
    },
    /// It was handed over, and has ended where it has a latency.
    Dispatched {
        operation_id: String,
        operation_type: Option<String>,
        status: String,
        reason_code: Option<String>,
        reason_message: Option<String>,
        latency_ms: Option<i64>,
    },
}

/// What a change holds.
#[allow(inconsistent_fields)]
pub enum ChangeView {
    Status {
        status: Seq<char>,
        reason_code: Option<Seq<char>>,
        reason_message: Option<Seq<char>>,
    },
    Retry {
        attempt_count: u32,
        next_retry_at: i64,
        reason_code: Seq<char>,
        reason_message: Seq<char>,
    },
    Terminal {
        status: Seq<char>,
        reason_code: Option<Seq<char>>,
        reason_message: Option<Seq<char>>,
        latency_ms: i64,
    },
    Dispatched {
        operation_id: Seq<char>,
        operation_type: Option<Seq<char>>,
        status: Seq<char>,
        reason_code: Option<Seq<char>>,
        reason_message: Option<Seq<char>>,
        latency_ms: Option<i64>,
    },
}

impl View for ActionChange {
    type V = ChangeView;

    open spec fn view(&self) -> ChangeView {
        match *self {
            ActionChange::Status { status, reason_code, reason_message } => ChangeView::Status {
                status: status@,
                reason_code: opt_text(reason_code),
                reason_message: opt_text(reason_message),
            },
            ActionChange::Retry { attempt_count, next_retry_at, reason_code, reason_message } =>
                ChangeView::Retry {
                attempt_count,
                next_retry_at,
                reason_code: reason_code@,
                reason_message: reason_message@,
            },
            ActionChange::Terminal { status, reason_code, reason_message, latency_ms } =>
                ChangeView::Terminal {
                status: status@,
                reason_code: opt_text(reason_code),
                reason_message: opt_text(reason_message),
                latency_ms,
            },
            ActionChange::Dispatched {
                operation_id,
                operation_type,
                status,
                reason_code,
                reason_message,
                latency_ms,
            } => ChangeView::Dispatched {
                operation_id: operation_id@,
                operation_type: opt_text(operation_type),
                status: status@,
                reason_code: opt_text(reason_code),
                reason_message: opt_text(reason_message),
                latency_ms,
            },
        }
    }
}

/// The action after a change at `now`.
pub open spec fn revised(action: ActionView, change: ChangeView, now: i64) -> ActionView {
    match change {
        ChangeView::Status { status, reason_code, reason_message } => ActionView {
            status,
            reason_code,
            reason_message,
            updated_at: now,
            ..action
        },
        ChangeView::Retry { attempt_count, next_retry_at, reason_code, reason_message } =>
            ActionView {
            attempt_count,
            next_retry_at,
            reason_code: Some(reason_code),
            reason_message: Some(reason_message),
            updated_at: now,
            ..action
        },
        ChangeView::Terminal { status, reason_code, reason_message, latency_ms } => ActionView {
            status,
            terminal_status: Some(status),
            reason_code,
            reason_message,
            terminal_at: Some(now),
            total_latency_ms: Some(latency_ms),
            updated_at: now,
            ..action
        },
        ChangeView::Dispatched {
            operation_id,
            operation_type,
            status,
            reason_code,
            reason_message,
            latency_ms,
        } => {
            let handed_over = ActionView {
                outbound_requested_at: Some(now),
                runtime_operation_id: Some(operation_id),
                runtime_operation_type: operation_type,
                status,
                reason_code,
                reason_message,
                attempt_count: (action.attempt_count + 1) as u32,
                next_retry_at: now,
                updated_at: now,
                ..action
            };
            match latency_ms {
                Some(latency_ms) => ActionView {
                    terminal_status: Some(status),
                    terminal_at: Some(now),
                    total_latency_ms: Some(latency_ms),
                    ..handed_over
                },
                None => handed_over,
            }
        },
    }
}

/// The tables after a change to the action `action_id`; all others stay as
/// they are.
pub open spec fn changed(
    store: StoreView,
    action_id: Seq<char>,
    change: ChangeView,
    now: i64,
) -> StoreView {
    StoreView {
        actions: store.actions.map_values(
            |a: ActionView|
                if a.action_id == action_id {
                    revised(a, change, now)
                } else {
                    a
                },
        ),
        ..store
    }
}

/// There is an action with this id.
pub open spec fn has_action(store: StoreView, action_id: Seq<char>) -> bool {
    exists|i: int| 0 <= i < store.actions.len() && (#[trigger] store.actions[i]).action_id == action_id
}

/// The attempts of the action can be counted on.
pub open spec fn attempts_fit(store: StoreView, action_id: Seq<char>) -> bool {
    forall|i: int|
        0 <= i < store.actions.len() && (#[trigger] store.actions[i]).action_id == action_id
            ==> store.actions[i].attempt_count < u32::MAX
}

/// Whether the attempts of the action can be counted on.
pub fn attempts_can_grow(store: &Store, action_id: &str) -> (yes: bool)
    ensures
        yes == attempts_fit(store@, action_id@),
{
    for i in 0..store.actions.len()
        invariant
            i <= store.actions@.len(),
            forall|k: int|
                0 <= k < i && (#[trigger] store@.actions[k]).action_id == action_id@
                    ==> store@.actions[k].attempt_count < u32::MAX,
    {
        assert(store@.actions[i as int] == store.actions@[i as int]@);
        if same_text(store.actions[i].action_id.as_str(), action_id)
            && store.actions[i].attempt_count == u32::MAX {
            return false;
        }
    }
    true
}

fn revise(action: &mut ActionRecord, change: &ActionChange, now: i64)
    requires
        change@ is Dispatched ==> old(action)@.attempt_count < u32::MAX,
    ensures
        final(action)@ == revised(old(action)@, change@, now),
{
    match change {
        ActionChange::Status { status, reason_code, reason_message } => {
            action.status = status.clone();
            action.reason_code = copy_opt(reason_code);
            action.reason_message = copy_opt(reason_message);
            action.updated_at = now;
        },
        ActionChange::Retry { attempt_count, next_retry_at, reason_code, reason_message } => {
            action.attempt_count = *attempt_count;
            action.next_retry_at = *next_retry_at;
            action.reason_code = Some(reason_code.clone());
            action.reason_message = Some(reason_message.clone());
            action.updated_at = now;
        },
        ActionChange::Terminal { status, reason_code, reason_message, latency_ms } => {
            action.status = status.clone();
            action.terminal_status = Some(status.clone());
            action.reason_code = copy_opt(reason_code);
            action.reason_message = copy_opt(reason_message);
            action.terminal_at = Some(now);
            action.total_latency_ms = Some(*latency_ms);
            action.updated_at = now;
        },
        ActionChange::Dispatched {
            operation_id,
            operation_type,
            status,
            reason_code,
            reason_message,
            latency_ms,
        } => {
            action.outbound_requested_at = Some(now);
            action.runtime_operation_id = Some(operation_id.clone());
            action.runtime_operation_type = copy_opt(operation_type);
            action.status = status.clone();
            action.reason_code = copy_opt(reason_code);
            action.reason_message = copy_opt(reason_message);
            action.attempt_count = action.attempt_count + 1;
            action.next_retry_at = now;
            action.updated_at = now;
            match latency_ms {
                Some(latency_ms) => {
                    action.terminal_status = Some(status.clone());
                    action.terminal_at = Some(now);
                    action.total_latency_ms = Some(*latency_ms);
                },
                None => {},
            }
        },
    }
}

/// Changes the action `action_id`, and says whether there is one.
pub fn apply_change(store: &mut Store, action_id: &str, change: &ActionChange, now: i64) -> (found:
    bool)
    requires
        change@ is Dispatched ==> attempts_fit(old(store)@, action_id@),
    ensures
        final(store)@ == changed(old(store)@, action_id@, change@, now),
        found == has_action(old(store)@, action_id@),
        old(store)@.sound() ==> final(store)@.sound(),
{
    let ghost before = store@;
    let ghost goal = changed(before, action_id@, change@, now);
    let mut found: bool = false;
    let len: usize = store.actions.len();
    for i in 0..len
        invariant
            len == store.actions@.len(),
            before == old(store)@,
            change@ is Dispatched ==> attempts_fit(before, action_id@),
            goal == changed(before, action_id@, change@, now),
            store@.actions.len() == before.actions.len(),
            forall|k: int| 0 <= k < i ==> store@.actions[k] == #[trigger] goal.actions[k],
            forall|k: int| i <= k < len ==> #[trigger] store@.actions[k] == before.actions[k],
            store@ == (StoreView { actions: store@.actions, ..before }),
            found == (exists|k: int|
                0 <= k < i && (#[trigger] before.actions[k]).action_id == action_id@),
    {
        assert(store@.actions[i as int] == before.actions[i as int]);
        if same_text(store.actions[i].action_id.as_str(), action_id) {
            let ghost rows = store@.actions;
            let ghost row = store.actions@[i as int]@;
            assert(before.actions[i as int].action_id == action_id@);
            revise(&mut store.actions[i], change, now);
            assert(store@.actions =~= rows.update(i as int, revised(row, change@, now)));
            found = true;
        }
    }
    assert(store@.actions =~= goal.actions);
    found
}

/// A change leaves sound tables sound, and every action that is not named as
/// it is.
pub proof fn change_is_confined(store: StoreView, action_id: Seq<char>, change: ChangeView, now: i64)
    ensures
        store.sound() ==> changed(store, action_id, change, now).sound(),
        changed(store, action_id, change, now).actions.len() == store.actions.len(),
        forall|i: int|
            0 <= i < store.actions.len() && store.actions[i].action_id != action_id
                ==> #[trigger] changed(store, action_id, change, now).actions[i]
                == store.actions[i],
{
    let after = changed(store, action_id, change, now);
    assert forall|i: int| 0 <= i < store.actions.len() implies (
    #[trigger] after.actions[i]).idempotency_key == store.actions[i].idempotency_key
        && after.actions[i].created_at == store.actions[i].created_at
        && after.actions[i].effective_at == store.actions[i].effective_at by {}
}

/// Whatever happens to an action, what it is stays: whose it is, what it asks,
/// its keys, and when it came.
pub proof fn change_keeps_identity(action: ActionView, change: ChangeView, now: i64)
    ensures
        ({
            let after = revised(action, change, now);
            &&& after.action_id == action.action_id
            &&& after.tenant_id == action.tenant_id
            &&& after.workload_id == action.workload_id
            &&& after.action_type == action.action_type
            &&& after.payload_json == action.payload_json
            &&& after.ttl_seconds == action.ttl_seconds
            &&& after.rollback_action_json == action.rollback_action_json
            &&& after.parent_action_id == action.parent_action_id
            &&& after.idempotency_key == action.idempotency_key
            &&& after.decision_window_start == action.decision_window_start
            &&& after.effective_at == action.effective_at
            &&& after.created_at == action.created_at
            &&& after.updated_at == now
        }),
{
}

fn copy_str(text: Option<&str>) -> (copy: Option<String>)
    ensures
        opt_text(copy) == opt_str(text),
{
    match text {
        Some(text) => Some(text.to_owned()),
        None => None,
    }
}

/// The change that only sets the status and the reason.
pub open spec fn status_set(
    status: Seq<char>,
    reason_code: Option<Seq<char>>,
    reason_message: Option<Seq<char>>,
) -> ChangeView {
    ChangeView::Status { status, reason_code, reason_message }
}

/// Sets the status and the reason of an action, if there is one.
pub fn set_action_status(
    store: &mut Store,
    action_id: &str,
    status: &str,
    reason_code: Option<&str>,
    reason_message: Option<&str>,
    now: i64,
) -> (found: bool)
    ensures
        final(store)@ == changed(
            old(store)@,
            action_id@,
            status_set(status@, opt_str(reason_code), opt_str(reason_message)),
            now,
        ),
        found == has_action(old(store)@, action_id@),
        old(store)@.sound() ==> final(store)@.sound(),
{
    let change = ActionChange::Status {
        status: status.to_owned(),
        reason_code: copy_str(reason_code),
        reason_message: copy_str(reason_message),
    };
    apply_change(store, action_id, &change, now)
}

/// Sets the status and the reason that were reported for an action. A report
/// on an unknown action is refused, and nothing changes.
pub fn update_action_result(
    store: &mut Store,
    action_id: &str,
    status: &str,
    reason_code: Option<&str>,
    reason_message: Option<&str>,
    now: i64,
) -> (done: Result<(), String>)
    ensures
        done is Ok <==> has_action(old(store)@, action_id@),
        done matches Err(message) ==> message@ == "Action not found"@ && final(store)@ == old(
            store,
        )@,
        done is Ok ==> final(store)@ == changed(
            old(store)@,
            action_id@,
            status_set(status@, opt_str(reason_code), opt_str(reason_message)),
            now,
        ),
        old(store)@.sound() ==> final(store)@.sound(),
{
    let found: bool = set_action_status(
        store,
        action_id,
        status,
        reason_code,
        reason_message,
        now,
    );
    if found {
        Ok(())
    } else {
        proof {
            let before = old(store)@;
            assert forall|i: int| 0 <= i < before.actions.len() implies store@.actions[i]
                == #[trigger] before.actions[i] by {
                assert(before.actions[i].action_id != action_id@);
            }
            assert(store@.actions =~= before.actions);
        }
        Err("Action not found".to_owned())
    }
}

/// The longest wait before an attempt, in seconds.
pub const LONGEST_WAIT: i64 = 64;

/// How long to wait before the given attempt, in seconds: twice as long as
/// before the last, and no longer than before the sixth.
pub open spec fn retry_wait(attempt_count: u32) -> int {
    pow2(
        if attempt_count < 6 {
            attempt_count as nat
        } else {
            6
        },
    ) as int
}

/// How long to wait before the given attempt, in seconds.
pub fn backoff_seconds(attempt_count: u32) -> (wait: i64)
    ensures
        wait == retry_wait(attempt_count),
        1 <= wait <= 64,
{
    proof {
        lemma2_to64();
    }
    match attempt_count {
        0 => 1,
        1 => 2,
        2 => 4,
        3 => 8,
        4 => 16,
        5 => 32,
        _ => 64,
    }
}

/// No wait is shorter than the one before it; from the first attempt on a wait
/// lasts from two seconds to sixty-four.
pub proof fn waits_grow_to_a_bound(earlier: u32, later: u32)
    requires
        1 <= earlier <= later,
    ensures
        2 <= retry_wait(earlier) <= retry_wait(later) <= 64,
        6 <= earlier ==> retry_wait(earlier) == 64,
{
    lemma2_to64();
    let e = if earlier < 6 {
        earlier as nat
    } else {
        6
    };
    let l = if later < 6 {
        later as nat
    } else {
        6
    };
    assert(e == 1 || e == 2 || e == 3 || e == 4 || e == 5 || e == 6);
    assert(l == 1 || l == 2 || l == 3 || l == 4 || l == 5 || l == 6);
}

/// Puts an action off: its next attempt comes after the wait for it.
pub fn schedule_retry(
    store: &mut Store,
    action_id: &str,
    attempt_count: u32,
    reason_code: &str,
    reason_message: &str,
    now: i64,
)
    requires
        now + retry_wait(attempt_count) <= i64::MAX,
    ensures
        final(store)@ == changed(
            old(store)@,
            action_id@,
            ChangeView::Retry {
                attempt_count,
                next_retry_at: (now + retry_wait(attempt_count)) as i64,
                reason_code: reason_code@,
                reason_message: reason_message@,
            },
            now,
        ),
        old(store)@.sound() ==> final(store)@.sound(),
{
    let change = ActionChange::Retry {
        attempt_count,
        next_retry_at: now + backoff_seconds(attempt_count),
        reason_code: reason_code.to_owned(),
        reason_message: reason_message.to_owned(),
    };
    apply_change(store, action_id, &change, now);
}

/// The milliseconds from `created_at` to `now`.
pub open spec fn latency(created_at: i64, now: i64) -> i64 {
    ((now - created_at) * 1000) as i64
}

/// The milliseconds from `created_at` to `now` can be counted.
pub open spec fn latency_fits(created_at: i64, now: i64) -> bool {
    i64::MIN <= (now - created_at) * 1000 <= i64::MAX
}

/// Whether the milliseconds from `created_at` to `now` can be counted.
pub fn latency_can_be_counted(created_at: i64, now: i64) -> (yes: bool)
    ensures
        yes == latency_fits(created_at, now),
{
    let ms: i128 = (now as i128 - created_at as i128) * 1000;
    i64::MIN as i128 <= ms && ms <= i64::MAX as i128
}

/// The milliseconds from `created_at` to `now`.
pub fn latency_ms(created_at: i64, now: i64) -> (ms: i64)
    requires
        latency_fits(created_at, now),
    ensures
        ms == latency(created_at, now),
        ms == (now - created_at) * 1000,
{
    (now - created_at) * 1000
}

/// Ends an action.
pub fn mark_terminal(
    store: &mut Store,
    action: &DispatchAction,
    status: &str,
    reason_code: Option<&str>,
    reason_message: Option<&str>,
    now: i64,
)
    requires
        latency_fits(action@.created_at, now),
    ensures
        final(store)@ == changed(
            old(store)@,
            action@.action_id,
            ChangeView::Terminal {
                status: status@,
                reason_code: opt_str(reason_code),
                reason_message: opt_str(reason_message),
                latency_ms: latency(action@.created_at, now),
            },
            now,
        ),
        old(store)@.sound() ==> final(store)@.sound(),
{
    let change = ActionChange::Terminal {
        status: status.to_owned(),
        reason_code: copy_str(reason_code),
        reason_message: copy_str(reason_message),
        latency_ms: latency_ms(action.created_at, now),
    };
    apply_change(store, action.action_id.as_str(), &change, now);
}

// ---------------------------------------------------------------------------
// Rollback
// ---------------------------------------------------------------------------

/// The action that rolls back `action`, with what it holds for that.
pub open spec fn rollback_of(action: DispatchView, payload: JsonView, now: i64) -> NewActionView {
    NewActionView {
        tenant_id: action.tenant_id,
        workload_id: action.workload_id,
        action_type: "RollbackAction"@,
        payload,
        ttl_seconds: action.ttl_seconds,
        decision_window_start: window_start_of(now as int, FAST_LOOP_SECONDS as int) as i64,
        rollback_action: None,
        parent_action_id: Some(action.action_id),
    }
}

/// The tables after the rollback of an action was queued as `id`; nothing
/// changes for an action that holds no rollback.
pub open spec fn rolled_back(
    store: StoreView,
    action: DispatchView,
    id: Seq<char>,
    now: i64,
) -> StoreView {
    match action.rollback_action_json {
        Some(payload) => changed(
            enqueued(store, rollback_of(action, payload, now), id, now),
            action.action_id,
            status_set(
                "failed"@,
                Some(RC_ORCH_ROLLBACK_TRIGGERED@),
                Some("Rollback action enqueued"@),
            ),
            now,
        ),
        None => store,
    }
}

/// Queues the rollback of an action as `id`, if it holds one, and says so in
/// the action's status.
pub fn enqueue_rollback_as(store: &mut Store, action: &DispatchAction, id: String, now: i64)
    ensures
        final(store)@ == rolled_back(old(store)@, action@, id@, now),
        action@.rollback_action_json matches Some(payload) ==> reads_back(payload),
        old(store)@.sound() && is_time(now) ==> final(store)@.sound(),
{
    match &action.rollback_action_json {
        Some(payload) => {
            let new = NewAction {
                tenant_id: action.tenant_id.clone(),
                workload_id: action.workload_id.clone(),
                action_type: "RollbackAction".to_owned(),
                payload: copy_json(payload),
                ttl_seconds: action.ttl_seconds,
                decision_window_start: decision_window_start(now, FAST_LOOP_SECONDS as i64),
                rollback_action: None,
                parent_action_id: Some(action.action_id.clone()),
            };
            assert(new@ == rollback_of(action@, payload@, now));
            enqueue_action_as(store, &new, id, now);
            set_action_status(
                store,
                action.action_id.as_str(),
                "failed",
                Some(RC_ORCH_ROLLBACK_TRIGGERED),
                Some("Rollback action enqueued"),
                now,
            );
        },
        None => {},
    }
}

/// Queues the rollback of an action under an id drawn at random, if it holds
/// one, and says so in the action's status.
pub fn enqueue_rollback(store: &mut Store, action: &DispatchAction, now: i64)
    ensures
        exists|id: Seq<char>|
            is_id(id) && final(store)@ == #[trigger] rolled_back(
                old(store)@,
                action@,
                id,
                now,
            ),
        action@.rollback_action_json matches Some(payload) ==> reads_back(payload),
        old(store)@.sound() && is_time(now) ==> final(store)@.sound(),
{
    let id: String = fresh_id();
    let ghost drawn = id@;
    enqueue_rollback_as(store, action, id, now);
    assert(store@ == rolled_back(old(store)@, action@, drawn, now));
}

// ---------------------------------------------------------------------------
// Reading the queue
// ---------------------------------------------------------------------------

/// The document that an optional text is, if it is one.
pub open spec fn opt_parsed(text: Option<Seq<char>>) -> Option<JsonView> {
    match text {
        Some(text) => parsed(text),
        None => None,
    }
}

fn parse_opt(text: &Option<String>) -> (document: Option<Json>)
    ensures
        opt_json(document) == opt_parsed(opt_text(*text)),
{
    match text {
        Some(text) => parse_json(text.as_str()),
        None => None,
    }
}

/// An action as it is listed. A payload that is no document counts as the
/// empty one, and a rollback that is none as no rollback.
pub open spec fn listed_action(row: ActionView) -> ListedView {
    ListedView {
        action_id: row.action_id,
        tenant_id: row.tenant_id,
        workload_id: row.workload_id,
        action_type: row.action_type,
        payload_json: parsed_or_empty(row.payload_json),
        ttl_seconds: row.ttl_seconds,
        rollback_action_json: opt_parsed(row.rollback_action_json),
        parent_action_id: row.parent_action_id,
        idempotency_key: row.idempotency_key,
        decision_window_start: row.decision_window_start,
        status: row.status,
        reason_code: row.reason_code,
        reason_message: row.reason_message,
        effective_at: row.effective_at,
        outbound_requested_at: row.outbound_requested_at,
        runtime_operation_id: row.runtime_operation_id,
        runtime_operation_type: row.runtime_operation_type,
        terminal_status: row.terminal_status,
        terminal_at: row.terminal_at,
        total_latency_ms: row.total_latency_ms,
        attempt_count: row.attempt_count,
        next_retry_at: row.next_retry_at,
        created_at: row.created_at,
        updated_at: row.updated_at,
    }
}

/// An action as it is listed.
pub fn row_to_action(row: &ActionRecord) -> (action: OrchestratorAction)
    ensures
        action@ == listed_action(row@),
{
    OrchestratorAction {
        action_id: row.action_id.clone(),
        tenant_id: row.tenant_id.clone(),
        workload_id: row.workload_id.clone(),
        action_type: row.action_type.clone(),
        payload_json: parse_or_empty(row.payload_json.as_str()),
        ttl_seconds: row.ttl_seconds,
        rollback_action_json: parse_opt(&row.rollback_action_json),
        parent_action_id: copy_opt(&row.parent_action_id),
        idempotency_key: row.idempotency_key.clone(),
        decision_window_start: row.decision_window_start,
        status: row.status.clone(),
        reason_code: copy_opt(&row.reason_code),
        reason_message: copy_opt(&row.reason_message),
        effective_at: row.effective_at,
        outbound_requested_at: row.outbound_requested_at,
        runtime_operation_id: copy_opt(&row.runtime_operation_id),
        runtime_operation_type: copy_opt(&row.runtime_operation_type),
        terminal_status: copy_opt(&row.terminal_status),
        terminal_at: row.terminal_at,
        total_latency_ms: row.total_latency_ms,
        attempt_count: row.attempt_count,
        next_retry_at: row.next_retry_at,
        created_at: row.created_at,
        updated_at: row.updated_at,
    }
}

/// Actions from the latest to the earliest.
pub struct NewestFirst;

impl Order<ActionRecord> for NewestFirst {
    open spec fn before(a: ActionView, b: ActionView) -> bool {
        a.created_at >= b.created_at
    }

    fn stands_before(a: &ActionRecord, b: &ActionRecord) -> (yes: bool) {
        a.created_at >= b.created_at
    }
}

/// Actions from the earliest to the latest.
pub struct OldestFirst;

impl Order<ActionRecord> for OldestFirst {
    open spec fn before(a: ActionView, b: ActionView) -> bool {
        a.created_at <= b.created_at
    }

    fn stands_before(a: &ActionRecord, b: &ActionRecord) -> (yes: bool) {
        a.created_at <= b.created_at
    }
}

/// The first `n` of a list, or all of it.
pub open spec fn at_most<T>(list: Seq<T>, n: nat) -> Seq<T> {
    if list.len() <= n {
        list
    } else {
        list.take(n as int)
    }
}

/// The action is one that was asked for: of the tenant, where one is given,
/// and at the status, where one is given.
pub open spec fn is_asked_for(
    action: ActionView,
    tenant_id: Option<Seq<char>>,
    status: Option<Seq<char>>,
) -> bool {
    &&& tenant_id matches Some(tenant_id) ==> action.tenant_id == tenant_id
    &&& status matches Some(status) ==> action.status == status
}

/// The actions that were asked for, from the latest to the earliest, no more
/// than `limit`.
pub open spec fn actions_listed(
    store: StoreView,
    tenant_id: Option<Seq<char>>,
    status: Option<Seq<char>>,
    limit: nat,
) -> Seq<ListedView> {
    at_most(
        arranged::<ActionRecord, NewestFirst>(
            store.actions.filter(|a: ActionView| is_asked_for(a, tenant_id, status)),
        ),
        limit,
    ).map_values(|a: ActionView| listed_action(a))
}

proof fn lemma_filter_step(rows: Seq<ActionView>, n: int, keep: spec_fn(ActionView) -> bool)
    requires
        0 <= n < rows.len(),
    ensures
        rows.take(n + 1).filter(keep) == if keep(rows[n]) {
            rows.take(n).filter(keep).push(rows[n])
        } else {
            rows.take(n).filter(keep)
        },
{
    reveal(Seq::filter);
    assert(rows.take(n + 1).drop_last() =~= rows.take(n));
    assert(rows.take(n + 1).last() == rows[n]);
}

/// The actions of the tenant, where one is given, at the status, where one is
/// given: from the latest to the earliest, no more than `limit`.
pub fn list_actions(
    store: &Store,
    tenant_id: Option<&str>,
    status: Option<&str>,
    limit: usize,
) -> (listed: Vec<OrchestratorAction>)
    ensures
        views(listed@) == actions_listed(
            store@,
            opt_str(tenant_id),
            opt_str(status),
            limit as nat,
        ),
{
    let ghost rows = store@.actions;
    let ghost keep = |a: ActionView| is_asked_for(a, opt_str(tenant_id), opt_str(status));
    let mut picked: Vec<usize> = Vec::new();
    proof {
        reveal(Seq::filter);
        assert(rows_at(rows, picked@) =~= Seq::empty());
        assert(rows.take(0).filter(keep) =~= Seq::empty());
    }
    for i in 0..store.actions.len()
        invariant
            i <= store.actions@.len(),
            rows == store@.actions,
            keep == (|a: ActionView| is_asked_for(a, opt_str(tenant_id), opt_str(status))),
            places_fit(picked@, store.actions@.len()),
            rows_at(rows, picked@) == rows.take(i as int).filter(keep),
    {
        proof {
            lemma_filter_step(rows, i as int, keep);
        }
        assert(rows[i as int] == store.actions@[i as int]@);
        let of_tenant: bool = match tenant_id {
            Some(tenant_id) => same_text(store.actions[i].tenant_id.as_str(), tenant_id),
            None => true,
        };
        let at_status: bool = match status {
            Some(status) => same_text(store.actions[i].status.as_str(), status),
            None => true,
        };
        if of_tenant && at_status {
            let ghost before = picked@;
            picked.push(i);
            assert(rows_at(rows, picked@) =~= rows_at(rows, before).push(rows[i as int]));
        }
    }
    assert(rows.take(rows.len() as int) =~= rows);
    let places: Vec<usize> = arrange::<ActionRecord, NewestFirst>(&store.actions, &picked);
    let count: usize = if places.len() <= limit {
        places.len()
    } else {
        limit
    };
    let ghost sorted = rows_at(rows, places@);
    let ghost goal = actions_listed(store@, opt_str(tenant_id), opt_str(status), limit as nat);
    assert(at_most(sorted, limit as nat) =~= sorted.take(count as int));
    let mut listed: Vec<OrchestratorAction> = Vec::new();
    for n in 0..count
        invariant
            count <= places@.len(),
            rows == store@.actions,
            sorted == rows_at(rows, places@),
            goal == sorted.take(count as int).map_values(|a: ActionView| listed_action(a)),
            places_fit(places@, store.actions@.len()),
            views(listed@) == goal.take(n as int),
    {
        let ghost before = views(listed@);
        let action = row_to_action(&store.actions[places[n]]);
        assert(action@ == goal[n as int]);
        listed.push(action);
        assert(views(listed@) =~= before.push(action@));
        assert(goal.take(n + 1) =~= before.push(action@));
    }
    assert(goal.take(count as int) =~= goal);
    listed
}

/// What the dispatcher needs of an action.
pub open spec fn dispatch_view(row: ActionView) -> DispatchView {
    DispatchView {
        action_id: row.action_id,
        tenant_id: row.tenant_id,
        workload_id: row.workload_id,
        action_type: row.action_type,
        payload_json: parsed_or_empty(row.payload_json),
        ttl_seconds: row.ttl_seconds,
        rollback_action_json: opt_parsed(row.rollback_action_json),
        idempotency_key: row.idempotency_key,
        status: row.status,
        effective_at: row.effective_at,
        runtime_operation_id: row.runtime_operation_id,
        attempt_count: row.attempt_count,
        created_at: row.created_at,
    }
}

fn to_dispatch(row: &ActionRecord) -> (action: DispatchAction)
    ensures
        action@ == dispatch_view(row@),
{
    DispatchAction {
        action_id: row.action_id.clone(),
        tenant_id: row.tenant_id.clone(),
        workload_id: row.workload_id.clone(),
        action_type: row.action_type.clone(),
        payload_json: parse_or_empty(row.payload_json.as_str()),
        ttl_seconds: row.ttl_seconds,
        rollback_action_json: parse_opt(&row.rollback_action_json),
        idempotency_key: row.idempotency_key.clone(),
        status: row.status.clone(),
        effective_at: row.effective_at,
        runtime_operation_id: copy_opt(&row.runtime_operation_id),
        attempt_count: row.attempt_count,
        created_at: row.created_at,
    }
}

/// The action waits to be handed over or to be asked after, and its time has
/// come.
pub open spec fn is_due(action: ActionView, now: i64) -> bool {
    (action.status == "pending"@ || non_terminal(action.status)) && action.next_retry_at <= now
}

/// The rows of the actions that are due, the earliest first, one batch of them.
pub open spec fn due_rows(store: StoreView, now: i64) -> Seq<ActionView> {
    at_most(
        arranged::<ActionRecord, OldestFirst>(
            store.actions.filter(|a: ActionView| is_due(a, now)),
        ),
        MAX_DISPATCH_BATCH as nat,
    )
}

/// The actions that are due, the earliest first, one batch of them.
pub fn load_dispatch_candidates(store: &Store, now: i64) -> (due: Vec<DispatchAction>)
    ensures
        views(due@) == due_rows(store@, now).map_values(|a: ActionView| dispatch_view(a)),
        due@.len() <= MAX_DISPATCH_BATCH,
{
    let ghost rows = store@.actions;
    let ghost keep = |a: ActionView| is_due(a, now);
    let mut picked: Vec<usize> = Vec::new();
    proof {
        reveal(Seq::filter);
        assert(rows_at(rows, picked@) =~= Seq::empty());
        assert(rows.take(0).filter(keep) =~= Seq::empty());
    }
    for i in 0..store.actions.len()
        invariant
            i <= store.actions@.len(),
            rows == store@.actions,
            keep == (|a: ActionView| is_due(a, now)),
            places_fit(picked@, store.actions@.len()),
            rows_at(rows, picked@) == rows.take(i as int).filter(keep),
    {
        proof {
            lemma_filter_step(rows, i as int, keep);
        }
        assert(rows[i as int] == store.actions@[i as int]@);
        let waits: bool = same_text(store.actions[i].status.as_str(), "pending")
            || is_runtime_non_terminal(store.actions[i].status.as_str());
        if waits && store.actions[i].next_retry_at <= now {
            let ghost before = picked@;
            picked.push(i);
            assert(rows_at(rows, picked@) =~= rows_at(rows, before).push(rows[i as int]));
        }
    }
    assert(rows.take(rows.len() as int) =~= rows);
    let places: Vec<usize> = arrange::<ActionRecord, OldestFirst>(&store.actions, &picked);
    let count: usize = if places.len() <= MAX_DISPATCH_BATCH {
        places.len()
    } else {
        MAX_DISPATCH_BATCH
    };
    let ghost sorted = rows_at(rows, places@);
    let ghost goal = due_rows(store@, now).map_values(|a: ActionView| dispatch_view(a));
    assert(at_most(sorted, MAX_DISPATCH_BATCH as nat) =~= sorted.take(count as int));
    let mut due: Vec<DispatchAction> = Vec::new();
    for n in 0..count
        invariant
            count <= places@.len(),
            rows == store@.actions,
            sorted == rows_at(rows, places@),
            goal == sorted.take(count as int).map_values(|a: ActionView| dispatch_view(a)),
            places_fit(places@, store.actions@.len()),
            views(due@) == goal.take(n as int),
    {
        let ghost before = views(due@);
        let action = to_dispatch(&store.actions[places[n]]);
        assert(action@ == goal[n as int]);
        due.push(action);
        assert(views(due@) =~= before.push(action@));
        assert(goal.take(n + 1) =~= before.push(action@));
    }
    assert(goal.take(count as int) =~= goal);
    assert(views(due@).len() == due@.len());
    due
}

proof fn lemma_filter_members(rows: Seq<ActionView>, keep: spec_fn(ActionView) -> bool)
    ensures
        forall|a: ActionView| #[trigger] rows.filter(keep).contains(a) <==> rows.contains(a) && keep(a),
    decreases rows.len(),
{
    reveal(Seq::filter);
    if rows.len() > 0 {
        let front = rows.drop_last();
        lemma_filter_members(front, keep);
        assert forall|a: ActionView| #[trigger] rows.filter(keep).contains(a) <==> rows.contains(a) && keep(
            a,
        ) by {
            let kept = front.filter(keep);
            assert(rows =~= front.push(rows.last()));
            assert(rows.contains(a) <==> front.contains(a) || a == rows.last()) by {
                if front.contains(a) {
                    let k = choose|k: int| 0 <= k < front.len() && front[k] == a;
                    assert(rows[k] == a);
                }
                if a == rows.last() {
                    assert(rows[rows.len() - 1] == a);
                }
                if rows.contains(a) && a != rows.last() {
                    let k = choose|k: int| 0 <= k < rows.len() && rows[k] == a;
                    assert(front[k] == a);
                }
            }
            assert(kept.push(rows.last()).contains(a) <==> kept.contains(a) || a == rows.last()) by {
                let more = kept.push(rows.last());
                if kept.contains(a) {
                    let k = choose|k: int| 0 <= k < kept.len() && kept[k] == a;
                    assert(more[k] == a);
                }
                if a == rows.last() {
                    assert(more[more.len() - 1] == a);
                }
                if more.contains(a) && a != rows.last() {
                    let k = choose|k: int| 0 <= k < more.len() && more[k] == a;
                    assert(kept[k] == a);
                }
            }
        }
    }
}

/// A batch holds actions that are there and due, the earliest first, no more
/// than the batch size; and all that are due where the batch is not full.
pub proof fn batch_is_due(store: StoreView, now: i64)
    ensures
        due_rows(store, now).len() <= MAX_DISPATCH_BATCH,
        forall|i: int|
            0 <= i < due_rows(store, now).len() ==> store.actions.contains(
                #[trigger] due_rows(store, now)[i],
            ) && is_due(due_rows(store, now)[i], now),
        forall|i: int, j: int|
            0 <= i < j < due_rows(store, now).len() ==> (#[trigger] due_rows(
                store,
                now,
            )[i]).created_at <= (#[trigger] due_rows(store, now)[j]).created_at,
        forall|a: ActionView|
            store.actions.contains(a) && #[trigger] is_due(a, now) && due_rows(store, now).len()
                < MAX_DISPATCH_BATCH ==> due_rows(store, now).contains(a),
{
    let keep = |a: ActionView| is_due(a, now);
    let due = store.actions.filter(keep);
    let sorted = arranged::<ActionRecord, OldestFirst>(due);
    lemma_filter_members(store.actions, keep);
    arranged_rows_are_the_rows::<ActionRecord, OldestFirst>(due);
    arranged_rows_are_in_order::<ActionRecord, OldestFirst>(due);
    assert forall|i: int| 0 <= i < due_rows(store, now).len() implies store.actions.contains(
        #[trigger] due_rows(store, now)[i],
    ) && is_due(due_rows(store, now)[i], now) by {
        assert(sorted.contains(sorted[i]));
    }
    assert forall|i: int, j: int| 0 <= i < j < due_rows(store, now).len() implies (
    #[trigger] due_rows(store, now)[i]).created_at <= (#[trigger] due_rows(
        store,
        now,
    )[j]).created_at by {
        assert(OldestFirst::before(sorted[i], sorted[j]));
    }
}

/// An action that has ended is in no batch, whatever the time.
pub proof fn ended_action_is_never_due(store: StoreView, action: ActionView, now: i64)
    requires
        terminal_success(action.status) || terminal_failure(action.status),
    ensures
        !is_due(action, now),
        !due_rows(store, now).contains(action),
{
    status_kinds_exclude_each_other(action.status);
    batch_is_due(store, now);
}

/// An action that was put off is in no batch before its time, and is due from
/// then on.
pub proof fn delayed_action_waits(action: ActionView, change: ChangeView, at: i64, now: i64)
    requires
        change is Retry,
        action.status == "pending"@ || non_terminal(action.status),
    ensures
        is_due(revised(action, change, at), now) <==> change->next_retry_at <= now,
{
}

/// What is shown is an action that is there and was asked for.
pub open spec fn shows_one_asked_for(
    store: StoreView,
    tenant_id: Option<Seq<char>>,
    status: Option<Seq<char>>,
    shown: ListedView,
) -> bool {
    exists|a: ActionView|
        store.actions.contains(a) && is_asked_for(a, tenant_id, status)
            && #[trigger] listed_action(a) == shown
}

/// A list of actions holds actions that were asked for, the latest first, no
/// more than the limit; and all that were asked for where the limit is not
/// reached.
pub proof fn list_is_newest_first(
    store: StoreView,
    tenant_id: Option<Seq<char>>,
    status: Option<Seq<char>>,
    limit: nat,
)
    ensures
        ({
            let listed = actions_listed(store, tenant_id, status, limit);
            &&& listed.len() <= limit
            &&& forall|i: int, j: int|
                0 <= i < j < listed.len() ==> (#[trigger] listed[i]).created_at >= (
                #[trigger] listed[j]).created_at
            &&& forall|i: int|
                0 <= i < listed.len() ==> shows_one_asked_for(
                    store,
                    tenant_id,
                    status,
                    #[trigger] listed[i],
                )
            &&& forall|a: ActionView|
                store.actions.contains(a) && #[trigger] is_asked_for(a, tenant_id, status)
                    && listed.len() < limit ==> listed.contains(listed_action(a))
        }),
{
    let keep = |a: ActionView| is_asked_for(a, tenant_id, status);
    let asked = store.actions.filter(keep);
    let sorted = arranged::<ActionRecord, NewestFirst>(asked);
    let listed = actions_listed(store, tenant_id, status, limit);
    lemma_filter_members(store.actions, keep);
    arranged_rows_are_the_rows::<ActionRecord, NewestFirst>(asked);
    arranged_rows_are_in_order::<ActionRecord, NewestFirst>(asked);
    assert forall|i: int, j: int| 0 <= i < j < listed.len() implies (
    #[trigger] listed[i]).created_at >= (#[trigger] listed[j]).created_at by {
        assert(NewestFirst::before(sorted[i], sorted[j]));
    }
    assert forall|i: int| 0 <= i < listed.len() implies shows_one_asked_for(
        store,
        tenant_id,
        status,
        #[trigger] listed[i],
    ) by {
        assert(sorted.contains(sorted[i]));
        assert(listed_action(sorted[i]) == listed[i]);
    }
    assert forall|a: ActionView|
        store.actions.contains(a) && #[trigger] is_asked_for(a, tenant_id, status) && listed.len()
            < limit implies listed.contains(listed_action(a)) by {
        assert(sorted.contains(a));
        let k = choose|k: int| 0 <= k < sorted.len() && sorted[k] == a;
        assert(listed[k] == listed_action(a));
    }
}

/// A plain payload and a plain rollback are read back from the queue as they
/// were put in.
pub proof fn documents_come_back(new: NewActionView, id: Seq<char>, now: i64)
    requires
        documents_read_back(new),
    ensures
        is_plain(new.payload) ==> dispatch_view(pending(new, id, now)).payload_json == new.payload
            && listed_action(pending(new, id, now)).payload_json == new.payload,
        (new.rollback_action matches Some(document) ==> is_plain(document)) ==> dispatch_view(
            pending(new, id, now),
        ).rollback_action_json == new.rollback_action && listed_action(
            pending(new, id, now),
        ).rollback_action_json == new.rollback_action,
{
}

proof fn lemma_filter_distinct(rows: Seq<ActionView>, keep: spec_fn(ActionView) -> bool)
    requires
        rows.no_duplicates(),
    ensures
        rows.filter(keep).no_duplicates(),
    decreases rows.len(),
{
    reveal(Seq::filter);
    if rows.len() > 0 {
        let front = rows.drop_last();
        lemma_filter_distinct(front, keep);
        lemma_filter_members(front, keep);
        let kept = front.filter(keep);
        let last = rows[rows.len() - 1];
        assert(!kept.contains(last)) by {
            if kept.contains(last) {
                assert(front.contains(last));
                let k = choose|k: int| 0 <= k < front.len() && front[k] == last;
                assert(rows[k] == rows[rows.len() - 1]);
            }
        }
        if keep(last) {
            let more = kept.push(last);
            assert forall|i: int, j: int|
                0 <= i < more.len() && 0 <= j < more.len() && i != j implies more[i] != more[j] by {
                if i == kept.len() {
                    assert(kept.contains(kept[j]));
                }
                if j == kept.len() {
                    assert(kept.contains(kept[i]));
                }
            }
        }
    }
}

/// A batch leaves no action out for one that came later, and takes none twice.
pub proof fn batch_takes_the_earliest(store: StoreView, now: i64, left_out: ActionView)
    requires
        store.keys_unique(),
        store.actions.contains(left_out),
        is_due(left_out, now),
    ensures
        due_rows(store, now).no_duplicates(),
        !due_rows(store, now).contains(left_out) ==> due_rows(store, now).len()
            == MAX_DISPATCH_BATCH && forall|i: int|
            0 <= i < due_rows(store, now).len() ==> (#[trigger] due_rows(store, now)[i]).created_at
                <= left_out.created_at,
{
    let keep = |a: ActionView| is_due(a, now);
    let due = store.actions.filter(keep);
    let sorted = arranged::<ActionRecord, OldestFirst>(due);
    let batch = due_rows(store, now);
    assert(store.actions.no_duplicates()) by {
        assert forall|i: int, j: int|
            0 <= i < store.actions.len() && 0 <= j < store.actions.len() && i
                != j implies store.actions[i] != store.actions[j] by {
            if i < j {
                assert(store.actions[i].key() != store.actions[j].key());
            } else {
                assert(store.actions[j].key() != store.actions[i].key());
            }
        }
    }
    lemma_filter_distinct(store.actions, keep);
    lemma_filter_members(store.actions, keep);
    arranged_rows_are_the_rows::<ActionRecord, OldestFirst>(due);
    arranged_rows_are_in_order::<ActionRecord, OldestFirst>(due);
    due.lemma_multiset_has_no_duplicates();
    sorted.lemma_multiset_has_no_duplicates_conv();
    assert forall|i: int, j: int|
        0 <= i < batch.len() && 0 <= j < batch.len() && i != j implies batch[i] != batch[j] by {
        assert(sorted[i] != sorted[j]);
    }
    if !batch.contains(left_out) {
        assert(sorted.contains(left_out));
        let k = choose|k: int| 0 <= k < sorted.len() && sorted[k] == left_out;
        if k < batch.len() {
            assert(batch[k] == left_out);
        }
        assert forall|i: int| 0 <= i < batch.len() implies (#[trigger] batch[i]).created_at
            <= left_out.created_at by {
            assert(OldestFirst::before(sorted[i], sorted[k]));
        }
    }
}

/// What happens to an action is entered in the rows with its id, and in no
/// other: a status with its reason; the time and the count of a further
/// attempt, with its reason; the end, with its time and the time it took; and a
/// hand-over, with the operation, one attempt more, and the end where it has
/// one.
pub proof fn changes_are_entered(
    store: StoreView,
    action_id: Seq<char>,
    change: ChangeView,
    now: i64,
    i: int,
)
    requires
        0 <= i < store.actions.len(),
    ensures
        ({
            let row = store.actions[i];
            let after = changed(store, action_id, change, now).actions[i];
            &&& changed(store, action_id, change, now).actions.len() == store.actions.len()
            &&& changed(store, action_id, change, now) == (StoreView {
                actions: changed(store, action_id, change, now).actions,
                ..store
            })
            &&& row.action_id != action_id ==> after == row
            &&& row.action_id == action_id ==> match change {
                ChangeView::Status { status, reason_code, reason_message } => after
                    == ActionView { status, reason_code, reason_message, updated_at: now, ..row },
                ChangeView::Retry { attempt_count, next_retry_at, reason_code, reason_message } =>
                after == ActionView {
                    attempt_count,
                    next_retry_at,
                    reason_code: Some(reason_code),
                    reason_message: Some(reason_message),
                    updated_at: now,
                    ..row
                },
                ChangeView::Terminal { status, reason_code, reason_message, latency_ms } => after
                    == ActionView {
                    status,
                    terminal_status: Some(status),
                    terminal_at: Some(now),
                    total_latency_ms: Some(latency_ms),
                    reason_code,
                    reason_message,
                    updated_at: now,
                    ..row
                },
                ChangeView::Dispatched {
                    operation_id,
                    operation_type,
                    status,
                    reason_code,
                    reason_message,
                    latency_ms,
                } => after == ActionView {
                    outbound_requested_at: Some(now),
                    runtime_operation_id: Some(operation_id),
                    runtime_operation_type: operation_type,
                    status,
                    reason_code,
                    reason_message,
                    attempt_count: (row.attempt_count + 1) as u32,
                    next_retry_at: now,
                    updated_at: now,
                    terminal_status: if latency_ms is Some {
                        Some(status)
                    } else {
                        row.terminal_status
                    },
                    terminal_at: if latency_ms is Some {
                        Some(now)
                    } else {
                        row.terminal_at
                    },
                    total_latency_ms: if latency_ms is Some {
                        latency_ms
                    } else {
                        row.total_latency_ms
                    },
                    ..row
                },
            }
        }),
{
}

/// A report is taken exactly where some row has the action's id.
pub proof fn reports_are_taken_on_known_actions(store: StoreView, action_id: Seq<char>)
    ensures
        has_action(store, action_id) <==> exists|i: int|
            0 <= i < store.actions.len() && (#[trigger] store.actions[i]).action_id == action_id,
{
}

/// What is listed of an action is what its row says; its payload and its
/// rollback are what their texts say.
pub open spec fn tells(listed: ListedView, row: ActionView) -> bool {
    &&& listed.action_id == row.action_id
    &&& listed.tenant_id == row.tenant_id
    &&& listed.workload_id == row.workload_id
    &&& listed.action_type == row.action_type
    &&& listed.ttl_seconds == row.ttl_seconds
    &&& listed.parent_action_id == row.parent_action_id
    &&& listed.idempotency_key == row.idempotency_key
    &&& listed.decision_window_start == row.decision_window_start
    &&& listed.status == row.status
    &&& listed.reason_code == row.reason_code
    &&& listed.reason_message == row.reason_message
    &&& listed.effective_at == row.effective_at
    &&& listed.outbound_requested_at == row.outbound_requested_at
    &&& listed.runtime_operation_id == row.runtime_operation_id
    &&& listed.runtime_operation_type == row.runtime_operation_type
    &&& listed.terminal_status == row.terminal_status
    &&& listed.terminal_at == row.terminal_at
    &&& listed.total_latency_ms == row.total_latency_ms
    &&& listed.attempt_count == row.attempt_count
    &&& listed.next_retry_at == row.next_retry_at
    &&& listed.created_at == row.created_at
    &&& listed.updated_at == row.updated_at
    &&& parsed(row.payload_json) matches Some(document) ==> listed.payload_json == document
    &&& parsed(row.payload_json) is None ==> listed.payload_json == JsonView::Object(
        Map::<Seq<char>, JsonView>::empty(),
    )
    &&& row.rollback_action_json matches Some(text) ==> listed.rollback_action_json == parsed(text)
    &&& row.rollback_action_json is None ==> listed.rollback_action_json is None
}

/// The row is of the tenant, where one is asked for, and stands at the status,
/// where one is.
pub open spec fn fits(
    row: ActionView,
    tenant_id: Option<Seq<char>>,
    status: Option<Seq<char>>,
) -> bool {
    (tenant_id is None || tenant_id == Some(row.tenant_id)) && (status is None || status == Some(
        row.status,
    ))
}

/// Some row that fits is told.
pub open spec fn tells_one(
    listed: ListedView,
    store: StoreView,
    tenant_id: Option<Seq<char>>,
    status: Option<Seq<char>>,
) -> bool {
    exists|k: int|
        0 <= k < store.actions.len() && fits(#[trigger] store.actions[k], tenant_id, status)
            && tells(listed, store.actions[k])
}

/// The row is told in the list.
pub open spec fn is_told(row: ActionView, list: Seq<ListedView>) -> bool {
    exists|i: int| 0 <= i < list.len() && tells(#[trigger] list[i], row)
}

/// A list tells of rows that fit, each as it stands, the latest first, no more
/// than asked for; and of all that fit, where there are fewer than that.
pub proof fn list_tells_the_rows_that_fit(
    store: StoreView,
    tenant_id: Option<Seq<char>>,
    status: Option<Seq<char>>,
    limit: nat,
)
    ensures
        ({
            let list = actions_listed(store, tenant_id, status, limit);
            &&& list.len() <= limit
            &&& forall|i: int|
                0 <= i < list.len() ==> tells_one(#[trigger] list[i], store, tenant_id, status)
            &&& forall|i: int, j: int|
                0 <= i < j < list.len() ==> (#[trigger] list[i]).created_at >= (
                #[trigger] list[j]).created_at
            &&& list.len() < limit ==> forall|k: int|
                0 <= k < store.actions.len() && fits(#[trigger] store.actions[k], tenant_id, status)
                    ==> is_told(store.actions[k], list)
        }),
{
    let list = actions_listed(store, tenant_id, status, limit);
    list_is_newest_first(store, tenant_id, status, limit);
    assert forall|i: int| 0 <= i < list.len() implies tells_one(
        #[trigger] list[i],
        store,
        tenant_id,
        status,
    ) by {
        assert(shows_one_asked_for(store, tenant_id, status, list[i]));
        let a = choose|a: ActionView|
            store.actions.contains(a) && is_asked_for(a, tenant_id, status)
                && #[trigger] listed_action(a) == list[i];
        let k = choose|k: int| 0 <= k < store.actions.len() && store.actions[k] == a;
        assert(fits(store.actions[k], tenant_id, status) && tells(list[i], store.actions[k]));
    }
    if list.len() < limit {
        assert forall|k: int|
            0 <= k < store.actions.len() && fits(
                #[trigger] store.actions[k],
                tenant_id,
                status,
            ) implies is_told(store.actions[k], list) by {
            let a = store.actions[k];
            assert(is_asked_for(a, tenant_id, status));
            assert(list.contains(listed_action(a)));
            let i = choose|i: int| 0 <= i < list.len() && list[i] == listed_action(a);
            assert(tells(list[i], a));
        }
    }
}

/// What can be counted and planned is what fits the machine's numbers: a
/// latency in milliseconds, and one attempt more of every row of the action.
pub proof fn counts_fit_the_machine(
    store: StoreView,
    action_id: Seq<char>,
    created_at: i64,
    now: i64,
)
    ensures
        latency_fits(created_at, now) <==> -0x8000_0000_0000_0000 <= (now - created_at) * 1000
            <= 0x7fff_ffff_ffff_ffff,
        latency_fits(created_at, now) ==> latency(created_at, now) == (now - created_at) * 1000,
        attempts_fit(store, action_id) <==> forall|i: int|
            0 <= i < store.actions.len() && (#[trigger] store.actions[i]).action_id == action_id
                ==> store.actions[i].attempt_count < 0xffff_ffff,
{
}

} // verus!
