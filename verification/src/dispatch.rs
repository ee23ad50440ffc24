//! Carrying actions out: what is to be done about an action, what is asked of
//! the runtime for it, and what the outcome means.
use crate::json::{
    bool_member, copy_json, i64_member, member, no_members, signed_number, text_member, u64_member,
    with_member, Json, JsonView, NumberView,
};
use crate::queue::{
    apply_change, attempts_can_grow, attempts_fit, backoff_seconds, batch_is_due, changed,
    dispatch_view, due_rows, ended_action_is_never_due, enqueue_rollback_as, enqueued, fresh_id,
    is_due, is_id, latency, latency_can_be_counted, latency_fits, latency_ms, mark_terminal,
    new_key, retry_wait, revised, rollback_of, rolled_back, status_set, waits_grow_to_a_bound,
    ActionChange, ChangeView, LONGEST_WAIT,
};
use crate::reasons::{
    decoded, failure_text, failure_text_is_read_back, is_runtime_non_terminal,
    is_runtime_terminal_failure, is_runtime_terminal_success, non_terminal, parse_dispatch_error,
    status_kinds_exclude_each_other, terminal_failure, terminal_success, PLATFORM_TENANT_ID,
    RC_INVALID_ARGUMENT, RC_ORCH_ACTION_UNSUPPORTED, RC_ORCH_DEPENDENCY_UNAVAILABLE,
    RC_ORCH_ROLLBACK_TRIGGERED, RC_ORCH_TTL_EXPIRED, RC_RESOURCE_PRESSURE, RC_TARGET_NOT_FOUND,
    RUNTIME_SUCCESS,
};
use crate::records::{
    ActionView, ConfigView, DispatchAction, DispatchView, ExecutionConfig, OperationView,
    RuntimeOperation,
};
use crate::runtime::{outcome_view, text_or};
use crate::scheduler::local_schedule_workload;
use crate::store::{is_time, owned, workload_ownership_valid, Store, StoreView};
use crate::table::{has_key, position, position_is_first, Keyed};
use crate::text::{joined, opt_text, same_text, trim, trimmed};
use vstd::prelude::*;

verus! {

// ---------------------------------------------------------------------------
// Requests
// ---------------------------------------------------------------------------

/// A request to the runtime: it posts the payload, or, without one, asks.
pub struct ControlRequest {
    pub url: String,
    pub headers: Vec<(String, String)>,
    pub payload: Option<Json>,
}

#[verifier::ext_equal]
pub struct RequestView {
    pub url: Seq<char>,
    pub headers: Seq<(Seq<char>, Seq<char>)>,
    pub payload: Option<JsonView>,
}

/// What each header holds.
pub open spec fn header_views(headers: Seq<(String, String)>) -> Seq<(Seq<char>, Seq<char>)> {
    headers.map_values(|header: (String, String)| (header.0@, header.1@))
}

impl View for ControlRequest {
    type V = RequestView;

    open spec fn view(&self) -> RequestView {
        RequestView {
            url: self.url@,
            headers: header_views(self.headers@),
            payload: crate::records::opt_json(self.payload),
        }
    }
}

/// The headers of every request for an action: whose it is, which action it
/// is for, and the key to the runtime where there is one.
pub open spec fn common_headers(cfg: ConfigView, action: DispatchView) -> Seq<
    (Seq<char>, Seq<char>),
> {
    let named = seq![
        ("X-Tenant-Id"@, action.tenant_id),
        ("X-Orch-Action-Id"@, action.action_id),
    ];
    match cfg.control_api_key {
        Some(api_key) => named.push(("X-Api-Key"@, api_key)),
        None => named,
    }
}

/// The request that posts `payload` to `path`, where it is known where the
/// runtime is. It carries the action's idempotency key.
pub open spec fn post_request(
    cfg: ConfigView,
    action: DispatchView,
    path: Seq<char>,
    payload: JsonView,
) -> Result<RequestView, Seq<char>> {
    match cfg.control_base_url {
        Some(base) => Ok(
            RequestView {
                url: base + path,
                headers: seq![("Idempotency-Key"@, action.idempotency_key)] + common_headers(
                    cfg,
                    action,
                ),
                payload: Some(payload),
            },
        ),
        None => Err(RC_ORCH_DEPENDENCY_UNAVAILABLE@),
    }
}

/// The request that asks after an operation, where it is known where the
/// runtime is.
pub open spec fn poll_request(
    cfg: ConfigView,
    action: DispatchView,
    operation_id: Seq<char>,
) -> Result<RequestView, Seq<char>> {
    match cfg.control_base_url {
        Some(base) => Ok(
            RequestView {
                url: base + "/api/elasticity/control/operations/"@ + operation_id,
                headers: common_headers(cfg, action),
                payload: None,
            },
        ),
        None => Err(RC_ORCH_DEPENDENCY_UNAVAILABLE@),
    }
}

/// What an attempt to make a request holds.
pub open spec fn request_view(request: Result<ControlRequest, String>) -> Result<
    RequestView,
    Seq<char>,
> {
    match request {
        Ok(request) => Ok(request@),
        Err(message) => Err(message@),
    }
}

fn add_header(headers: &mut Vec<(String, String)>, name: &str, held: &str)
    ensures
        header_views(final(headers)@) == header_views(old(headers)@).push((name@, held@)),
{
    let ghost before = header_views(headers@);
    headers.push((name.to_owned(), held.to_owned()));
    assert(header_views(headers@) =~= before.push((name@, held@)));
}

fn add_common_headers(
    headers: &mut Vec<(String, String)>,
    cfg: &ExecutionConfig,
    action: &DispatchAction,
)
    ensures
        header_views(final(headers)@) == header_views(old(headers)@) + common_headers(
            cfg@,
            action@,
        ),
{
    let ghost before = header_views(headers@);
    add_header(headers, "X-Tenant-Id", action.tenant_id.as_str());
    add_header(headers, "X-Orch-Action-Id", action.action_id.as_str());
    match &cfg.control_api_key {
        Some(api_key) => {
            add_header(headers, "X-Api-Key", api_key.as_str());
        },
        None => {},
    }
    assert(header_views(headers@) =~= before + common_headers(cfg@, action@));
}

/// The request that posts `payload` to `path`.
pub fn dispatch_control_operation(
    cfg: &ExecutionConfig,
    action: &DispatchAction,
    path: &str,
    payload: Json,
) -> (request: Result<ControlRequest, String>)
    ensures
        request_view(request) == post_request(cfg@, action@, path@, payload@),
{
    match &cfg.control_base_url {
        Some(base) => {
            let mut headers: Vec<(String, String)> = Vec::new();
            assert(header_views(headers@) =~= Seq::empty());
            add_header(&mut headers, "Idempotency-Key", action.idempotency_key.as_str());
            add_common_headers(&mut headers, cfg, action);
            assert(header_views(headers@) =~= seq![("Idempotency-Key"@, action@.idempotency_key)]
                + common_headers(cfg@, action@));
            Ok(ControlRequest { url: joined(base.as_str(), path), headers, payload: Some(payload) })
        },
        None => Err(RC_ORCH_DEPENDENCY_UNAVAILABLE.to_owned()),
    }
}

/// The request that asks after an operation.
pub fn poll_control_operation(cfg: &ExecutionConfig, action: &DispatchAction, operation_id: &str)
    -> (request: Result<ControlRequest, String>)
    ensures
        request_view(request) == poll_request(cfg@, action@, operation_id@),
{
    match &cfg.control_base_url {
        Some(base) => {
            let mut headers: Vec<(String, String)> = Vec::new();
            assert(header_views(headers@) =~= Seq::empty());
            add_common_headers(&mut headers, cfg, action);
            assert(header_views(headers@) =~= common_headers(cfg@, action@));
            let stem: String = joined(base.as_str(), "/api/elasticity/control/operations/");
            Ok(
                ControlRequest {
                    url: joined(stem.as_str(), operation_id),
                    headers,
                    payload: None,
                },
            )
        },
        None => Err(RC_ORCH_DEPENDENCY_UNAVAILABLE.to_owned()),
    }
}

// ---------------------------------------------------------------------------
// What an action asks of the runtime
// ---------------------------------------------------------------------------

/// The text that the member holds, without the white space around it, where
/// anything is left of it.
pub open spec fn nonblank_member(document: JsonView, name: Seq<char>) -> Option<Seq<char>> {
    match text_member(document, name) {
        Some(text) => if trimmed(text).len() > 0 {
            Some(trimmed(text))
        } else {
            None
        },
        None => None,
    }
}

fn get_nonblank(document: &Json, name: &str) -> (found: Option<String>)
    ensures
        opt_text(found) == nonblank_member(document@, name@),
{
    match document.get_text(name) {
        Some(text) => {
            let core: String = trim(text.as_str());
            if core.as_str().unicode_len() > 0 {
                Some(core)
            } else {
                None
            }
        },
        None => None,
    }
}

/// The text, or null where there is none.
pub open spec fn text_or_null(text: Option<Seq<char>>) -> JsonView {
    match text {
        Some(text) => JsonView::Text(text),
        None => JsonView::Null,
    }
}

/// Where an operation goes and what is posted there.
pub open spec fn op_view(op: Option<(String, Json)>) -> Option<(Seq<char>, JsonView)> {
    match op {
        Some(op) => Some((op.0@, op.1@)),
        None => None,
    }
}

/// Sets how many instances of a function are held ready.
pub open spec fn pool_target_op(payload: JsonView) -> Option<(Seq<char>, JsonView)> {
    match (
        nonblank_member(payload, "function_id"@),
        u64_member(payload, "min_instances"@),
        u64_member(payload, "max_instances"@),
    ) {
        (Some(id), Some(min), Some(max)) => Some(
            (
                "/api/elasticity/control/functions/"@ + id + "/pool-target"@,
                with_member(
                    with_member(
                        no_members(),
                        "min_instances"@,
                        JsonView::Number(NumberView::Unsigned(min)),
                    ),
                    "max_instances"@,
                    JsonView::Number(NumberView::Unsigned(max)),
                ),
            ),
        ),
        _ => None,
    }
}

/// Sets the limits of a container.
pub open spec fn burst_policy_op(payload: JsonView) -> Option<(Seq<char>, JsonView)> {
    match (
        text_member(payload, "container_id"@),
        u64_member(payload, "memory_limit_mb"@),
        u64_member(payload, "cpu_limit_percent"@),
    ) {
        (Some(id), Some(memory), Some(cpu)) => Some(
            (
                "/api/elasticity/control/containers/"@ + id + "/resize"@,
                with_member(
                    with_member(
                        no_members(),
                        "memory_limit_mb"@,
                        JsonView::Number(NumberView::Unsigned(memory)),
                    ),
                    "cpu_limit_percent"@,
                    JsonView::Number(NumberView::Unsigned(cpu)),
                ),
            ),
        ),
        _ => None,
    }
}

/// Says where a workload should run.
pub open spec fn placement_op(payload: JsonView) -> Option<(Seq<char>, JsonView)> {
    match (nonblank_member(payload, "workload_id"@), nonblank_member(payload, "node_group"@)) {
        (Some(id), Some(group)) => Some(
            (
                "/api/elasticity/control/workloads/"@ + id + "/placement-preference"@,
                with_member(
                    with_member(no_members(), "node_group"@, JsonView::Text(group)),
                    "anti_affinity"@,
                    JsonView::Bool(bool_member(payload, "anti_affinity"@) == Some(true)),
                ),
            ),
        ),
        _ => None,
    }
}

/// Makes a node group larger or smaller.
pub open spec fn scale_op(payload: JsonView) -> Option<(Seq<char>, JsonView)> {
    match (nonblank_member(payload, "node_group"@), i64_member(payload, "delta_units"@)) {
        (Some(group), Some(delta)) => Some(
            (
                "/api/elasticity/control/node-groups/"@ + group + "/scale"@,
                with_member(no_members(), "delta_units"@, JsonView::Number(signed_number(delta))),
            ),
        ),
        _ => None,
    }
}

/// Undoes an action: the one that the payload names, or this one.
pub open spec fn rollback_op(action: DispatchView) -> (Seq<char>, JsonView) {
    let payload = action.payload_json;
    let target = text_or(nonblank_member(payload, "target_action_id"@), action.action_id);
    let held = match member(payload, "payload"@) {
        Some(held) => held,
        None => JsonView::Null,
    };
    (
        "/api/elasticity/control/actions/"@ + target + "/rollback"@,
        with_member(
            with_member(
                with_member(
                    with_member(
                        with_member(
                            no_members(),
                            "target_action_id"@,
                            text_or_null(text_member(payload, "target_action_id"@)),
                        ),
                        "target_operation_id"@,
                        text_or_null(text_member(payload, "target_operation_id"@)),
                    ),
                    "reason_code"@,
                    text_or_null(text_member(payload, "reason_code"@)),
                ),
                "reason_message"@,
                text_or_null(text_member(payload, "reason_message"@)),
            ),
            "payload"@,
            held,
        ),
    )
}

/// The runtime knows what to do about actions of this type.
pub open spec fn is_supported(action_type: Seq<char>) -> bool {
    ||| action_type == "SetPoolTarget"@
    ||| action_type == "SetBurstPolicy"@
    ||| action_type == "SetPlacementPreference"@
    ||| action_type == "ScaleNodeGroupUp"@
    ||| action_type == "ScaleNodeGroupDown"@
    ||| action_type == "RollbackAction"@
}

/// Where an action of a type that the runtime knows goes and what is posted
/// there; nothing where the payload lacks something.
pub open spec fn control_op(action: DispatchView) -> Option<(Seq<char>, JsonView)> {
    if action.action_type == "SetPoolTarget"@ {
        pool_target_op(action.payload_json)
    } else if action.action_type == "SetBurstPolicy"@ {
        burst_policy_op(action.payload_json)
    } else if action.action_type == "SetPlacementPreference"@ {
        placement_op(action.payload_json)
    } else if action.action_type == "RollbackAction"@ {
        Some(rollback_op(action))
    } else {
        scale_op(action.payload_json)
    }
}

fn path_of(stem: &str, id: &str, rest: &str) -> (path: String)
    ensures
        path@ == stem@ + id@ + rest@,
{
    let front: String = joined(stem, id);
    joined(front.as_str(), rest)
}

fn make_pool_target(payload: &Json) -> (op: Option<(String, Json)>)
    ensures
        op_view(op) == pool_target_op(payload@),
{
    match (
        get_nonblank(payload, "function_id"),
        payload.get_u64("min_instances"),
        payload.get_u64("max_instances"),
    ) {
        (Some(id), Some(min), Some(max)) => {
            let body: Json = Json::empty_object().with("min_instances", Json::unsigned(min)).with(
                "max_instances",
                Json::unsigned(max),
            );
            Some(
                (
                    path_of("/api/elasticity/control/functions/", id.as_str(), "/pool-target"),
                    body,
                ),
            )
        },
        _ => None,
    }
}

fn make_burst_policy(payload: &Json) -> (op: Option<(String, Json)>)
    ensures
        op_view(op) == burst_policy_op(payload@),
{
    match (
        payload.get_text("container_id"),
        payload.get_u64("memory_limit_mb"),
        payload.get_u64("cpu_limit_percent"),
    ) {
        (Some(id), Some(memory), Some(cpu)) => {
            let body: Json = Json::empty_object().with(
                "memory_limit_mb",
                Json::unsigned(memory),
            ).with("cpu_limit_percent", Json::unsigned(cpu));
            Some((path_of("/api/elasticity/control/containers/", id.as_str(), "/resize"), body))
        },
        _ => None,
    }
}

fn make_placement(payload: &Json) -> (op: Option<(String, Json)>)
    ensures
        op_view(op) == placement_op(payload@),
{
    match (get_nonblank(payload, "workload_id"), get_nonblank(payload, "node_group")) {
        (Some(id), Some(group)) => {
            let apart: bool = match payload.get_bool("anti_affinity") {
                Some(apart) => apart,
                None => false,
            };
            let body: Json = Json::empty_object().with(
                "node_group",
                Json::text(group.as_str()),
            ).with("anti_affinity", Json::Bool(apart));
            Some(
                (
                    path_of(
                        "/api/elasticity/control/workloads/",
                        id.as_str(),
                        "/placement-preference",
                    ),
                    body,
                ),
            )
        },
        _ => None,
    }
}

fn make_scale(payload: &Json) -> (op: Option<(String, Json)>)
    ensures
        op_view(op) == scale_op(payload@),
{
    match (get_nonblank(payload, "node_group"), payload.get_i64("delta_units")) {
        (Some(group), Some(delta)) => {
            let body: Json = Json::empty_object().with("delta_units", Json::signed(delta));
            Some((path_of("/api/elasticity/control/node-groups/", group.as_str(), "/scale"), body))
        },
        _ => None,
    }
}

fn make_rollback(action: &DispatchAction) -> (op: (String, Json))
    ensures
        (op.0@, op.1@) == rollback_op(action@),
{
    let payload = &action.payload_json;
    let target: String = match get_nonblank(payload, "target_action_id") {
        Some(target) => target,
        None => action.action_id.clone(),
    };
    let held: Json = match payload.get("payload") {
        Some(held) => copy_json(held),
        None => Json::Null,
    };
    let body: Json = Json::empty_object().with(
        "target_action_id",
        Json::text_or_null(&payload.get_text("target_action_id")),
    ).with(
        "target_operation_id",
        Json::text_or_null(&payload.get_text("target_operation_id")),
    ).with("reason_code", Json::text_or_null(&payload.get_text("reason_code"))).with(
        "reason_message",
        Json::text_or_null(&payload.get_text("reason_message")),
    ).with("payload", held);
    (path_of("/api/elasticity/control/actions/", target.as_str(), "/rollback"), body)
}

/// Where an action of a type that the runtime knows goes and what is posted
/// there; nothing where the payload lacks something.
pub fn control_operation(action: &DispatchAction) -> (op: Option<(String, Json)>)
    ensures
        op_view(op) == control_op(action@),
{
    let kind = action.action_type.as_str();
    if same_text(kind, "SetPoolTarget") {
        make_pool_target(&action.payload_json)
    } else if same_text(kind, "SetBurstPolicy") {
        make_burst_policy(&action.payload_json)
    } else if same_text(kind, "SetPlacementPreference") {
        make_placement(&action.payload_json)
    } else if same_text(kind, "RollbackAction") {
        Some(make_rollback(action))
    } else {
        make_scale(&action.payload_json)
    }
}

fn is_known(action_type: &str) -> (yes: bool)
    ensures
        yes == is_supported(action_type@),
{
    same_text(action_type, "SetPoolTarget") || same_text(action_type, "SetBurstPolicy")
        || same_text(action_type, "SetPlacementPreference") || same_text(
        action_type,
        "ScaleNodeGroupUp",
    ) || same_text(action_type, "ScaleNodeGroupDown") || same_text(action_type, "RollbackAction")
}

// ---------------------------------------------------------------------------
// What is to be done about an action
// ---------------------------------------------------------------------------

/// What is to be done about an action.
pub enum Move {
    /// End it: its time is over.
    Expire,
    /// Ask after the operation that was started for it.
    Poll(ControlRequest),
    /// The operation cannot be asked after, for this reason.
    FailPoll(String),
    /// End it: the workload is not its tenant's.
    Disown,
    /// Hand it to the runtime.
    Send(ControlRequest),
    /// Place this workload without the runtime.
    PlaceLocally(String),
    /// It cannot be handed over, for this reason.
    Fail(String),
    /// Its payload lacks something: stop the whole round.
    Abort,
}

pub enum MoveView {
    Expire,
    Poll(RequestView),
    FailPoll(Seq<char>),
    Disown,
    Send(RequestView),
    PlaceLocally(Seq<char>),
    Fail(Seq<char>),
    Abort,
}

impl View for Move {
    type V = MoveView;

    open spec fn view(&self) -> MoveView {
        match *self {
            Move::Expire => MoveView::Expire,
            Move::Poll(request) => MoveView::Poll(request@),
            Move::FailPoll(message) => MoveView::FailPoll(message@),
            Move::Disown => MoveView::Disown,
            Move::Send(request) => MoveView::Send(request@),
            Move::PlaceLocally(workload) => MoveView::PlaceLocally(workload@),
            Move::Fail(message) => MoveView::Fail(message@),
            Move::Abort => MoveView::Abort,
        }
    }
}

/// The end of the action's lifetime can be told.
pub open spec fn lifetime_fits(action: DispatchView) -> bool {
    action.effective_at + action.ttl_seconds <= i64::MAX
}

/// The action's lifetime is over at `now`.
pub open spec fn is_expired(action: DispatchView, now: i64) -> bool {
    now > action.effective_at + action.ttl_seconds
}

/// The operation that is under way for an action, if one was started.
pub open spec fn operation_under_way(action: DispatchView) -> Option<Seq<char>> {
    if action.status == "pending"@ {
        None
    } else {
        action.runtime_operation_id
    }
}

/// What is to be done to hand an action over.
pub open spec fn dispatch_move(cfg: ConfigView, action: DispatchView) -> MoveView {
    if action.action_type == "SetPlacementPreference"@ && cfg.local_scheduler {
        MoveView::PlaceLocally(
            text_or(text_member(action.payload_json, "workload_id"@), "unknown"@),
        )
    } else if !is_supported(action.action_type) {
        MoveView::Fail(RC_ORCH_ACTION_UNSUPPORTED@)
    } else {
        match control_op(action) {
            Some(op) => match post_request(cfg, action, op.0, op.1) {
                Ok(request) => MoveView::Send(request),
                Err(message) => MoveView::Fail(message),
            },
            None => MoveView::Abort,
        }
    }
}

/// What is to be done about an action at `now`. `owned` says whether the
/// workload is its tenant's; the platform needs no ownership.
pub open spec fn move_for(
    cfg: ConfigView,
    action: DispatchView,
    owned: bool,
    now: i64,
) -> MoveView {
    if is_expired(action, now) {
        MoveView::Expire
    } else if let Some(operation_id) = operation_under_way(action) {
        match poll_request(cfg, action, operation_id) {
            Ok(request) => MoveView::Poll(request),
            Err(message) => MoveView::FailPoll(message),
        }
    } else if !owned && action.tenant_id != PLATFORM_TENANT_ID@ {
        MoveView::Disown
    } else {
        dispatch_move(cfg, action)
    }
}

fn hand_over(cfg: &ExecutionConfig, action: &DispatchAction) -> (step: Move)
    ensures
        step@ == dispatch_move(cfg@, action@),
{
    if same_text(action.action_type.as_str(), "SetPlacementPreference") && cfg.local_scheduler {
        return match action.payload_json.get_text("workload_id") {
            Some(workload) => Move::PlaceLocally(workload),
            None => Move::PlaceLocally("unknown".to_owned()),
        };
    }
    if !is_known(action.action_type.as_str()) {
        return Move::Fail(RC_ORCH_ACTION_UNSUPPORTED.to_owned());
    }
    match control_operation(action) {
        Some((path, payload)) => match dispatch_control_operation(
            cfg,
            action,
            path.as_str(),
            payload,
        ) {
            Ok(request) => Move::Send(request),
            Err(message) => Move::Fail(message),
        },
        None => Move::Abort,
    }
}

/// What is to be done about an action at `now`.
pub fn next_move(cfg: &ExecutionConfig, action: &DispatchAction, owned: bool, now: i64) -> (step:
    Move)
    requires
        lifetime_fits(action@),
    ensures
        step@ == move_for(cfg@, action@, owned, now),
{
    if now > action.effective_at + action.ttl_seconds as i64 {
        return Move::Expire;
    }
    if !same_text(action.status.as_str(), "pending") {
        if let Some(operation_id) = &action.runtime_operation_id {
            return match poll_control_operation(cfg, action, operation_id.as_str()) {
                Ok(request) => Move::Poll(request),
                Err(message) => Move::FailPoll(message),
            };
        }
    }
    if !owned && !same_text(action.tenant_id.as_str(), PLATFORM_TENANT_ID) {
        return Move::Disown;
    }
    hand_over(cfg, action)
}

// ---------------------------------------------------------------------------
// What an outcome means
// ---------------------------------------------------------------------------

/// One attempt more can be counted, and the time of the next one told.
pub open spec fn retry_fits(action: DispatchView, now: i64) -> bool {
    action.attempt_count < u32::MAX && now + LONGEST_WAIT <= i64::MAX
}

/// What becomes of an action that was asked after: it stands at the status
/// that was reported, or has ended, or, where nothing could be learned, is
/// asked after again later. A status that is unknown changes nothing.
pub open spec fn poll_change(
    action: DispatchView,
    outcome: Result<OperationView, Seq<char>>,
    now: i64,
) -> Option<ChangeView> {
    match outcome {
        Ok(op) => if non_terminal(op.status) {
            Some(
                ChangeView::Status {
                    status: op.status,
                    reason_code: op.reason_code,
                    reason_message: op.reason_message,
                },
            )
        } else if terminal_success(op.status) || terminal_failure(op.status) {
            Some(
                ChangeView::Terminal {
                    status: op.status,
                    reason_code: op.reason_code,
                    reason_message: op.reason_message,
                    latency_ms: latency(action.created_at, now),
                },
            )
        } else {
            None
        },
        Err(message) => Some(
            ChangeView::Retry {
                attempt_count: (action.attempt_count + 1) as u32,
                next_retry_at: (now + retry_wait((action.attempt_count + 1) as u32)) as i64,
                reason_code: RC_ORCH_DEPENDENCY_UNAVAILABLE@,
                reason_message: message,
            },
        ),
    }
}

/// What was learned by asking after an action can be entered at `now`: its
/// latency can be counted where the operation has ended, and another attempt
/// planned where nothing was learned.
pub open spec fn poll_fits(
    action: DispatchView,
    outcome: Result<OperationView, Seq<char>>,
    now: i64,
) -> bool {
    match outcome {
        Ok(op) => terminal_success(op.status) || terminal_failure(op.status) ==> latency_fits(
            action.created_at,
            now,
        ),
        Err(_) => retry_fits(action, now),
    }
}

/// What an optional change holds.
pub open spec fn opt_change(change: Option<ActionChange>) -> Option<ChangeView> {
    match change {
        Some(change) => Some(change@),
        None => None,
    }
}

/// What becomes of an action that was asked after.
pub fn poll_outcome(
    action: &DispatchAction,
    outcome: Result<RuntimeOperation, String>,
    now: i64,
) -> (change: Option<ActionChange>)
    requires
        poll_fits(action@, outcome_view(outcome), now),
    ensures
        opt_change(change) == poll_change(action@, outcome_view(outcome), now),
{
    match outcome {
        Ok(op) => {
            if is_runtime_non_terminal(op.status.as_str()) {
                Some(
                    ActionChange::Status {
                        status: op.status,
                        reason_code: op.reason_code,
                        reason_message: op.reason_message,
                    },
                )
            } else if is_runtime_terminal_success(op.status.as_str())
                || is_runtime_terminal_failure(op.status.as_str()) {
                Some(
                    ActionChange::Terminal {
                        status: op.status,
                        reason_code: op.reason_code,
                        reason_message: op.reason_message,
                        latency_ms: latency_ms(action.created_at, now),
                    },
                )
            } else {
                None
            }
        },
        Err(message) => {
            let attempt: u32 = action.attempt_count + 1;
            Some(
                ActionChange::Retry {
                    attempt_count: attempt,
                    next_retry_at: now + backoff_seconds(attempt),
                    reason_code: RC_ORCH_DEPENDENCY_UNAVAILABLE.to_owned(),
                    reason_message: message,
                },
            )
        },
    }
}

/// A failure with this code and hint ends an action of this type. Pool targets
/// are tried again only where the runtime says that they may be; all other
/// actions unless there is no point in it.
pub open spec fn is_final(action_type: Seq<char>, code: Seq<char>, hint: Option<bool>) -> bool {
    if action_type == "SetPoolTarget"@ {
        code == RC_INVALID_ARGUMENT@ || code == RC_TARGET_NOT_FOUND@ || hint != Some(true)
    } else {
        code == RC_INVALID_ARGUMENT@ || code == RC_ORCH_ACTION_UNSUPPORTED@
    }
}

/// How long to wait after a failure with this code, in seconds: under pressure
/// always the same, and otherwise the longer the more attempts there were.
pub open spec fn failure_wait(code: Seq<char>, attempt_count: u32) -> int {
    if code == RC_RESOURCE_PRESSURE@ {
        15
    } else {
        retry_wait(attempt_count)
    }
}

/// What becomes of an action that could not be handed over.
pub open spec fn failure_change(action: DispatchView, message: Seq<char>, now: i64) -> ChangeView {
    let (code, hint, detail) = decoded(message);
    let attempt = (action.attempt_count + 1) as u32;
    if is_final(action.action_type, code, hint) {
        ChangeView::Terminal {
            status: "failed"@,
            reason_code: Some(code),
            reason_message: Some(detail),
            latency_ms: latency(action.created_at, now),
        }
    } else {
        ChangeView::Retry {
            attempt_count: attempt,
            next_retry_at: (now + failure_wait(code, attempt)) as i64,
            reason_code: code,
            reason_message: detail,
        }
    }
}

/// What becomes of an action that was to be handed over: it stands at the
/// status that was reported, and has ended where that is the end; or it could
/// not be handed over.
pub open spec fn dispatch_change(
    action: DispatchView,
    outcome: Result<OperationView, Seq<char>>,
    now: i64,
) -> ChangeView {
    match outcome {
        Ok(op) => ChangeView::Dispatched {
            operation_id: op.operation_id,
            operation_type: op.operation_type,
            status: op.status,
            reason_code: op.reason_code,
            reason_message: op.reason_message,
            latency_ms: if terminal_success(op.status) || terminal_failure(op.status) {
                Some(latency(action.created_at, now))
            } else {
                None
            },
        },
        Err(message) => failure_change(action, message, now),
    }
}

/// What a failure to hand an action over makes of it can be entered at `now`:
/// its latency can be counted where the failure ends it, and another attempt
/// planned where it does not.
pub open spec fn failure_fits(action: DispatchView, message: Seq<char>, now: i64) -> bool {
    let (code, hint, _) = decoded(message);
    if is_final(action.action_type, code, hint) {
        latency_fits(action.created_at, now)
    } else {
        retry_fits(action, now)
    }
}

/// What came of handing an action over can be entered at `now`.
pub open spec fn dispatch_fits(
    store: StoreView,
    action: DispatchView,
    outcome: Result<OperationView, Seq<char>>,
    now: i64,
) -> bool {
    match outcome {
        Ok(op) => {
            &&& attempts_fit(store, action.action_id)
            &&& terminal_success(op.status) || terminal_failure(op.status) ==> latency_fits(
                action.created_at,
                now,
            )
        },
        Err(message) => failure_fits(action, message, now),
    }
}

fn ends_action(action_type: &str, code: &str, hint: Option<bool>) -> (yes: bool)
    ensures
        yes == is_final(action_type@, code@, hint),
{
    if same_text(code, RC_INVALID_ARGUMENT) {
        return true;
    }
    if same_text(action_type, "SetPoolTarget") {
        same_text(code, RC_TARGET_NOT_FOUND) || hint != Some(true)
    } else {
        same_text(code, RC_ORCH_ACTION_UNSUPPORTED)
    }
}

fn failure_outcome(action: &DispatchAction, message: &str, now: i64) -> (change: ActionChange)
    requires
        failure_fits(action@, message@, now),
    ensures
        change@ == failure_change(action@, message@, now),
{
    let (code, hint, detail) = parse_dispatch_error(message);
    if ends_action(action.action_type.as_str(), code.as_str(), hint) {
        ActionChange::Terminal {
            status: "failed".to_owned(),
            reason_code: Some(code),
            reason_message: Some(detail),
            latency_ms: latency_ms(action.created_at, now),
        }
    } else {
        let attempt: u32 = action.attempt_count + 1;
        let wait: i64 = if same_text(code.as_str(), RC_RESOURCE_PRESSURE) {
            15
        } else {
            backoff_seconds(attempt)
        };
        ActionChange::Retry {
            attempt_count: attempt,
            next_retry_at: now + wait,
            reason_code: code,
            reason_message: detail,
        }
    }
}

/// What becomes of an action that was to be handed over.
pub fn dispatch_outcome(
    action: &DispatchAction,
    outcome: Result<RuntimeOperation, String>,
    now: i64,
) -> (change: ActionChange)
    requires
        outcome matches Ok(op) && (terminal_success(op@.status) || terminal_failure(op@.status))
            ==> latency_fits(action@.created_at, now),
        outcome matches Err(message) ==> failure_fits(action@, message@, now),
    ensures
        change@ == dispatch_change(action@, outcome_view(outcome), now),
{
    match outcome {
        Ok(op) => {
            let ended: bool = is_runtime_terminal_success(op.status.as_str())
                || is_runtime_terminal_failure(op.status.as_str());
            ActionChange::Dispatched {
                operation_id: op.operation_id,
                operation_type: op.operation_type,
                status: op.status,
                reason_code: op.reason_code,
                reason_message: op.reason_message,
                latency_ms: if ended {
                    Some(latency_ms(action.created_at, now))
                } else {
                    None
                },
            }
        },
        Err(message) => failure_outcome(action, message.as_str(), now),
    }
}

/// The outcome of placing a workload without the runtime, where `node` was
/// found for it and the operation is to be known by `id`.
pub open spec fn placement_outcome(node: Option<Seq<char>>, id: Seq<char>) -> Result<
    OperationView,
    Seq<char>,
> {
    match node {
        Some(node) => Ok(
            OperationView {
                operation_id: "local-placement-"@ + id,
                operation_type: Some("SetPlacementPreference"@),
                status: RUNTIME_SUCCESS@,
                reason_code: None,
                reason_message: Some("Assigned to node "@ + node),
            },
        ),
        None => Err(RC_RESOURCE_PRESSURE@),
    }
}

/// The outcome of placing a workload without the runtime.
pub fn local_placement(node: Option<String>, id: String) -> (outcome: Result<
    RuntimeOperation,
    String,
>)
    ensures
        outcome_view(outcome) == placement_outcome(opt_text(node), id@),
{
    match node {
        Some(node) => Ok(
            RuntimeOperation {
                operation_id: joined("local-placement-", id.as_str()),
                operation_type: Some("SetPlacementPreference".to_owned()),
                status: RUNTIME_SUCCESS.to_owned(),
                reason_code: None,
                reason_message: Some(joined("Assigned to node ", node.as_str())),
            },
        ),
        None => Err(RC_RESOURCE_PRESSURE.to_owned()),
    }
}

// ---------------------------------------------------------------------------
// Steps on the tables
// ---------------------------------------------------------------------------

/// An action can be begun with at `now`: the end of its lifetime can be told,
/// and what is to be done about it without the runtime can be entered.
pub open spec fn begin_fits(
    cfg: ConfigView,
    store: StoreView,
    action: DispatchView,
    now: i64,
) -> bool {
    &&& lifetime_fits(action)
    &&& match move_for(cfg, action, owned(store, action.tenant_id, action.workload_id), now) {
        MoveView::Expire | MoveView::Disown => latency_fits(action.created_at, now),
        MoveView::FailPoll(_) => retry_fits(action, now),
        MoveView::PlaceLocally(_) => attempts_fit(store, action.action_id) && latency_fits(
            action.created_at,
            now,
        ),
        MoveView::Fail(message) => failure_fits(action, message, now),
        MoveView::Poll(_) | MoveView::Send(_) | MoveView::Abort => true,
    }
}

fn retry_can_be_planned(action: &DispatchAction, now: i64) -> (yes: bool)
    ensures
        yes == retry_fits(action@, now),
{
    action.attempt_count < u32::MAX && now <= i64::MAX - LONGEST_WAIT
}

fn failure_can_be_entered(action: &DispatchAction, message: &str, now: i64) -> (yes: bool)
    ensures
        yes == failure_fits(action@, message@, now),
{
    let (code, hint, _detail) = parse_dispatch_error(message);
    if ends_action(action.action_type.as_str(), code.as_str(), hint) {
        latency_can_be_counted(action.created_at, now)
    } else {
        retry_can_be_planned(action, now)
    }
}

/// Whether what was learned by asking after an action can be entered at `now`.
pub fn poll_can_be_entered(
    action: &DispatchAction,
    outcome: &Result<RuntimeOperation, String>,
    now: i64,
) -> (yes: bool)
    ensures
        yes == poll_fits(action@, outcome_view(*outcome), now),
{
    match outcome {
        Ok(op) => {
            let ended: bool = is_runtime_terminal_success(op.status.as_str())
                || is_runtime_terminal_failure(op.status.as_str());
            !ended || latency_can_be_counted(action.created_at, now)
        },
        Err(_) => retry_can_be_planned(action, now),
    }
}

/// Whether what came of handing an action over can be entered at `now`.
pub fn dispatch_can_be_entered(
    store: &Store,
    action: &DispatchAction,
    outcome: &Result<RuntimeOperation, String>,
    now: i64,
) -> (yes: bool)
    ensures
        yes == dispatch_fits(store@, action@, outcome_view(*outcome), now),
{
    match outcome {
        Ok(op) => {
            let ended: bool = is_runtime_terminal_success(op.status.as_str())
                || is_runtime_terminal_failure(op.status.as_str());
            attempts_can_grow(store, action.action_id.as_str()) && (!ended
                || latency_can_be_counted(action.created_at, now))
        },
        Err(message) => failure_can_be_entered(action, message.as_str(), now),
    }
}

/// Whether an action can be begun with at `now`.
pub fn action_can_be_begun(
    store: &Store,
    cfg: &ExecutionConfig,
    action: &DispatchAction,
    now: i64,
) -> (yes: bool)
    ensures
        yes == begin_fits(cfg@, store@, action@, now),
{
    if action.effective_at > i64::MAX - action.ttl_seconds as i64 {
        return false;
    }
    let valid: bool = workload_ownership_valid(
        store,
        action.tenant_id.as_str(),
        action.workload_id.as_str(),
    );
    match next_move(cfg, action, valid, now) {
        Move::Expire | Move::Disown => latency_can_be_counted(action.created_at, now),
        Move::FailPoll(_) => retry_can_be_planned(action, now),
        Move::PlaceLocally(_) => attempts_can_grow(store, action.action_id.as_str())
            && latency_can_be_counted(action.created_at, now),
        Move::Fail(message) => failure_can_be_entered(action, message.as_str(), now),
        Move::Poll(_) | Move::Send(_) | Move::Abort => true,
    }
}

/// The end of an action whose time is over.
pub open spec fn expiry(action: DispatchView, now: i64) -> ChangeView {
    ChangeView::Terminal {
        status: "failed"@,
        reason_code: Some(RC_ORCH_TTL_EXPIRED@),
        reason_message: Some("TTL expired before completion"@),
        latency_ms: latency(action.created_at, now),
    }
}

/// The tables after an action's time was over, with its rollback queued as
/// `id`.
pub open spec fn expired(store: StoreView, action: DispatchView, id: Seq<char>, now: i64)
    -> StoreView {
    rolled_back(changed(store, action.action_id, expiry(action, now), now), action, id, now)
}

/// Ends an action whose time is over, and queues its rollback as `id`.
pub fn expire_action_as(store: &mut Store, action: &DispatchAction, id: String, now: i64)
    requires
        latency_fits(action@.created_at, now),
    ensures
        final(store)@ == expired(old(store)@, action@, id@, now),
        old(store)@.sound() && is_time(now) ==> final(store)@.sound(),
{
    mark_terminal(
        store,
        action,
        "failed",
        Some(RC_ORCH_TTL_EXPIRED),
        Some("TTL expired before completion"),
        now,
    );
    enqueue_rollback_as(store, action, id, now);
}

/// The end of an action on a workload that is not its tenant's.
pub open spec fn disownment(action: DispatchView, now: i64) -> ChangeView {
    ChangeView::Terminal {
        status: "failed"@,
        reason_code: Some(RC_ORCH_DEPENDENCY_UNAVAILABLE@),
        reason_message: Some("Cross-tenant or unknown workload ownership"@),
        latency_ms: latency(action.created_at, now),
    }
}

/// The tables after an action was asked after.
pub open spec fn polled(
    store: StoreView,
    action: DispatchView,
    outcome: Result<OperationView, Seq<char>>,
    now: i64,
) -> StoreView {
    match poll_change(action, outcome, now) {
        Some(change) => changed(store, action.action_id, change, now),
        None => store,
    }
}

/// The tables after an action was to be handed over.
pub open spec fn dispatched(
    store: StoreView,
    action: DispatchView,
    outcome: Result<OperationView, Seq<char>>,
    now: i64,
) -> StoreView {
    changed(store, action.action_id, dispatch_change(action, outcome, now), now)
}

/// Enters what was learned by asking after an action.
pub fn finish_poll(
    store: &mut Store,
    action: &DispatchAction,
    outcome: Result<RuntimeOperation, String>,
    now: i64,
)
    requires
        poll_fits(action@, outcome_view(outcome), now),
    ensures
        final(store)@ == polled(old(store)@, action@, outcome_view(outcome), now),
        old(store)@.sound() ==> final(store)@.sound(),
{
    match poll_outcome(action, outcome, now) {
        Some(change) => {
            apply_change(store, action.action_id.as_str(), &change, now);
        },
        None => {},
    }
}

/// Enters what came of handing an action over.
pub fn finish_dispatch(
    store: &mut Store,
    action: &DispatchAction,
    outcome: Result<RuntimeOperation, String>,
    now: i64,
)
    requires
        dispatch_fits(old(store)@, action@, outcome_view(outcome), now),
    ensures
        final(store)@ == dispatched(old(store)@, action@, outcome_view(outcome), now),
        old(store)@.sound() ==> final(store)@.sound(),
{
    let change: ActionChange = dispatch_outcome(action, outcome, now);
    apply_change(store, action.action_id.as_str(), &change, now);
}

/// What is left to do about an action once the tables have been seen to.
pub enum Step {
    /// Nothing.
    Done,
    /// Stop the whole round, for this reason.
    Stop(String),
    /// Send this, and finish with `finish_poll`.
    Poll(ControlRequest),
    /// Send this, and finish with `finish_dispatch`.
    Send(ControlRequest),
}

/// What may have happened to the tables, and what is left to do, when an
/// action was begun.
pub open spec fn begun(
    cfg: ConfigView,
    action: DispatchView,
    before: StoreView,
    after: StoreView,
    step: Step,
    now: i64,
) -> bool {
    match move_for(cfg, action, owned(before, action.tenant_id, action.workload_id), now) {
        MoveView::Expire => step is Done && exists|id: Seq<char>|
            is_id(id) && after == #[trigger] expired(before, action, id, now),
        MoveView::Poll(request) => after == before && (step matches Step::Poll(r) && r@
            == request),
        MoveView::FailPoll(message) => step is Done && after == polled(
            before,
            action,
            Err(message),
            now,
        ),
        MoveView::Disown => step is Done && after == changed(
            before,
            action.action_id,
            disownment(action, now),
            now,
        ),
        MoveView::Send(request) => after == before && (step matches Step::Send(r) && r@
            == request),
        MoveView::PlaceLocally(_) => step is Done && exists|node: Seq<char>, id: Seq<char>|
            is_id(id) && (node == "node-2"@ || node == "node-3"@) && after == dispatched(
                before,
                action,
                #[trigger] placement_outcome(Some(node), id),
                now,
            ),
        MoveView::Fail(message) => step is Done && after == dispatched(
            before,
            action,
            Err(message),
            now,
        ),
        MoveView::Abort => after == before && (step matches Step::Stop(reason) && reason@
            == RC_INVALID_ARGUMENT@),
    }
}

/// Begins with an action: sees to all that needs no runtime, and says what is
/// left to do.
pub fn begin_action(
    store: &mut Store,
    cfg: &ExecutionConfig,
    action: &DispatchAction,
    now: i64,
) -> (step: Step)
    requires
        begin_fits(cfg@, old(store)@, action@, now),
    ensures
        begun(cfg@, action@, old(store)@, final(store)@, step, now),
        old(store)@.sound() && is_time(now) ==> final(store)@.sound(),
{
    let ghost before = store@;
    let valid: bool = workload_ownership_valid(
        store,
        action.tenant_id.as_str(),
        action.workload_id.as_str(),
    );
    match next_move(cfg, action, valid, now) {
        Move::Expire => {
            let id: String = fresh_id();
            let ghost drawn = id@;
            expire_action_as(store, action, id, now);
            assert(store@ == expired(before, action@, drawn, now));
            Step::Done
        },
        Move::Poll(request) => Step::Poll(request),
        Move::FailPoll(message) => {
            finish_poll(store, action, Err(message), now);
            Step::Done
        },
        Move::Disown => {
            mark_terminal(
                store,
                action,
                "failed",
                Some(RC_ORCH_DEPENDENCY_UNAVAILABLE),
                Some("Cross-tenant or unknown workload ownership"),
                now,
            );
            Step::Done
        },
        Move::Send(request) => Step::Send(request),
        Move::PlaceLocally(workload) => {
            let node: Option<String> = local_schedule_workload(
                action.tenant_id.as_str(),
                workload.as_str(),
            );
            let id: String = fresh_id();
            let ghost name = node->0@;
            let ghost drawn = id@;
            finish_dispatch(store, action, local_placement(node, id), now);
            assert(store@ == dispatched(
                before,
                action@,
                placement_outcome(Some(name), drawn),
                now,
            ));
            Step::Done
        },
        Move::Fail(message) => {
            finish_dispatch(store, action, Err(message), now);
            Step::Done
        },
        Move::Abort => Step::Stop(RC_INVALID_ARGUMENT.to_owned()),
    }
}

// ---------------------------------------------------------------------------
// Laws
// ---------------------------------------------------------------------------

/// Nothing is ever handed over for a workload that is not the tenant's, unless
/// the platform asks: the action ends.
pub proof fn foreign_workload_is_not_handed_over(cfg: ConfigView, action: DispatchView, now: i64)
    requires
        action.tenant_id != PLATFORM_TENANT_ID@,
        operation_under_way(action) is None,
    ensures
        move_for(cfg, action, false, now) == if is_expired(action, now) {
            MoveView::Expire
        } else {
            MoveView::Disown
        },
{
}

/// What is sent to start an operation goes to the runtime, and names the
/// idempotency key, the tenant and the action, and the key to the runtime where
/// there is one.
pub proof fn post_names_its_action(cfg: ConfigView, action: DispatchView, owned: bool, now: i64)
    requires
        move_for(cfg, action, owned, now) is Send,
    ensures
        ({
            let request = move_for(cfg, action, owned, now)->Send_0;
            &&& cfg.control_base_url matches Some(base) && base.is_prefix_of(request.url)
            &&& request.payload is Some
            &&& request.headers.contains(("Idempotency-Key"@, action.idempotency_key))
            &&& request.headers.contains(("X-Tenant-Id"@, action.tenant_id))
            &&& request.headers.contains(("X-Orch-Action-Id"@, action.action_id))
            &&& cfg.control_api_key matches Some(api_key) ==> request.headers.contains(
                ("X-Api-Key"@, api_key),
            )
        }),
{
    let request = move_for(cfg, action, owned, now)->Send_0;
    let op = control_op(action)->0;
    let base = cfg.control_base_url->0;
    assert(request.url == base + op.0);
    assert(base.is_prefix_of(request.url));
    assert(request.headers[0] == ("Idempotency-Key"@, action.idempotency_key));
    assert(request.headers[1] == ("X-Tenant-Id"@, action.tenant_id));
    assert(request.headers[2] == ("X-Orch-Action-Id"@, action.action_id));
    if let Some(api_key) = cfg.control_api_key {
        assert(request.headers[3] == ("X-Api-Key"@, api_key));
    }
}

/// No row that is the action's is due at any time.
pub open spec fn is_over(store: StoreView, action_id: Seq<char>) -> bool {
    forall|i: int, now: i64|
        0 <= i < store.actions.len() && (#[trigger] store.actions[i]).action_id == action_id
            ==> !#[trigger] is_due(store.actions[i], now)
}

proof fn lemma_ended_is_over(
    store: StoreView,
    action_id: Seq<char>,
    change: ChangeView,
    status: Seq<char>,
    now: i64,
)
    requires
        terminal_success(status) || terminal_failure(status),
        match change {
            ChangeView::Terminal { status: s, .. } => s == status,
            ChangeView::Dispatched { status: s, .. } => s == status,
            ChangeView::Status { status: s, .. } => s == status,
            _ => false,
        },
    ensures
        is_over(changed(store, action_id, change, now), action_id),
{
    let after = changed(store, action_id, change, now);
    assert forall|i: int, at: i64|
        0 <= i < after.actions.len() && (#[trigger] after.actions[i]).action_id
            == action_id implies !#[trigger] is_due(after.actions[i], at) by {
        let row = store.actions[i];
        assert(row.action_id == action_id);
        assert(after.actions[i] == revised(row, change, now));
        ended_action_is_never_due(store, after.actions[i], at);
    }
}

/// An action that ends is over: for its time, for want of ownership, by what
/// the runtime reports, or by a failure that is final. It is never due again.
pub proof fn ended_action_is_over(
    store: StoreView,
    action: DispatchView,
    outcome: Result<OperationView, Seq<char>>,
    now: i64,
)
    ensures
        is_over(changed(store, action.action_id, expiry(action, now), now), action.action_id),
        is_over(changed(store, action.action_id, disownment(action, now), now), action.action_id),
        outcome matches Ok(op) && (terminal_success(op.status) || terminal_failure(op.status))
            ==> is_over(polled(store, action, outcome, now), action.action_id) && is_over(
            dispatched(store, action, outcome, now),
            action.action_id,
        ),
        outcome matches Err(message) && is_final(
            action.action_type,
            decoded(message).0,
            decoded(message).1,
        ) ==> is_over(dispatched(store, action, outcome, now), action.action_id),
{
    let id = action.action_id;
    lemma_ended_is_over(store, id, expiry(action, now), "failed"@, now);
    lemma_ended_is_over(store, id, disownment(action, now), "failed"@, now);
    match outcome {
        Ok(op) => {
            if terminal_success(op.status) || terminal_failure(op.status) {
                status_kinds_exclude_each_other(op.status);
                lemma_ended_is_over(
                    store,
                    id,
                    poll_change(action, outcome, now)->0,
                    op.status,
                    now,
                );
                lemma_ended_is_over(
                    store,
                    id,
                    dispatch_change(action, outcome, now),
                    op.status,
                    now,
                );
            }
        },
        Err(message) => {
            if is_final(action.action_type, decoded(message).0, decoded(message).1) {
                lemma_ended_is_over(
                    store,
                    id,
                    failure_change(action, message, now),
                    "failed"@,
                    now,
                );
            }
        },
    }
}

/// An action whose time was over has failed: for that reason, or, where it
/// holds a rollback, because that was queued. The rollback is then in the
/// queue, under its own key.
pub proof fn expired_action_is_rolled_back(
    store: StoreView,
    action: DispatchView,
    id: Seq<char>,
    now: i64,
)
    ensures
        ({
            let after = expired(store, action, id, now);
            &&& forall|i: int|
                0 <= i < store.actions.len() && (#[trigger] store.actions[i]).action_id
                    == action.action_id ==> after.actions[i].status == "failed"@
                    && after.actions[i].terminal_status == Some("failed"@)
                    && after.actions[i].reason_code == Some(
                    if action.rollback_action_json is Some {
                        RC_ORCH_ROLLBACK_TRIGGERED@
                    } else {
                        RC_ORCH_TTL_EXPIRED@
                    },
                )
            &&& action.rollback_action_json matches Some(payload) ==> has_key(
                after.actions,
                new_key(rollback_of(action, payload, now)),
            )
            &&& action.rollback_action_json is None ==> after.actions.len() == store.actions.len()
        }),
{
    let ended = changed(store, action.action_id, expiry(action, now), now);
    let after = expired(store, action, id, now);
    match action.rollback_action_json {
        Some(payload) => {
            let new = rollback_of(action, payload, now);
            let key = new_key(new);
            let queued = enqueued(ended, new, id, now);
            position_is_first(ended.actions, key);
            let at = position(ended.actions, key);
            assert(queued.actions[at].idempotency_key == key);
            assert forall|i: int| 0 <= i < queued.actions.len() implies (
            #[trigger] after.actions[i]).idempotency_key == queued.actions[i].idempotency_key by {}
            position_is_first(after.actions, key);
            assert(after.actions[at].key() == key);
            assert forall|i: int|
                0 <= i < store.actions.len() && (#[trigger] store.actions[i]).action_id
                    == action.action_id implies after.actions[i].status == "failed"@
                && after.actions[i].terminal_status == Some("failed"@)
                && after.actions[i].reason_code == Some(RC_ORCH_ROLLBACK_TRIGGERED@) by {
                assert(ended.actions[i].action_id == action.action_id);
                assert(queued.actions[i] == ended.actions[i]);
            }
        },
        None => {},
    }
}

/// An operation that was accepted and is under way is asked after in the next
/// round, whenever that comes within the action's time.
pub proof fn started_operation_is_asked_after(
    cfg: ConfigView,
    row: ActionView,
    op: OperationView,
    owned: bool,
    now: i64,
    later: i64,
)
    requires
        non_terminal(op.status),
        now <= later,
        later <= row.effective_at + row.ttl_seconds,
        cfg.control_base_url is Some,
    ensures
        ({
            let next = revised(
                row,
                dispatch_change(dispatch_view(row), Ok::<OperationView, Seq<char>>(op), now),
                now,
            );
            &&& is_due(next, later)
            &&& move_for(cfg, dispatch_view(next), owned, later) == MoveView::Poll(
                poll_request(cfg, dispatch_view(next), op.operation_id)->Ok_0,
            )
        }),
{
    status_kinds_exclude_each_other(op.status);
}

/// An action that could not be asked after is put off, and so is one that
/// could not be handed over unless the failure is final: one attempt more, and
/// the next no sooner than two seconds and no later than sixty-four seconds on.
pub proof fn failed_attempt_is_put_off(action: DispatchView, message: Seq<char>, now: i64)
    requires
        retry_fits(action, now),
    ensures
        poll_change(action, Err(message), now) matches Some(
            ChangeView::Retry { attempt_count, next_retry_at, .. },
        ) && attempt_count == action.attempt_count + 1 && now + 2 <= next_retry_at <= now + 64,
        !is_final(action.action_type, decoded(message).0, decoded(message).1) ==> (failure_change(
            action,
            message,
            now,
        ) matches ChangeView::Retry { attempt_count, next_retry_at, .. } && attempt_count
            == action.attempt_count + 1 && now + 2 <= next_retry_at <= now + 64),
{
    let attempt = (action.attempt_count + 1) as u32;
    waits_grow_to_a_bound(attempt, attempt);
}

/// A pool target that failed is tried again exactly where the runtime said
/// that it may be, and neither the request nor its target was at fault.
pub proof fn pool_target_is_retried_on_request(
    action: DispatchView,
    code: Seq<char>,
    hint: Option<bool>,
    detail: Seq<char>,
    now: i64,
)
    requires
        action.action_type == "SetPoolTarget"@,
        forall|i: int| 0 <= i < code.len() ==> code[i] != '|',
    ensures
        failure_change(action, failure_text(code, hint, detail), now) is Retry <==> (hint == Some(
            true,
        ) && code != RC_INVALID_ARGUMENT@ && code != RC_TARGET_NOT_FOUND@),
{
    failure_text_is_read_back(code, hint, detail);
}

/// Every action of a batch can be begun with, and whatever the runtime answers
/// can be entered, as long as its attempts can be counted on.
pub proof fn batch_can_be_seen_to(
    cfg: ConfigView,
    store: StoreView,
    outcome: Result<OperationView, Seq<char>>,
    now: i64,
    i: int,
)
    requires
        store.sound(),
        is_time(now),
        0 <= i < due_rows(store, now).len(),
        attempts_fit(store, due_rows(store, now)[i].action_id),
    ensures
        begin_fits(cfg, store, dispatch_view(due_rows(store, now)[i]), now),
        poll_fits(dispatch_view(due_rows(store, now)[i]), outcome, now),
        dispatch_fits(store, dispatch_view(due_rows(store, now)[i]), outcome, now),
{
    batch_is_due(store, now);
    let row = due_rows(store, now)[i];
    let k = choose|k: int| 0 <= k < store.actions.len() && store.actions[k] == row;
    assert(is_time(store.actions[k].created_at));
}

/// An action that was put off asks for the same when it is tried again: the
/// same request, with the same idempotency key.
pub proof fn retry_repeats_the_request(
    cfg: ConfigView,
    row: ActionView,
    change: ChangeView,
    now: i64,
)
    requires
        change is Retry,
    ensures
        dispatch_move(cfg, dispatch_view(revised(row, change, now))) == dispatch_move(
            cfg,
            dispatch_view(row),
        ),
{
}

/// No row that is the action's is due at `now`.
pub open spec fn is_not_due(store: StoreView, action_id: Seq<char>, now: i64) -> bool {
    forall|i: int|
        0 <= i < store.actions.len() && (#[trigger] store.actions[i]).action_id == action_id
            ==> !is_due(store.actions[i], now)
}

proof fn lemma_put_off(store: StoreView, action_id: Seq<char>, change: ChangeView, now: i64)
    requires
        change matches ChangeView::Retry { next_retry_at, .. } && next_retry_at > now,
    ensures
        is_not_due(changed(store, action_id, change, now), action_id, now),
{
    let after = changed(store, action_id, change, now);
    assert forall|i: int|
        0 <= i < after.actions.len() && (#[trigger] after.actions[i]).action_id
            == action_id implies !is_due(after.actions[i], now) by {
        assert(after.actions[i] == revised(store.actions[i], change, now));
    }
}

proof fn lemma_over_is_not_due(store: StoreView, action_id: Seq<char>, now: i64)
    requires
        is_over(store, action_id),
    ensures
        is_not_due(store, action_id, now),
{
}

/// Whatever is seen to without the runtime is seen to: once nothing is left to
/// do about an action, it is not due at that time any more.
pub proof fn finished_step_leaves_nothing_due(
    cfg: ConfigView,
    action: DispatchView,
    before: StoreView,
    after: StoreView,
    step: Step,
    now: i64,
)
    requires
        begin_fits(cfg, before, action, now),
        begun(cfg, action, before, after, step, now),
        step is Done,
    ensures
        is_not_due(after, action.action_id, now),
{
    let id = action.action_id;
    match move_for(cfg, action, owned(before, action.tenant_id, action.workload_id), now) {
        MoveView::Expire => {
            let drawn = choose|drawn: Seq<char>|
                is_id(drawn) && after == #[trigger] expired(before, action, drawn, now);
            let ended = changed(before, id, expiry(action, now), now);
            lemma_ended_is_over(before, id, expiry(action, now), "failed"@, now);
            match action.rollback_action_json {
                Some(payload) => {
                    let queued = enqueued(ended, rollback_of(action, payload, now), drawn, now);
                    lemma_ended_is_over(
                        queued,
                        id,
                        status_set(
                            "failed"@,
                            Some(RC_ORCH_ROLLBACK_TRIGGERED@),
                            Some("Rollback action enqueued"@),
                        ),
                        "failed"@,
                        now,
                    );
                },
                None => {},
            }
            lemma_over_is_not_due(after, id, now);
        },
        MoveView::FailPoll(message) => {
            let attempt = (action.attempt_count + 1) as u32;
            waits_grow_to_a_bound(attempt, attempt);
            lemma_put_off(before, id, poll_change(action, Err(message), now)->0, now);
        },
        MoveView::Disown => {
            lemma_ended_is_over(before, id, disownment(action, now), "failed"@, now);
            lemma_over_is_not_due(after, id, now);
        },
        MoveView::PlaceLocally(_) => {
            let (node, drawn) = choose|node: Seq<char>, drawn: Seq<char>|
                is_id(drawn) && (node == "node-2"@ || node == "node-3"@) && after == dispatched(
                    before,
                    action,
                    #[trigger] placement_outcome(Some(node), drawn),
                    now,
                );
            lemma_ended_is_over(
                before,
                id,
                dispatch_change(action, placement_outcome(Some(node), drawn), now),
                RUNTIME_SUCCESS@,
                now,
            );
            lemma_over_is_not_due(after, id, now);
        },
        MoveView::Fail(message) => {
            if is_final(action.action_type, decoded(message).0, decoded(message).1) {
                lemma_ended_is_over(
                    before,
                    id,
                    failure_change(action, message, now),
                    "failed"@,
                    now,
                );
                lemma_over_is_not_due(after, id, now);
            } else {
                failed_attempt_is_put_off(action, message, now);
                lemma_put_off(before, id, failure_change(action, message, now), now);
            }
        },
        _ => {},
    }
}

} // verus!
