//! From the plan to the request: what the planning loops queue is read back
//! from the queue and reaches the runtime as it was planned. That a plain
//! payload is read back from its text is what queueing ensures, and the planning
//! loops ensure it of what they queue; the laws here take it as given.
use crate::dispatch::{move_for, post_request, MoveView};
use crate::json::{no_members, parsed, printed, with_member, JsonView, NumberView};
use crate::planner::{
    burst_payload, placement_payload, pool_payload, scale_action, scale_payload, workload_action,
    SLOW_LOOP_SECONDS,
};
use crate::queue::{dispatch_view, pending};
use crate::records::{ConfigView, DispatchView, IntentView, NewActionView};
use crate::text::trimmed;
use vstd::prelude::*;

verus! {

/// What the dispatcher sees of an action that was queued.
pub open spec fn as_seen(new: NewActionView, id: Seq<char>, now: i64) -> DispatchView {
    dispatch_view(pending(new, id, now))
}

/// The action is handed to the runtime by a post of `body` to `path`.
pub open spec fn is_posted(
    cfg: ConfigView,
    action: DispatchView,
    owned: bool,
    now: i64,
    path: Seq<char>,
    body: JsonView,
) -> bool {
    move_for(cfg, action, owned, now) == MoveView::Send(
        post_request(cfg, action, path, body)->Ok_0,
    )
}

/// A planned pool target is handed to the runtime within its lifetime, under
/// the function that the policy names and with the planned sizes. No policy is
/// accepted whose function has no name but white space.
pub proof fn pool_target_reaches_the_runtime(
    cfg: ConfigView,
    intent: IntentView,
    function_id: Seq<char>,
    id: Seq<char>,
    queued_at: i64,
    now: i64,
)
    requires
        cfg.control_base_url is Some,
        trimmed(function_id).len() > 0,
        parsed(printed(pool_payload(intent, function_id))) == Some(
            pool_payload(intent, function_id),
        ),
        now <= queued_at + intent.ttl_seconds,
    ensures
        ({
            let new = workload_action(
                intent,
                "SetPoolTarget"@,
                pool_payload(intent, function_id),
                queued_at,
            );
            is_posted(
                cfg,
                as_seen(new, id, queued_at),
                true,
                now,
                "/api/elasticity/control/functions/"@ + trimmed(function_id) + "/pool-target"@,
                with_member(
                    with_member(
                        no_members(),
                        "min_instances"@,
                        JsonView::Number(NumberView::Unsigned(intent.pool_min_ready as u64)),
                    ),
                    "max_instances"@,
                    JsonView::Number(NumberView::Unsigned(intent.pool_max_ready as u64)),
                ),
            )
        }),
{
    reveal_strlit("function_id");
    reveal_strlit("min_instances");
    reveal_strlit("max_instances");
    reveal_strlit("SetPoolTarget");
    reveal_strlit("SetPlacementPreference");
    assert("SetPoolTarget"@.len() == 13 && "SetPlacementPreference"@.len() == 22);
    assert("min_instances"@[1] == 'i' && "max_instances"@[1] == 'a');
    assert("function_id"@.len() == 11 && "min_instances"@.len() == 13);
}

/// A planned limit is handed to the runtime within its lifetime, for the
/// planned container and with the planned limits.
pub proof fn burst_policy_reaches_the_runtime(
    cfg: ConfigView,
    intent: IntentView,
    container_id: Seq<char>,
    cpu_limit_percent: u32,
    id: Seq<char>,
    queued_at: i64,
    now: i64,
)
    requires
        cfg.control_base_url is Some,
        parsed(printed(burst_payload(intent, container_id, cpu_limit_percent))) == Some(
            burst_payload(intent, container_id, cpu_limit_percent),
        ),
        now <= queued_at + intent.ttl_seconds,
    ensures
        ({
            let new = workload_action(
                intent,
                "SetBurstPolicy"@,
                burst_payload(intent, container_id, cpu_limit_percent),
                queued_at,
            );
            is_posted(
                cfg,
                as_seen(new, id, queued_at),
                true,
                now,
                "/api/elasticity/control/containers/"@ + container_id + "/resize"@,
                with_member(
                    with_member(
                        no_members(),
                        "memory_limit_mb"@,
                        JsonView::Number(NumberView::Unsigned(intent.burst_mem_mb as u64)),
                    ),
                    "cpu_limit_percent"@,
                    JsonView::Number(NumberView::Unsigned(cpu_limit_percent as u64)),
                ),
            )
        }),
{
    reveal_strlit("container_id");
    reveal_strlit("memory_limit_mb");
    reveal_strlit("cpu_limit_percent");
    reveal_strlit("SetPoolTarget");
    reveal_strlit("SetBurstPolicy");
    reveal_strlit("SetPlacementPreference");
    assert("container_id"@.len() == 12 && "memory_limit_mb"@.len() == 15
        && "cpu_limit_percent"@.len() == 17);
    assert("SetPoolTarget"@.len() == 13 && "SetBurstPolicy"@.len() == 14
        && "SetPlacementPreference"@.len() == 22);
}

/// A planned placement is handed to the runtime within its lifetime, where
/// neither the workload's name nor the node group's is blank and nothing is
/// placed without the runtime.
pub proof fn placement_reaches_the_runtime(
    cfg: ConfigView,
    intent: IntentView,
    id: Seq<char>,
    queued_at: i64,
    now: i64,
)
    requires
        cfg.control_base_url is Some,
        !cfg.local_scheduler,
        trimmed(intent.workload_id).len() > 0,
        trimmed(intent.preferred_node_group).len() > 0,
        parsed(printed(placement_payload(intent))) == Some(placement_payload(intent)),
        now <= queued_at + intent.ttl_seconds,
    ensures
        ({
            let new = workload_action(
                intent,
                "SetPlacementPreference"@,
                placement_payload(intent),
                queued_at,
            );
            is_posted(
                cfg,
                as_seen(new, id, queued_at),
                true,
                now,
                "/api/elasticity/control/workloads/"@ + trimmed(intent.workload_id)
                    + "/placement-preference"@,
                with_member(
                    with_member(
                        no_members(),
                        "node_group"@,
                        JsonView::Text(trimmed(intent.preferred_node_group)),
                    ),
                    "anti_affinity"@,
                    JsonView::Bool(intent.anti_affinity),
                ),
            )
        }),
{
    reveal_strlit("tenant_id");
    reveal_strlit("workload_id");
    reveal_strlit("node_group");
    reveal_strlit("anti_affinity");
    reveal_strlit("SetPoolTarget");
    reveal_strlit("SetBurstPolicy");
    reveal_strlit("SetPlacementPreference");
    assert("tenant_id"@.len() == 9 && "workload_id"@.len() == 11 && "node_group"@.len() == 10
        && "anti_affinity"@.len() == 13);
    assert("SetPoolTarget"@.len() == 13 && "SetBurstPolicy"@.len() == 14
        && "SetPlacementPreference"@.len() == 22);
}

/// A planned scaling is handed to the runtime within its lifetime, for the
/// planned node group, where its name is not blank; the platform needs no
/// ownership.
pub proof fn scaling_reaches_the_runtime(
    cfg: ConfigView,
    node_group: Seq<char>,
    action_type: Seq<char>,
    owned: bool,
    id: Seq<char>,
    queued_at: i64,
    now: i64,
)
    requires
        cfg.control_base_url is Some,
        action_type == "ScaleNodeGroupUp"@ || action_type == "ScaleNodeGroupDown"@,
        trimmed(node_group).len() > 0,
        parsed(printed(scale_payload(node_group))) == Some(scale_payload(node_group)),
        now <= queued_at + SLOW_LOOP_SECONDS,
    ensures
        is_posted(
            cfg,
            as_seen(scale_action(node_group, action_type, queued_at), id, queued_at),
            owned,
            now,
            "/api/elasticity/control/node-groups/"@ + trimmed(node_group) + "/scale"@,
            with_member(
                no_members(),
                "delta_units"@,
                JsonView::Number(NumberView::Unsigned(1)),
            ),
        ),
{
    reveal_strlit("node_group");
    reveal_strlit("delta_units");
    reveal_strlit("SetPoolTarget");
    reveal_strlit("SetBurstPolicy");
    reveal_strlit("SetPlacementPreference");
    reveal_strlit("RollbackAction");
    reveal_strlit("ScaleNodeGroupUp");
    reveal_strlit("ScaleNodeGroupDown");
    assert("node_group"@.len() == 10 && "delta_units"@.len() == 11);
    assert("SetPoolTarget"@.len() == 13 && "SetBurstPolicy"@.len() == 14
        && "SetPlacementPreference"@.len() == 22 && "RollbackAction"@.len() == 14
        && "ScaleNodeGroupUp"@.len() == 16 && "ScaleNodeGroupDown"@.len() == 18);
}

} // verus!
