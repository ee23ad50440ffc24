//! The two planning loops. The fast one turns each workload's observation into
//! an intent and the actions that carry it out; the slow one scales node
//! groups.
use crate::double::Double;
use crate::json::{
    is_plain, is_plain_within, no_members, parsed, printed, with_member, Json, JsonView, NumberView,
    RESERVED_NAME,
};
use crate::keys::{decision_window_start, window_start_of};
use crate::queue::{
    all_enqueued, all_read_back, are_ids, enqueue_all, fresh_ids, queueing_leaves_the_rest,
    requeueing_changes_nothing, FAST_LOOP_SECONDS,
};
use crate::reasons::PLATFORM_TENANT_ID;
use crate::records::{
    views, IntentView, NewAction, NewActionView, NodeGroupObservation, NodeGroupView,
    OrchestratorIntent, PolicyRowView, WorkloadObservation, WorkloadPolicyRow, WorkloadSloRow,
    WorkloadView,
};
use crate::store::{
    current_intent, groups_seen, is_time, list_node_group_observations, load_current_intent,
    load_policy, load_slo, policy_of, slo_of, upsert_intent, workloads_seen, Store, StoreView,
};
use crate::table::{
    position, position_is_first, row_is_read_back, row_is_read_back_own, row_with, unique_keys,
    with_row, with_rows, Keyed,
};
use crate::text::{opt_text, same_text, texts};
use vstd::prelude::*;

verus! {

/// Seconds between two runs of the slow loop, and the length of its decision
/// windows.
pub const SLOW_LOOP_SECONDS: u64 = 120;

/// The bits of 0.85.
pub const HOT_BITS: u64 = 0x3feb_3333_3333_3333;

/// Zero.
pub open spec fn zero() -> Double {
    Double { bits: 0 }
}

/// The pressure from which a node group is hot: 0.85.
pub open spec fn hot() -> Double {
    Double { bits: HOT_BITS }
}

/// `v`, or the bound that it is beyond. Below `min` it is `min`, whatever
/// `max` is.
pub open spec fn clamped(v: int, min: int, max: int) -> int {
    if v < min {
        min
    } else if v > max {
        max
    } else {
        v
    }
}

/// `v`, or the bound that it is beyond.
pub fn clamp_u32(v: i64, min: u32, max: u32) -> (r: u32)
    ensures
        r == clamped(v as int, min as int, max as int),
{
    if v < min as i64 {
        return min;
    }
    if v > max as i64 {
        return max;
    }
    v as u32
}

// ---------------------------------------------------------------------------
// Node groups
// ---------------------------------------------------------------------------

/// The greatest of three pressures.
pub open spec fn greatest(cpu: Double, mem: Double, io: Double) -> Double {
    cpu.larger_of(mem).larger_of(io)
}

/// The pressure on a node group.
pub open spec fn pressure(group: NodeGroupView) -> Double {
    greatest(group.cpu_pressure, group.mem_pressure, group.io_pressure)
}

fn pressure_of(group: &NodeGroupObservation) -> (p: Double)
    ensures
        p == pressure(group@),
{
    group.cpu_pressure.max(group.mem_pressure).max(group.io_pressure)
}

/// The group at `at` is under pressure, no other is under more, and none
/// before it under as much.
pub open spec fn is_hottest(groups: Seq<NodeGroupView>, at: int) -> bool {
    &&& 0 <= at < groups.len()
    &&& pressure(groups[at]).exceeds(zero())
    &&& forall|i: int|
        0 <= i < groups.len() ==> !pressure(#[trigger] groups[i]).exceeds(pressure(groups[at]))
    &&& forall|i: int| 0 <= i < at ==> !pressure(#[trigger] groups[i]).reaches(pressure(groups[at]))
}

/// The named group is the hottest of all, and hot.
pub open spec fn is_hot_spot(groups: Seq<NodeGroupView>, name: Seq<char>) -> bool {
    exists|at: int| #[trigger]
        is_hottest(groups, at) && pressure(groups[at]).reaches(hot()) && groups[at].node_group
            == name
}

/// The workload's node group, where it is the hottest of all and hot.
pub fn hottest_group_for(workload_node_group: &str, groups: &Vec<NodeGroupObservation>) -> (hot:
    Option<String>)
    ensures
        opt_text(hot) == if is_hot_spot(views(groups@), workload_node_group@) {
            Some(workload_node_group@)
        } else {
            None
        },
{
    let ghost all = views(groups@);
    let mut candidate: Option<usize> = None;
    let mut max_pressure: Double = Double { bits: 0 };
    for i in 0..groups.len()
        invariant
            all == views(groups@),
            !max_pressure.is_nan(),
            candidate matches Some(c) ==> c < i && max_pressure == pressure(all[c as int])
                && max_pressure.exceeds(zero()),
            candidate is None ==> max_pressure == zero(),
            forall|k: int| 0 <= k < i ==> !pressure(#[trigger] all[k]).exceeds(max_pressure),
            candidate matches Some(c) ==> forall|k: int|
                0 <= k < c ==> !pressure(#[trigger] all[k]).reaches(max_pressure),
    {
        let p: Double = pressure_of(&groups[i]);
        assert(p == pressure(all[i as int]));
        if p.gt(max_pressure) {
            max_pressure = p;
            candidate = Some(i);
        }
    }
    match candidate {
        Some(c) => {
            assert(is_hottest(all, c as int));
            assert forall|at: int| #[trigger] is_hottest(all, at) implies at == c by {
                if at < c {
                    assert(!pressure(all[at]).reaches(pressure(all[c as int])));
                    assert(!pressure(all[c as int]).exceeds(pressure(all[at])));
                }
                if at > c {
                    assert(!pressure(all[c as int]).reaches(pressure(all[at])));
                    assert(!pressure(all[at]).exceeds(pressure(all[c as int])));
                }
            }
            assert(all[c as int] == groups@[c as int]@);
            if max_pressure.ge(Double { bits: HOT_BITS }) && same_text(
                groups[c].node_group.as_str(),
                workload_node_group,
            ) {
                Some(groups[c].node_group.clone())
            } else {
                None
            }
        },
        None => {
            assert forall|at: int| !#[trigger] is_hottest(all, at) by {
                if 0 <= at < all.len() {
                    assert(!pressure(all[at]).exceeds(zero()));
                }
            }
            None
        },
    }
}

/// Where the coolest group stands: the first, unless one behind it is under
/// less pressure, and so on.
pub open spec fn coolest_at(groups: Seq<NodeGroupView>) -> int
    decreases groups.len(),
{
    if groups.len() <= 1 {
        0
    } else {
        let so_far = coolest_at(groups.drop_last());
        if pressure(groups[so_far]).exceeds(pressure(groups.last())) {
            groups.len() - 1
        } else {
            so_far
        }
    }
}

/// The name of the coolest group, or `fallback` where there is no group.
pub open spec fn coolest(groups: Seq<NodeGroupView>, fallback: Seq<char>) -> Seq<char> {
    if groups.len() == 0 {
        fallback
    } else {
        groups[coolest_at(groups)].node_group
    }
}

/// The name of the coolest group, or `fallback` where there is no group.
pub fn coolest_group(groups: &Vec<NodeGroupObservation>, fallback: &str) -> (name: String)
    ensures
        name@ == coolest(views(groups@), fallback@),
{
    if groups.len() == 0 {
        return fallback.to_owned();
    }
    let ghost all = views(groups@);
    let mut at: usize = 0;
    let mut n: usize = 1;
    while n < groups.len()
        invariant
            1 <= n <= groups@.len(),
            at < n,
            all == views(groups@),
            at == coolest_at(all.take(n as int)),
        decreases groups@.len() - n,
    {
        assert(all.take(n + 1).drop_last() =~= all.take(n as int));
        assert(all.take(n + 1)[at as int] == groups@[at as int]@);
        assert(all.take(n + 1).last() == groups@[n as int]@);
        if pressure_of(&groups[at]).gt(pressure_of(&groups[n])) {
            at = n;
        }
        n = n + 1;
    }
    assert(all.take(n as int) =~= all);
    groups[at].node_group.clone()
}

/// Among groups whose pressures are numbers the coolest is under no more
/// pressure than any other, and under less than any before it.
pub proof fn coolest_is_least(groups: Seq<NodeGroupView>)
    requires
        groups.len() > 0,
        forall|i: int| 0 <= i < groups.len() ==> !pressure(#[trigger] groups[i]).is_nan(),
    ensures
        0 <= coolest_at(groups) < groups.len(),
        forall|i: int|
            0 <= i < groups.len() ==> pressure(#[trigger] groups[i]).reaches(
                pressure(groups[coolest_at(groups)]),
            ),
        forall|i: int|
            0 <= i < coolest_at(groups) ==> pressure(#[trigger] groups[i]).exceeds(
                pressure(groups[coolest_at(groups)]),
            ),
    decreases groups.len(),
{
    if groups.len() > 1 {
        let front = groups.drop_last();
        assert forall|i: int| 0 <= i < front.len() implies !pressure(
            #[trigger] front[i],
        ).is_nan() by {
            assert(front[i] == groups[i]);
        }
        coolest_is_least(front);
        let so_far = coolest_at(front);
        let last = groups[groups.len() - 1];
        assert forall|i: int| 0 <= i < groups.len() implies pressure(#[trigger] groups[i]).reaches(
            pressure(groups[coolest_at(groups)]),
        ) by {
            if i < front.len() {
                assert(front[i] == groups[i]);
                assert(pressure(front[i]).reaches(pressure(front[so_far])));
            }
        }
        assert forall|i: int| 0 <= i < coolest_at(groups) implies pressure(
            #[trigger] groups[i],
        ).exceeds(pressure(groups[coolest_at(groups)])) by {
            assert(front[i] == groups[i]);
            assert(pressure(front[i]).reaches(pressure(front[so_far])));
        }
    }
}

// ---------------------------------------------------------------------------
// One workload
// ---------------------------------------------------------------------------

/// What is computed for a workload in floating point: from its observation,
/// its policy and its current target.
#[derive(Clone, Copy)]
pub struct Estimate {
    /// The compute units in use, raised by up to as many again for a queue.
    pub scaled_units: i64,
    /// The processor cap of the policy, raised by a fifth.
    pub burst_cpu_guarded: Double,
    /// The memory of the policy, raised by fifteen hundredths.
    pub burst_mem_guarded: i64,
    /// The processor cap of the policy, in percent.
    pub cpu_limit_percent: u32,
    /// The raised processor cap, in percent.
    pub cpu_limit_percent_guarded: u32,
    /// The part of the current target that the policy's hysteresis is.
    pub hysteresis_threshold: u32,
}

/// What is decided for a workload.
pub struct WorkloadDecision {
    pub intent: OrchestratorIntent,
    pub actions: Vec<NewAction>,
}

#[verifier::ext_equal]
pub struct DecisionView {
    pub intent: IntentView,
    pub actions: Seq<NewActionView>,
}

impl View for WorkloadDecision {
    type V = DecisionView;

    open spec fn view(&self) -> DecisionView {
        DecisionView { intent: self.intent@, actions: views(self.actions@) }
    }
}

/// The lesser of two numbers.
pub open spec fn least(a: int, b: int) -> int {
    if a <= b {
        a
    } else {
        b
    }
}

/// `a` divided by `b`, rounded up.
pub open spec fn divided_up(a: int, b: int) -> int {
    (a + b - 1) / b
}

/// The quotas of a policy can be added up.
pub open spec fn quotas_add_up(policy: PolicyRowView) -> bool {
    policy.hard_quota + policy.soft_burst <= u32::MAX
}

/// The service falls short of what is asked of it.
pub open spec fn falls_short(seen: WorkloadView, slo: Option<WorkloadSloRow>) -> bool {
    slo matches Some(slo) && (seen.invoke_p95_ms > slo.p95_latency_ms
        || seen.cold_start_pct.exceeds(slo.max_cold_start_pct) || seen.reject_pct.exceeds(
        slo.max_reject_pct,
    ) || seen.cost_per_compute_unit.exceeds(slo.max_cost_per_compute_unit))
}

/// How many units a workload should have: what it uses, and the policy's
/// concurrency at least, within the quotas and the limit; where the service
/// falls short, the burst more, within the limit.
pub open spec fn desired_units(
    seen: WorkloadView,
    policy: PolicyRowView,
    slo: Option<WorkloadSloRow>,
    scaled_units: int,
) -> int {
    let wanted = if scaled_units >= policy.max_concurrency {
        scaled_units
    } else {
        policy.max_concurrency as int
    };
    let granted = least(
        least(wanted, policy.hard_quota + policy.soft_burst),
        policy.absolute_limit as int,
    );
    if falls_short(seen, slo) {
        least(granted + policy.soft_burst, policy.absolute_limit as int)
    } else {
        granted
    }
}

/// Why the intent is what it is: the strongest of the reasons that hold.
pub open spec fn intent_reason(seen: WorkloadView, slo: Option<WorkloadSloRow>) -> Seq<char> {
    if greatest(seen.cpu_pressure, seen.mem_pressure, seen.io_pressure).exceeds(hot()) {
        "HOT_NODE_GROUP"@
    } else if seen.queue_depth > 0 {
        "QUEUE_PRESSURE"@
    } else if falls_short(seen, slo) {
        "SLO_GUARD"@
    } else {
        "STEADY_STATE"@
    }
}

/// What is intended for a workload at `now`.
pub open spec fn intent_for(
    seen: WorkloadView,
    policy: PolicyRowView,
    slo: Option<WorkloadSloRow>,
    estimate: Estimate,
    groups: Seq<NodeGroupView>,
    now: i64,
) -> IntentView {
    let desired = desired_units(seen, policy, slo, estimate.scaled_units as int);
    let apart = is_hot_spot(groups, seen.node_group);
    IntentView {
        tenant_id: seen.tenant_id,
        workload_id: seen.workload_id,
        target_concurrency: clamped(desired, 1, policy.absolute_limit as int) as u32,
        burst_cpu_cap: if falls_short(seen, slo) {
            estimate.burst_cpu_guarded
        } else {
            policy.burst_cpu_cap
        },
        burst_mem_mb: clamped(
            if falls_short(seen, slo) {
                estimate.burst_mem_guarded as int
            } else {
                policy.burst_mem_mb as int
            },
            64,
            least(2 * policy.burst_mem_mb, u32::MAX as int),
        ) as u32,
        burst_ttl_seconds: policy.burst_ttl_seconds,
        pool_min_ready: divided_up(desired, 10) as u32,
        pool_target_ready: divided_up(desired, 5) as u32,
        pool_max_ready: divided_up(3 * desired, 10) as u32,
        preferred_node_group: if apart {
            coolest(groups, seen.node_group)
        } else {
            seen.node_group
        },
        anti_affinity: apart,
        reason_code: intent_reason(seen, slo),
        effective_at: now,
        ttl_seconds: policy.burst_ttl_seconds,
        updated_at: now,
    }
}

/// The distance of two numbers.
pub open spec fn distance(a: u32, b: u32) -> int {
    if a >= b {
        a - b
    } else {
        b - a
    }
}

/// The current target is due for a change to `target`: it is older than the
/// cooldown, and further from it than the threshold, which is at least one.
pub open spec fn is_worth_a_change(
    current: Option<(u32, i64)>,
    target: u32,
    cooldown_seconds: u32,
    threshold: u32,
    now: i64,
) -> bool {
    current matches Some(current) ==> now - current.1 >= cooldown_seconds && distance(
        target,
        current.0,
    ) > threshold && distance(target, current.0) > 1
}

/// The start of the fast loop's decision window at `now`.
pub open spec fn fast_window(now: i64) -> i64 {
    window_start_of(now as int, FAST_LOOP_SECONDS as int) as i64
}

/// An action of the fast loop.
pub open spec fn workload_action(
    intent: IntentView,
    action_type: Seq<char>,
    payload: JsonView,
    now: i64,
) -> NewActionView {
    NewActionView {
        tenant_id: intent.tenant_id,
        workload_id: intent.workload_id,
        action_type,
        payload,
        ttl_seconds: intent.ttl_seconds,
        decision_window_start: fast_window(now),
        rollback_action: None,
        parent_action_id: None,
    }
}

/// What sets the pool of a workload's function.
pub open spec fn pool_payload(intent: IntentView, function_id: Seq<char>) -> JsonView {
    with_member(
        with_member(
            with_member(no_members(), "function_id"@, JsonView::Text(function_id)),
            "min_instances"@,
            JsonView::Number(NumberView::Unsigned(intent.pool_min_ready as u64)),
        ),
        "max_instances"@,
        JsonView::Number(NumberView::Unsigned(intent.pool_max_ready as u64)),
    )
}

/// What sets the limits of a container.
pub open spec fn burst_payload(
    intent: IntentView,
    container_id: Seq<char>,
    cpu_limit_percent: u32,
) -> JsonView {
    with_member(
        with_member(
            with_member(no_members(), "container_id"@, JsonView::Text(container_id)),
            "memory_limit_mb"@,
            JsonView::Number(NumberView::Unsigned(intent.burst_mem_mb as u64)),
        ),
        "cpu_limit_percent"@,
        JsonView::Number(NumberView::Unsigned(cpu_limit_percent as u64)),
    )
}

/// What says where a workload should run.
pub open spec fn placement_payload(intent: IntentView) -> JsonView {
    with_member(
        with_member(
            with_member(
                with_member(no_members(), "tenant_id"@, JsonView::Text(intent.tenant_id)),
                "workload_id"@,
                JsonView::Text(intent.workload_id),
            ),
            "node_group"@,
            JsonView::Text(intent.preferred_node_group),
        ),
        "anti_affinity"@,
        JsonView::Bool(intent.anti_affinity),
    )
}

/// The actions that set the limits of containers, one for each.
pub open spec fn burst_actions(
    intent: IntentView,
    containers: Seq<Seq<char>>,
    cpu_limit_percent: u32,
    now: i64,
) -> Seq<NewActionView> {
    containers.map_values(
        |container: Seq<char>|
            workload_action(
                intent,
                "SetBurstPolicy"@,
                burst_payload(intent, container, cpu_limit_percent),
                now,
            ),
    )
}

/// The actions that carry an intent out: the pool, each container, and the
/// placement.
pub open spec fn actions_for(
    intent: IntentView,
    policy: PolicyRowView,
    cpu_limit_percent: u32,
    now: i64,
) -> Seq<NewActionView> {
    seq![
        workload_action(
            intent,
            "SetPoolTarget"@,
            pool_payload(intent, policy.runtime_function_id),
            now,
        ),
    ] + burst_actions(intent, policy.target_container_ids, cpu_limit_percent, now) + seq![
        workload_action(intent, "SetPlacementPreference"@, placement_payload(intent), now),
    ]
}

/// What is decided for a workload at `now`; nothing where the current target
/// is not worth a change.
pub open spec fn decision_for(
    seen: WorkloadView,
    policy: PolicyRowView,
    slo: Option<WorkloadSloRow>,
    estimate: Estimate,
    groups: Seq<NodeGroupView>,
    current: Option<(u32, i64)>,
    now: i64,
) -> Option<DecisionView> {
    let intent = intent_for(seen, policy, slo, estimate, groups, now);
    if is_worth_a_change(
        current,
        intent.target_concurrency,
        policy.cooldown_seconds,
        estimate.hysteresis_threshold,
        now,
    ) {
        Some(
            DecisionView {
                intent,
                actions: actions_for(
                    intent,
                    policy,
                    if falls_short(seen, slo) {
                        estimate.cpu_limit_percent_guarded
                    } else {
                        estimate.cpu_limit_percent
                    },
                    now,
                ),
            },
        )
    } else {
        None
    }
}

/// What an optional decision holds.
pub open spec fn opt_decision(decision: Option<WorkloadDecision>) -> Option<DecisionView> {
    match decision {
        Some(decision) => Some(decision@),
        None => None,
    }
}

fn is_short(seen: &WorkloadObservation, slo: &Option<WorkloadSloRow>) -> (yes: bool)
    ensures
        yes == falls_short(seen@, *slo),
{
    match slo {
        Some(slo) => seen.invoke_p95_ms > slo.p95_latency_ms || seen.cold_start_pct.gt(
            slo.max_cold_start_pct,
        ) || seen.reject_pct.gt(slo.max_reject_pct) || seen.cost_per_compute_unit.gt(
            slo.max_cost_per_compute_unit,
        ),
        None => false,
    }
}

proof fn lemma_desired(
    seen: WorkloadView,
    policy: PolicyRowView,
    slo: Option<WorkloadSloRow>,
    scaled_units: int,
)
    ensures
        0 <= desired_units(seen, policy, slo, scaled_units) <= policy.absolute_limit,
        0 <= divided_up(desired_units(seen, policy, slo, scaled_units), 10) <= u32::MAX,
        0 <= divided_up(desired_units(seen, policy, slo, scaled_units), 5) <= u32::MAX,
        0 <= divided_up(3 * desired_units(seen, policy, slo, scaled_units), 10) <= u32::MAX,
{
}

fn desire(
    seen: &WorkloadObservation,
    policy: &WorkloadPolicyRow,
    slo: &Option<WorkloadSloRow>,
    scaled_units: i64,
) -> (desired: i64)
    requires
        quotas_add_up(policy@),
    ensures
        desired == desired_units(seen@, policy@, *slo, scaled_units as int),
        0 <= desired <= policy@.absolute_limit,
{
    let mut desired: i64 = scaled_units;
    if desired < policy.max_concurrency as i64 {
        desired = policy.max_concurrency as i64;
    }
    let quota: i64 = (policy.hard_quota + policy.soft_burst) as i64;
    if desired > quota {
        desired = quota;
    }
    let limit: i64 = policy.absolute_limit as i64;
    if desired > limit {
        desired = limit;
    }
    if is_short(seen, slo) {
        desired = desired + policy.soft_burst as i64;
        if desired > limit {
            desired = limit;
        }
    }
    desired
}

fn reason_for(seen: &WorkloadObservation, slo: &Option<WorkloadSloRow>) -> (reason: String)
    ensures
        reason@ == intent_reason(seen@, *slo),
{
    let strain: Double = seen.cpu_pressure.max(seen.mem_pressure).max(seen.io_pressure);
    if strain.gt(Double { bits: HOT_BITS }) {
        "HOT_NODE_GROUP".to_owned()
    } else if seen.queue_depth > 0 {
        "QUEUE_PRESSURE".to_owned()
    } else if is_short(seen, slo) {
        "SLO_GUARD".to_owned()
    } else {
        "STEADY_STATE".to_owned()
    }
}

/// What is intended for a workload at `now`.
pub fn plan_intent(
    seen: &WorkloadObservation,
    policy: &WorkloadPolicyRow,
    slo: &Option<WorkloadSloRow>,
    estimate: &Estimate,
    groups: &Vec<NodeGroupObservation>,
    now: i64,
) -> (intent: OrchestratorIntent)
    requires
        quotas_add_up(policy@),
    ensures
        intent@ == intent_for(seen@, policy@, *slo, *estimate, views(groups@), now),
{
    let desired: i64 = desire(seen, policy, slo, estimate.scaled_units);
    let short: bool = is_short(seen, slo);
    let burst_mem: i64 = if short {
        estimate.burst_mem_guarded
    } else {
        policy.burst_mem_mb as i64
    };
    let most_mem: u32 = if policy.burst_mem_mb <= 0x7fff_ffff {
        policy.burst_mem_mb * 2
    } else {
        u32::MAX
    };
    let apart: bool = hottest_group_for(seen.node_group.as_str(), groups).is_some();
    let preferred: String = if apart {
        coolest_group(groups, seen.node_group.as_str())
    } else {
        seen.node_group.clone()
    };
    proof {
        lemma_desired(seen@, policy@, *slo, estimate.scaled_units as int);
    }
    OrchestratorIntent {
        tenant_id: seen.tenant_id.clone(),
        workload_id: seen.workload_id.clone(),
        target_concurrency: clamp_u32(desired, 1, policy.absolute_limit),
        burst_cpu_cap: if short {
            estimate.burst_cpu_guarded
        } else {
            policy.burst_cpu_cap
        },
        burst_mem_mb: clamp_u32(burst_mem, 64, most_mem),
        burst_ttl_seconds: policy.burst_ttl_seconds,
        pool_min_ready: ((desired + 9) / 10) as u32,
        pool_target_ready: ((desired + 4) / 5) as u32,
        pool_max_ready: ((3 * desired + 9) / 10) as u32,
        preferred_node_group: preferred,
        anti_affinity: apart,
        reason_code: reason_for(seen, slo),
        effective_at: now,
        ttl_seconds: policy.burst_ttl_seconds,
        updated_at: now,
    }
}

fn make_action(intent: &OrchestratorIntent, action_type: &str, payload: Json, now: i64) -> (new:
    NewAction)
    ensures
        new@ == workload_action(intent@, action_type@, payload@, now),
{
    NewAction {
        tenant_id: intent.tenant_id.clone(),
        workload_id: intent.workload_id.clone(),
        action_type: action_type.to_owned(),
        payload,
        ttl_seconds: intent.ttl_seconds,
        decision_window_start: decision_window_start(now, FAST_LOOP_SECONDS as i64),
        rollback_action: None,
        parent_action_id: None,
    }
}

/// The actions that carry an intent out.
pub fn plan_actions(
    intent: &OrchestratorIntent,
    policy: &WorkloadPolicyRow,
    cpu_limit_percent: u32,
    now: i64,
) -> (actions: Vec<NewAction>)
    ensures
        views(actions@) == actions_for(intent@, policy@, cpu_limit_percent, now),
{
    let mut actions: Vec<NewAction> = Vec::new();
    let pool: Json = Json::empty_object().with(
        "function_id",
        Json::text(policy.runtime_function_id.as_str()),
    ).with("min_instances", Json::unsigned(intent.pool_min_ready as u64)).with(
        "max_instances",
        Json::unsigned(intent.pool_max_ready as u64),
    );
    let ghost first = workload_action(
        intent@,
        "SetPoolTarget"@,
        pool_payload(intent@, policy@.runtime_function_id),
        now,
    );
    actions.push(make_action(intent, "SetPoolTarget", pool, now));
    let ghost bursts = burst_actions(intent@, policy@.target_container_ids, cpu_limit_percent, now);
    assert(views(actions@) =~= seq![first] + bursts.take(0));
    for i in 0..policy.target_container_ids.len()
        invariant
            i <= policy.target_container_ids@.len(),
            bursts == burst_actions(
                intent@,
                policy@.target_container_ids,
                cpu_limit_percent,
                now,
            ),
            bursts.len() == policy.target_container_ids@.len(),
            views(actions@) == seq![first] + bursts.take(i as int),
    {
        let container: &String = &policy.target_container_ids[i];
        let burst: Json = Json::empty_object().with(
            "container_id",
            Json::text(container.as_str()),
        ).with("memory_limit_mb", Json::unsigned(intent.burst_mem_mb as u64)).with(
            "cpu_limit_percent",
            Json::unsigned(cpu_limit_percent as u64),
        );
        let ghost before = views(actions@);
        let new: NewAction = make_action(intent, "SetBurstPolicy", burst, now);
        assert(new@ == bursts[i as int]);
        actions.push(new);
        assert(views(actions@) =~= before.push(new@));
        assert(bursts.take(i + 1) =~= bursts.take(i as int).push(bursts[i as int]));
    }
    assert(bursts.take(bursts.len() as int) =~= bursts);
    let placement: Json = Json::empty_object().with(
        "tenant_id",
        Json::text(intent.tenant_id.as_str()),
    ).with("workload_id", Json::text(intent.workload_id.as_str())).with(
        "node_group",
        Json::text(intent.preferred_node_group.as_str()),
    ).with("anti_affinity", Json::Bool(intent.anti_affinity));
    let ghost before = views(actions@);
    let last: NewAction = make_action(intent, "SetPlacementPreference", placement, now);
    actions.push(last);
    assert(views(actions@) =~= before.push(last@));
    assert(views(actions@) =~= actions_for(intent@, policy@, cpu_limit_percent, now));
    actions
}

/// What is decided for a workload at `now`; nothing where the current target
/// is not worth a change.
pub fn plan_workload(
    seen: &WorkloadObservation,
    policy: &WorkloadPolicyRow,
    slo: &Option<WorkloadSloRow>,
    estimate: &Estimate,
    groups: &Vec<NodeGroupObservation>,
    current: Option<(u32, i64)>,
    now: i64,
) -> (decision: Option<WorkloadDecision>)
    requires
        quotas_add_up(policy@),
        current matches Some(c) ==> i64::MIN <= now - c.1 <= i64::MAX,
    ensures
        opt_decision(decision) == decision_for(
            seen@,
            policy@,
            *slo,
            *estimate,
            views(groups@),
            current,
            now,
        ),
{
    let intent: OrchestratorIntent = plan_intent(seen, policy, slo, estimate, groups, now);
    if let Some((current_target, current_updated_at)) = current {
        let cooling: bool = now - current_updated_at < policy.cooldown_seconds as i64;
        let delta: u32 = if intent.target_concurrency >= current_target {
            intent.target_concurrency - current_target
        } else {
            current_target - intent.target_concurrency
        };
        if cooling || delta <= estimate.hysteresis_threshold || delta <= 1 {
            return None;
        }
    }
    let cpu_limit_percent: u32 = if is_short(seen, slo) {
        estimate.cpu_limit_percent_guarded
    } else {
        estimate.cpu_limit_percent
    };
    let actions: Vec<NewAction> = plan_actions(&intent, policy, cpu_limit_percent, now);
    Some(WorkloadDecision { intent, actions })
}

// ---------------------------------------------------------------------------
// The fast loop
// ---------------------------------------------------------------------------

/// What is decided for the workload at `i` of the table, where it has a policy.
pub open spec fn decision_at(store: StoreView, i: int, estimate: Estimate, now: i64) -> Option<
    DecisionView,
> {
    let seen = workloads_seen(store)[i];
    match policy_of(store, seen.tenant_id, seen.workload_id) {
        Some(policy) => decision_for(
            seen,
            policy,
            slo_of(store, seen.tenant_id, seen.workload_id),
            estimate,
            groups_seen(store),
            current_intent(store, seen.tenant_id, seen.workload_id),
            now,
        ),
        None => None,
    }
}

/// What is decided for the first `n` workloads of the table, in order.
pub open spec fn fast_decisions(
    store: StoreView,
    estimates: Seq<Estimate>,
    n: int,
    now: i64,
) -> Seq<DecisionView>
    decreases n,
{
    if n <= 0 {
        Seq::empty()
    } else {
        let so_far = fast_decisions(store, estimates, n - 1, now);
        match decision_at(store, n - 1, estimates[n - 1], now) {
            Some(decision) => so_far.push(decision),
            None => so_far,
        }
    }
}

/// The quotas of the policy that is kept under the key, if one is, can be added
/// up.
pub open spec fn quotas_kept_fit(store: StoreView, key: (Seq<char>, Seq<char>)) -> bool {
    row_with(store.policies, key) matches Some(kept) ==> kept.hard_quota + kept.soft_burst
        <= u32::MAX
}

/// The quotas of every policy that the fast loop looks at can be added up.
pub open spec fn quotas_fit(store: StoreView) -> bool {
    forall|i: int|
        0 <= i < store.workloads.len() ==> quotas_kept_fit(
            store,
            (#[trigger] store.workloads[i]).key(),
        )
}

/// Whether the quotas of every policy that the fast loop looks at can be added
/// up.
pub fn quotas_can_be_added(store: &Store) -> (yes: bool)
    ensures
        yes == quotas_fit(store@),
{
    for i in 0..store.workloads.len()
        invariant
            i <= store.workloads@.len(),
            forall|k: int|
                0 <= k < i ==> quotas_kept_fit(store@, (#[trigger] store@.workloads[k]).key()),
    {
        let seen = &store.workloads[i].seen;
        assert(store@.workloads[i as int].seen == seen@);
        assert(store@.workloads[i as int].key() == (seen@.tenant_id, seen@.workload_id));
        if let Some(policy) = load_policy(
            store,
            seen.tenant_id.as_str(),
            seen.workload_id.as_str(),
        ) {
            if policy.hard_quota > u32::MAX - policy.soft_burst {
                return false;
            }
        }
    }
    true
}

/// The age of the intent that is kept under the key, if one is, can be told.
pub open spec fn age_fits(store: StoreView, key: (Seq<char>, Seq<char>), now: i64) -> bool {
    row_with(store.policies, key) is Some && row_with(store.intents, key) is Some ==> i64::MIN
        <= now - row_with(store.intents, key)->0.updated_at <= i64::MAX
}

/// The age of every intent that the fast loop looks at can be told.
pub open spec fn ages_fit(store: StoreView, now: i64) -> bool {
    forall|i: int|
        0 <= i < store.workloads.len() ==> age_fits(
            store,
            (#[trigger] store.workloads[i]).key(),
            now,
        )
}

/// Whether the age of every intent that the fast loop looks at can be told.
pub fn ages_can_be_told(store: &Store, now: i64) -> (yes: bool)
    ensures
        yes == ages_fit(store@, now),
{
    for i in 0..store.workloads.len()
        invariant
            i <= store.workloads@.len(),
            forall|k: int|
                0 <= k < i ==> age_fits(store@, (#[trigger] store@.workloads[k]).key(), now),
    {
        let seen = &store.workloads[i].seen;
        assert(store@.workloads[i as int].seen == seen@);
        assert(store@.workloads[i as int].key() == (seen@.tenant_id, seen@.workload_id));
        let planned: bool = load_policy(
            store,
            seen.tenant_id.as_str(),
            seen.workload_id.as_str(),
        ).is_some();
        if let Some((_, updated_at)) = load_current_intent(
            store,
            seen.tenant_id.as_str(),
            seen.workload_id.as_str(),
        ) {
            let age: i128 = now as i128 - updated_at as i128;
            if planned && (age < i64::MIN as i128 || age > i64::MAX as i128) {
                return false;
            }
        }
    }
    true
}

/// In sound tables the age of every intent can be told at any time that the
/// clock can give.
pub proof fn sound_ages_fit(store: StoreView, now: i64)
    requires
        store.sound(),
        is_time(now),
    ensures
        ages_fit(store, now),
{
    assert forall|i: int| 0 <= i < store.workloads.len() implies age_fits(
        store,
        (#[trigger] store.workloads[i]).key(),
        now,
    ) by {
        let key = store.workloads[i].key();
        position_is_first(store.intents, key);
        if row_with(store.intents, key) is Some {
            assert(is_time(store.intents[position(store.intents, key)].updated_at));
        }
    }
}

/// What the fast loop decides at `now`, with an estimate for each workload of
/// the table.
pub fn plan_fast_loop(store: &Store, estimates: &Vec<Estimate>, now: i64) -> (decisions: Vec<
    WorkloadDecision,
>)
    requires
        store@.keys_unique(),
        ages_fit(store@, now),
        quotas_fit(store@),
        estimates@.len() == store@.workloads.len(),
    ensures
        views(decisions@) == fast_decisions(
            store@,
            estimates@,
            store@.workloads.len() as int,
            now,
        ),
{
    let groups: Vec<NodeGroupObservation> = list_node_group_observations(store);
    let mut decisions: Vec<WorkloadDecision> = Vec::new();
    assert(views(decisions@) =~= Seq::empty());
    for i in 0..store.workloads.len()
        invariant
            i <= store.workloads@.len(),
            ages_fit(store@, now),
            quotas_fit(store@),
            estimates@.len() == store@.workloads.len(),
            views(groups@) == groups_seen(store@),
            views(decisions@) == fast_decisions(store@, estimates@, i as int, now),
    {
        let seen = &store.workloads[i].seen;
        assert(store@.workloads[i as int].seen == seen@);
        assert(workloads_seen(store@)[i as int] == seen@);
        assert(quotas_kept_fit(store@, store@.workloads[i as int].key()));
        assert(age_fits(store@, store@.workloads[i as int].key(), now));
        if let Some(policy) = load_policy(
            store,
            seen.tenant_id.as_str(),
            seen.workload_id.as_str(),
        ) {
            let slo: Option<WorkloadSloRow> = load_slo(
                store,
                seen.tenant_id.as_str(),
                seen.workload_id.as_str(),
            );
            let current: Option<(u32, i64)> = load_current_intent(
                store,
                seen.tenant_id.as_str(),
                seen.workload_id.as_str(),
            );
            if let Some(decision) = plan_workload(
                seen,
                &policy,
                &slo,
                &estimates[i],
                &groups,
                current,
                now,
            ) {
                let ghost before = views(decisions@);
                decisions.push(decision);
                assert(views(decisions@) =~= before.push(decision@));
            }
        }
    }
    decisions
}

/// The intents of decisions.
pub open spec fn intents_of(decisions: Seq<DecisionView>) -> Seq<IntentView> {
    decisions.map_values(|decision: DecisionView| decision.intent)
}

/// The actions of decisions, one decision after the other.
pub open spec fn actions_of(decisions: Seq<DecisionView>) -> Seq<NewActionView>
    decreases decisions.len(),
{
    if decisions.len() == 0 {
        Seq::empty()
    } else {
        actions_of(decisions.drop_last()) + decisions.last().actions
    }
}

/// The tables after decisions were entered at `now`: their intents, and their
/// actions with the ids in turn.
pub open spec fn decided(
    store: StoreView,
    decisions: Seq<DecisionView>,
    ids: Seq<Seq<char>>,
    now: i64,
) -> StoreView {
    all_enqueued(
        StoreView { intents: with_rows(store.intents, intents_of(decisions)), ..store },
        actions_of(decisions),
        ids,
        now,
    )
}

/// Every intent was set at a time that the clock can give.
pub open spec fn set_in_time(decisions: Seq<DecisionView>) -> bool {
    forall|i: int| 0 <= i < decisions.len() ==> is_time((#[trigger] decisions[i]).intent.updated_at)
}

/// Enters the intents of decisions, and gives back their actions.
fn enter_intents(store: &mut Store, decisions: Vec<WorkloadDecision>) -> (actions: Vec<NewAction>)
    ensures
        views(actions@) == actions_of(views(decisions@)),
        final(store)@ == (StoreView {
            intents: with_rows(old(store)@.intents, intents_of(views(decisions@))),
            ..old(store)@
        }),
        old(store)@.sound() && set_in_time(views(decisions@)) ==> final(store)@.sound(),
{
    let ghost all = views(decisions@);
    let ghost before = store@;
    let mut actions: Vec<NewAction> = Vec::new();
    assert(views(actions@) =~= Seq::empty());
    assert(all.take(0) =~= Seq::empty());
    assert(intents_of(all.take(0)) =~= Seq::empty());
    for decision in it: decisions
        invariant
            it.seq() == decisions@,
            all == views(decisions@),
            views(actions@) == actions_of(all.take(it.index())),
            store@ == (StoreView {
                intents: with_rows(before.intents, intents_of(all.take(it.index()))),
                ..before
            }),
            before.sound() && set_in_time(all) ==> store@.sound(),
    {
        let ghost n = it.index();
        let ghost so_far = views(actions@);
        let ghost held = views(decision.actions@);
        assert(all[n] == decision@);
        assert(all.take(n + 1).drop_last() =~= all.take(n));
        assert(intents_of(all.take(n + 1)).drop_last() =~= intents_of(all.take(n)));
        upsert_intent(store, &decision.intent);
        let mut more: Vec<NewAction> = decision.actions;
        actions.append(&mut more);
        assert(views(actions@) =~= so_far + held);
    }
    assert(all.take(all.len() as int) =~= all);
    actions
}

/// Enters decisions: their intents, and their actions with the ids in turn.
pub fn enter_decisions(
    store: &mut Store,
    decisions: Vec<WorkloadDecision>,
    ids: &Vec<String>,
    now: i64,
)
    requires
        ids@.len() == actions_of(views(decisions@)).len(),
    ensures
        final(store)@ == decided(old(store)@, views(decisions@), texts(ids@), now),
        all_read_back(actions_of(views(decisions@))),
        old(store)@.sound() && is_time(now) && set_in_time(views(decisions@))
            ==> final(store)@.sound(),
{
    let actions: Vec<NewAction> = enter_intents(store, decisions);
    assert(views(actions@).len() == actions@.len());
    enqueue_all(store, &actions, ids, now);
}

/// The payload of every planned action is plain, so that it is read back from
/// the queue as it was planned.
pub proof fn planned_payloads_are_plain(
    intent: IntentView,
    function_id: Seq<char>,
    container_id: Seq<char>,
    cpu_limit_percent: u32,
    node_group: Seq<char>,
)
    ensures
        is_plain(pool_payload(intent, function_id)),
        is_plain(burst_payload(intent, container_id, cpu_limit_percent)),
        is_plain(placement_payload(intent)),
        is_plain(scale_payload(node_group)),
{
    reveal_with_fuel(is_plain_within, 2);
    reveal_strlit("$serde_json::private::RawValue");
    reveal_strlit("function_id");
    reveal_strlit("min_instances");
    reveal_strlit("max_instances");
    reveal_strlit("container_id");
    reveal_strlit("memory_limit_mb");
    reveal_strlit("cpu_limit_percent");
    reveal_strlit("tenant_id");
    reveal_strlit("workload_id");
    reveal_strlit("node_group");
    reveal_strlit("anti_affinity");
    assert(RESERVED_NAME@.len() == 30);
    assert("function_id"@.len() < 30 && "min_instances"@.len() < 30 && "max_instances"@.len() < 30
        && "container_id"@.len() < 30 && "memory_limit_mb"@.len() < 30
        && "cpu_limit_percent"@.len() < 30 && "tenant_id"@.len() < 30 && "workload_id"@.len() < 30
        && "node_group"@.len() < 30 && "anti_affinity"@.len() < 30);
    lemma_scaling_is_plain(node_group);
}

proof fn lemma_scaling_is_plain(node_group: Seq<char>)
    ensures
        is_plain(scale_payload(node_group)),
{
    reveal_with_fuel(is_plain_within, 2);
    reveal_strlit("$serde_json::private::RawValue");
    reveal_strlit("node_group");
    reveal_strlit("delta_units");
    assert(RESERVED_NAME@.len() == 30);
    assert("node_group"@.len() < 30 && "delta_units"@.len() < 30);
}

/// The payload of every action is read back from its text.
pub open spec fn payloads_come_back(actions: Seq<NewActionView>) -> bool {
    forall|i: int|
        0 <= i < actions.len() ==> parsed(printed((#[trigger] actions[i]).payload)) == Some(
            actions[i].payload,
        )
}

/// The payload of every action is plain.
pub open spec fn payloads_are_plain(actions: Seq<NewActionView>) -> bool {
    forall|i: int| 0 <= i < actions.len() ==> is_plain((#[trigger] actions[i]).payload)
}

proof fn lemma_fast_payloads(store: StoreView, estimates: Seq<Estimate>, n: int, now: i64)
    ensures
        payloads_are_plain(actions_of(fast_decisions(store, estimates, n, now))),
    decreases n,
{
    if n > 0 {
        lemma_fast_payloads(store, estimates, n - 1, now);
        let so_far = fast_decisions(store, estimates, n - 1, now);
        if let Some(decision) = decision_at(store, n - 1, estimates[n - 1], now) {
            let seen = workloads_seen(store)[n - 1];
            let policy = policy_of(store, seen.tenant_id, seen.workload_id)->0;
            let more = so_far.push(decision);
            assert(more.drop_last() =~= so_far);
            let before = actions_of(so_far);
            assert forall|i: int| 0 <= i < actions_of(more).len() implies is_plain(
                (#[trigger] actions_of(more)[i]).payload,
            ) by {
                if i < before.len() {
                    assert(actions_of(more)[i] == before[i]);
                } else {
                    let k = i - before.len();
                    let action = decision.actions[k];
                    assert(actions_of(more)[i] == action);
                    let intent = decision.intent;
                    let containers = policy.target_container_ids;
                    let cpu = if falls_short(
                        seen,
                        slo_of(store, seen.tenant_id, seen.workload_id),
                    ) {
                        estimates[n - 1].cpu_limit_percent_guarded
                    } else {
                        estimates[n - 1].cpu_limit_percent
                    };
                    planned_payloads_are_plain(
                        intent,
                        policy.runtime_function_id,
                        containers[k - 1],
                        cpu,
                        intent.preferred_node_group,
                    );
                    if 0 < k <= containers.len() {
                        assert(action == burst_actions(intent, containers, cpu, now)[k - 1]);
                    }
                }
            }
        }
    }
}

proof fn lemma_slow_payloads(groups: Seq<NodeGroupView>, now: i64)
    ensures
        payloads_are_plain(slow_actions(groups, now)),
    decreases groups.len(),
{
    if groups.len() > 0 {
        lemma_slow_payloads(groups.drop_last(), now);
        let name = groups.last().node_group;
        lemma_scaling_is_plain(name);
    }
}

proof fn lemma_set_in_time(store: StoreView, estimates: Seq<Estimate>, n: int, now: i64)
    requires
        is_time(now),
    ensures
        set_in_time(fast_decisions(store, estimates, n, now)),
    decreases n,
{
    if n > 0 {
        lemma_set_in_time(store, estimates, n - 1, now);
    }
}

/// One run of the fast loop at `now`, with an estimate for each workload of the
/// table: what is decided is entered, the actions under ids drawn at random.
pub fn run_fast_loop(store: &mut Store, estimates: &Vec<Estimate>, now: i64)
    requires
        old(store)@.keys_unique(),
        ages_fit(old(store)@, now),
        quotas_fit(old(store)@),
        estimates@.len() == old(store)@.workloads.len(),
    ensures
        exists|ids: Seq<Seq<char>>|
            are_ids(ids) && ids.len() == actions_of(
                fast_decisions(
                    old(store)@,
                    estimates@,
                    old(store)@.workloads.len() as int,
                    now,
                ),
            ).len() && final(store)@ == #[trigger] decided(
                old(store)@,
                fast_decisions(
                    old(store)@,
                    estimates@,
                    old(store)@.workloads.len() as int,
                    now,
                ),
                ids,
                now,
            ),
        payloads_come_back(
            actions_of(
                fast_decisions(
                    old(store)@,
                    estimates@,
                    old(store)@.workloads.len() as int,
                    now,
                ),
            ),
        ),
        old(store)@.sound() && is_time(now) ==> final(store)@.sound(),
{
    let ghost before = store@;
    let ghost plan = fast_decisions(before, estimates@, before.workloads.len() as int, now);
    let decisions: Vec<WorkloadDecision> = plan_fast_loop(store, estimates, now);
    proof {
        if is_time(now) {
            lemma_set_in_time(before, estimates@, before.workloads.len() as int, now);
        }
        lemma_fast_payloads(before, estimates@, before.workloads.len() as int, now);
    }
    let actions: Vec<NewAction> = enter_intents(store, decisions);
    let ids: Vec<String> = fresh_ids(actions.len());
    assert(views(actions@).len() == actions@.len());
    enqueue_all(store, &actions, &ids, now);
    assert(store@ == decided(before, plan, texts(ids@), now));
}

// ---------------------------------------------------------------------------
// The slow loop
// ---------------------------------------------------------------------------

/// More than four fifths of the group's units are in use.
pub open spec fn is_crowded(group: NodeGroupView) -> bool {
    group.capacity_units > 0 && 5 * group.used_units > 4 * group.capacity_units
}

/// Less than thirty-five hundredths of the group's units are in use, or it has
/// none.
pub open spec fn is_idle(group: NodeGroupView) -> bool {
    group.capacity_units == 0 || 20 * group.used_units < 7 * group.capacity_units
}

/// What makes a node group larger or smaller by one unit.
pub open spec fn scale_payload(node_group: Seq<char>) -> JsonView {
    with_member(
        with_member(no_members(), "node_group"@, JsonView::Text(node_group)),
        "delta_units"@,
        JsonView::Number(NumberView::Unsigned(1)),
    )
}

/// An action of the slow loop.
pub open spec fn scale_action(
    node_group: Seq<char>,
    action_type: Seq<char>,
    now: i64,
) -> NewActionView {
    NewActionView {
        tenant_id: PLATFORM_TENANT_ID@,
        workload_id: node_group,
        action_type,
        payload: scale_payload(node_group),
        ttl_seconds: SLOW_LOOP_SECONDS as u32,
        decision_window_start: window_start_of(now as int, SLOW_LOOP_SECONDS as int) as i64,
        rollback_action: None,
        parent_action_id: None,
    }
}

/// What is to be done about a node group: a crowded one grows, and an idle one
/// with nodes to spare shrinks.
pub open spec fn scaling_for(group: NodeGroupView, now: i64) -> Option<NewActionView> {
    if is_crowded(group) {
        Some(scale_action(group.node_group, "ScaleNodeGroupUp"@, now))
    } else if is_idle(group) && group.warm_ready > 0 {
        Some(scale_action(group.node_group, "ScaleNodeGroupDown"@, now))
    } else {
        None
    }
}

/// What is to be done about node groups, in order.
pub open spec fn slow_actions(groups: Seq<NodeGroupView>, now: i64) -> Seq<NewActionView>
    decreases groups.len(),
{
    if groups.len() == 0 {
        Seq::empty()
    } else {
        let so_far = slow_actions(groups.drop_last(), now);
        match scaling_for(groups.last(), now) {
            Some(action) => so_far.push(action),
            None => so_far,
        }
    }
}

fn make_scaling(node_group: &str, action_type: &str, now: i64) -> (new: NewAction)
    ensures
        new@ == scale_action(node_group@, action_type@, now),
{
    NewAction {
        tenant_id: PLATFORM_TENANT_ID.to_owned(),
        workload_id: node_group.to_owned(),
        action_type: action_type.to_owned(),
        payload: Json::empty_object().with("node_group", Json::text(node_group)).with(
            "delta_units",
            Json::unsigned(1),
        ),
        ttl_seconds: SLOW_LOOP_SECONDS as u32,
        decision_window_start: decision_window_start(now, SLOW_LOOP_SECONDS as i64),
        rollback_action: None,
        parent_action_id: None,
    }
}

/// What the slow loop decides at `now`.
pub fn plan_slow_loop(groups: &Vec<NodeGroupObservation>, now: i64) -> (actions: Vec<NewAction>)
    ensures
        views(actions@) == slow_actions(views(groups@), now),
{
    let ghost all = views(groups@);
    let mut actions: Vec<NewAction> = Vec::new();
    assert(views(actions@) =~= Seq::empty());
    assert(all.take(0) =~= Seq::empty());
    for i in 0..groups.len()
        invariant
            all == views(groups@),
            views(actions@) == slow_actions(all.take(i as int), now),
    {
        let group = &groups[i];
        assert(all.take(i + 1).drop_last() =~= all.take(i as int));
        assert(all.take(i + 1).last() == group@);
        let used: u64 = group.used_units as u64;
        let capacity: u64 = group.capacity_units as u64;
        let crowded: bool = capacity > 0 && 5 * used > 4 * capacity;
        let idle: bool = capacity == 0 || 20 * used < 7 * capacity;
        let ghost before = views(actions@);
        if crowded {
            let new: NewAction = make_scaling(group.node_group.as_str(), "ScaleNodeGroupUp", now);
            actions.push(new);
            assert(views(actions@) =~= before.push(new@));
        } else if idle && group.warm_ready > 0 {
            let new: NewAction = make_scaling(group.node_group.as_str(), "ScaleNodeGroupDown", now);
            actions.push(new);
            assert(views(actions@) =~= before.push(new@));
        }
    }
    assert(all.take(all.len() as int) =~= all);
    actions
}

/// One run of the slow loop at `now`: what is decided is queued under ids drawn
/// at random.
pub fn run_slow_loop(store: &mut Store, now: i64)
    ensures
        exists|ids: Seq<Seq<char>>|
            are_ids(ids) && ids.len() == slow_actions(groups_seen(old(store)@), now).len()
                && final(store)@ == #[trigger] all_enqueued(
                old(store)@,
                slow_actions(groups_seen(old(store)@), now),
                ids,
                now,
            ),
        payloads_come_back(slow_actions(groups_seen(old(store)@), now)),
        old(store)@.sound() && is_time(now) ==> final(store)@.sound(),
{
    let ghost before = store@;
    proof {
        lemma_slow_payloads(groups_seen(before), now);
    }
    let groups: Vec<NodeGroupObservation> = list_node_group_observations(store);
    let actions: Vec<NewAction> = plan_slow_loop(&groups, now);
    let ids: Vec<String> = fresh_ids(actions.len());
    assert(views(actions@).len() == actions@.len());
    enqueue_all(store, &actions, &ids, now);
    assert(store@ == all_enqueued(
        before,
        slow_actions(groups_seen(before), now),
        texts(ids@),
        now,
    ));
}

// ---------------------------------------------------------------------------
// Laws
// ---------------------------------------------------------------------------

/// An intent keeps the policy: its target is one at least and within the
/// limit, and without a shortfall within the quotas; the pool sizes ascend and
/// stay within the target; and the memory is no more than twice the policy's,
/// and sixty-four at least where that, or what the memory is raised to, leaves
/// room for it.
pub proof fn intent_keeps_the_policy(
    seen: WorkloadView,
    policy: PolicyRowView,
    slo: Option<WorkloadSloRow>,
    estimate: Estimate,
    groups: Seq<NodeGroupView>,
    now: i64,
)
    requires
        policy.absolute_limit >= 1,
    ensures
        ({
            let intent = intent_for(seen, policy, slo, estimate, groups, now);
            &&& 1 <= intent.target_concurrency <= policy.absolute_limit
            &&& !falls_short(seen, slo) && intent.target_concurrency > 1
                ==> intent.target_concurrency <= policy.hard_quota + policy.soft_burst
            &&& intent.pool_min_ready <= intent.pool_target_ready
            &&& intent.pool_target_ready <= intent.pool_max_ready
            &&& intent.pool_max_ready <= intent.target_concurrency
            &&& policy.burst_mem_mb >= 32 || estimate.burst_mem_guarded <= 2 * policy.burst_mem_mb
                ==> 64 <= intent.burst_mem_mb
            &&& intent.burst_mem_mb <= 64 || intent.burst_mem_mb <= 2 * policy.burst_mem_mb
            &&& intent.tenant_id == seen.tenant_id && intent.workload_id == seen.workload_id
        }),
{
    lemma_desired(seen, policy, slo, estimate.scaled_units as int);
}

/// Within the cooldown of the current intent nothing is decided, and neither is
/// anything where the target would stay or change by one.
pub proof fn steady_target_is_left_alone(
    seen: WorkloadView,
    policy: PolicyRowView,
    slo: Option<WorkloadSloRow>,
    estimate: Estimate,
    groups: Seq<NodeGroupView>,
    current: (u32, i64),
    now: i64,
)
    requires
        ({
            let target = intent_for(
                seen,
                policy,
                slo,
                estimate,
                groups,
                now,
            ).target_concurrency;
            ||| now - current.1 < policy.cooldown_seconds
            ||| distance(target, current.0) <= 1
            ||| distance(target, current.0) <= estimate.hysteresis_threshold
        }),
    ensures
        decision_for(seen, policy, slo, estimate, groups, Some(current), now) is None,
{
}

/// What is decided for a workload does not depend on what is decided for
/// another.
pub proof fn decisions_are_independent(
    store: StoreView,
    i: int,
    estimate: Estimate,
    other: IntentView,
    now: i64,
)
    requires
        0 <= i < store.workloads.len(),
        (other.tenant_id, other.workload_id) != store.workloads[i].key(),
    ensures
        decision_at(
            StoreView { intents: with_row(store.intents, other), ..store },
            i,
            estimate,
            now,
        ) == decision_at(store, i, estimate, now),
{
    row_is_read_back(store.intents, other, store.workloads[i].key());
}

pub(crate) proof fn lemma_intents_entered(
    store: StoreView,
    estimates: Seq<Estimate>,
    n: int,
    i: int,
    now: i64,
)
    requires
        unique_keys(store.workloads),
        0 <= n <= store.workloads.len(),
        0 <= i < store.workloads.len(),
    ensures
        row_with(
            with_rows(store.intents, intents_of(fast_decisions(store, estimates, n, now))),
            store.workloads[i].key(),
        ) == match decision_at(store, i, estimates[i], now) {
            Some(decision) => if i < n {
                Some(decision.intent)
            } else {
                row_with(store.intents, store.workloads[i].key())
            },
            None => row_with(store.intents, store.workloads[i].key()),
        },
    decreases n,
{
    if n > 0 {
        lemma_intents_entered(store, estimates, n - 1, i, now);
        let before = fast_decisions(store, estimates, n - 1, now);
        let key = store.workloads[i].key();
        match decision_at(store, n - 1, estimates[n - 1], now) {
            Some(decision) => {
                let after = before.push(decision);
                assert(intents_of(after).drop_last() =~= intents_of(before));
                assert(intents_of(after).last() == decision.intent);
                let kept = with_rows(store.intents, intents_of(before));
                assert(decision.intent.key() == store.workloads[n - 1].key());
                if i == n - 1 {
                    row_is_read_back_own(kept, decision.intent);
                } else {
                    assert(store.workloads[n - 1].key() != key) by {
                        if i < n - 1 {
                            assert(store.workloads[i].key() != store.workloads[n - 1].key());
                        } else {
                            assert(store.workloads[n - 1].key() != store.workloads[i].key());
                        }
                    }
                    row_is_read_back(kept, decision.intent, key);
                }
            },
            None => {},
        }
    }
}

/// The estimates after a run: those of workloads for which something was
/// decided may have another threshold, which follows the target; all else is
/// as it was.
pub open spec fn estimates_follow(
    store: StoreView,
    before: Seq<Estimate>,
    after: Seq<Estimate>,
    now: i64,
) -> bool {
    forall|i: int|
        0 <= i < store.workloads.len() ==> (#[trigger] after[i] == before[i] || (decision_at(
            store,
            i,
            before[i],
            now,
        ) is Some && after[i] == (Estimate {
            hysteresis_threshold: after[i].hysteresis_threshold,
            ..before[i]
        })))
}

proof fn lemma_nothing_left(
    store: StoreView,
    after: StoreView,
    estimates: Seq<Estimate>,
    others: Seq<Estimate>,
    n: int,
    now: i64,
)
    requires
        unique_keys(store.workloads),
        estimates_follow(store, estimates, others, now),
        0 <= n <= store.workloads.len(),
        after.policies == store.policies,
        after.slos == store.slos,
        after.workloads == store.workloads,
        after.groups == store.groups,
        after.intents == with_rows(
            store.intents,
            intents_of(
                fast_decisions(store, estimates, store.workloads.len() as int, now),
            ),
        ),
    ensures
        fast_decisions(after, others, n, now) == Seq::<DecisionView>::empty(),
    decreases n,
{
    if n > 0 {
        lemma_nothing_left(store, after, estimates, others, n - 1, now);
        lemma_intents_entered(
            store,
            estimates,
            store.workloads.len() as int,
            n - 1,
            now,
        );
        let seen = workloads_seen(store)[n - 1];
        assert(workloads_seen(after)[n - 1] == seen);
        assert(groups_seen(after) == groups_seen(store));
        assert(store.workloads[n - 1].key() == (seen.tenant_id, seen.workload_id));
        assert(others[n - 1] == estimates[n - 1] || decision_at(
            store,
            n - 1,
            estimates[n - 1],
            now,
        ) is Some);
    }
}

/// A run of the fast loop settles what it decides: a second run at the same
/// time changes nothing, whatever ids it draws, where the estimates are the same
/// but for the thresholds of the targets that were set.
pub proof fn fast_loop_settles(
    store: StoreView,
    estimates: Seq<Estimate>,
    others: Seq<Estimate>,
    ids: Seq<Seq<char>>,
    other_ids: Seq<Seq<char>>,
    now: i64,
)
    requires
        store.keys_unique(),
        estimates_follow(store, estimates, others, now),
    ensures
        ({
            let count = store.workloads.len() as int;
            let after = decided(store, fast_decisions(store, estimates, count, now), ids, now);
            &&& fast_decisions(after, others, count, now) == Seq::<DecisionView>::empty()
            &&& decided(after, fast_decisions(after, others, count, now), other_ids, now) == after
        }),
{
    let count = store.workloads.len() as int;
    let plan = fast_decisions(store, estimates, count, now);
    let entered = StoreView { intents: with_rows(store.intents, intents_of(plan)), ..store };
    let after = decided(store, plan, ids, now);
    queueing_leaves_the_rest(entered, actions_of(plan), ids, now);
    lemma_nothing_left(store, after, estimates, others, count, now);
    assert(intents_of(Seq::<DecisionView>::empty()) =~= Seq::empty());
}

/// A run of the slow loop queues one action at most for each node group.
pub proof fn groups_scale_one_step_at_a_time(groups: Seq<NodeGroupView>, now: i64)
    ensures
        slow_actions(groups, now).len() <= groups.len(),
        forall|i: int|
            0 <= i < slow_actions(groups, now).len() ==> (#[trigger] slow_actions(
                groups,
                now,
            )[i]).payload == scale_payload(slow_actions(groups, now)[i].workload_id)
                && slow_actions(groups, now)[i].tenant_id == PLATFORM_TENANT_ID@,
    decreases groups.len(),
{
    if groups.len() > 0 {
        groups_scale_one_step_at_a_time(groups.drop_last(), now);
    }
}

/// No group is crowded and idle at once.
pub proof fn crowded_group_is_not_idle(group: NodeGroupView)
    ensures
        !(is_crowded(group) && is_idle(group)),
{
}

/// Further runs of the slow loop in one decision window change nothing, as long
/// as the observations stay.
pub proof fn slow_loop_settles(
    store: StoreView,
    ids: Seq<Seq<char>>,
    other_ids: Seq<Seq<char>>,
    now: i64,
    later: i64,
)
    requires
        window_start_of(now as int, SLOW_LOOP_SECONDS as int) == window_start_of(
            later as int,
            SLOW_LOOP_SECONDS as int,
        ),
        ids.len() == slow_actions(groups_seen(store), now).len(),
    ensures
        ({
            let after = all_enqueued(store, slow_actions(groups_seen(store), now), ids, now);
            all_enqueued(after, slow_actions(groups_seen(after), later), other_ids, later) == after
        }),
{
    let new = slow_actions(groups_seen(store), now);
    let after = all_enqueued(store, new, ids, now);
    queueing_leaves_the_rest(store, new, ids, now);
    lemma_one_window(groups_seen(store), now, later);
    requeueing_changes_nothing(store, new, ids, now, other_ids, later);
}

proof fn lemma_one_window(groups: Seq<NodeGroupView>, now: i64, later: i64)
    requires
        window_start_of(now as int, SLOW_LOOP_SECONDS as int) == window_start_of(
            later as int,
            SLOW_LOOP_SECONDS as int,
        ),
    ensures
        slow_actions(groups, now) == slow_actions(groups, later),
    decreases groups.len(),
{
    if groups.len() > 0 {
        lemma_one_window(groups.drop_last(), now, later);
    }
}

} // verus!
