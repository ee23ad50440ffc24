//! What the planning loops do, from the rows of the tables to the rows of the
//! tables: each law speaks of the rows and the numbers themselves.
use crate::dispatch_laws::{decisions_are_queued, fresh_row, has_row_for, is_fresh};
use crate::double::{larger_is_the_least_bound, Double};
use crate::json::{list_or_empty, JsonView, NumberView};
use crate::planner::{
    actions_of, coolest, coolest_at, coolest_is_least, decided, decision_at, fast_decisions,
    intents_of, is_hot_spot, is_hottest, lemma_intents_entered, pressure, slow_actions,
    DecisionView, Estimate, WorkloadDecision,
};
use crate::queue::{all_enqueued, queueing_leaves_the_rest};
use crate::records::{
    ActionView, IntentView, NewActionView, NodeGroupView, PolicyView, SloView, WorkloadView,
};
use crate::store::{groups_seen, workloads_seen, StoreView};
use crate::table::{
    last_row_counts, last_with, position, position_is_first, row_with, rows_keep_keys_unique, with_rows, Keyed,
};
use vstd::math::{max, min};
use vstd::prelude::*;

verus! {

// ---------------------------------------------------------------------------
// Node groups
// ---------------------------------------------------------------------------

/// `p` is one of the three pressures on the group.
pub open spec fn is_pressure_on(group: NodeGroupView, p: Double) -> bool {
    p == group.cpu_pressure || p == group.mem_pressure || p == group.io_pressure
}

/// None of the three pressures on the group is greater than `p`.
pub open spec fn is_under_no_more(group: NodeGroupView, p: Double) -> bool {
    !group.cpu_pressure.exceeds(p) && !group.mem_pressure.exceeds(p) && !group.io_pressure.exceeds(
        p,
    )
}

/// All three pressures on the group are less than `p`, as far as they are
/// numbers.
pub open spec fn is_under_less(group: NodeGroupView, p: Double) -> bool {
    !group.cpu_pressure.reaches(p) && !group.mem_pressure.reaches(p) && !group.io_pressure.reaches(
        p,
    )
}

/// The group at `at` is under the pressure `p` of processor, memory or devices,
/// no group is under more of any of the three, and none before it under as
/// much.
pub open spec fn is_first_under_most(groups: Seq<NodeGroupView>, at: int, p: Double) -> bool {
    &&& 0 <= at < groups.len()
    &&& is_pressure_on(groups[at], p)
    &&& forall|i: int| 0 <= i < groups.len() ==> is_under_no_more(#[trigger] groups[i], p)
    &&& forall|i: int| 0 <= i < at ==> is_under_less(#[trigger] groups[i], p)
}

proof fn lemma_pressure(group: NodeGroupView, p: Double)
    ensures
        is_pressure_on(group, pressure(group)),
        is_under_no_more(group, pressure(group)),
        pressure(group).exceeds(p) <==> !p.is_nan() && !is_under_no_more(group, p),
        pressure(group).reaches(p) <==> !p.is_nan() && !is_under_less(group, p),
        is_pressure_on(group, p) && !p.is_nan() && is_under_no_more(group, p) ==> pressure(
            group,
        ).rank() == p.rank() && !pressure(group).is_nan(),
{
    larger_is_the_least_bound(group.cpu_pressure, group.mem_pressure);
    larger_is_the_least_bound(
        group.cpu_pressure.larger_of(group.mem_pressure),
        group.io_pressure,
    );
}

/// The pressure on a node group is one of those of its processor, its memory
/// and its devices, and no less than any of the three that is a number.
pub proof fn pressure_is_the_greatest(group: NodeGroupView)
    ensures
        pressure(group) == group.cpu_pressure || pressure(group) == group.mem_pressure || pressure(
            group,
        ) == group.io_pressure,
        !group.cpu_pressure.is_nan() ==> pressure(group).reaches(group.cpu_pressure),
        !group.mem_pressure.is_nan() ==> pressure(group).reaches(group.mem_pressure),
        !group.io_pressure.is_nan() ==> pressure(group).reaches(group.io_pressure),
{
    larger_is_the_least_bound(group.cpu_pressure, group.mem_pressure);
    larger_is_the_least_bound(
        group.cpu_pressure.larger_of(group.mem_pressure),
        group.io_pressure,
    );
}

/// A node group is a hot spot exactly where its processor, its memory or its
/// devices are under a pressure of 0.85 or more, and no node group is under
/// more of any of the three; of groups under as much the first one is.
pub proof fn most_strained_group_is_the_hot_spot(groups: Seq<NodeGroupView>, name: Seq<char>)
    ensures
        is_hot_spot(groups, name) <==> exists|at: int, p: Double| #[trigger]
            is_first_under_most(groups, at, p) && p.reaches(
                Double { bits: 0x3feb_3333_3333_3333 },
            ) && groups[at].node_group == name,
{
    let warm = Double { bits: 0x3feb_3333_3333_3333 };
    if is_hot_spot(groups, name) {
        let at = choose|at: int| #[trigger]
            is_hottest(groups, at) && pressure(groups[at]).reaches(crate::planner::hot())
                && groups[at].node_group == name;
        let p = pressure(groups[at]);
        lemma_pressure(groups[at], p);
        assert forall|i: int| 0 <= i < groups.len() implies is_under_no_more(
            #[trigger] groups[i],
            p,
        ) by {
            lemma_pressure(groups[i], p);
            assert(!pressure(groups[i]).exceeds(p));
        }
        assert forall|i: int| 0 <= i < at implies is_under_less(#[trigger] groups[i], p) by {
            lemma_pressure(groups[i], p);
            assert(!pressure(groups[i]).reaches(p));
        }
        assert(is_first_under_most(groups, at, p));
    }
    if exists|at: int, p: Double| #[trigger]
        is_first_under_most(groups, at, p) && p.reaches(warm) && groups[at].node_group == name {
        let (at, p) = choose|at: int, p: Double| #[trigger]
            is_first_under_most(groups, at, p) && p.reaches(warm) && groups[at].node_group == name;
        lemma_pressure(groups[at], p);
        assert(is_under_no_more(groups[at], p));
        let most = pressure(groups[at]);
        assert(most.rank() == p.rank());
        assert forall|i: int| 0 <= i < groups.len() implies !pressure(#[trigger] groups[i]).exceeds(
            most,
        ) by {
            lemma_pressure(groups[i], p);
            assert(is_under_no_more(groups[i], p));
        }
        assert forall|i: int| 0 <= i < at implies !pressure(#[trigger] groups[i]).reaches(most) by {
            lemma_pressure(groups[i], p);
            assert(is_under_less(groups[i], p));
        }
        assert(is_hottest(groups, at));
    }
}

/// Some pressure on the group is `p` or more.
pub open spec fn is_under_as_much(group: NodeGroupView, p: Double) -> bool {
    group.cpu_pressure.reaches(p) || group.mem_pressure.reaches(p) || group.io_pressure.reaches(p)
}

/// Every pressure on the group is a number.
pub open spec fn pressures_are_numbers(group: NodeGroupView) -> bool {
    !group.cpu_pressure.is_nan() && !group.mem_pressure.is_nan() && !group.io_pressure.is_nan()
}

/// The coolest node group is one of the groups, and each of its three
/// pressures is matched by one on every other group; a group before it is under
/// more of one of them than it is of any. Without groups it is the fallback.
pub proof fn coolest_group_is_under_least(groups: Seq<NodeGroupView>, fallback: Seq<char>)
    requires
        forall|i: int| 0 <= i < groups.len() ==> pressures_are_numbers(#[trigger] groups[i]),
    ensures
        groups.len() == 0 ==> coolest(groups, fallback) == fallback,
        groups.len() > 0 ==> exists|at: int|
            0 <= at < groups.len() && (#[trigger] groups[at]).node_group == coolest(
                groups,
                fallback,
            ) && is_first_under_least(groups, at),
{
    if groups.len() > 0 {
        assert forall|i: int| 0 <= i < groups.len() implies !pressure(
            #[trigger] groups[i],
        ).is_nan() by {
            lemma_pressure(groups[i], groups[i].cpu_pressure);
        }
        coolest_is_least(groups);
        let at = coolest_at(groups);
        let least = pressure(groups[at]);
        assert forall|i: int, p: Double|
            0 <= i < groups.len() && #[trigger] is_pressure_on(groups[at], p) implies #[trigger]
            is_under_as_much(groups[i], p) by {
            lemma_pressure(groups[i], least);
            lemma_pressure(groups[at], p);
            assert(pressure(groups[i]).reaches(least));
            assert(is_under_as_much(groups[i], pressure(groups[i])));
        }
        assert forall|i: int, p: Double|
            0 <= i < at && #[trigger] is_pressure_on(groups[at], p) implies !#[trigger]
            is_under_no_more(groups[i], p) by {
            lemma_pressure(groups[i], p);
            lemma_pressure(groups[at], p);
            assert(pressure(groups[i]).exceeds(least));
        }
        assert(groups[at].node_group == coolest(groups, fallback));
        assert(is_first_under_least(groups, at));
    }
}

/// Each pressure on the group at `at` is matched by one on every group, and
/// every group before it is under more of some.
pub open spec fn is_first_under_least(groups: Seq<NodeGroupView>, at: int) -> bool {
    &&& forall|i: int, p: Double|
        0 <= i < groups.len() && #[trigger] is_pressure_on(groups[at], p) ==> #[trigger]
        is_under_as_much(groups[i], p)
    &&& forall|i: int, p: Double|
        0 <= i < at && #[trigger] is_pressure_on(groups[at], p) ==> !#[trigger] is_under_no_more(
            groups[i],
            p,
        )
}

// ---------------------------------------------------------------------------
// The rows of the tables
// ---------------------------------------------------------------------------

/// No two rows of a table are for one tenant's workload, and none for one node
/// group.
pub open spec fn one_row_each(store: StoreView) -> bool {
    &&& forall|i: int, j: int|
        0 <= i < j < store.policies.len() ==> (#[trigger] store.policies[i]).tenant_id != (
        #[trigger] store.policies[j]).tenant_id || store.policies[i].workload_id
            != store.policies[j].workload_id
    &&& forall|i: int, j: int|
        0 <= i < j < store.slos.len() ==> (#[trigger] store.slos[i]).tenant_id != (
        #[trigger] store.slos[j]).tenant_id || store.slos[i].workload_id
            != store.slos[j].workload_id
    &&& forall|i: int, j: int|
        0 <= i < j < store.workloads.len() ==> (#[trigger] store.workloads[i]).seen.tenant_id != (
        #[trigger] store.workloads[j]).seen.tenant_id || store.workloads[i].seen.workload_id
            != store.workloads[j].seen.workload_id
    &&& forall|i: int, j: int|
        0 <= i < j < store.intents.len() ==> (#[trigger] store.intents[i]).tenant_id != (
        #[trigger] store.intents[j]).tenant_id || store.intents[i].workload_id
            != store.intents[j].workload_id
    &&& forall|i: int, j: int|
        0 <= i < j < store.groups.len() ==> (#[trigger] store.groups[i]).seen.node_group != (
        #[trigger] store.groups[j]).seen.node_group
}

/// Rows are told apart by tenant and workload, node groups by their names, and
/// actions by their idempotency keys.
pub proof fn keys_tell_rows_apart(store: StoreView)
    ensures
        store.keys_unique() <==> one_row_each(store) && forall|i: int, j: int|
            0 <= i < j < store.actions.len() ==> (#[trigger] store.actions[i]).idempotency_key != (
            #[trigger] store.actions[j]).idempotency_key,
{
    if store.keys_unique() {
        assert forall|i: int, j: int| 0 <= i < j < store.policies.len() implies (
        #[trigger] store.policies[i]).tenant_id != (#[trigger] store.policies[j]).tenant_id
            || store.policies[i].workload_id != store.policies[j].workload_id by {
            assert(store.policies[i].key() != store.policies[j].key());
        }
        assert forall|i: int, j: int| 0 <= i < j < store.slos.len() implies (
        #[trigger] store.slos[i]).tenant_id != (#[trigger] store.slos[j]).tenant_id
            || store.slos[i].workload_id != store.slos[j].workload_id by {
            assert(store.slos[i].key() != store.slos[j].key());
        }
        assert forall|i: int, j: int| 0 <= i < j < store.workloads.len() implies (
        #[trigger] store.workloads[i]).seen.tenant_id != (
        #[trigger] store.workloads[j]).seen.tenant_id || store.workloads[i].seen.workload_id
            != store.workloads[j].seen.workload_id by {
            assert(store.workloads[i].key() != store.workloads[j].key());
        }
        assert forall|i: int, j: int| 0 <= i < j < store.intents.len() implies (
        #[trigger] store.intents[i]).tenant_id != (#[trigger] store.intents[j]).tenant_id
            || store.intents[i].workload_id != store.intents[j].workload_id by {
            assert(store.intents[i].key() != store.intents[j].key());
        }
        assert forall|i: int, j: int| 0 <= i < j < store.groups.len() implies (
        #[trigger] store.groups[i]).seen.node_group != (
        #[trigger] store.groups[j]).seen.node_group by {
            assert(store.groups[i].key() != store.groups[j].key());
        }
        assert forall|i: int, j: int| 0 <= i < j < store.actions.len() implies (
        #[trigger] store.actions[i]).idempotency_key != (
        #[trigger] store.actions[j]).idempotency_key by {
            assert(store.actions[i].key() != store.actions[j].key());
        }
    }
}

proof fn lemma_policy(store: StoreView, p: int)
    requires
        one_row_each(store),
        0 <= p < store.policies.len(),
    ensures
        row_with(
            store.policies,
            (store.policies[p].tenant_id, store.policies[p].workload_id),
        ) == Some(store.policies[p]),
{
    let key = (store.policies[p].tenant_id, store.policies[p].workload_id);
    position_is_first(store.policies, key);
    let at = position(store.policies, key);
    assert(store.policies[p].key() == key);
    if at < p {
        assert(store.policies[at].key() == key);
        assert(store.policies[at].tenant_id == store.policies[p].tenant_id);
    }
}

proof fn lemma_slo(store: StoreView, s: int)
    requires
        one_row_each(store),
        0 <= s < store.slos.len(),
    ensures
        row_with(store.slos, (store.slos[s].tenant_id, store.slos[s].workload_id)) == Some(
            store.slos[s],
        ),
{
    let key = (store.slos[s].tenant_id, store.slos[s].workload_id);
    position_is_first(store.slos, key);
    let at = position(store.slos, key);
    assert(store.slos[s].key() == key);
    if at < s {
        assert(store.slos[at].key() == key);
        assert(store.slos[at].tenant_id == store.slos[s].tenant_id);
    }
}

proof fn lemma_intent(rows: Seq<IntentView>, tenant_id: Seq<char>, workload_id: Seq<char>, k: int)
    requires
        forall|i: int, j: int|
            0 <= i < j < rows.len() ==> (#[trigger] rows[i]).tenant_id != (
            #[trigger] rows[j]).tenant_id || rows[i].workload_id != rows[j].workload_id,
        0 <= k < rows.len(),
        rows[k].tenant_id == tenant_id,
        rows[k].workload_id == workload_id,
    ensures
        row_with(rows, (tenant_id, workload_id)) == Some(rows[k]),
{
    let key = (tenant_id, workload_id);
    position_is_first(rows, key);
    let at = position(rows, key);
    assert(rows[k].key() == key);
    if at < k {
        assert(rows[at].key() == key);
        assert(rows[at].tenant_id == rows[k].tenant_id);
    }
}

proof fn lemma_found<T: Keyed>(rows: Seq<T>, key: T::Key)
    ensures
        row_with(rows, key) matches Some(row) ==> exists|k: int|
            0 <= k < rows.len() && #[trigger] rows[k] == row && row.key() == key,
{
    position_is_first(rows, key);
    if let Some(row) = row_with(rows, key) {
        assert(rows[position(rows, key)] == row);
    }
}

// ---------------------------------------------------------------------------
// The fast loop
// ---------------------------------------------------------------------------

/// The tables after a run of the fast loop at `now`, with these estimates and
/// ids.
pub open spec fn after_fast_run(
    store: StoreView,
    estimates: Seq<Estimate>,
    ids: Seq<Seq<char>>,
    now: i64,
) -> StoreView {
    decided(
        store,
        fast_decisions(store, estimates, store.workloads.len() as int, now),
        ids,
        now,
    )
}

/// The workload at `w` and the policy at `p` of the tables are of one tenant's
/// workload, and there is an estimate for it.
pub open spec fn is_governed(store: StoreView, estimates: Seq<Estimate>, w: int, p: int) -> bool {
    &&& one_row_each(store)
    &&& 0 <= w < store.workloads.len()
    &&& 0 <= p < store.policies.len()
    &&& store.policies[p].tenant_id == store.workloads[w].seen.tenant_id
    &&& store.policies[p].workload_id == store.workloads[w].seen.workload_id
    &&& estimates.len() == store.workloads.len()
}

/// What was seen of the workload is above a bound that is asked of it: its
/// latency, its cold starts, its rejections or its cost.
pub open spec fn is_above(seen: WorkloadView, slo: SloView) -> bool {
    ||| seen.invoke_p95_ms > slo.p95_latency_ms
    ||| seen.cold_start_pct.exceeds(slo.max_cold_start_pct)
    ||| seen.reject_pct.exceeds(slo.max_reject_pct)
    ||| seen.cost_per_compute_unit.exceeds(slo.max_cost_per_compute_unit)
}

/// The workload at `w` breaches what is asked of its service in the tables.
pub open spec fn is_in_breach(store: StoreView, w: int) -> bool {
    exists|s: int|
        0 <= s < store.slos.len() && (#[trigger] store.slos[s]).tenant_id
            == store.workloads[w].seen.tenant_id && store.slos[s].workload_id
            == store.workloads[w].seen.workload_id && is_above(
            store.workloads[w].seen,
            store.slos[s],
        )
}

/// How many units the policy grants where `scaled` are wanted: the policy's
/// concurrency at least, its two quotas at most, and no more than its limit.
pub open spec fn unguarded(policy: PolicyView, scaled: int) -> int {
    min(
        min(max(scaled, policy.max_concurrency as int), policy.hard_quota + policy.soft_burst),
        policy.absolute_limit as int,
    )
}

/// `v`, no less than `low` and otherwise no more than `high`.
pub open spec fn bounded(v: int, low: int, high: int) -> int {
    if v < low {
        low
    } else {
        min(v, high)
    }
}

/// The policy lets the target of the workload be set to `target` at `now`: it
/// has none, or one that is older than the cooldown and from which `target` is
/// more than one unit and more than `threshold` units away.
pub open spec fn may_be_set(
    store: StoreView,
    policy: PolicyView,
    target: int,
    threshold: u32,
    now: i64,
) -> bool {
    forall|c: int|
        0 <= c < store.intents.len() && (#[trigger] store.intents[c]).tenant_id == policy.tenant_id
            && store.intents[c].workload_id == policy.workload_id ==> {
            let gap = max(target, store.intents[c].target_concurrency as int) - min(
                target,
                store.intents[c].target_concurrency as int,
            );
            now - store.intents[c].updated_at >= policy.cooldown_seconds && gap > 1 && gap
                > threshold
        }
}

/// The tables hold one intent for the tenant's workload, and it is this one.
pub open spec fn is_the_intent(
    store: StoreView,
    tenant_id: Seq<char>,
    workload_id: Seq<char>,
    intent: IntentView,
) -> bool {
    &&& exists|k: int| 0 <= k < store.intents.len() && #[trigger] store.intents[k] == intent
    &&& intent.tenant_id == tenant_id && intent.workload_id == workload_id
    &&& forall|k: int|
        0 <= k < store.intents.len() && (#[trigger] store.intents[k]).tenant_id == tenant_id
            && store.intents[k].workload_id == workload_id ==> store.intents[k] == intent
}

proof fn lemma_run(
    store: StoreView,
    estimates: Seq<Estimate>,
    ids: Seq<Seq<char>>,
    now: i64,
    w: int,
)
    requires
        one_row_each(store),
        0 <= w < store.workloads.len(),
        estimates.len() == store.workloads.len(),
    ensures
        ({
            let after = after_fast_run(store, estimates, ids, now);
            let seen = store.workloads[w].seen;
            &&& after.policies == store.policies && after.slos == store.slos && after.workloads
                == store.workloads && after.groups == store.groups
            &&& forall|i: int, j: int|
                0 <= i < j < after.intents.len() ==> (#[trigger] after.intents[i]).tenant_id != (
                #[trigger] after.intents[j]).tenant_id || after.intents[i].workload_id
                    != after.intents[j].workload_id
            &&& decision_at(store, w, estimates[w], now) matches Some(decision) ==> is_the_intent(
                after,
                seen.tenant_id,
                seen.workload_id,
                decision.intent,
            )
            &&& decision_at(store, w, estimates[w], now) is None ==> row_with(
                after.intents,
                (seen.tenant_id, seen.workload_id),
            ) == row_with(store.intents, (seen.tenant_id, seen.workload_id))
        }),
{
    let count = store.workloads.len() as int;
    let plan = fast_decisions(store, estimates, count, now);
    let entered = StoreView { intents: with_rows(store.intents, intents_of(plan)), ..store };
    let after = after_fast_run(store, estimates, ids, now);
    let seen = store.workloads[w].seen;
    let key = (seen.tenant_id, seen.workload_id);
    queueing_leaves_the_rest(entered, actions_of(plan), ids, now);
    assert(crate::table::unique_keys(store.workloads)) by {
        assert forall|i: int, j: int|
            0 <= i < j < store.workloads.len() implies store.workloads[i].key()
            != store.workloads[j].key() by {
            assert(store.workloads[i].seen.tenant_id != store.workloads[j].seen.tenant_id
                || store.workloads[i].seen.workload_id != store.workloads[j].seen.workload_id);
        }
    }
    assert(crate::table::unique_keys(store.intents)) by {
        assert forall|i: int, j: int|
            0 <= i < j < store.intents.len() implies store.intents[i].key()
            != store.intents[j].key() by {
            assert(store.intents[i].tenant_id != store.intents[j].tenant_id
                || store.intents[i].workload_id != store.intents[j].workload_id);
        }
    }
    rows_keep_keys_unique(store.intents, intents_of(plan));
    assert forall|i: int, j: int| 0 <= i < j < after.intents.len() implies (
    #[trigger] after.intents[i]).tenant_id != (#[trigger] after.intents[j]).tenant_id
        || after.intents[i].workload_id != after.intents[j].workload_id by {
        assert(after.intents[i].key() != after.intents[j].key());
    }
    lemma_intents_entered(store, estimates, count, w, now);
    assert(store.workloads[w].key() == key);
    if let Some(decision) = decision_at(store, w, estimates[w], now) {
        lemma_found(after.intents, key);
        assert forall|k: int|
            0 <= k < after.intents.len() && (#[trigger] after.intents[k]).tenant_id
                == seen.tenant_id && after.intents[k].workload_id
                == seen.workload_id implies after.intents[k] == decision.intent by {
            lemma_intent(after.intents, seen.tenant_id, seen.workload_id, k);
        }
    }
}

proof fn lemma_governed(store: StoreView, estimates: Seq<Estimate>, now: i64, w: int, p: int)
    requires
        is_governed(store, estimates, w, p),
    ensures
        ({
            let seen = store.workloads[w].seen;
            let policy = store.policies[p];
            &&& workloads_seen(store)[w] == seen
            &&& crate::store::policy_of(store, seen.tenant_id, seen.workload_id) == Some(
                crate::store::policy_row(policy),
            )
            &&& crate::planner::falls_short(
                seen,
                crate::store::slo_of(store, seen.tenant_id, seen.workload_id),
            ) <==> is_in_breach(store, w)
        }),
{
    let seen = store.workloads[w].seen;
    let key = (seen.tenant_id, seen.workload_id);
    lemma_policy(store, p);
    lemma_found(store.slos, key);
    if is_in_breach(store, w) {
        let s = choose|s: int|
            0 <= s < store.slos.len() && (#[trigger] store.slos[s]).tenant_id == seen.tenant_id
                && store.slos[s].workload_id == seen.workload_id && is_above(seen, store.slos[s]);
        lemma_slo(store, s);
    }
    if crate::planner::falls_short(
        seen,
        crate::store::slo_of(store, seen.tenant_id, seen.workload_id),
    ) {
        let s = choose|s: int|
            0 <= s < store.slos.len() && #[trigger] store.slos[s] == row_with(store.slos, key)->0
                && store.slos[s].key() == key;
        assert(is_above(seen, store.slos[s]));
    }
}

proof fn lemma_may_be_set(
    store: StoreView,
    policy: PolicyView,
    target: u32,
    threshold: u32,
    now: i64,
)
    requires
        one_row_each(store),
    ensures
        may_be_set(store, policy, target as int, threshold, now)
            <==> crate::planner::is_worth_a_change(
            crate::store::current_intent(store, policy.tenant_id, policy.workload_id),
            target,
            policy.cooldown_seconds,
            threshold,
            now,
        ),
{
    let key = (policy.tenant_id, policy.workload_id);
    lemma_found(store.intents, key);
    if may_be_set(store, policy, target as int, threshold, now) {
        if let Some(row) = row_with(store.intents, key) {
            let c = choose|c: int|
                0 <= c < store.intents.len() && #[trigger] store.intents[c] == row && row.key()
                    == key;
            assert(store.intents[c].tenant_id == policy.tenant_id);
        }
    } else {
        let c = choose|c: int|
            0 <= c < store.intents.len() && (#[trigger] store.intents[c]).tenant_id
                == policy.tenant_id && store.intents[c].workload_id == policy.workload_id && !({
                let gap = max(
                    target as int,
                    store.intents[c].target_concurrency as int,
                ) - min(target as int, store.intents[c].target_concurrency as int);
                now - store.intents[c].updated_at >= policy.cooldown_seconds && gap > 1 && gap
                    > threshold
            });
        lemma_intent(store.intents, policy.tenant_id, policy.workload_id, c);
    }
}

/// Where what was seen of a workload is above a bound that is asked of its
/// service, the run raises its intent, as soon as the policy lets it: the
/// target is what the policy grants and the burst on top of it, within the
/// limit, and the processor and the memory are those of the raised estimate,
/// the memory within sixty-four and twice the policy's.
pub proof fn breached_service_raises_the_intent(
    store: StoreView,
    estimates: Seq<Estimate>,
    ids: Seq<Seq<char>>,
    now: i64,
    w: int,
    p: int,
    s: int,
)
    requires
        is_governed(store, estimates, w, p),
        0 <= s < store.slos.len(),
        store.slos[s].tenant_id == store.workloads[w].seen.tenant_id,
        store.slos[s].workload_id == store.workloads[w].seen.workload_id,
        store.workloads[w].seen.invoke_p95_ms > store.slos[s].p95_latency_ms
            || store.workloads[w].seen.cold_start_pct.exceeds(store.slos[s].max_cold_start_pct)
            || store.workloads[w].seen.reject_pct.exceeds(store.slos[s].max_reject_pct)
            || store.workloads[w].seen.cost_per_compute_unit.exceeds(
            store.slos[s].max_cost_per_compute_unit,
        ),
        ({
            let policy = store.policies[p];
            may_be_set(
                store,
                policy,
                max(
                    min(
                        unguarded(policy, estimates[w].scaled_units as int) + policy.soft_burst,
                        policy.absolute_limit as int,
                    ),
                    1,
                ),
                estimates[w].hysteresis_threshold,
                now,
            )
        }),
    ensures
        ({
            let after = after_fast_run(store, estimates, ids, now);
            let policy = store.policies[p];
            exists|intent: IntentView| #[trigger]
                is_the_intent(after, policy.tenant_id, policy.workload_id, intent)
                    && intent.target_concurrency == max(
                    min(
                        unguarded(policy, estimates[w].scaled_units as int) + policy.soft_burst,
                        policy.absolute_limit as int,
                    ),
                    1,
                ) && intent.burst_cpu_cap == estimates[w].burst_cpu_guarded && intent.burst_mem_mb
                    == bounded(
                    estimates[w].burst_mem_guarded as int,
                    64,
                    min(2 * policy.burst_mem_mb, u32::MAX as int),
                )
        }),
{
    let policy = store.policies[p];
    let target = max(
                    min(
                        unguarded(policy, estimates[w].scaled_units as int) + policy.soft_burst,
                        policy.absolute_limit as int,
                    ),
                    1,
                ) as u32;
    assert(is_above(store.workloads[w].seen, store.slos[s]));
    assert(is_in_breach(store, w));
    lemma_governed(store, estimates, now, w, p);
    lemma_may_be_set(store, policy, target, estimates[w].hysteresis_threshold, now);
    lemma_run(store, estimates, ids, now, w);
    let decision = decision_at(store, w, estimates[w], now)->0;
    assert(decision.intent.target_concurrency == target);
    assert(is_the_intent(
        after_fast_run(store, estimates, ids, now),
        policy.tenant_id,
        policy.workload_id,
        decision.intent,
    ));
}

/// Where nothing is asked of a workload's service, or nothing that was seen of
/// it is above what is asked, the run sets its intent to what the policy
/// grants, as soon as the policy lets it: the target without the burst on top,
/// and the policy's own processor cap and memory.
pub proof fn kept_service_leaves_the_policy(
    store: StoreView,
    estimates: Seq<Estimate>,
    ids: Seq<Seq<char>>,
    now: i64,
    w: int,
    p: int,
)
    requires
        is_governed(store, estimates, w, p),
        forall|s: int|
            0 <= s < store.slos.len() && (#[trigger] store.slos[s]).tenant_id
                == store.workloads[w].seen.tenant_id && store.slos[s].workload_id
                == store.workloads[w].seen.workload_id ==> store.workloads[w].seen.invoke_p95_ms
                <= store.slos[s].p95_latency_ms && !store.workloads[w].seen.cold_start_pct.exceeds(
                store.slos[s].max_cold_start_pct,
            ) && !store.workloads[w].seen.reject_pct.exceeds(store.slos[s].max_reject_pct)
                && !store.workloads[w].seen.cost_per_compute_unit.exceeds(
                store.slos[s].max_cost_per_compute_unit,
            ),
        ({
            let policy = store.policies[p];
            may_be_set(
                store,
                policy,
                max(unguarded(policy, estimates[w].scaled_units as int), 1),
                estimates[w].hysteresis_threshold,
                now,
            )
        }),
    ensures
        ({
            let after = after_fast_run(store, estimates, ids, now);
            let policy = store.policies[p];
            exists|intent: IntentView| #[trigger]
                is_the_intent(after, policy.tenant_id, policy.workload_id, intent)
                    && intent.target_concurrency == max(unguarded(policy, estimates[w].scaled_units as int), 1) && intent.burst_cpu_cap == policy.burst_cpu_cap && intent.burst_mem_mb == bounded(
                    policy.burst_mem_mb as int,
                    64,
                    min(2 * policy.burst_mem_mb, u32::MAX as int),
                )
        }),
{
    let policy = store.policies[p];
    let target = max(unguarded(policy, estimates[w].scaled_units as int), 1) as u32;
    assert(!is_in_breach(store, w));
    lemma_governed(store, estimates, now, w, p);
    lemma_may_be_set(store, policy, target, estimates[w].hysteresis_threshold, now);
    lemma_run(store, estimates, ids, now, w);
    let decision = decision_at(store, w, estimates[w], now)->0;
    assert(decision.intent.target_concurrency == target);
    assert(is_the_intent(
        after_fast_run(store, estimates, ids, now),
        policy.tenant_id,
        policy.workload_id,
        decision.intent,
    ));
}

/// How many units are planned for the workload at `w` under the policy at `p`.
pub open spec fn planned_units(
    store: StoreView,
    estimates: Seq<Estimate>,
    w: int,
    p: int,
) -> int {
    let granted = unguarded(store.policies[p], estimates[w].scaled_units as int);
    if is_in_breach(store, w) {
        min(granted + store.policies[p].soft_burst, store.policies[p].absolute_limit as int)
    } else {
        granted
    }
}

/// The target of the workload at `w` is set by a run at `now`.
pub open spec fn is_set(
    store: StoreView,
    estimates: Seq<Estimate>,
    w: int,
    p: int,
    now: i64,
) -> bool {
    &&& is_governed(store, estimates, w, p)
    &&& may_be_set(
        store,
        store.policies[p],
        max(planned_units(store, estimates, w, p), 1),
        estimates[w].hysteresis_threshold,
        now,
    )
}

proof fn lemma_set(store: StoreView, estimates: Seq<Estimate>, now: i64, w: int, p: int)
    requires
        is_governed(store, estimates, w, p),
    ensures
        0 <= planned_units(store, estimates, w, p) <= store.policies[p].absolute_limit,
        is_set(store, estimates, w, p, now) <==> decision_at(store, w, estimates[w], now) is Some,
        ({
            let seen = store.workloads[w].seen;
            crate::planner::desired_units(
                seen,
                crate::store::policy_row(store.policies[p]),
                crate::store::slo_of(store, seen.tenant_id, seen.workload_id),
                estimates[w].scaled_units as int,
            ) == planned_units(store, estimates, w, p)
        }),
{
    let policy = store.policies[p];
    lemma_governed(store, estimates, now, w, p);
    let planned = planned_units(store, estimates, w, p);
    lemma_may_be_set(
        store,
        policy,
        max(planned, 1) as u32,
        estimates[w].hysteresis_threshold,
        now,
    );
}

/// An intent that the run sets is sized by what is planned: its target is that,
/// and one at least; a tenth of it is held ready at least, a fifth is to be
/// ready, and three tenths at most, each rounded up; and it lasts as long as
/// the policy says, from the time of the run.
pub proof fn intent_is_sized_by_the_plan(
    store: StoreView,
    estimates: Seq<Estimate>,
    ids: Seq<Seq<char>>,
    now: i64,
    w: int,
    p: int,
)
    requires
        is_set(store, estimates, w, p, now),
    ensures
        ({
            let after = after_fast_run(store, estimates, ids, now);
            let policy = store.policies[p];
            let planned = planned_units(store, estimates, w, p);
            exists|intent: IntentView| #[trigger]
                is_the_intent(after, policy.tenant_id, policy.workload_id, intent)
                    && intent.target_concurrency == max(planned, 1) && planned <= 10
                    * intent.pool_min_ready < planned + 10 && planned <= 5
                    * intent.pool_target_ready < planned + 5 && 3 * planned <= 10
                    * intent.pool_max_ready < 3 * planned + 10 && intent.burst_ttl_seconds
                    == policy.burst_ttl_seconds && intent.ttl_seconds == policy.burst_ttl_seconds
                    && intent.effective_at == now && intent.updated_at == now
        }),
{
    let policy = store.policies[p];
    lemma_set(store, estimates, now, w, p);
    lemma_governed(store, estimates, now, w, p);
    lemma_run(store, estimates, ids, now, w);
    let decision = decision_at(store, w, estimates[w], now)->0;
    let planned = planned_units(store, estimates, w, p);
    assert(decision.intent.target_concurrency == max(planned, 1));
    assert(is_the_intent(
        after_fast_run(store, estimates, ids, now),
        policy.tenant_id,
        policy.workload_id,
        decision.intent,
    ));
}

/// An intent that the run sets says why: the workload's processor, memory or
/// devices are under a pressure of more than 0.85; or else it has a queue; or
/// else its service breaches what is asked of it; or else nothing special.
pub proof fn intent_says_why(
    store: StoreView,
    estimates: Seq<Estimate>,
    ids: Seq<Seq<char>>,
    now: i64,
    w: int,
    p: int,
)
    requires
        is_set(store, estimates, w, p, now),
    ensures
        ({
            let after = after_fast_run(store, estimates, ids, now);
            let policy = store.policies[p];
            let seen = store.workloads[w].seen;
            let warm = Double { bits: 0x3feb_3333_3333_3333 };
            exists|intent: IntentView| #[trigger]
                is_the_intent(after, policy.tenant_id, policy.workload_id, intent)
                    && intent.reason_code == if seen.cpu_pressure.exceeds(warm)
                    || seen.mem_pressure.exceeds(warm) || seen.io_pressure.exceeds(warm) {
                    "HOT_NODE_GROUP"@
                } else if seen.queue_depth > 0 {
                    "QUEUE_PRESSURE"@
                } else if is_in_breach(store, w) {
                    "SLO_GUARD"@
                } else {
                    "STEADY_STATE"@
                }
        }),
{
    let policy = store.policies[p];
    let seen = store.workloads[w].seen;
    larger_is_the_least_bound(seen.cpu_pressure, seen.mem_pressure);
    larger_is_the_least_bound(
        seen.cpu_pressure.larger_of(seen.mem_pressure),
        seen.io_pressure,
    );
    lemma_set(store, estimates, now, w, p);
    lemma_governed(store, estimates, now, w, p);
    lemma_run(store, estimates, ids, now, w);
    let decision = decision_at(store, w, estimates[w], now)->0;
    assert(is_the_intent(
        after_fast_run(store, estimates, ids, now),
        policy.tenant_id,
        policy.workload_id,
        decision.intent,
    ));
}

/// An intent that the run sets keeps the workload where it is, unless its node
/// group is the first that is under the most pressure of all, and that is 0.85
/// or more: then the workload is to be kept apart, and to go to the group that
/// is under the least.
pub proof fn intent_leaves_the_hot_spot(
    store: StoreView,
    estimates: Seq<Estimate>,
    ids: Seq<Seq<char>>,
    groups: Seq<NodeGroupView>,
    now: i64,
    w: int,
    p: int,
)
    requires
        is_set(store, estimates, w, p, now),
        groups.len() == store.groups.len(),
        forall|i: int| 0 <= i < groups.len() ==> #[trigger] groups[i] == store.groups[i].seen,
        forall|i: int| 0 <= i < groups.len() ==> pressures_are_numbers(#[trigger] groups[i]),
    ensures
        ({
            let after = after_fast_run(store, estimates, ids, now);
            let policy = store.policies[p];
            let seen = store.workloads[w].seen;
            let hot = exists|at: int, most: Double| #[trigger]
                is_first_under_most(groups, at, most) && most.reaches(
                    Double { bits: 0x3feb_3333_3333_3333 },
                ) && groups[at].node_group == seen.node_group;
            exists|intent: IntentView| #[trigger]
                is_the_intent(after, policy.tenant_id, policy.workload_id, intent)
                    && intent.anti_affinity == hot && (!hot ==> intent.preferred_node_group
                    == seen.node_group) && (hot ==> exists|at: int|
                    0 <= at < groups.len() && (#[trigger] groups[at]).node_group
                        == intent.preferred_node_group && is_first_under_least(groups, at))
        }),
{
    let policy = store.policies[p];
    let seen = store.workloads[w].seen;
    assert(groups_seen(store) =~= groups);
    most_strained_group_is_the_hot_spot(groups, seen.node_group);
    coolest_group_is_under_least(groups, seen.node_group);
    lemma_set(store, estimates, now, w, p);
    lemma_governed(store, estimates, now, w, p);
    lemma_run(store, estimates, ids, now, w);
    let decision = decision_at(store, w, estimates[w], now)->0;
    assert(is_the_intent(
        after_fast_run(store, estimates, ids, now),
        policy.tenant_id,
        policy.workload_id,
        decision.intent,
    ));
}

/// A workload without a policy, and one whose target the policy does not let
/// be set, keeps the intent that it has, or has none as before.
pub proof fn intent_is_left_alone(
    store: StoreView,
    estimates: Seq<Estimate>,
    ids: Seq<Seq<char>>,
    now: i64,
    w: int,
)
    requires
        one_row_each(store),
        0 <= w < store.workloads.len(),
        estimates.len() == store.workloads.len(),
        forall|p: int| 0 <= p < store.policies.len() ==> !#[trigger] is_set(
            store,
            estimates,
            w,
            p,
            now,
        ),
    ensures
        ({
            let after = after_fast_run(store, estimates, ids, now);
            let seen = store.workloads[w].seen;
            forall|intent: IntentView|
                #[trigger] is_the_intent(after, seen.tenant_id, seen.workload_id, intent)
                    <==> is_the_intent(store, seen.tenant_id, seen.workload_id, intent)
        }),
{
    let after = after_fast_run(store, estimates, ids, now);
    let seen = store.workloads[w].seen;
    let key = (seen.tenant_id, seen.workload_id);
    lemma_run(store, estimates, ids, now, w);
    lemma_found(store.policies, key);
    assert(decision_at(store, w, estimates[w], now) is None) by {
        if let Some(row) = row_with(store.policies, key) {
            let p = choose|p: int|
                0 <= p < store.policies.len() && #[trigger] store.policies[p] == row && row.key()
                    == key;
            assert(is_governed(store, estimates, w, p));
            lemma_set(store, estimates, now, w, p);
            assert(!is_set(store, estimates, w, p, now));
        }
    }
    assert forall|intent: IntentView| #[trigger]
        is_the_intent(after, seen.tenant_id, seen.workload_id, intent) <==> is_the_intent(
            store,
            seen.tenant_id,
            seen.workload_id,
            intent,
        ) by {
        lemma_is_the_intent(after, seen.tenant_id, seen.workload_id, intent);
        lemma_is_the_intent(store, seen.tenant_id, seen.workload_id, intent);
    }
}

proof fn lemma_is_the_intent(
    store: StoreView,
    tenant_id: Seq<char>,
    workload_id: Seq<char>,
    intent: IntentView,
)
    requires
        forall|i: int, j: int|
            0 <= i < j < store.intents.len() ==> (#[trigger] store.intents[i]).tenant_id != (
            #[trigger] store.intents[j]).tenant_id || store.intents[i].workload_id
                != store.intents[j].workload_id,
    ensures
        is_the_intent(store, tenant_id, workload_id, intent) <==> row_with(
            store.intents,
            (tenant_id, workload_id),
        ) == Some(intent),
{
    let key = (tenant_id, workload_id);
    lemma_found(store.intents, key);
    if row_with(store.intents, key) == Some(intent) {
        assert forall|k: int|
            0 <= k < store.intents.len() && (#[trigger] store.intents[k]).tenant_id == tenant_id
                && store.intents[k].workload_id == workload_id implies store.intents[k]
            == intent by {
            lemma_intent(store.intents, tenant_id, workload_id, k);
        }
    }
    if is_the_intent(store, tenant_id, workload_id, intent) {
        let k = choose|k: int| 0 <= k < store.intents.len() && #[trigger] store.intents[k] == intent;
        lemma_intent(store.intents, tenant_id, workload_id, k);
    }
}

// ---------------------------------------------------------------------------
// The actions of the fast loop
// ---------------------------------------------------------------------------

/// An action of the fast loop for the policy's workload: it lasts as long as
/// the policy says, and belongs to the five seconds that hold `now`.
pub open spec fn order(
    policy: PolicyView,
    action_type: Seq<char>,
    payload: JsonView,
    now: i64,
) -> NewActionView {
    NewActionView {
        tenant_id: policy.tenant_id,
        workload_id: policy.workload_id,
        action_type,
        payload,
        ttl_seconds: policy.burst_ttl_seconds,
        decision_window_start: (now - now % 5) as i64,
        rollback_action: None,
        parent_action_id: None,
    }
}

/// The number as a document.
pub open spec fn count(n: u32) -> JsonView {
    JsonView::Number(NumberView::Unsigned(n as u64))
}

/// The action that sets the pool of the policy's function.
pub open spec fn pool_order(policy: PolicyView, intent: IntentView, now: i64) -> NewActionView {
    order(
        policy,
        "SetPoolTarget"@,
        JsonView::Object(
            map![
                "function_id"@ => JsonView::Text(policy.runtime_function_id),
                "min_instances"@ => count(intent.pool_min_ready),
                "max_instances"@ => count(intent.pool_max_ready),
            ],
        ),
        now,
    )
}

/// The action that sets the limits of a container.
pub open spec fn limit_order(
    policy: PolicyView,
    intent: IntentView,
    container: Seq<char>,
    cpu_limit_percent: u32,
    now: i64,
) -> NewActionView {
    order(
        policy,
        "SetBurstPolicy"@,
        JsonView::Object(
            map![
                "container_id"@ => JsonView::Text(container),
                "memory_limit_mb"@ => count(intent.burst_mem_mb),
                "cpu_limit_percent"@ => count(cpu_limit_percent),
            ],
        ),
        now,
    )
}

/// The action that says where the workload should run.
pub open spec fn placement_order(policy: PolicyView, intent: IntentView, now: i64) -> NewActionView {
    order(
        policy,
        "SetPlacementPreference"@,
        JsonView::Object(
            map![
                "tenant_id"@ => JsonView::Text(policy.tenant_id),
                "workload_id"@ => JsonView::Text(policy.workload_id),
                "node_group"@ => JsonView::Text(intent.preferred_node_group),
                "anti_affinity"@ => JsonView::Bool(intent.anti_affinity),
            ],
        ),
        now,
    )
}

/// The processor limit for the containers of the workload at `w`, in percent.
pub open spec fn limit_percent(store: StoreView, estimates: Seq<Estimate>, w: int) -> u32 {
    if is_in_breach(store, w) {
        estimates[w].cpu_limit_percent_guarded
    } else {
        estimates[w].cpu_limit_percent
    }
}

/// The decision carries out its intent: the pool first, then each container
/// that the policy names, in order, and the placement last.
pub open spec fn carries_out(
    decision: DecisionView,
    policy: PolicyView,
    cpu_limit_percent: u32,
    now: i64,
) -> bool {
    let containers = list_or_empty(policy.target_container_ids_json);
    let intent = decision.intent;
    &&& decision.actions.len() == containers.len() + 2
    &&& decision.actions[0] == pool_order(policy, intent, now)
    &&& forall|c: int|
        0 <= c < containers.len() ==> #[trigger] decision.actions[c + 1] == limit_order(
            policy,
            intent,
            containers[c],
            cpu_limit_percent,
            now,
        )
    &&& decision.actions.last() == placement_order(policy, intent, now)
}

proof fn lemma_carries_out(store: StoreView, estimates: Seq<Estimate>, now: i64, w: int, p: int)
    requires
        is_set(store, estimates, w, p, now),
        now >= 0,
    ensures
        decision_at(store, w, estimates[w], now) matches Some(decision) && carries_out(
            decision,
            store.policies[p],
            limit_percent(store, estimates, w),
            now,
        ) && decision.intent.tenant_id == store.policies[p].tenant_id
            && decision.intent.workload_id == store.policies[p].workload_id,
{
    lemma_set(store, estimates, now, w, p);
    lemma_governed(store, estimates, now, w, p);
    let policy = store.policies[p];
    let decision = decision_at(store, w, estimates[w], now)->0;
    let containers = list_or_empty(policy.target_container_ids_json);
    let percent = limit_percent(store, estimates, w);
    let intent = decision.intent;
    assert(crate::planner::fast_window(now) == now - now % 5);
    assert forall|c: int| 0 <= c < containers.len() implies #[trigger] decision.actions[c + 1]
        == limit_order(policy, intent, containers[c], percent, now) by {
        assert(decision.actions[c + 1] == crate::planner::burst_actions(
            intent,
            containers,
            percent,
            now,
        )[c]);
    }
}

proof fn lemma_plan_from(
    store: StoreView,
    estimates: Seq<Estimate>,
    n: int,
    now: i64,
    k: int,
) -> (w: int)
    requires
        0 <= n <= store.workloads.len(),
        0 <= k < fast_decisions(store, estimates, n, now).len(),
    ensures
        0 <= w < n,
        decision_at(store, w, estimates[w], now) == Some(
            fast_decisions(store, estimates, n, now)[k],
        ),
    decreases n,
{
    let front = fast_decisions(store, estimates, n - 1, now);
    if k < front.len() {
        lemma_plan_from(store, estimates, n - 1, now, k)
    } else {
        n - 1
    }
}

proof fn lemma_plan_has(
    store: StoreView,
    estimates: Seq<Estimate>,
    n: int,
    now: i64,
    w: int,
) -> (k: int)
    requires
        0 <= w < n <= store.workloads.len(),
        decision_at(store, w, estimates[w], now) is Some,
    ensures
        0 <= k < fast_decisions(store, estimates, n, now).len(),
        fast_decisions(store, estimates, n, now)[k] == decision_at(store, w, estimates[w], now)->0,
    decreases n,
{
    let front = fast_decisions(store, estimates, n - 1, now);
    if w < n - 1 {
        lemma_plan_has(store, estimates, n - 1, now, w)
    } else {
        front.len() as int
    }
}

proof fn lemma_actions_of(plan: Seq<DecisionView>, k: int, n: int)
    ensures
        0 <= k < plan.len() && 0 <= n < plan[k].actions.len() ==> actions_of(plan).contains(
            plan[k].actions[n],
        ),
        0 <= n < actions_of(plan).len() ==> exists|d: int, m: int|
            0 <= d < plan.len() && 0 <= m < plan[d].actions.len() && actions_of(plan)[n] == (
            #[trigger] plan[d].actions[m]),
    decreases plan.len(),
{
    if plan.len() > 0 {
        let front = plan.drop_last();
        let last = plan.last();
        let before = actions_of(front);
        let all = actions_of(plan);
        assert(all == before + last.actions);
        lemma_actions_of(front, k, n);
        if 0 <= k < plan.len() && 0 <= n < plan[k].actions.len() {
            let action = plan[k].actions[n];
            if k < front.len() {
                assert(front[k] == plan[k]);
                let at = choose|at: int| 0 <= at < before.len() && before[at] == action;
                assert(all[at] == action);
            } else {
                assert(all[before.len() + n] == action);
            }
        }
        if 0 <= n < all.len() {
            if n < before.len() {
                let (d, m) = choose|d: int, m: int|
                    0 <= d < front.len() && 0 <= m < front[d].actions.len() && before[n] == (
                    #[trigger] front[d].actions[m]);
                assert(front[d] == plan[d]);
                assert(all[n] == plan[d].actions[m]);
            } else {
                assert(all[n] == plan[plan.len() - 1].actions[n - before.len()]);
            }
        }
    }
}

/// What is decided for the workloads of the tables is decided for those whose
/// target is set, and for each of them: its intent and the actions that carry
/// it out.
pub proof fn decisions_are_those_of_set_workloads(
    store: StoreView,
    estimates: Seq<Estimate>,
    now: i64,
    w: int,
    p: int,
)
    requires
        is_governed(store, estimates, w, p),
        now >= 0,
    ensures
        ({
            let plan = fast_decisions(store, estimates, store.workloads.len() as int, now);
            is_set(store, estimates, w, p, now) <==> exists|k: int|
                0 <= k < plan.len() && (#[trigger] plan[k]).intent.tenant_id
                    == store.policies[p].tenant_id && plan[k].intent.workload_id
                    == store.policies[p].workload_id && carries_out(
                    plan[k],
                    store.policies[p],
                    limit_percent(store, estimates, w),
                    now,
                )
        }),
{
    let n = store.workloads.len() as int;
    let plan = fast_decisions(store, estimates, n, now);
    if is_set(store, estimates, w, p, now) {
        lemma_carries_out(store, estimates, now, w, p);
        let k = lemma_plan_has(store, estimates, n, now, w);
        assert(plan[k].intent.tenant_id == store.policies[p].tenant_id);
    }
    if exists|k: int|
        0 <= k < plan.len() && (#[trigger] plan[k]).intent.tenant_id == store.policies[p].tenant_id
            && plan[k].intent.workload_id == store.policies[p].workload_id && carries_out(
            plan[k],
            store.policies[p],
            limit_percent(store, estimates, w),
            now,
        ) {
        let k = choose|k: int|
            0 <= k < plan.len() && (#[trigger] plan[k]).intent.tenant_id
                == store.policies[p].tenant_id && plan[k].intent.workload_id
                == store.policies[p].workload_id && carries_out(
                plan[k],
                store.policies[p],
                limit_percent(store, estimates, w),
                now,
            );
        let v = lemma_plan_from(store, estimates, n, now, k);
        assert(workloads_seen(store)[v] == store.workloads[v].seen);
        assert(plan[k].intent.tenant_id == store.workloads[v].seen.tenant_id);
        assert(plan[k].intent.workload_id == store.workloads[v].seen.workload_id);
        assert(v == w) by {
            if v < w {
                assert(store.workloads[v].seen.tenant_id != store.workloads[w].seen.tenant_id
                    || store.workloads[v].seen.workload_id != store.workloads[w].seen.workload_id);
            }
            if w < v {
                assert(store.workloads[w].seen.tenant_id != store.workloads[v].seen.tenant_id
                    || store.workloads[w].seen.workload_id != store.workloads[v].seen.workload_id);
            }
        }
        lemma_set(store, estimates, now, w, p);
    }
}

/// A run queues, for each workload whose target it sets, the actions that carry
/// the intent out: the pool's, each container's and the placement's are in the
/// queue afterwards, under the keys of these decisions.
pub proof fn set_workload_has_its_actions_queued(
    store: StoreView,
    estimates: Seq<Estimate>,
    ids: Seq<Seq<char>>,
    now: i64,
    w: int,
    p: int,
)
    requires
        is_set(store, estimates, w, p, now),
        now >= 0,
        ids.len() == actions_of(
            fast_decisions(store, estimates, store.workloads.len() as int, now),
        ).len(),
    ensures
        ({
            let after = after_fast_run(store, estimates, ids, now);
            let policy = store.policies[p];
            let containers = list_or_empty(policy.target_container_ids_json);
            exists|intent: IntentView| #[trigger]
                is_the_intent(after, policy.tenant_id, policy.workload_id, intent) && has_row_for(
                    after,
                    pool_order(policy, intent, now),
                ) && has_row_for(after, placement_order(policy, intent, now)) && forall|c: int|
                    0 <= c < containers.len() ==> has_row_for(
                        after,
                        limit_order(
                            policy,
                            intent,
                            #[trigger] containers[c],
                            limit_percent(store, estimates, w),
                            now,
                        ),
                    )
        }),
{
    let n = store.workloads.len() as int;
    let plan = fast_decisions(store, estimates, n, now);
    let new = actions_of(plan);
    let entered = StoreView { intents: with_rows(store.intents, intents_of(plan)), ..store };
    let after = after_fast_run(store, estimates, ids, now);
    let policy = store.policies[p];
    let containers = list_or_empty(policy.target_container_ids_json);
    let percent = limit_percent(store, estimates, w);
    lemma_carries_out(store, estimates, now, w, p);
    lemma_run(store, estimates, ids, now, w);
    decisions_are_queued(entered, new, ids, now);
    let decision = decision_at(store, w, estimates[w], now)->0;
    let intent = decision.intent;
    let k = lemma_plan_has(store, estimates, n, now, w);
    assert forall|m: int| 0 <= m < decision.actions.len() implies has_row_for(
        after,
        #[trigger] decision.actions[m],
    ) by {
        lemma_actions_of(plan, k, m);
        let at = choose|at: int| 0 <= at < new.len() && new[at] == decision.actions[m];
        assert(has_row_for(after, new[at]));
    }
    assert(has_row_for(after, decision.actions[0]));
    assert(has_row_for(after, decision.actions.last()));
    assert forall|c: int| 0 <= c < containers.len() implies has_row_for(
        after,
        limit_order(policy, intent, #[trigger] containers[c], percent, now),
    ) by {
        assert(has_row_for(after, decision.actions[c + 1]));
    }
    assert(is_the_intent(after, policy.tenant_id, policy.workload_id, intent));
}

/// The action is one of those that carry out the intent of the workload at `w`
/// under the policy at `p`.
pub open spec fn is_order_for(
    store: StoreView,
    estimates: Seq<Estimate>,
    w: int,
    p: int,
    intent: IntentView,
    new: NewActionView,
    now: i64,
) -> bool {
    let policy = store.policies[p];
    let containers = list_or_empty(policy.target_container_ids_json);
    ||| new == pool_order(policy, intent, now)
    ||| new == placement_order(policy, intent, now)
    ||| exists|c: int|
        0 <= c < containers.len() && new == limit_order(
            policy,
            intent,
            #[trigger] containers[c],
            limit_percent(store, estimates, w),
            now,
        )
}

/// The row was queued by the run for some workload whose target it set.
pub open spec fn is_ordered(
    store: StoreView,
    estimates: Seq<Estimate>,
    after: StoreView,
    ids: Seq<Seq<char>>,
    k: int,
    now: i64,
) -> bool {
    exists|w: int, p: int, intent: IntentView, new: NewActionView, n: int|
        #![trigger is_order_for(store, estimates, w, p, intent, new, now), fresh_row(new, ids[n], now)]
        is_set(store, estimates, w, p, now) && is_the_intent(
            after,
            store.policies[p].tenant_id,
            store.policies[p].workload_id,
            intent,
        ) && is_order_for(store, estimates, w, p, intent, new, now) && 0 <= n < ids.len()
            && after.actions[k] == fresh_row(new, ids[n], now)
}

/// A run queues nothing else: the rows that were there stay as they are, and
/// every row that is added carries out an intent that the run set.
pub proof fn fast_run_queues_nothing_else(
    store: StoreView,
    estimates: Seq<Estimate>,
    ids: Seq<Seq<char>>,
    now: i64,
)
    requires
        one_row_each(store),
        estimates.len() == store.workloads.len(),
        now >= 0,
        ids.len() == actions_of(
            fast_decisions(store, estimates, store.workloads.len() as int, now),
        ).len(),
    ensures
        ({
            let after = after_fast_run(store, estimates, ids, now);
            &&& store.actions.is_prefix_of(after.actions)
            &&& forall|k: int|
                store.actions.len() <= k < after.actions.len() ==> #[trigger] is_ordered(
                    store,
                    estimates,
                    after,
                    ids,
                    k,
                    now,
                )
            &&& after.policies == store.policies && after.slos == store.slos && after.workloads
                == store.workloads && after.groups == store.groups
        }),
{
    let count = store.workloads.len() as int;
    let plan = fast_decisions(store, estimates, count, now);
    let new = actions_of(plan);
    let entered = StoreView { intents: with_rows(store.intents, intents_of(plan)), ..store };
    let after = after_fast_run(store, estimates, ids, now);
    queueing_leaves_the_rest(entered, new, ids, now);
    decisions_are_queued(entered, new, ids, now);
    assert forall|k: int| store.actions.len() <= k < after.actions.len() implies #[trigger]
        is_ordered(store, estimates, after, ids, k, now) by {
        assert(is_fresh(after.actions[k], new, ids, now));
        let n = choose|n: int|
            0 <= n < new.len() && after.actions[k] == #[trigger] fresh_row(new[n], ids[n], now);
        lemma_actions_of(plan, 0, n);
        let (d, m) = choose|d: int, m: int|
            0 <= d < plan.len() && 0 <= m < plan[d].actions.len() && new[n] == (
            #[trigger] plan[d].actions[m]);
        let w = lemma_plan_from(store, estimates, count, now, d);
        let seen = store.workloads[w].seen;
        assert(workloads_seen(store)[w] == seen);
        let key = (seen.tenant_id, seen.workload_id);
        lemma_found(store.policies, key);
        let p = choose|p: int|
            0 <= p < store.policies.len() && #[trigger] store.policies[p] == row_with(
                store.policies,
                key,
            )->0 && store.policies[p].key() == key;
        assert(is_governed(store, estimates, w, p));
        lemma_set(store, estimates, now, w, p);
        lemma_carries_out(store, estimates, now, w, p);
        lemma_run(store, estimates, ids, now, w);
        let policy = store.policies[p];
        let containers = list_or_empty(policy.target_container_ids_json);
        let intent = plan[d].intent;
        if 0 < m <= containers.len() {
            assert(plan[d].actions[(m - 1) + 1] == limit_order(
                policy,
                intent,
                containers[m - 1],
                limit_percent(store, estimates, w),
                now,
            ));
        }
        assert(is_order_for(store, estimates, w, p, intent, new[n], now));
        assert(after.actions[k] == fresh_row(new[n], ids[n], now));
    }
}

proof fn lemma_last_none<T: Keyed>(rows: Seq<T>, key: T::Key)
    requires
        forall|i: int| 0 <= i < rows.len() ==> (#[trigger] rows[i]).key() != key,
    ensures
        last_with(rows, key) is None,
    decreases rows.len(),
{
    if rows.len() > 0 {
        assert(rows[rows.len() - 1].key() != key);
        assert forall|i: int| 0 <= i < rows.drop_last().len() implies (
        #[trigger] rows.drop_last()[i]).key() != key by {
            assert(rows.drop_last()[i] == rows[i]);
        }
        lemma_last_none(rows.drop_last(), key);
    }
}

/// The intent for a workload of which nothing was seen stays as it is.
pub proof fn unseen_workload_keeps_its_intent(
    store: StoreView,
    estimates: Seq<Estimate>,
    ids: Seq<Seq<char>>,
    now: i64,
    tenant_id: Seq<char>,
    workload_id: Seq<char>,
    intent: IntentView,
)
    requires
        one_row_each(store),
        forall|w: int|
            0 <= w < store.workloads.len() ==> (#[trigger] store.workloads[w]).seen.tenant_id
                != tenant_id || store.workloads[w].seen.workload_id != workload_id,
    ensures
        is_the_intent(after_fast_run(store, estimates, ids, now), tenant_id, workload_id, intent)
            <==> is_the_intent(store, tenant_id, workload_id, intent),
{
    let n = store.workloads.len() as int;
    let plan = fast_decisions(store, estimates, n, now);
    let entered = StoreView { intents: with_rows(store.intents, intents_of(plan)), ..store };
    let after = after_fast_run(store, estimates, ids, now);
    let key = (tenant_id, workload_id);
    queueing_leaves_the_rest(entered, actions_of(plan), ids, now);
    assert forall|k: int| 0 <= k < intents_of(plan).len() implies (
    #[trigger] intents_of(plan)[k]).key() != key by {
        let w = lemma_plan_from(store, estimates, n, now, k);
        assert(workloads_seen(store)[w] == store.workloads[w].seen);
    }
    lemma_last_none(intents_of(plan), key);
    last_row_counts(store.intents, intents_of(plan), key);
    assert(crate::table::unique_keys(store.intents)) by {
        assert forall|i: int, j: int|
            0 <= i < j < store.intents.len() implies store.intents[i].key()
            != store.intents[j].key() by {
            assert(store.intents[i].tenant_id != store.intents[j].tenant_id
                || store.intents[i].workload_id != store.intents[j].workload_id);
        }
    }
    rows_keep_keys_unique(store.intents, intents_of(plan));
    assert forall|i: int, j: int| 0 <= i < j < after.intents.len() implies (
    #[trigger] after.intents[i]).tenant_id != (#[trigger] after.intents[j]).tenant_id
        || after.intents[i].workload_id != after.intents[j].workload_id by {
        assert(after.intents[i].key() != after.intents[j].key());
    }
    lemma_is_the_intent(after, tenant_id, workload_id, intent);
    lemma_is_the_intent(store, tenant_id, workload_id, intent);
}

// ---------------------------------------------------------------------------
// The slow loop
// ---------------------------------------------------------------------------

/// The action that scales a node group by one unit: the platform's, for the
/// two minutes that hold `now`, and as long as these.
pub open spec fn scale_order(
    node_group: Seq<char>,
    action_type: Seq<char>,
    now: i64,
) -> NewActionView {
    NewActionView {
        tenant_id: "platform"@,
        workload_id: node_group,
        action_type,
        payload: JsonView::Object(
            map![
                "node_group"@ => JsonView::Text(node_group),
                "delta_units"@ => count(1),
            ],
        ),
        ttl_seconds: 120,
        decision_window_start: (now - now % 120) as i64,
        rollback_action: None,
        parent_action_id: None,
    }
}

/// More than eighty in a hundred of the group's units are in use.
pub open spec fn is_full(group: NodeGroupView) -> bool {
    group.capacity_units > 0 && 100 * group.used_units > 80 * group.capacity_units
}

/// The group has nodes to spare: some are ready, and less than thirty-five in a
/// hundred of its units are in use, or it has no units.
pub open spec fn is_spare(group: NodeGroupView) -> bool {
    group.warm_ready > 0 && (group.capacity_units == 0 || 100 * group.used_units < 35
        * group.capacity_units)
}

proof fn lemma_scaling(group: NodeGroupView, now: i64)
    requires
        now >= 0,
    ensures
        is_full(group) ==> crate::planner::scaling_for(group, now) == Some(
            scale_order(group.node_group, "ScaleNodeGroupUp"@, now),
        ),
        !is_full(group) && is_spare(group) ==> crate::planner::scaling_for(group, now) == Some(
            scale_order(group.node_group, "ScaleNodeGroupDown"@, now),
        ),
        !is_full(group) && !is_spare(group) ==> crate::planner::scaling_for(group, now) is None,
{
    let up = crate::planner::scale_action(group.node_group, "ScaleNodeGroupUp"@, now);
    let down = crate::planner::scale_action(group.node_group, "ScaleNodeGroupDown"@, now);
    assert(up == scale_order(group.node_group, "ScaleNodeGroupUp"@, now));
    assert(down == scale_order(group.node_group, "ScaleNodeGroupDown"@, now));
}

/// The action scales one of the groups as that group asks for.
pub open spec fn is_asked_by_one(
    new: NewActionView,
    groups: Seq<NodeGroupView>,
    now: i64,
) -> bool {
    exists|g: int|
        0 <= g < groups.len() && ((is_full(#[trigger] groups[g]) && new == scale_order(
            groups[g].node_group,
            "ScaleNodeGroupUp"@,
            now,
        )) || (!is_full(groups[g]) && is_spare(groups[g]) && new == scale_order(
            groups[g].node_group,
            "ScaleNodeGroupDown"@,
            now,
        )))
}

/// The slow loop decides for each node group by itself: a full one grows by a
/// unit, one that is not full and has nodes to spare shrinks by a unit, and
/// nothing else is decided.
pub proof fn groups_scale_as_they_ask(groups: Seq<NodeGroupView>, now: i64)
    requires
        now >= 0,
    ensures
        forall|g: int|
            0 <= g < groups.len() && is_full(#[trigger] groups[g]) ==> slow_actions(
                groups,
                now,
            ).contains(scale_order(groups[g].node_group, "ScaleNodeGroupUp"@, now)),
        forall|g: int|
            0 <= g < groups.len() && !is_full(#[trigger] groups[g]) && is_spare(groups[g])
                ==> slow_actions(groups, now).contains(
                scale_order(groups[g].node_group, "ScaleNodeGroupDown"@, now),
            ),
        forall|n: int|
            0 <= n < slow_actions(groups, now).len() ==> is_asked_by_one(
                #[trigger] slow_actions(groups, now)[n],
                groups,
                now,
            ),
    decreases groups.len(),
{
    if groups.len() > 0 {
        let front = groups.drop_last();
        let last = groups[groups.len() - 1];
        let some = slow_actions(front, now);
        let all = slow_actions(groups, now);
        groups_scale_as_they_ask(front, now);
        lemma_scaling(last, now);
        assert(some.is_prefix_of(all));
        assert forall|new: NewActionView| #[trigger] some.contains(new) implies all.contains(
            new,
        ) by {
            let n = choose|n: int| 0 <= n < some.len() && some[n] == new;
            assert(all[n] == new);
        }
        assert forall|g: int|
            0 <= g < groups.len() && is_full(#[trigger] groups[g]) implies all.contains(
            scale_order(groups[g].node_group, "ScaleNodeGroupUp"@, now),
        ) by {
            if g < front.len() {
                assert(front[g] == groups[g]);
            } else {
                assert(all[all.len() - 1] == scale_order(
                    last.node_group,
                    "ScaleNodeGroupUp"@,
                    now,
                ));
            }
        }
        assert forall|g: int|
            0 <= g < groups.len() && !is_full(#[trigger] groups[g]) && is_spare(
                groups[g],
            ) implies all.contains(
            scale_order(groups[g].node_group, "ScaleNodeGroupDown"@, now),
        ) by {
            if g < front.len() {
                assert(front[g] == groups[g]);
            } else {
                assert(all[all.len() - 1] == scale_order(
                    last.node_group,
                    "ScaleNodeGroupDown"@,
                    now,
                ));
            }
        }
        assert forall|n: int| 0 <= n < all.len() implies is_asked_by_one(
            #[trigger] all[n],
            groups,
            now,
        ) by {
            if n < some.len() {
                assert(all[n] == some[n]);
                assert(is_asked_by_one(some[n], front, now));
                let g = choose|g: int|
                    0 <= g < front.len() && ((is_full(#[trigger] front[g]) && some[n]
                        == scale_order(front[g].node_group, "ScaleNodeGroupUp"@, now)) || (!is_full(
                        front[g],
                    ) && is_spare(front[g]) && some[n] == scale_order(
                        front[g].node_group,
                        "ScaleNodeGroupDown"@,
                        now,
                    )));
                assert(groups[g] == front[g]);
            } else {
                assert(groups[groups.len() - 1] == last);
            }
        }
    }
}

/// A run of the slow loop queues the scaling of every node group of the table
/// that is full or has nodes to spare, for the two minutes that hold `now`, and
/// nothing else; all that was there stays.
pub proof fn slow_run_queues_the_scalings(
    store: StoreView,
    ids: Seq<Seq<char>>,
    now: i64,
)
    requires
        now >= 0,
        ids.len() == slow_actions(groups_seen(store), now).len(),
    ensures
        ({
            let after = all_enqueued(store, slow_actions(groups_seen(store), now), ids, now);
            &&& store.actions.is_prefix_of(after.actions)
            &&& after == (StoreView { actions: after.actions, ..store })
            &&& forall|g: int|
                0 <= g < store.groups.len() && is_full((#[trigger] store.groups[g]).seen)
                    ==> has_row_for(
                    after,
                    scale_order(store.groups[g].seen.node_group, "ScaleNodeGroupUp"@, now),
                )
            &&& forall|g: int|
                0 <= g < store.groups.len() && !is_full((#[trigger] store.groups[g]).seen)
                    && is_spare(store.groups[g].seen) ==> has_row_for(
                    after,
                    scale_order(store.groups[g].seen.node_group, "ScaleNodeGroupDown"@, now),
                )
            &&& forall|k: int|
                store.actions.len() <= k < after.actions.len() ==> is_scaling(
                    store,
                    #[trigger] after.actions[k],
                    now,
                )
        }),
{
    let groups = groups_seen(store);
    let new = slow_actions(groups, now);
    let after = all_enqueued(store, new, ids, now);
    queueing_leaves_the_rest(store, new, ids, now);
    decisions_are_queued(store, new, ids, now);
    groups_scale_as_they_ask(groups, now);
    assert forall|g: int| 0 <= g < store.groups.len() && is_full(
        (#[trigger] store.groups[g]).seen,
    ) implies has_row_for(
        after,
        scale_order(store.groups[g].seen.node_group, "ScaleNodeGroupUp"@, now),
    ) by {
        assert(groups[g] == store.groups[g].seen);
        let n = choose|n: int|
            0 <= n < new.len() && new[n] == scale_order(
                groups[g].node_group,
                "ScaleNodeGroupUp"@,
                now,
            );
        assert(has_row_for(after, new[n]));
    }
    assert forall|g: int|
        0 <= g < store.groups.len() && !is_full((#[trigger] store.groups[g]).seen) && is_spare(
            store.groups[g].seen,
        ) implies has_row_for(
        after,
        scale_order(store.groups[g].seen.node_group, "ScaleNodeGroupDown"@, now),
    ) by {
        assert(groups[g] == store.groups[g].seen);
        let n = choose|n: int|
            0 <= n < new.len() && new[n] == scale_order(
                groups[g].node_group,
                "ScaleNodeGroupDown"@,
                now,
            );
        assert(has_row_for(after, new[n]));
    }
    assert forall|k: int| store.actions.len() <= k < after.actions.len() implies is_scaling(
        store,
        #[trigger] after.actions[k],
        now,
    ) by {
        assert(is_fresh(after.actions[k], new, ids, now));
        let n = choose|n: int|
            0 <= n < new.len() && after.actions[k] == #[trigger] fresh_row(new[n], ids[n], now);
        assert(is_asked_by_one(new[n], groups, now));
        let g = choose|g: int|
            0 <= g < groups.len() && ((is_full(#[trigger] groups[g]) && new[n] == scale_order(
                groups[g].node_group,
                "ScaleNodeGroupUp"@,
                now,
            )) || (!is_full(groups[g]) && is_spare(groups[g]) && new[n] == scale_order(
                groups[g].node_group,
                "ScaleNodeGroupDown"@,
                now,
            )));
        assert(groups[g] == store.groups[g].seen);
        assert(store.groups[g].seen == groups[g]);
    }
}

/// The row is that of a scaling which a node group of the table asks for.
pub open spec fn is_scaling(store: StoreView, row: ActionView, now: i64) -> bool {
    exists|g: int|
        0 <= g < store.groups.len() && ((is_full((#[trigger] store.groups[g]).seen) && row
            == fresh_row(
            scale_order(store.groups[g].seen.node_group, "ScaleNodeGroupUp"@, now),
            row.action_id,
            now,
        )) || (!is_full(store.groups[g].seen) && is_spare(store.groups[g].seen) && row == fresh_row(
            scale_order(store.groups[g].seen.node_group, "ScaleNodeGroupDown"@, now),
            row.action_id,
            now,
        )))
}

// ---------------------------------------------------------------------------
// What the loops ask for
// ---------------------------------------------------------------------------

/// The fast loop can run on every table in which the two quotas of each policy
/// of a workload that was seen can be added up, and the age of its intent can
/// be told.
pub proof fn fast_loop_can_run(store: StoreView, now: i64)
    requires
        one_row_each(store),
        forall|p: int|
            0 <= p < store.policies.len() ==> (#[trigger] store.policies[p]).hard_quota
                + store.policies[p].soft_burst <= 0xffff_ffff,
        forall|c: int|
            0 <= c < store.intents.len() ==> -0x8000_0000_0000_0000 <= now - (
            #[trigger] store.intents[c]).updated_at <= 0x7fff_ffff_ffff_ffff,
    ensures
        crate::planner::quotas_fit(store),
        crate::planner::ages_fit(store, now),
{
    assert forall|w: int| 0 <= w < store.workloads.len() implies crate::planner::quotas_kept_fit(
        store,
        (#[trigger] store.workloads[w]).key(),
    ) by {
        lemma_found(store.policies, store.workloads[w].key());
    }
    assert forall|w: int| 0 <= w < store.workloads.len() implies crate::planner::age_fits(
        store,
        (#[trigger] store.workloads[w]).key(),
        now,
    ) by {
        lemma_found(store.intents, store.workloads[w].key());
    }
}

/// Some pressure on the group is a number, and `p` is greater than each that
/// is.
pub open spec fn is_all_below(group: NodeGroupView, p: Double) -> bool {
    &&& !pressures_are_no_numbers(group)
    &&& !group.cpu_pressure.is_nan() ==> p.exceeds(group.cpu_pressure)
    &&& !group.mem_pressure.is_nan() ==> p.exceeds(group.mem_pressure)
    &&& !group.io_pressure.is_nan() ==> p.exceeds(group.io_pressure)
}

/// No pressure on the group is a number.
pub open spec fn pressures_are_no_numbers(group: NodeGroupView) -> bool {
    group.cpu_pressure.is_nan() && group.mem_pressure.is_nan() && group.io_pressure.is_nan()
}

/// A further group is the coolest exactly where the coolest so far is under a
/// pressure that is greater than all of its; otherwise the coolest so far
/// stays. So it is also where pressures are no numbers.
pub proof fn further_group_is_compared(groups: Seq<NodeGroupView>, more: NodeGroupView)
    requires
        groups.len() > 0,
    ensures
        0 <= coolest_at(groups) < groups.len(),
        ({
            let so_far = groups[coolest_at(groups)];
            coolest_at(groups.push(more)) == if is_all_below(more, so_far.cpu_pressure)
                || is_all_below(more, so_far.mem_pressure) || is_all_below(
                more,
                so_far.io_pressure,
            ) {
                groups.len() as int
            } else {
                coolest_at(groups)
            }
        }),
    decreases groups.len(),
{
    assert(groups.push(more).drop_last() =~= groups);
    if groups.len() > 1 {
        assert(groups.drop_last().push(groups.last()) =~= groups);
        further_group_is_compared(groups.drop_last(), groups.last());
    }
    let so_far = groups[coolest_at(groups)];
    assert(groups.push(more)[coolest_at(groups)] == so_far);
    larger_is_the_least_bound(so_far.cpu_pressure, so_far.mem_pressure);
    larger_is_the_least_bound(
        so_far.cpu_pressure.larger_of(so_far.mem_pressure),
        so_far.io_pressure,
    );
    larger_is_the_least_bound(more.cpu_pressure, more.mem_pressure);
    larger_is_the_least_bound(more.cpu_pressure.larger_of(more.mem_pressure), more.io_pressure);
}

/// The coolest group is named, and without groups the fallback is.
pub proof fn coolest_group_is_named(groups: Seq<NodeGroupView>, fallback: Seq<char>)
    ensures
        groups.len() > 0 ==> coolest(groups, fallback) == groups[coolest_at(groups)].node_group,
        groups.len() == 0 ==> coolest(groups, fallback) == fallback,
        groups.len() == 1 ==> coolest_at(groups) == 0,
{
}

/// A decision is its intent and its actions, one for one and in order.
pub proof fn decision_is_its_fields(decision: WorkloadDecision)
    ensures
        decision@.intent == decision.intent@,
        decision@.actions.len() == decision.actions@.len(),
        forall|i: int|
            0 <= i < decision.actions@.len() ==> #[trigger] decision@.actions[i]
                == decision.actions@[i]@,
        crate::planner::opt_decision(Some(decision)) == Some(decision@),
        crate::planner::opt_decision(None) is None,
{
}

/// What is decided first belongs to a workload that stands before the other's
/// in the tables.
pub proof fn decisions_follow_the_workloads(
    store: StoreView,
    estimates: Seq<Estimate>,
    now: i64,
    k: int,
    l: int,
) -> (at: (int, int))
    requires
        0 <= k < l < fast_decisions(
            store,
            estimates,
            store.workloads.len() as int,
            now,
        ).len(),
    ensures
        0 <= at.0 < at.1 < store.workloads.len(),
        ({
            let plan = fast_decisions(store, estimates, store.workloads.len() as int, now);
            &&& plan[k].intent.tenant_id == store.workloads[at.0].seen.tenant_id
            &&& plan[k].intent.workload_id == store.workloads[at.0].seen.workload_id
            &&& plan[l].intent.tenant_id == store.workloads[at.1].seen.tenant_id
            &&& plan[l].intent.workload_id == store.workloads[at.1].seen.workload_id
        }),
{
    let n = store.workloads.len() as int;
    let (v, w) = lemma_plan_in_turn(store, estimates, n, now, k, l);
    assert(workloads_seen(store)[v] == store.workloads[v].seen);
    assert(workloads_seen(store)[w] == store.workloads[w].seen);
    (v, w)
}

proof fn lemma_plan_in_turn(
    store: StoreView,
    estimates: Seq<Estimate>,
    n: int,
    now: i64,
    k: int,
    l: int,
) -> (at: (int, int))
    requires
        0 <= n <= store.workloads.len(),
        0 <= k < l < fast_decisions(store, estimates, n, now).len(),
    ensures
        0 <= at.0 < at.1 < n,
        decision_at(store, at.0, estimates[at.0], now) == Some(
            fast_decisions(store, estimates, n, now)[k],
        ),
        decision_at(store, at.1, estimates[at.1], now) == Some(
            fast_decisions(store, estimates, n, now)[l],
        ),
    decreases n,
{
    let front = fast_decisions(store, estimates, n - 1, now);
    if l < front.len() {
        lemma_plan_in_turn(store, estimates, n - 1, now, k, l)
    } else {
        (lemma_plan_from(store, estimates, n - 1, now, k), n - 1)
    }
}

/// The actions of a plan are those of its decisions, one after the other.
pub proof fn actions_follow_the_decisions(
    plan: Seq<DecisionView>,
    decision: DecisionView,
    more: Seq<DecisionView>,
)
    ensures
        actions_of(Seq::empty()) == Seq::<NewActionView>::empty(),
        actions_of(seq![decision]) == decision.actions,
        actions_of(plan + more) == actions_of(plan) + actions_of(more),
    decreases more.len(),
{
    reveal_with_fuel(actions_of, 2);
    assert(seq![decision].drop_last() =~= Seq::empty());
    assert(actions_of(seq![decision]) =~= decision.actions);
    if more.len() == 0 {
        assert(plan + more =~= plan);
        assert(actions_of(plan) + actions_of(more) =~= actions_of(plan));
    } else {
        assert((plan + more).drop_last() =~= plan + more.drop_last());
        actions_follow_the_decisions(plan, decision, more.drop_last());
        assert(actions_of(plan) + actions_of(more) =~= actions_of(plan) + actions_of(
            more.drop_last(),
        ) + more.last().actions);
    }
}

/// Queueing several actions is queueing them one after the other.
pub proof fn actions_are_queued_in_turn(
    store: StoreView,
    new: Seq<NewActionView>,
    ids: Seq<Seq<char>>,
    more: Seq<NewActionView>,
    more_ids: Seq<Seq<char>>,
    now: i64,
)
    requires
        ids.len() == new.len(),
        more_ids.len() == more.len(),
    ensures
        all_enqueued(store, Seq::empty(), Seq::empty(), now) == store,
        all_enqueued(store, new + more, ids + more_ids, now) == all_enqueued(
            all_enqueued(store, new, ids, now),
            more,
            more_ids,
            now,
        ),
        more.len() == 1 ==> all_enqueued(store, more, more_ids, now) == crate::queue::enqueued(
            store,
            more[0],
            more_ids[0],
            now,
        ),
    decreases more.len(),
{
    reveal_with_fuel(all_enqueued, 2);
    if more.len() == 0 {
        assert(new + more =~= new);
        assert(ids + more_ids =~= ids);
    } else {
        assert((new + more).drop_last() =~= new + more.drop_last());
        assert((ids + more_ids).drop_last() =~= ids + more_ids.drop_last());
        actions_are_queued_in_turn(
            store,
            new,
            ids,
            more.drop_last(),
            more_ids.drop_last(),
            now,
        );
    }
}

} // verus!
