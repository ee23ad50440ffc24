use quilt_mesh::double::Double;
use quilt_mesh::json::json_text;
use quilt_mesh::planner::{
    ages_can_be_told, clamp_u32, coolest_group, enter_decisions, hottest_group_for, plan_fast_loop, plan_slow_loop,
    plan_workload, quotas_can_be_added, run_fast_loop, run_slow_loop, Estimate,
};
use quilt_mesh::queue::fresh_ids;
use quilt_mesh::records::{
    NodeGroupObservation, ObservationIngestRequest, WorkloadObservation, WorkloadPolicyRequest,
    WorkloadPolicyRow, WorkloadSloRow,
};
use quilt_mesh::store::{
    ingest_observations, list_intents, load_current_intent, load_policy, upsert_workload_policy,
    Store,
};

fn double(x: f64) -> Double {
    Double { bits: x.to_bits() }
}

fn value(x: Double) -> f64 {
    f64::from_bits(x.bits)
}

fn estimate(seen: &WorkloadObservation, policy: &WorkloadPolicyRow, current: Option<u32>) -> Estimate {
    let boost = if seen.queue_depth > 0 {
        1.0 + (f64::from(seen.queue_depth) / 100.0).min(1.0)
    } else {
        1.0
    };
    let cpu = value(policy.burst_cpu_cap);
    let raised = cpu * 1.2;
    Estimate {
        scaled_units: (f64::from(seen.active_compute_units) * boost).ceil() as i64,
        burst_cpu_guarded: double(raised),
        burst_mem_guarded: (f64::from(policy.burst_mem_mb) * 1.15) as i64,
        cpu_limit_percent: (cpu * 100.0).round() as u32,
        cpu_limit_percent_guarded: (raised * 100.0).round() as u32,
        hysteresis_threshold: (f64::from(current.unwrap_or(0)) * (value(policy.hysteresis_pct) / 100.0))
            .ceil() as u32,
    }
}

fn seen(workload: &str, group: &str) -> WorkloadObservation {
    WorkloadObservation {
        tenant_id: "t".to_string(),
        workload_id: workload.to_string(),
        node_group: group.to_string(),
        queue_depth: 0,
        cpu_pressure: double(0.2),
        mem_pressure: double(0.1),
        io_pressure: double(0.1),
        cold_start_pct: double(1.0),
        invoke_p95_ms: 50,
        reject_pct: double(0.0),
        active_compute_units: 20,
        cost_per_compute_unit: double(0.1),
    }
}

fn policy_row() -> WorkloadPolicyRow {
    WorkloadPolicyRow {
        runtime_function_id: "fn-1".to_string(),
        max_concurrency: 8,
        hard_quota: 40,
        soft_burst: 10,
        absolute_limit: 60,
        cooldown_seconds: 30,
        hysteresis_pct: double(10.0),
        burst_cpu_cap: double(1.5),
        burst_mem_mb: 256,
        burst_ttl_seconds: 60,
        target_container_ids: vec!["c1".to_string(), "c2".to_string()],
    }
}

fn slo() -> WorkloadSloRow {
    WorkloadSloRow {
        p95_latency_ms: 100,
        max_cold_start_pct: double(5.0),
        max_reject_pct: double(1.0),
        max_cost_per_compute_unit: double(0.5),
    }
}

fn group(name: &str, pressure: f64) -> NodeGroupObservation {
    NodeGroupObservation {
        node_group: name.to_string(),
        cpu_pressure: double(pressure),
        mem_pressure: double(0.0),
        io_pressure: double(0.0),
        warm_ready: 1,
        warm_hit_rate: double(0.5),
        capacity_units: 10,
        used_units: 5,
    }
}

#[test]
fn values_are_held_within_bounds() {
    assert_eq!(clamp_u32(5, 1, 10), 5);
    assert_eq!(clamp_u32(-5, 1, 10), 1);
    assert_eq!(clamp_u32(50, 1, 10), 10);
    assert_eq!(clamp_u32(10, 64, 20), 64);
    assert_eq!(clamp_u32(100, 64, 20), 20);
    assert_eq!(clamp_u32(i64::MAX, 0, u32::MAX), u32::MAX);
}

fn hottest_reference(name: &str, groups: &[NodeGroupObservation]) -> Option<String> {
    let mut candidate: Option<String> = None;
    let mut most = 0.0f64;
    for g in groups {
        let p = value(g.cpu_pressure)
            .max(value(g.mem_pressure))
            .max(value(g.io_pressure));
        if p > most {
            most = p;
            candidate = Some(g.node_group.clone());
        }
    }
    if most >= 0.85 && candidate.as_deref() == Some(name) {
        candidate
    } else {
        None
    }
}

fn coolest_reference(groups: &[NodeGroupObservation], fallback: &str) -> String {
    groups
        .iter()
        .min_by(|a, b| {
            let p = |g: &NodeGroupObservation| {
                value(g.cpu_pressure)
                    .max(value(g.mem_pressure))
                    .max(value(g.io_pressure))
            };
            p(a).partial_cmp(&p(b)).unwrap_or(std::cmp::Ordering::Equal)
        })
        .map(|g| g.node_group.clone())
        .unwrap_or_else(|| fallback.to_string())
}

#[test]
fn hot_and_cool_groups_are_found() {
    let lists: Vec<Vec<f64>> = vec![
        vec![],
        vec![0.9],
        vec![0.84],
        vec![0.85],
        vec![0.2, 0.95, 0.95, 0.1, 0.1],
        vec![0.9, f64::INFINITY, 0.0],
        vec![-1.0, -2.0],
        vec![0.5, 0.86, 0.5],
    ];
    for list in lists {
        let groups: Vec<NodeGroupObservation> = list
            .iter()
            .enumerate()
            .map(|(i, p)| group(&format!("g{}", i), *p))
            .collect();
        for name in ["g0", "g1", "g2", "g3", "other"] {
            assert_eq!(
                hottest_group_for(name, &groups),
                hottest_reference(name, &groups),
                "{:?} {}",
                list,
                name
            );
        }
        assert_eq!(coolest_group(&groups, "fb"), coolest_reference(&groups, "fb"), "{:?}", list);
    }
    let mut odd = vec![group("a", f64::NAN), group("b", 0.9), group("c", 0.1)];
    odd[0].mem_pressure = double(f64::NAN);
    odd[0].io_pressure = double(f64::NAN);
    assert_eq!(hottest_group_for("b", &odd), hottest_reference("b", &odd));
    assert_eq!(coolest_group(&odd, "x"), coolest_reference(&odd, "x"));
}

/// The intent's numbers, computed in floating point.
fn reference(
    seen: &WorkloadObservation,
    policy: &WorkloadPolicyRow,
    slo: &Option<WorkloadSloRow>,
) -> (u32, f64, u32, [u32; 3], String) {
    let clamp = |v: i64, min: u32, max: u32| -> u32 {
        if v < i64::from(min) {
            min
        } else if v > i64::from(max) {
            max
        } else {
            v as u32
        }
    };
    let boost = if seen.queue_depth > 0 {
        1.0 + (f64::from(seen.queue_depth) / 100.0).min(1.0)
    } else {
        1.0
    };
    let mut desired = (f64::from(seen.active_compute_units) * boost).ceil() as i64;
    desired = desired.max(i64::from(policy.max_concurrency));
    desired = desired.min(i64::from(policy.hard_quota + policy.soft_burst));
    desired = desired.min(i64::from(policy.absolute_limit));
    let mut reason = "STEADY_STATE";
    let mut cpu = value(policy.burst_cpu_cap);
    let mut mem = i64::from(policy.burst_mem_mb);
    if let Some(s) = slo {
        if seen.invoke_p95_ms > s.p95_latency_ms
            || value(seen.cold_start_pct) > value(s.max_cold_start_pct)
            || value(seen.reject_pct) > value(s.max_reject_pct)
            || value(seen.cost_per_compute_unit) > value(s.max_cost_per_compute_unit)
        {
            desired = (desired + i64::from(policy.soft_burst)).min(i64::from(policy.absolute_limit));
            cpu *= 1.2;
            mem = (mem as f64 * 1.15) as i64;
            reason = "SLO_GUARD";
        }
    }
    let pressure = value(seen.cpu_pressure)
        .max(value(seen.mem_pressure))
        .max(value(seen.io_pressure));
    if pressure > 0.85 {
        reason = "HOT_NODE_GROUP";
    } else if seen.queue_depth > 0 {
        reason = "QUEUE_PRESSURE";
    }
    let min_ready = (desired as f64 * 0.10).ceil() as i64;
    let target_ready = (desired as f64 * 0.20).ceil() as i64;
    let max_ready = (desired as f64 * 0.30).ceil() as i64;
    (
        clamp(desired, 1, policy.absolute_limit),
        cpu,
        clamp(mem, 64, policy.burst_mem_mb.saturating_mul(2)),
        [
            clamp(min_ready, 0, u32::MAX),
            clamp(target_ready, 0, u32::MAX),
            clamp(max_ready, 0, u32::MAX),
        ],
        reason.to_string(),
    )
}

struct Draw(u64);

impl Draw {
    fn next(&mut self, bound: u64) -> u64 {
        self.0 = self
            .0
            .wrapping_mul(6_364_136_223_846_793_005)
            .wrapping_add(1_442_695_040_888_963_407);
        (self.0 >> 33) % bound
    }
}

#[test]
fn intents_are_those_of_floating_point() {
    let mut draw = Draw(7);
    let scale = [3u64, 50, 1_000, 4_000_000_000];
    for round in 0..4_000usize {
        let top = scale[round % 4];
        let mut w = seen("w", "g1");
        w.queue_depth = draw.next(260) as u32;
        if draw.next(3) == 0 {
            w.queue_depth = 0;
        }
        w.active_compute_units = draw.next(top) as u32;
        w.cpu_pressure = double(draw.next(101) as f64 / 100.0);
        w.invoke_p95_ms = draw.next(200) as u32;
        w.cold_start_pct = double(draw.next(11) as f64);
        let mut p = policy_row();
        p.max_concurrency = draw.next(top) as u32;
        p.hard_quota = draw.next(top.min(2_000_000_000)) as u32;
        p.soft_burst = draw.next(top.min(2_000_000_000)) as u32;
        p.absolute_limit = draw.next(top) as u32;
        p.burst_mem_mb = draw.next(top) as u32;
        p.burst_cpu_cap = double(draw.next(800) as f64 / 100.0);
        let s = if draw.next(2) == 0 { Some(slo()) } else { None };
        let groups = vec![group("g1", 0.3), group("g2", 0.2)];
        let decision = plan_workload(&w, &p, &s, &estimate(&w, &p, None), &groups, None, 1_000).unwrap();
        let (target, cpu, mem, pools, reason) = reference(&w, &p, &s);
        let intent = &decision.intent;
        assert_eq!(intent.target_concurrency, target);
        assert_eq!(intent.burst_cpu_cap, double(cpu));
        assert_eq!(intent.burst_mem_mb, mem);
        assert_eq!(
            [intent.pool_min_ready, intent.pool_target_ready, intent.pool_max_ready],
            pools
        );
        assert_eq!(intent.reason_code, reason);
    }
}

#[test]
fn pool_sizes_round_up_as_floating_point_does() {
    let mut d: u64 = 0;
    while d <= u64::from(u32::MAX) {
        assert_eq!((d + 9) / 10, (d as f64 * 0.10).ceil() as u64, "{}", d);
        assert_eq!((d + 4) / 5, (d as f64 * 0.20).ceil() as u64, "{}", d);
        assert_eq!((3 * d + 9) / 10, (d as f64 * 0.30).ceil() as u64, "{}", d);
        d += if d < 1_000_000 { 1 } else { 4_999 };
    }
    for d in [u64::from(u32::MAX), u64::from(u32::MAX) - 5, 4_294_967_290] {
        assert_eq!((3 * d + 9) / 10, (d as f64 * 0.30).ceil() as u64);
    }
}

#[test]
fn a_decision_carries_its_actions() {
    let w = seen("w1", "g1");
    let p = policy_row();
    let groups = vec![group("g1", 0.9), group("g2", 0.1)];
    let decision =
        plan_workload(&w, &p, &None, &estimate(&w, &p, None), &groups, None, 1_003).unwrap();
    assert_eq!(decision.intent.target_concurrency, 20);
    assert!(decision.intent.anti_affinity);
    assert_eq!(decision.intent.preferred_node_group, "g2");
    let kinds: Vec<&str> = decision.actions.iter().map(|a| a.action_type.as_str()).collect();
    assert_eq!(
        kinds,
        vec!["SetPoolTarget", "SetBurstPolicy", "SetBurstPolicy", "SetPlacementPreference"]
    );
    let payloads: Vec<String> = decision.actions.iter().map(|a| json_text(&a.payload)).collect();
    assert_eq!(
        payloads,
        vec![
            "{\"function_id\":\"fn-1\",\"max_instances\":6,\"min_instances\":2}".to_string(),
            "{\"container_id\":\"c1\",\"cpu_limit_percent\":150,\"memory_limit_mb\":256}".to_string(),
            "{\"container_id\":\"c2\",\"cpu_limit_percent\":150,\"memory_limit_mb\":256}".to_string(),
            "{\"anti_affinity\":true,\"node_group\":\"g2\",\"tenant_id\":\"t\",\"workload_id\":\"w1\"}"
                .to_string(),
        ]
    );
    for new in &decision.actions {
        assert_eq!(new.tenant_id, "t");
        assert_eq!(new.workload_id, "w1");
        assert_eq!(new.ttl_seconds, 60);
        assert_eq!(new.decision_window_start, 1_000);
        assert!(new.rollback_action.is_none());
        assert!(new.parent_action_id.is_none());
    }
}

#[test]
fn a_shortfall_raises_the_limits() {
    let mut w = seen("w1", "g1");
    w.invoke_p95_ms = 101;
    let p = policy_row();
    let decision =
        plan_workload(&w, &p, &Some(slo()), &estimate(&w, &p, None), &Vec::new(), None, 1_000)
            .unwrap();
    assert_eq!(decision.intent.reason_code, "SLO_GUARD");
    assert_eq!(decision.intent.target_concurrency, 30);
    assert_eq!(decision.intent.burst_mem_mb, 294);
    assert_eq!(
        json_text(&decision.actions[1].payload),
        "{\"container_id\":\"c1\",\"cpu_limit_percent\":180,\"memory_limit_mb\":294}"
    );
    assert!(!decision.intent.anti_affinity);
    assert_eq!(decision.intent.preferred_node_group, "g1");
}

#[test]
fn cooldown_and_hysteresis_hold_a_target() {
    let w = seen("w1", "g1");
    let p = policy_row();
    let decide = |current: u32, at: i64, now: i64| {
        plan_workload(
            &w,
            &p,
            &None,
            &estimate(&w, &p, Some(current)),
            &Vec::new(),
            Some((current, at)),
            now,
        )
        .is_some()
    };
    assert!(!decide(40, 1_000, 1_029));
    assert!(decide(40, 1_000, 1_030));
    assert!(!decide(20, 1_000, 9_000));
    assert!(!decide(19, 1_000, 9_000));
    assert!(!decide(22, 1_000, 9_000));
    assert!(!decide(23, 1_000, 9_000));
    assert!(decide(24, 1_000, 9_000));
    assert!(decide(5, 1_000, 9_000));
}

fn policy_request(limit: u32) -> WorkloadPolicyRequest {
    let row = policy_row();
    WorkloadPolicyRequest {
        runtime_function_id: row.runtime_function_id,
        max_concurrency: row.max_concurrency,
        hard_quota: row.hard_quota,
        soft_burst: row.soft_burst,
        absolute_limit: limit,
        priority: 1,
        cooldown_seconds: row.cooldown_seconds,
        hysteresis_pct: row.hysteresis_pct,
        burst_cpu_cap: row.burst_cpu_cap,
        burst_mem_mb: row.burst_mem_mb,
        burst_ttl_seconds: row.burst_ttl_seconds,
        target_container_ids: row.target_container_ids,
    }
}

fn busy_store() -> Store {
    let mut store = Store::new();
    assert!(upsert_workload_policy(&mut store, "t", "w1", policy_request(60), 1).is_ok());
    assert!(upsert_workload_policy(&mut store, "t", "w3", policy_request(10), 1).is_ok());
    ingest_observations(
        &mut store,
        ObservationIngestRequest {
            workloads: vec![seen("w1", "g1"), seen("w2", "g1"), seen("w3", "g2")],
            node_groups: vec![group("g1", 0.9), group("g2", 0.1)],
        },
        1_000,
    );
    store
}

fn estimates(store: &Store) -> Vec<Estimate> {
    let mut list = Vec::new();
    for row in &store.workloads {
        let w = &row.seen;
        let current = load_current_intent(store, &w.tenant_id, &w.workload_id).map(|c| c.0);
        list.push(match load_policy(store, &w.tenant_id, &w.workload_id) {
            Some(policy) => estimate(w, &policy, current),
            None => estimate(w, &policy_row(), current),
        });
    }
    list
}

#[test]
fn the_fast_loop_decides_for_workloads_with_a_policy() {
    let mut store = busy_store();
    assert!(quotas_can_be_added(&store));
    let list = estimates(&store);
    let plan = plan_fast_loop(&store, &list, 1_003);
    assert_eq!(plan.len(), 2);
    run_fast_loop(&mut store, &list, 1_003);
    let intents = list_intents(&store);
    assert_eq!(intents.len(), 2);
    assert_eq!(intents[0].workload_id, "w1");
    assert_eq!(intents[0].target_concurrency, 20);
    assert_eq!(intents[1].workload_id, "w3");
    assert_eq!(intents[1].target_concurrency, 10);
    assert_eq!(store.actions.len(), 8);
    assert!(store.is_sound());

    let again = estimates(&store);
    assert!(plan_fast_loop(&store, &again, 1_003).is_empty());
    run_fast_loop(&mut store, &again, 1_003);
    assert_eq!(store.actions.len(), 8);
}

#[test]
fn decisions_are_entered_with_their_ids() {
    let mut store = busy_store();
    let plan = plan_fast_loop(&store, &estimates(&store), 1_003);
    let ids = fresh_ids(8);
    enter_decisions(&mut store, plan, &ids, 1_003);
    let entered: Vec<String> = store.actions.iter().map(|a| a.action_id.clone()).collect();
    assert_eq!(entered, ids);
}

#[test]
fn quotas_that_do_not_add_up_are_told() {
    let mut store = busy_store();
    store.policies[0].hard_quota = u32::MAX;
    assert!(!quotas_can_be_added(&store));
    store.policies[0].soft_burst = 0;
    assert!(quotas_can_be_added(&store));
}

fn load(name: &str, used: u32, capacity: u32, warm: u32) -> NodeGroupObservation {
    let mut g = group(name, 0.1);
    g.used_units = used;
    g.capacity_units = capacity;
    g.warm_ready = warm;
    g
}

fn scaling_reference(g: &NodeGroupObservation) -> Option<&'static str> {
    let utilization = if g.capacity_units == 0 {
        0.0
    } else {
        f64::from(g.used_units) / f64::from(g.capacity_units)
    };
    if utilization > 0.80 {
        Some("ScaleNodeGroupUp")
    } else if utilization < 0.35 && g.warm_ready > 0 {
        Some("ScaleNodeGroupDown")
    } else {
        None
    }
}

#[test]
fn groups_scale_as_floating_point_says() {
    let mut cases = Vec::new();
    for capacity in [0u32, 1, 2, 5, 10, 20, 60, 100, 1_000, 4_294_967_295, 4_000_000_000] {
        for tenth in 0..=24u64 {
            let at = u64::from(capacity) * tenth / 20;
            for used in [at.saturating_sub(1), at, at + 1] {
                for warm in [0u32, 3] {
                    cases.push(load("g", used.min(4_294_967_295) as u32, capacity, warm));
                }
            }
        }
    }
    for case in cases {
        let expected = scaling_reference(&case);
        let (used, capacity) = (case.used_units, case.capacity_units);
        let plan = plan_slow_loop(&vec![case], 1_000);
        let kind = plan.first().map(|a| a.action_type.clone());
        assert_eq!(kind.as_deref(), expected, "{}/{}", used, capacity);
    }
}

#[test]
fn the_slow_loop_queues_one_step_for_each_window() {
    let mut store = Store::new();
    ingest_observations(
        &mut store,
        ObservationIngestRequest {
            workloads: Vec::new(),
            node_groups: vec![load("up", 9, 10, 0), load("down", 1, 10, 2), load("stay", 5, 10, 2)],
        },
        1_000,
    );
    run_slow_loop(&mut store, 1_200);
    assert_eq!(store.actions.len(), 2);
    assert_eq!(store.actions[0].action_type, "ScaleNodeGroupUp");
    assert_eq!(store.actions[0].tenant_id, "platform");
    assert_eq!(store.actions[0].workload_id, "up");
    assert_eq!(
        store.actions[0].payload_json,
        "{\"delta_units\":1,\"node_group\":\"up\"}"
    );
    assert_eq!(store.actions[0].ttl_seconds, 120);
    assert_eq!(store.actions[0].decision_window_start, 1_200);
    assert_eq!(store.actions[1].action_type, "ScaleNodeGroupDown");
    run_slow_loop(&mut store, 1_319);
    assert_eq!(store.actions.len(), 2);
    run_slow_loop(&mut store, 1_320);
    assert_eq!(store.actions.len(), 4);
    assert!(store.is_sound());
}

#[test]
fn ages_that_cannot_be_told_are_told() {
    let mut store = busy_store();
    assert!(ages_can_be_told(&store, i64::MIN));
    let list = estimates(&store);
    run_fast_loop(&mut store, &list, 1_003);
    assert!(ages_can_be_told(&store, 1_003));
    assert!(ages_can_be_told(&store, -5));
    assert!(!ages_can_be_told(&store, i64::MIN));
    store.intents[0].updated_at = -1;
    store.intents[1].updated_at = -1;
    assert!(!store.is_sound());
    assert!(ages_can_be_told(&store, 1_004));
    assert!(!ages_can_be_told(&store, i64::MAX));
}

#[test]
fn the_fast_loop_plans_with_times_before_the_epoch() {
    let mut store = busy_store();
    let list = estimates(&store);
    run_fast_loop(&mut store, &list, -1_000);
    assert_eq!(store.intents.len(), 2);
    assert_eq!(store.intents[0].updated_at, -1_000);
    store.intents[0].target_concurrency = 1;
    let again = estimates(&store);
    let plan = plan_fast_loop(&store, &again, 1_003);
    assert_eq!(plan.len(), 1);
    assert_eq!(plan[0].intent.workload_id, "w1");
}
