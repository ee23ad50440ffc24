use quilt_mesh::double::Double;
use quilt_mesh::records::{
    NodeGroupObservation, ObservationIngestRequest, OrchestratorIntent, WorkloadObservation,
    WorkloadPolicyRequest, WorkloadSloRequest,
};
use quilt_mesh::store::{
    ingest_observations, is_clock_time, list_intents, list_node_group_observations,
    list_workload_observations, load_current_intent, load_policy, load_slo, upsert_intent,
    upsert_workload_policy, upsert_workload_slo, workload_ownership_valid, Store, LAST_TIME,
};

fn double(x: f64) -> Double {
    Double { bits: x.to_bits() }
}

fn policy(function: &str, limit: u32) -> WorkloadPolicyRequest {
    WorkloadPolicyRequest {
        runtime_function_id: function.to_string(),
        max_concurrency: 4,
        hard_quota: 10,
        soft_burst: 5,
        absolute_limit: limit,
        priority: -3,
        cooldown_seconds: 30,
        hysteresis_pct: double(10.0),
        burst_cpu_cap: double(1.5),
        burst_mem_mb: 256,
        burst_ttl_seconds: 60,
        target_container_ids: vec!["c1".to_string(), "c \"2\"".to_string()],
    }
}

#[test]
fn a_policy_is_kept_and_loaded() {
    let mut store = Store::new();
    assert!(load_policy(&store, "t", "w").is_none());
    assert!(!workload_ownership_valid(&store, "t", "w"));
    assert_eq!(upsert_workload_policy(&mut store, "t", "w", policy("f", 20), 7), Ok(()));
    assert_eq!(upsert_workload_policy(&mut store, "t", "v", policy("g", 30), 8), Ok(()));
    let loaded = load_policy(&store, "t", "w").unwrap();
    assert_eq!(loaded.runtime_function_id, "f");
    assert_eq!(loaded.max_concurrency, 4);
    assert_eq!(loaded.hard_quota, 10);
    assert_eq!(loaded.soft_burst, 5);
    assert_eq!(loaded.absolute_limit, 20);
    assert_eq!(loaded.cooldown_seconds, 30);
    assert_eq!(loaded.hysteresis_pct, double(10.0));
    assert_eq!(loaded.burst_cpu_cap, double(1.5));
    assert_eq!(loaded.burst_mem_mb, 256);
    assert_eq!(loaded.burst_ttl_seconds, 60);
    assert_eq!(
        loaded.target_container_ids,
        vec!["c1".to_string(), "c \"2\"".to_string()]
    );
    assert!(workload_ownership_valid(&store, "t", "w"));
    assert!(!workload_ownership_valid(&store, "u", "w"));
    assert_eq!(store.policies[0].priority, -3);
    assert_eq!(store.policies[0].updated_at, 7);
}

#[test]
fn a_later_policy_takes_the_place_of_the_earlier() {
    let mut store = Store::new();
    assert!(upsert_workload_policy(&mut store, "t", "w", policy("f", 20), 1).is_ok());
    assert!(upsert_workload_policy(&mut store, "t", "v", policy("g", 20), 2).is_ok());
    assert!(upsert_workload_policy(&mut store, "t", "w", policy("h", 21), 3).is_ok());
    assert_eq!(store.policies.len(), 2);
    assert_eq!(store.policies[0].runtime_function_id, "h");
    assert_eq!(load_policy(&store, "t", "v").unwrap().runtime_function_id, "g");
    assert!(store.is_sound());
}

#[test]
fn a_policy_without_a_function_is_refused() {
    let mut store = Store::new();
    for name in ["", "   ", "\u{2003}\t"] {
        assert_eq!(
            upsert_workload_policy(&mut store, "t", "w", policy(name, 20), 1),
            Err("runtime_function_id must be non-empty".to_string())
        );
    }
    assert!(store.policies.is_empty());
}

#[test]
fn containers_that_are_no_list_count_as_none() {
    let mut store = Store::new();
    assert!(upsert_workload_policy(&mut store, "t", "w", policy("f", 20), 1).is_ok());
    store.policies[0].target_container_ids_json = "oops".to_string();
    assert!(load_policy(&store, "t", "w").unwrap().target_container_ids.is_empty());
}

fn slo(latency: u32) -> WorkloadSloRequest {
    WorkloadSloRequest {
        p95_latency_ms: latency,
        max_cold_start_pct: double(5.0),
        max_reject_pct: double(1.0),
        rto_seconds: 9,
        max_cost_per_compute_unit: double(0.2),
    }
}

#[test]
fn what_is_asked_of_a_service_is_kept_and_loaded() {
    let mut store = Store::new();
    assert!(load_slo(&store, "t", "w").is_none());
    upsert_workload_slo(&mut store, "t", "w", slo(100), 1);
    upsert_workload_slo(&mut store, "t", "v", slo(150), 1);
    upsert_workload_slo(&mut store, "t", "w", slo(200), 2);
    assert_eq!(store.slos.len(), 2);
    let loaded = load_slo(&store, "t", "w").unwrap();
    assert_eq!(loaded.p95_latency_ms, 200);
    assert_eq!(loaded.max_cold_start_pct, double(5.0));
    assert_eq!(loaded.max_reject_pct, double(1.0));
    assert_eq!(loaded.max_cost_per_compute_unit, double(0.2));
    assert_eq!(load_slo(&store, "t", "v").unwrap().p95_latency_ms, 150);
    assert_eq!(store.slos[0].rto_seconds, 9);
}

fn seen(tenant: &str, workload: &str, depth: u32) -> WorkloadObservation {
    WorkloadObservation {
        tenant_id: tenant.to_string(),
        workload_id: workload.to_string(),
        node_group: "g".to_string(),
        queue_depth: depth,
        cpu_pressure: double(0.1),
        mem_pressure: double(0.2),
        io_pressure: double(0.3),
        cold_start_pct: double(0.0),
        invoke_p95_ms: 10,
        reject_pct: double(0.0),
        active_compute_units: 3,
        cost_per_compute_unit: double(0.1),
    }
}

fn group(name: &str, used: u32) -> NodeGroupObservation {
    NodeGroupObservation {
        node_group: name.to_string(),
        cpu_pressure: double(0.1),
        mem_pressure: double(0.2),
        io_pressure: double(0.3),
        warm_ready: 1,
        warm_hit_rate: double(0.5),
        capacity_units: 10,
        used_units: used,
    }
}

#[test]
fn observations_take_the_place_of_earlier_ones() {
    let mut store = Store::new();
    ingest_observations(
        &mut store,
        ObservationIngestRequest {
            workloads: vec![seen("t", "a", 1), seen("t", "b", 2), seen("t", "a", 3)],
            node_groups: vec![group("g", 1), group("h", 2)],
        },
        5,
    );
    ingest_observations(
        &mut store,
        ObservationIngestRequest {
            workloads: vec![seen("u", "a", 4)],
            node_groups: vec![group("g", 9)],
        },
        6,
    );
    let workloads = list_workload_observations(&store);
    let depths: Vec<u32> = workloads.iter().map(|w| w.queue_depth).collect();
    assert_eq!(depths, vec![3, 2, 4]);
    let groups = list_node_group_observations(&store);
    let used: Vec<u32> = groups.iter().map(|g| g.used_units).collect();
    assert_eq!(used, vec![9, 2]);
    assert_eq!(store.workloads[2].updated_at, 6);
    assert_eq!(store.groups[1].updated_at, 5);
    assert!(store.is_sound());
}

fn intent(tenant: &str, workload: &str, target: u32, updated_at: i64) -> OrchestratorIntent {
    OrchestratorIntent {
        tenant_id: tenant.to_string(),
        workload_id: workload.to_string(),
        target_concurrency: target,
        burst_cpu_cap: double(1.0),
        burst_mem_mb: 64,
        burst_ttl_seconds: 60,
        pool_min_ready: 1,
        pool_target_ready: 1,
        pool_max_ready: 1,
        preferred_node_group: "g".to_string(),
        anti_affinity: false,
        reason_code: "STEADY_STATE".to_string(),
        effective_at: updated_at,
        ttl_seconds: 60,
        updated_at,
    }
}

#[test]
fn intents_are_listed_by_workload() {
    let mut store = Store::new();
    for (tenant, workload) in [("b", "x"), ("a", "z"), ("é", "a"), ("a", "B"), ("a", "a")] {
        upsert_intent(&mut store, &intent(tenant, workload, 3, 10));
    }
    upsert_intent(&mut store, &intent("a", "z", 8, 11));
    let listed = list_intents(&store);
    let names: Vec<(&str, &str)> = listed
        .iter()
        .map(|i| (i.tenant_id.as_str(), i.workload_id.as_str()))
        .collect();
    assert_eq!(
        names,
        vec![("a", "B"), ("a", "a"), ("a", "z"), ("b", "x"), ("é", "a")]
    );
    assert_eq!(load_current_intent(&store, "a", "z"), Some((8, 11)));
    assert_eq!(load_current_intent(&store, "b", "x"), Some((3, 10)));
    assert_eq!(load_current_intent(&store, "b", "y"), None);
}

#[test]
fn unsound_tables_are_told() {
    let mut store = Store::new();
    assert!(store.is_sound());
    store.intents.push(intent("a", "b", 1, 5));
    store.intents.push(intent("a", "c", 1, 6));
    assert!(store.is_sound());
    store.intents.push(intent("a", "b", 1, 7));
    assert!(!store.is_sound());
    assert!(!store.has_unique_keys());
    store.intents.pop();
    store.intents.push(intent("a", "d", 1, -1));
    assert!(!store.is_sound());
    assert!(store.has_unique_keys());
    assert!(is_clock_time(0));
    assert!(is_clock_time(LAST_TIME));
    assert!(!is_clock_time(LAST_TIME + 1));
    assert!(!is_clock_time(-1));
}
