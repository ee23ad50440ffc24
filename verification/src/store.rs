//! The tables of the orchestrator, and what is read from them and written to
//! them outside the action queue.
use crate::json::{list_or_empty, parse_text_list, printed_list, text_list};
use crate::order::{
    arrange_all, arranged, arranged_rows_are_in_order, arranged_rows_are_the_rows, places_fit,
    rows_at, Order,
};
use crate::records::{
    views, ActionRecord, ActionView, IntentView, NodeGroupObservation, NodeGroupRecord,
    NodeGroupRecordView, NodeGroupView, ObservationIngestRequest, OrchestratorIntent, PolicyRecord,
    PolicyRequestView, PolicyRowView, PolicyView, SloRecord, SloView, WorkloadObservation,
    WorkloadPolicyRequest, WorkloadPolicyRow, WorkloadRecord, WorkloadRecordView,
    WorkloadSloRequest, WorkloadSloRow, WorkloadView,
};
use crate::table::{
    first_is_position, found_row_has_the_key, has_key, keys_are_unique, last_of_its_key_counts,
    last_row_counts, last_with, other_rows_stay, position_is_first, put_row, row_is_read_back,
    row_keeps_keys_unique, row_takes_its_place, row_with, rows_keep_keys_unique, unique_keys,
    with_row, with_rows, Keyed, Row,
};
use crate::text::{
    comes_before, same_text, text_before, text_order_is_total, text_order_is_transitive, trim,
    trimmed,
};
use vstd::prelude::*;

verus! {

/// The last time that is told apart here, in seconds: the distance between two
/// such times, in milliseconds, fits into 63 bits.
pub const LAST_TIME: i64 = 4_611_686_018_427_387;

/// A time that the clock can give.
pub open spec fn is_time(t: i64) -> bool {
    0 <= t <= LAST_TIME
}

/// Whether the clock can give this time.
pub fn is_clock_time(t: i64) -> (yes: bool)
    ensures
        yes == is_time(t),
{
    0 <= t && t <= LAST_TIME
}

impl Keyed for PolicyView {
    type Key = (Seq<char>, Seq<char>);

    open spec fn key(self) -> (Seq<char>, Seq<char>) {
        (self.tenant_id, self.workload_id)
    }
}

impl Keyed for SloView {
    type Key = (Seq<char>, Seq<char>);

    open spec fn key(self) -> (Seq<char>, Seq<char>) {
        (self.tenant_id, self.workload_id)
    }
}

impl Keyed for WorkloadRecordView {
    type Key = (Seq<char>, Seq<char>);

    open spec fn key(self) -> (Seq<char>, Seq<char>) {
        (self.seen.tenant_id, self.seen.workload_id)
    }
}

impl Keyed for NodeGroupRecordView {
    type Key = Seq<char>;

    open spec fn key(self) -> Seq<char> {
        self.seen.node_group
    }
}

impl Keyed for IntentView {
    type Key = (Seq<char>, Seq<char>);

    open spec fn key(self) -> (Seq<char>, Seq<char>) {
        (self.tenant_id, self.workload_id)
    }
}

impl Keyed for ActionView {
    type Key = Seq<char>;

    open spec fn key(self) -> Seq<char> {
        self.idempotency_key
    }
}

impl Row for PolicyRecord {
    fn same_key(&self, other: &Self) -> (same: bool) {
        same_text(self.tenant_id.as_str(), other.tenant_id.as_str()) && same_text(
            self.workload_id.as_str(),
            other.workload_id.as_str(),
        )
    }
}

impl Row for SloRecord {
    fn same_key(&self, other: &Self) -> (same: bool) {
        same_text(self.tenant_id.as_str(), other.tenant_id.as_str()) && same_text(
            self.workload_id.as_str(),
            other.workload_id.as_str(),
        )
    }
}

impl Row for WorkloadRecord {
    fn same_key(&self, other: &Self) -> (same: bool) {
        same_text(self.seen.tenant_id.as_str(), other.seen.tenant_id.as_str()) && same_text(
            self.seen.workload_id.as_str(),
            other.seen.workload_id.as_str(),
        )
    }
}

impl Row for NodeGroupRecord {
    fn same_key(&self, other: &Self) -> (same: bool) {
        same_text(self.seen.node_group.as_str(), other.seen.node_group.as_str())
    }
}

impl Row for OrchestratorIntent {
    fn same_key(&self, other: &Self) -> (same: bool) {
        same_text(self.tenant_id.as_str(), other.tenant_id.as_str()) && same_text(
            self.workload_id.as_str(),
            other.workload_id.as_str(),
        )
    }
}

impl Row for ActionRecord {
    fn same_key(&self, other: &Self) -> (same: bool) {
        same_text(self.idempotency_key.as_str(), other.idempotency_key.as_str())
    }
}

/// The tables, each in the order in which its rows first came.
pub struct Store {
    pub policies: Vec<PolicyRecord>,
    pub slos: Vec<SloRecord>,
    pub workloads: Vec<WorkloadRecord>,
    pub groups: Vec<NodeGroupRecord>,
    pub intents: Vec<OrchestratorIntent>,
    pub actions: Vec<ActionRecord>,
}

/// What the tables hold.
#[verifier::ext_equal]
pub struct StoreView {
    pub policies: Seq<PolicyView>,
    pub slos: Seq<SloView>,
    pub workloads: Seq<WorkloadRecordView>,
    pub groups: Seq<NodeGroupRecordView>,
    pub intents: Seq<IntentView>,
    pub actions: Seq<ActionView>,
}

impl View for Store {
    type V = StoreView;

    open spec fn view(&self) -> StoreView {
        StoreView {
            policies: views(self.policies@),
            slos: views(self.slos@),
            workloads: views(self.workloads@),
            groups: views(self.groups@),
            intents: views(self.intents@),
            actions: views(self.actions@),
        }
    }
}

impl StoreView {
    /// No table holds two rows with one key.
    pub open spec fn keys_unique(self) -> bool {
        &&& unique_keys(self.policies)
        &&& unique_keys(self.slos)
        &&& unique_keys(self.workloads)
        &&& unique_keys(self.groups)
        &&& unique_keys(self.intents)
        &&& unique_keys(self.actions)
    }

    /// No table holds two rows with one key, and the times from which others
    /// are computed are times that the clock can give.
    pub open spec fn sound(self) -> bool {
        &&& self.keys_unique()
        &&& forall|i: int| 0 <= i < self.intents.len() ==> is_time((#[trigger] self.intents[i]).updated_at)
        &&& forall|i: int|
            0 <= i < self.actions.len() ==> is_time((#[trigger] self.actions[i]).created_at)
                && is_time(self.actions[i].effective_at)
    }
}

impl Store {
    /// Tables without rows.
    pub fn new() -> (store: Store)
        ensures
            store@.sound(),
            store@ == (StoreView {
                policies: Seq::empty(),
                slos: Seq::empty(),
                workloads: Seq::empty(),
                groups: Seq::empty(),
                intents: Seq::empty(),
                actions: Seq::empty(),
            }),
    {
        let store = Store {
            policies: Vec::new(),
            slos: Vec::new(),
            workloads: Vec::new(),
            groups: Vec::new(),
            intents: Vec::new(),
            actions: Vec::new(),
        };
        assert(store@ =~= StoreView {
            policies: Seq::empty(),
            slos: Seq::empty(),
            workloads: Seq::empty(),
            groups: Seq::empty(),
            intents: Seq::empty(),
            actions: Seq::empty(),
        });
        store
    }

    /// Whether no table holds two rows with one key.
    pub fn has_unique_keys(&self) -> (yes: bool)
        ensures
            yes == self@.keys_unique(),
    {
        keys_are_unique(&self.policies) && keys_are_unique(&self.slos) && keys_are_unique(
            &self.workloads,
        ) && keys_are_unique(&self.groups) && keys_are_unique(&self.intents) && keys_are_unique(
            &self.actions,
        )
    }

    /// Whether the tables are sound: no table holds two rows with one key, and
    /// the times from which others are computed are times that the clock can
    /// give.
    pub fn is_sound(&self) -> (yes: bool)
        ensures
            yes == self@.sound(),
    {
        let mut times: bool = true;
        for i in 0..self.intents.len()
            invariant
                i <= self.intents@.len(),
                times == (forall|k: int| 0 <= k < i ==> is_time((#[trigger] self@.intents[k]).updated_at)),
        {
            assert(self@.intents[i as int].updated_at == self.intents@[i as int].updated_at);
            times = times && is_clock_time(self.intents[i].updated_at);
        }
        for i in 0..self.actions.len()
            invariant
                i <= self.actions@.len(),
                times == ((forall|k: int|
                    0 <= k < self.intents@.len() ==> is_time((#[trigger] self@.intents[k]).updated_at))
                    && (forall|k: int|
                    0 <= k < i ==> is_time((#[trigger] self@.actions[k]).created_at) && is_time(
                        self@.actions[k].effective_at,
                    ))),
        {
            assert(self@.actions[i as int].created_at == self.actions@[i as int].created_at);
            times = times && is_clock_time(self.actions[i].created_at) && is_clock_time(
                self.actions[i].effective_at,
            );
        }
        times && self.has_unique_keys()
    }
}

// ---------------------------------------------------------------------------
// Policies and service levels
// ---------------------------------------------------------------------------

/// The policy that is kept for a request that comes at `now`.
pub open spec fn policy_kept(
    tenant_id: Seq<char>,
    workload_id: Seq<char>,
    req: PolicyRequestView,
    now: i64,
) -> PolicyView {
    PolicyView {
        tenant_id,
        workload_id,
        runtime_function_id: req.runtime_function_id,
        max_concurrency: req.max_concurrency,
        hard_quota: req.hard_quota,
        soft_burst: req.soft_burst,
        absolute_limit: req.absolute_limit,
        priority: req.priority,
        cooldown_seconds: req.cooldown_seconds,
        hysteresis_pct: req.hysteresis_pct,
        burst_cpu_cap: req.burst_cpu_cap,
        burst_mem_mb: req.burst_mem_mb,
        burst_ttl_seconds: req.burst_ttl_seconds,
        target_container_ids_json: printed_list(req.target_container_ids),
        updated_at: now,
    }
}

/// Keeps the policy of a workload, in the place of an earlier one. A policy
/// whose function has no name but white space is refused, and nothing changes.
pub fn upsert_workload_policy(
    store: &mut Store,
    tenant_id: &str,
    workload_id: &str,
    req: WorkloadPolicyRequest,
    now: i64,
) -> (done: Result<(), String>)
    ensures
        done is Err <==> trimmed(req@.runtime_function_id).len() == 0,
        done matches Err(message) ==> message@ == "runtime_function_id must be non-empty"@
            && final(store)@ == old(store)@,
        done is Ok ==> final(store)@ == (StoreView {
            policies: with_row(
                old(store)@.policies,
                policy_kept(tenant_id@, workload_id@, req@, now),
            ),
            ..old(store)@
        }) && list_or_empty(printed_list(req@.target_container_ids)) == req@.target_container_ids,
        old(store)@.sound() ==> final(store)@.sound(),
{
    let core: String = trim(req.runtime_function_id.as_str());
    if core.as_str().unicode_len() == 0 {
        return Err("runtime_function_id must be non-empty".to_owned());
    }
    let ghost asked = req@;
    let record = PolicyRecord {
        tenant_id: tenant_id.to_owned(),
        workload_id: workload_id.to_owned(),
        max_concurrency: req.max_concurrency,
        hard_quota: req.hard_quota,
        soft_burst: req.soft_burst,
        absolute_limit: req.absolute_limit,
        priority: req.priority,
        cooldown_seconds: req.cooldown_seconds,
        hysteresis_pct: req.hysteresis_pct,
        burst_cpu_cap: req.burst_cpu_cap,
        burst_mem_mb: req.burst_mem_mb,
        burst_ttl_seconds: req.burst_ttl_seconds,
        target_container_ids_json: text_list(&req.target_container_ids),
        runtime_function_id: req.runtime_function_id,
        updated_at: now,
    };
    assert(record@ == policy_kept(tenant_id@, workload_id@, asked, now));
    proof {
        if store@.sound() {
            row_keeps_keys_unique(store@.policies, record@);
        }
    }
    put_row(&mut store.policies, record);
    Ok(())
}

/// What the planner needs of the policy that is kept.
pub open spec fn policy_row(kept: PolicyView) -> PolicyRowView {
    PolicyRowView {
        runtime_function_id: kept.runtime_function_id,
        max_concurrency: kept.max_concurrency,
        hard_quota: kept.hard_quota,
        soft_burst: kept.soft_burst,
        absolute_limit: kept.absolute_limit,
        cooldown_seconds: kept.cooldown_seconds,
        hysteresis_pct: kept.hysteresis_pct,
        burst_cpu_cap: kept.burst_cpu_cap,
        burst_mem_mb: kept.burst_mem_mb,
        burst_ttl_seconds: kept.burst_ttl_seconds,
        target_container_ids: list_or_empty(kept.target_container_ids_json),
    }
}

/// The policy of a workload, if one is kept.
pub open spec fn policy_of(
    store: StoreView,
    tenant_id: Seq<char>,
    workload_id: Seq<char>,
) -> Option<PolicyRowView> {
    match row_with(store.policies, (tenant_id, workload_id)) {
        Some(kept) => Some(policy_row(kept)),
        None => None,
    }
}

/// What an optional policy holds.
pub open spec fn opt_policy(policy: Option<WorkloadPolicyRow>) -> Option<PolicyRowView> {
    match policy {
        Some(policy) => Some(policy@),
        None => None,
    }
}

/// The policy of a workload, if one is kept. Containers that are not kept as a
/// list count as none.
pub fn load_policy(store: &Store, tenant_id: &str, workload_id: &str) -> (policy: Option<
    WorkloadPolicyRow,
>)
    ensures
        opt_policy(policy) == policy_of(store@, tenant_id@, workload_id@),
{
    let ghost kept = store@.policies;
    let ghost key = (tenant_id@, workload_id@);
    let mut at: usize = 0;
    while at < store.policies.len()
        invariant
            at <= store.policies@.len(),
            kept == store@.policies,
            key == (tenant_id@, workload_id@),
            forall|i: int| 0 <= i < at ==> #[trigger] kept[i].key() != key,
        decreases store.policies@.len() - at,
    {
        let row = &store.policies[at];
        assert(kept[at as int] == row@);
        if same_text(row.tenant_id.as_str(), tenant_id) && same_text(
            row.workload_id.as_str(),
            workload_id,
        ) {
            proof {
                first_is_position(kept, key, at as int);
            }
            return Some(
                WorkloadPolicyRow {
                    runtime_function_id: row.runtime_function_id.clone(),
                    max_concurrency: row.max_concurrency,
                    hard_quota: row.hard_quota,
                    soft_burst: row.soft_burst,
                    absolute_limit: row.absolute_limit,
                    cooldown_seconds: row.cooldown_seconds,
                    hysteresis_pct: row.hysteresis_pct,
                    burst_cpu_cap: row.burst_cpu_cap,
                    burst_mem_mb: row.burst_mem_mb,
                    burst_ttl_seconds: row.burst_ttl_seconds,
                    target_container_ids: parse_text_list(row.target_container_ids_json.as_str()),
                },
            );
        }
        at = at + 1;
    }
    proof {
        first_is_position(kept, key, at as int);
    }
    None
}

/// The workload belongs to the tenant: a policy is kept for it.
pub open spec fn owned(store: StoreView, tenant_id: Seq<char>, workload_id: Seq<char>) -> bool {
    has_key(store.policies, (tenant_id, workload_id))
}

/// Whether the workload belongs to the tenant.
pub fn workload_ownership_valid(store: &Store, tenant_id: &str, workload_id: &str) -> (yes: bool)
    ensures
        yes == owned(store@, tenant_id@, workload_id@),
{
    load_policy(store, tenant_id, workload_id).is_some()
}

/// What is kept of a request on a workload's service that comes at `now`.
pub open spec fn slo_kept(
    tenant_id: Seq<char>,
    workload_id: Seq<char>,
    req: WorkloadSloRequest,
    now: i64,
) -> SloView {
    SloView {
        tenant_id,
        workload_id,
        p95_latency_ms: req.p95_latency_ms,
        max_cold_start_pct: req.max_cold_start_pct,
        max_reject_pct: req.max_reject_pct,
        rto_seconds: req.rto_seconds,
        max_cost_per_compute_unit: req.max_cost_per_compute_unit,
        updated_at: now,
    }
}

/// Keeps what is asked of a workload's service, in the place of what was asked
/// earlier.
pub fn upsert_workload_slo(
    store: &mut Store,
    tenant_id: &str,
    workload_id: &str,
    req: WorkloadSloRequest,
    now: i64,
)
    ensures
        final(store)@ == (StoreView {
            slos: with_row(old(store)@.slos, slo_kept(tenant_id@, workload_id@, req, now)),
            ..old(store)@
        }),
        old(store)@.sound() ==> final(store)@.sound(),
{
    let record = SloRecord {
        tenant_id: tenant_id.to_owned(),
        workload_id: workload_id.to_owned(),
        p95_latency_ms: req.p95_latency_ms,
        max_cold_start_pct: req.max_cold_start_pct,
        max_reject_pct: req.max_reject_pct,
        rto_seconds: req.rto_seconds,
        max_cost_per_compute_unit: req.max_cost_per_compute_unit,
        updated_at: now,
    };
    proof {
        if store@.sound() {
            row_keeps_keys_unique(store@.slos, record@);
        }
    }
    put_row(&mut store.slos, record);
}

/// What is asked of a workload's service, if anything is.
pub open spec fn slo_of(
    store: StoreView,
    tenant_id: Seq<char>,
    workload_id: Seq<char>,
) -> Option<WorkloadSloRow> {
    match row_with(store.slos, (tenant_id, workload_id)) {
        Some(kept) => Some(
            WorkloadSloRow {
                p95_latency_ms: kept.p95_latency_ms,
                max_cold_start_pct: kept.max_cold_start_pct,
                max_reject_pct: kept.max_reject_pct,
                max_cost_per_compute_unit: kept.max_cost_per_compute_unit,
            },
        ),
        None => None,
    }
}

/// What is asked of a workload's service, if anything is.
pub fn load_slo(store: &Store, tenant_id: &str, workload_id: &str) -> (slo: Option<WorkloadSloRow>)
    ensures
        slo == slo_of(store@, tenant_id@, workload_id@),
{
    let ghost kept = store@.slos;
    let ghost key = (tenant_id@, workload_id@);
    let mut at: usize = 0;
    while at < store.slos.len()
        invariant
            at <= store.slos@.len(),
            kept == store@.slos,
            key == (tenant_id@, workload_id@),
            forall|i: int| 0 <= i < at ==> #[trigger] kept[i].key() != key,
        decreases store.slos@.len() - at,
    {
        let row = &store.slos[at];
        assert(kept[at as int] == row@);
        if same_text(row.tenant_id.as_str(), tenant_id) && same_text(
            row.workload_id.as_str(),
            workload_id,
        ) {
            proof {
                first_is_position(kept, key, at as int);
            }
            return Some(
                WorkloadSloRow {
                    p95_latency_ms: row.p95_latency_ms,
                    max_cold_start_pct: row.max_cold_start_pct,
                    max_reject_pct: row.max_reject_pct,
                    max_cost_per_compute_unit: row.max_cost_per_compute_unit,
                },
            );
        }
        at = at + 1;
    }
    proof {
        first_is_position(kept, key, at as int);
    }
    None
}

/// A policy that is accepted is the one that is loaded, and the policies of
/// all other workloads stay as they were.
pub proof fn policy_is_read_back(
    before: StoreView,
    tenant_id: Seq<char>,
    workload_id: Seq<char>,
    req: PolicyRequestView,
    now: i64,
    other_tenant: Seq<char>,
    other_workload: Seq<char>,
)
    requires
        (other_tenant, other_workload) != (tenant_id, workload_id),
        list_or_empty(printed_list(req.target_container_ids)) == req.target_container_ids,
    ensures
        ({
            let after = StoreView {
                policies: with_row(before.policies, policy_kept(tenant_id, workload_id, req, now)),
                ..before
            };
            &&& policy_of(after, tenant_id, workload_id) == Some(
                PolicyRowView {
                    runtime_function_id: req.runtime_function_id,
                    max_concurrency: req.max_concurrency,
                    hard_quota: req.hard_quota,
                    soft_burst: req.soft_burst,
                    absolute_limit: req.absolute_limit,
                    cooldown_seconds: req.cooldown_seconds,
                    hysteresis_pct: req.hysteresis_pct,
                    burst_cpu_cap: req.burst_cpu_cap,
                    burst_mem_mb: req.burst_mem_mb,
                    burst_ttl_seconds: req.burst_ttl_seconds,
                    target_container_ids: req.target_container_ids,
                },
            )
            &&& owned(after, tenant_id, workload_id)
            &&& policy_of(after, other_tenant, other_workload) == policy_of(
                before,
                other_tenant,
                other_workload,
            )
            &&& owned(after, other_tenant, other_workload) == owned(
                before,
                other_tenant,
                other_workload,
            )
        }),
{
    let row = policy_kept(tenant_id, workload_id, req, now);
    row_is_read_back(before.policies, row, (other_tenant, other_workload));
}

/// What is asked of a workload's service is what is loaded, and what is asked
/// of all other workloads stays as it was.
pub proof fn slo_is_read_back(
    before: StoreView,
    tenant_id: Seq<char>,
    workload_id: Seq<char>,
    req: WorkloadSloRequest,
    now: i64,
    other_tenant: Seq<char>,
    other_workload: Seq<char>,
)
    requires
        (other_tenant, other_workload) != (tenant_id, workload_id),
    ensures
        ({
            let after = StoreView {
                slos: with_row(before.slos, slo_kept(tenant_id, workload_id, req, now)),
                ..before
            };
            &&& slo_of(after, tenant_id, workload_id) == Some(
                WorkloadSloRow {
                    p95_latency_ms: req.p95_latency_ms,
                    max_cold_start_pct: req.max_cold_start_pct,
                    max_reject_pct: req.max_reject_pct,
                    max_cost_per_compute_unit: req.max_cost_per_compute_unit,
                },
            )
            &&& slo_of(after, other_tenant, other_workload) == slo_of(
                before,
                other_tenant,
                other_workload,
            )
        }),
{
    row_is_read_back(
        before.slos,
        slo_kept(tenant_id, workload_id, req, now),
        (other_tenant, other_workload),
    );
}

// ---------------------------------------------------------------------------
// Observations
// ---------------------------------------------------------------------------

/// What is kept of workloads' observations that come at `now`.
pub open spec fn workloads_kept(seen: Seq<WorkloadView>, now: i64) -> Seq<WorkloadRecordView> {
    seen.map_values(|w: WorkloadView| WorkloadRecordView { seen: w, updated_at: now })
}

/// What is kept of node groups' observations that come at `now`.
pub open spec fn groups_kept(seen: Seq<NodeGroupView>, now: i64) -> Seq<NodeGroupRecordView> {
    seen.map_values(|g: NodeGroupView| NodeGroupRecordView { seen: g, updated_at: now })
}

fn put_workloads(rows: &mut Vec<WorkloadRecord>, seen: Vec<WorkloadObservation>, now: i64)
    ensures
        views(final(rows)@) == with_rows(views(old(rows)@), workloads_kept(views(seen@), now)),
{
    let ghost before = views(rows@);
    let ghost kept = workloads_kept(views(seen@), now);
    assert(kept.take(0) =~= Seq::empty());
    for w in it: seen
        invariant
            it.seq() == seen@,
            kept == workloads_kept(views(seen@), now),
            views(rows@) == with_rows(before, kept.take(it.index())),
    {
        let ghost n = it.index();
        assert(kept.take(n + 1).drop_last() =~= kept.take(n));
        let record = WorkloadRecord { seen: w, updated_at: now };
        assert(record@ == kept[n]);
        put_row(rows, record);
    }
    assert(kept.take(kept.len() as int) =~= kept);
}

fn put_groups(rows: &mut Vec<NodeGroupRecord>, seen: Vec<NodeGroupObservation>, now: i64)
    ensures
        views(final(rows)@) == with_rows(views(old(rows)@), groups_kept(views(seen@), now)),
{
    let ghost before = views(rows@);
    let ghost kept = groups_kept(views(seen@), now);
    assert(kept.take(0) =~= Seq::empty());
    for g in it: seen
        invariant
            it.seq() == seen@,
            kept == groups_kept(views(seen@), now),
            views(rows@) == with_rows(before, kept.take(it.index())),
    {
        let ghost n = it.index();
        assert(kept.take(n + 1).drop_last() =~= kept.take(n));
        let record = NodeGroupRecord { seen: g, updated_at: now };
        assert(record@ == kept[n]);
        put_row(rows, record);
    }
    assert(kept.take(kept.len() as int) =~= kept);
}

/// Keeps observations, each in the place of the earlier one of its workload or
/// node group.
pub fn ingest_observations(store: &mut Store, req: ObservationIngestRequest, now: i64)
    ensures
        final(store)@ == (StoreView {
            workloads: with_rows(
                old(store)@.workloads,
                workloads_kept(views(req.workloads@), now),
            ),
            groups: with_rows(old(store)@.groups, groups_kept(views(req.node_groups@), now)),
            ..old(store)@
        }),
        old(store)@.sound() ==> final(store)@.sound(),
{
    proof {
        if store@.sound() {
            rows_keep_keys_unique(store@.workloads, workloads_kept(views(req.workloads@), now));
            rows_keep_keys_unique(store@.groups, groups_kept(views(req.node_groups@), now));
        }
    }
    put_workloads(&mut store.workloads, req.workloads, now);
    put_groups(&mut store.groups, req.node_groups, now);
}

/// The workloads' observations.
pub open spec fn workloads_seen(store: StoreView) -> Seq<WorkloadView> {
    store.workloads.map_values(|row: WorkloadRecordView| row.seen)
}

/// The node groups' observations.
pub open spec fn groups_seen(store: StoreView) -> Seq<NodeGroupView> {
    store.groups.map_values(|row: NodeGroupRecordView| row.seen)
}

/// The last observation of a workload that came counts, with the time at which
/// it came, and where none came, the one that was there.
pub proof fn last_observation_counts(
    before: StoreView,
    seen: Seq<WorkloadView>,
    now: i64,
    tenant_id: Seq<char>,
    workload_id: Seq<char>,
)
    ensures
        ({
            let kept = workloads_kept(seen, now);
            let key = (tenant_id, workload_id);
            &&& row_with(with_rows(before.workloads, kept), key) == match last_with(kept, key) {
                Some(row) => Some(row),
                None => row_with(before.workloads, key),
            }
            &&& last_with(kept, key) matches Some(row) ==> row.updated_at == now && seen.contains(
                row.seen,
            )
        }),
{
    let kept = workloads_kept(seen, now);
    let key = (tenant_id, workload_id);
    last_row_counts(before.workloads, kept, key);
    lemma_last_kept(seen, now, key);
}

proof fn lemma_last_kept(seen: Seq<WorkloadView>, now: i64, key: (Seq<char>, Seq<char>))
    ensures
        last_with(workloads_kept(seen, now), key) matches Some(row) ==> row.updated_at == now
            && seen.contains(row.seen),
    decreases seen.len(),
{
    let kept = workloads_kept(seen, now);
    if seen.len() > 0 {
        let front = seen.drop_last();
        lemma_last_kept(front, now, key);
        assert(kept.drop_last() =~= workloads_kept(front, now));
        assert(seen[seen.len() - 1] == kept.last().seen);
        if let Some(row) = last_with(workloads_kept(front, now), key) {
            let k = choose|k: int| 0 <= k < front.len() && front[k] == row.seen;
            assert(seen[k] == row.seen);
        }
    }
}

/// The workloads' observations, in the order of their table.
pub fn list_workload_observations(store: &Store) -> (seen: Vec<WorkloadObservation>)
    ensures
        views(seen@) == workloads_seen(store@),
{
    let mut seen: Vec<WorkloadObservation> = Vec::new();
    for i in 0..store.workloads.len()
        invariant
            i <= store.workloads@.len(),
            views(seen@) == workloads_seen(store@).take(i as int),
    {
        let ghost before = views(seen@);
        let w = &store.workloads[i].seen;
        let copy = WorkloadObservation {
            tenant_id: w.tenant_id.clone(),
            workload_id: w.workload_id.clone(),
            node_group: w.node_group.clone(),
            queue_depth: w.queue_depth,
            cpu_pressure: w.cpu_pressure,
            mem_pressure: w.mem_pressure,
            io_pressure: w.io_pressure,
            cold_start_pct: w.cold_start_pct,
            invoke_p95_ms: w.invoke_p95_ms,
            reject_pct: w.reject_pct,
            active_compute_units: w.active_compute_units,
            cost_per_compute_unit: w.cost_per_compute_unit,
        };
        assert(copy@ == workloads_seen(store@)[i as int]);
        seen.push(copy);
        assert(views(seen@) =~= before.push(copy@));
        assert(workloads_seen(store@).take(i + 1) =~= before.push(copy@));
    }
    assert(workloads_seen(store@).take(store.workloads@.len() as int) =~= workloads_seen(store@));
    seen
}

/// The node groups' observations, in the order of their table.
pub fn list_node_group_observations(store: &Store) -> (seen: Vec<NodeGroupObservation>)
    ensures
        views(seen@) == groups_seen(store@),
{
    let mut seen: Vec<NodeGroupObservation> = Vec::new();
    for i in 0..store.groups.len()
        invariant
            i <= store.groups@.len(),
            views(seen@) == groups_seen(store@).take(i as int),
    {
        let ghost before = views(seen@);
        let g = &store.groups[i].seen;
        let copy = NodeGroupObservation {
            node_group: g.node_group.clone(),
            cpu_pressure: g.cpu_pressure,
            mem_pressure: g.mem_pressure,
            io_pressure: g.io_pressure,
            warm_ready: g.warm_ready,
            warm_hit_rate: g.warm_hit_rate,
            capacity_units: g.capacity_units,
            used_units: g.used_units,
        };
        assert(copy@ == groups_seen(store@)[i as int]);
        seen.push(copy);
        assert(views(seen@) =~= before.push(copy@));
        assert(groups_seen(store@).take(i + 1) =~= before.push(copy@));
    }
    assert(groups_seen(store@).take(store.groups@.len() as int) =~= groups_seen(store@));
    seen
}

// ---------------------------------------------------------------------------
// Intents
// ---------------------------------------------------------------------------

/// A copy of an intent.
pub fn copy_intent(intent: &OrchestratorIntent) -> (copy: OrchestratorIntent)
    ensures
        copy@ == intent@,
{
    OrchestratorIntent {
        tenant_id: intent.tenant_id.clone(),
        workload_id: intent.workload_id.clone(),
        target_concurrency: intent.target_concurrency,
        burst_cpu_cap: intent.burst_cpu_cap,
        burst_mem_mb: intent.burst_mem_mb,
        burst_ttl_seconds: intent.burst_ttl_seconds,
        pool_min_ready: intent.pool_min_ready,
        pool_target_ready: intent.pool_target_ready,
        pool_max_ready: intent.pool_max_ready,
        preferred_node_group: intent.preferred_node_group.clone(),
        anti_affinity: intent.anti_affinity,
        reason_code: intent.reason_code.clone(),
        effective_at: intent.effective_at,
        ttl_seconds: intent.ttl_seconds,
        updated_at: intent.updated_at,
    }
}

/// Keeps the intent for a workload, in the place of an earlier one.
pub fn upsert_intent(store: &mut Store, intent: &OrchestratorIntent)
    ensures
        final(store)@ == (StoreView {
            intents: with_row(old(store)@.intents, intent@),
            ..old(store)@
        }),
        old(store)@.sound() && is_time(intent@.updated_at) ==> final(store)@.sound(),
{
    proof {
        if store@.sound() {
            row_keeps_keys_unique(store@.intents, intent@);
        }
    }
    let ghost before = store@.intents;
    put_row(&mut store.intents, copy_intent(intent));
    proof {
        position_is_first(before, intent@.key());
        assert forall|i: int| 0 <= i < store@.intents.len() implies store@.intents[i]
            == intent@ || before.contains(#[trigger] store@.intents[i]) by {
            if i < before.len() && store@.intents[i] != intent@ {
                assert(before[i] == store@.intents[i]);
            }
        }
    }
}

/// The target of the intent for a workload and when it was set, if there is an
/// intent.
pub open spec fn current_intent(
    store: StoreView,
    tenant_id: Seq<char>,
    workload_id: Seq<char>,
) -> Option<(u32, i64)> {
    match row_with(store.intents, (tenant_id, workload_id)) {
        Some(intent) => Some((intent.target_concurrency, intent.updated_at)),
        None => None,
    }
}

/// The target of the intent for a workload and when it was set, if there is an
/// intent.
pub fn load_current_intent(store: &Store, tenant_id: &str, workload_id: &str) -> (current: Option<
    (u32, i64),
>)
    ensures
        current == current_intent(store@, tenant_id@, workload_id@),
{
    let ghost kept = store@.intents;
    let ghost key = (tenant_id@, workload_id@);
    let mut at: usize = 0;
    while at < store.intents.len()
        invariant
            at <= store.intents@.len(),
            kept == store@.intents,
            key == (tenant_id@, workload_id@),
            forall|i: int| 0 <= i < at ==> #[trigger] kept[i].key() != key,
        decreases store.intents@.len() - at,
    {
        let row = &store.intents[at];
        assert(kept[at as int] == row@);
        if same_text(row.tenant_id.as_str(), tenant_id) && same_text(
            row.workload_id.as_str(),
            workload_id,
        ) {
            proof {
                first_is_position(kept, key, at as int);
            }
            return Some((row.target_concurrency, row.updated_at));
        }
        at = at + 1;
    }
    proof {
        first_is_position(kept, key, at as int);
    }
    None
}

/// Intents by tenant, and those of one tenant by workload.
pub struct ByWorkload;

impl Order<OrchestratorIntent> for ByWorkload {
    open spec fn before(a: IntentView, b: IntentView) -> bool {
        ||| text_before(a.tenant_id, b.tenant_id)
        ||| a.tenant_id == b.tenant_id && (text_before(a.workload_id, b.workload_id)
            || a.workload_id == b.workload_id)
    }

    fn stands_before(a: &OrchestratorIntent, b: &OrchestratorIntent) -> (yes: bool) {
        comes_before(a.tenant_id.as_str(), b.tenant_id.as_str()) || (same_text(
            a.tenant_id.as_str(),
            b.tenant_id.as_str(),
        ) && (comes_before(a.workload_id.as_str(), b.workload_id.as_str()) || same_text(
            a.workload_id.as_str(),
            b.workload_id.as_str(),
        )))
    }
}

/// The intents by tenant, and those of one tenant by workload.
pub open spec fn intents_listed(store: StoreView) -> Seq<IntentView> {
    arranged::<OrchestratorIntent, ByWorkload>(store.intents)
}

/// The intents by tenant, and those of one tenant by workload.
pub fn list_intents(store: &Store) -> (listed: Vec<OrchestratorIntent>)
    ensures
        views(listed@) == intents_listed(store@),
{
    let ghost rows = store@.intents;
    let places: Vec<usize> = arrange_all::<OrchestratorIntent, ByWorkload>(&store.intents);
    let mut listed: Vec<OrchestratorIntent> = Vec::new();
    for n in 0..places.len()
        invariant
            rows == store@.intents,
            places_fit(places@, store.intents@.len()),
            views(listed@) == rows_at(rows, places@).take(n as int),
    {
        let ghost before = views(listed@);
        let copy = copy_intent(&store.intents[places[n]]);
        assert(copy@ == rows_at(rows, places@)[n as int]);
        listed.push(copy);
        assert(views(listed@) =~= before.push(copy@));
        assert(rows_at(rows, places@).take(n + 1) =~= before.push(copy@));
    }
    assert(rows_at(rows, places@).take(places@.len() as int) =~= rows_at(rows, places@));
    listed
}

/// The list of intents holds each intent once, and each stands before those of
/// later workloads: of two neighbours or any other two, the earlier has the
/// lesser tenant, or the same tenant and the lesser workload.
pub proof fn intents_are_listed_by_workload(store: StoreView)
    ensures
        intents_listed(store).to_multiset() == store.intents.to_multiset(),
        intents_listed(store).len() == store.intents.len(),
        forall|i: int, j: int|
            0 <= i < j < intents_listed(store).len() ==> ByWorkload::before(
                #[trigger] intents_listed(store)[i],
                #[trigger] intents_listed(store)[j],
            ),
{
    assert forall|a: IntentView, b: IntentView|
        #[trigger] ByWorkload::before(a, b) || ByWorkload::before(b, a) by {
        text_order_is_total(a.tenant_id, b.tenant_id);
        text_order_is_total(a.workload_id, b.workload_id);
    }
    assert forall|a: IntentView, b: IntentView, c: IntentView|
        #[trigger] ByWorkload::before(a, b) && #[trigger] ByWorkload::before(
            b,
            c,
        ) implies ByWorkload::before(a, c) by {
        if text_before(a.tenant_id, b.tenant_id) && text_before(b.tenant_id, c.tenant_id) {
            text_order_is_transitive(a.tenant_id, b.tenant_id, c.tenant_id);
        }
        if text_before(a.workload_id, b.workload_id) && text_before(b.workload_id, c.workload_id) {
            text_order_is_transitive(a.workload_id, b.workload_id, c.workload_id);
        }
    }
    arranged_rows_are_in_order::<OrchestratorIntent, ByWorkload>(store.intents);
    arranged_rows_are_the_rows::<OrchestratorIntent, ByWorkload>(store.intents);
}

/// A policy is kept with all that was asked, for its tenant and workload, with
/// the time at which it came; it is the only one of that workload, and the rows
/// of all other workloads stay.
pub proof fn policy_is_kept_as_asked(
    before: StoreView,
    tenant_id: Seq<char>,
    workload_id: Seq<char>,
    req: PolicyRequestView,
    now: i64,
)
    requires
        before.keys_unique(),
    ensures
        ({
            let after = with_row(before.policies, policy_kept(tenant_id, workload_id, req, now));
            let kept = PolicyView {
                tenant_id,
                workload_id,
                runtime_function_id: req.runtime_function_id,
                max_concurrency: req.max_concurrency,
                hard_quota: req.hard_quota,
                soft_burst: req.soft_burst,
                absolute_limit: req.absolute_limit,
                priority: req.priority,
                cooldown_seconds: req.cooldown_seconds,
                hysteresis_pct: req.hysteresis_pct,
                burst_cpu_cap: req.burst_cpu_cap,
                burst_mem_mb: req.burst_mem_mb,
                burst_ttl_seconds: req.burst_ttl_seconds,
                target_container_ids_json: printed_list(req.target_container_ids),
                updated_at: now,
            };
            &&& after.contains(kept)
            &&& forall|i: int|
                0 <= i < after.len() && (#[trigger] after[i]).tenant_id == tenant_id
                    && after[i].workload_id == workload_id ==> after[i] == kept
            &&& forall|i: int|
                0 <= i < before.policies.len() && ((#[trigger] before.policies[i]).tenant_id
                    != tenant_id || before.policies[i].workload_id != workload_id) ==> after[i]
                    == before.policies[i]
            &&& after.len() <= before.policies.len() + 1
        }),
{
    let row = policy_kept(tenant_id, workload_id, req, now);
    row_takes_its_place(before.policies, row);
    let after = with_row(before.policies, row);
    if !after.contains(row) {
        assert(after.last() == row);
    }
    assert forall|i: int|
        0 <= i < after.len() && (#[trigger] after[i]).tenant_id == tenant_id
            && after[i].workload_id == workload_id implies after[i] == row by {
        assert(after[i].key() == row.key());
    }
    assert forall|i: int|
        0 <= i < before.policies.len() && ((#[trigger] before.policies[i]).tenant_id != tenant_id
            || before.policies[i].workload_id != workload_id) implies after[i]
        == before.policies[i] by {
        assert(before.policies[i].key() != row.key());
    }
}

/// What is asked of a service is kept as it was asked, for its tenant and
/// workload, with the time at which it came; it is the only row of that
/// workload, and the rows of all other workloads stay.
pub proof fn slo_is_kept_as_asked(
    before: StoreView,
    tenant_id: Seq<char>,
    workload_id: Seq<char>,
    req: WorkloadSloRequest,
    now: i64,
)
    requires
        before.keys_unique(),
    ensures
        ({
            let after = with_row(before.slos, slo_kept(tenant_id, workload_id, req, now));
            let kept = SloView {
                tenant_id,
                workload_id,
                p95_latency_ms: req.p95_latency_ms,
                max_cold_start_pct: req.max_cold_start_pct,
                max_reject_pct: req.max_reject_pct,
                rto_seconds: req.rto_seconds,
                max_cost_per_compute_unit: req.max_cost_per_compute_unit,
                updated_at: now,
            };
            &&& after.contains(kept)
            &&& forall|i: int|
                0 <= i < after.len() && (#[trigger] after[i]).tenant_id == tenant_id
                    && after[i].workload_id == workload_id ==> after[i] == kept
            &&& forall|i: int|
                0 <= i < before.slos.len() && ((#[trigger] before.slos[i]).tenant_id != tenant_id
                    || before.slos[i].workload_id != workload_id) ==> after[i] == before.slos[i]
            &&& after.len() <= before.slos.len() + 1
        }),
{
    let row = slo_kept(tenant_id, workload_id, req, now);
    row_takes_its_place(before.slos, row);
    let after = with_row(before.slos, row);
    if !after.contains(row) {
        assert(after.last() == row);
    }
    assert forall|i: int|
        0 <= i < after.len() && (#[trigger] after[i]).tenant_id == tenant_id
            && after[i].workload_id == workload_id implies after[i] == row by {
        assert(after[i].key() == row.key());
    }
    assert forall|i: int|
        0 <= i < before.slos.len() && ((#[trigger] before.slos[i]).tenant_id != tenant_id
            || before.slos[i].workload_id != workload_id) implies after[i] == before.slos[i] by {
        assert(before.slos[i].key() != row.key());
    }
}

/// The last of the observations of a workload that came is the one that its row
/// holds, as it was seen and with the time at which it came.
pub proof fn last_workload_seen_is_kept(
    before: StoreView,
    seen: Seq<WorkloadView>,
    now: i64,
    n: int,
)
    requires
        before.keys_unique(),
        0 <= n < seen.len(),
        forall|i: int|
            n < i < seen.len() ==> (#[trigger] seen[i]).tenant_id != seen[n].tenant_id
                || seen[i].workload_id != seen[n].workload_id,
    ensures
        ({
            let after = with_rows(before.workloads, workloads_kept(seen, now));
            &&& after.contains(WorkloadRecordView { seen: seen[n], updated_at: now })
            &&& forall|i: int|
                0 <= i < after.len() && (#[trigger] after[i]).seen.tenant_id == seen[n].tenant_id
                    && after[i].seen.workload_id == seen[n].workload_id ==> after[i].seen == seen[n]
                    && after[i].updated_at == now
        }),
{
    let kept = workloads_kept(seen, now);
    let after = with_rows(before.workloads, kept);
    let key = (seen[n].tenant_id, seen[n].workload_id);
    assert forall|i: int| n < i < kept.len() implies (#[trigger] kept[i]).key()
        != kept[n].key() by {
        assert(kept[i].seen == seen[i]);
    }
    last_of_its_key_counts(before.workloads, kept, n);
    rows_keep_keys_unique(before.workloads, kept);
    found_row_has_the_key(after, key);
    assert forall|i: int|
        0 <= i < after.len() && (#[trigger] after[i]).seen.tenant_id == seen[n].tenant_id
            && after[i].seen.workload_id == seen[n].workload_id implies after[i].seen == seen[n]
        && after[i].updated_at == now by {
        assert(after[i].key() == key);
    }
}

/// What was kept of a workload stays, where nothing came on it.
pub proof fn unseen_workloads_stay(
    before: StoreView,
    seen: Seq<WorkloadView>,
    now: i64,
    row: WorkloadRecordView,
)
    requires
        before.keys_unique(),
        forall|i: int|
            0 <= i < seen.len() ==> (#[trigger] seen[i]).tenant_id != row.seen.tenant_id
                || seen[i].workload_id != row.seen.workload_id,
    ensures
        before.workloads.contains(row) <==> with_rows(
            before.workloads,
            workloads_kept(seen, now),
        ).contains(row),
{
    let kept = workloads_kept(seen, now);
    let after = with_rows(before.workloads, kept);
    let key = row.key();
    assert forall|i: int| 0 <= i < kept.len() implies (#[trigger] kept[i]).key() != key by {
        assert(kept[i].seen == seen[i]);
    }
    other_rows_stay(before.workloads, kept, key);
    rows_keep_keys_unique(before.workloads, kept);
    found_row_has_the_key(after, key);
    found_row_has_the_key(before.workloads, key);
    if before.workloads.contains(row) {
        let i = choose|i: int| 0 <= i < before.workloads.len() && before.workloads[i] == row;
        assert(before.workloads[i].key() == key);
    }
    if after.contains(row) {
        let i = choose|i: int| 0 <= i < after.len() && after[i] == row;
        assert(after[i].key() == key);
    }
}

/// The last of the observations of a node group that came is the one that its
/// row holds, as it was seen and with the time at which it came.
pub proof fn last_group_seen_is_kept(
    before: StoreView,
    seen: Seq<NodeGroupView>,
    now: i64,
    n: int,
)
    requires
        before.keys_unique(),
        0 <= n < seen.len(),
        forall|i: int|
            n < i < seen.len() ==> (#[trigger] seen[i]).node_group != seen[n].node_group,
    ensures
        ({
            let after = with_rows(before.groups, groups_kept(seen, now));
            &&& after.contains(NodeGroupRecordView { seen: seen[n], updated_at: now })
            &&& forall|i: int|
                0 <= i < after.len() && (#[trigger] after[i]).seen.node_group == seen[n].node_group
                    ==> after[i].seen == seen[n] && after[i].updated_at == now
        }),
{
    let kept = groups_kept(seen, now);
    let after = with_rows(before.groups, kept);
    let key = seen[n].node_group;
    assert forall|i: int| n < i < kept.len() implies (#[trigger] kept[i]).key()
        != kept[n].key() by {
        assert(kept[i].seen == seen[i]);
    }
    last_of_its_key_counts(before.groups, kept, n);
    rows_keep_keys_unique(before.groups, kept);
    found_row_has_the_key(after, key);
    assert forall|i: int|
        0 <= i < after.len() && (#[trigger] after[i]).seen.node_group
            == seen[n].node_group implies after[i].seen == seen[n] && after[i].updated_at
        == now by {
        assert(after[i].key() == key);
    }
}

/// What was kept of a node group stays, where nothing came on it.
pub proof fn unseen_groups_stay(
    before: StoreView,
    seen: Seq<NodeGroupView>,
    now: i64,
    row: NodeGroupRecordView,
)
    requires
        before.keys_unique(),
        forall|i: int|
            0 <= i < seen.len() ==> (#[trigger] seen[i]).node_group != row.seen.node_group,
    ensures
        before.groups.contains(row) <==> with_rows(before.groups, groups_kept(seen, now)).contains(
            row,
        ),
{
    let kept = groups_kept(seen, now);
    let after = with_rows(before.groups, kept);
    let key = row.key();
    assert forall|i: int| 0 <= i < kept.len() implies (#[trigger] kept[i]).key() != key by {
        assert(kept[i].seen == seen[i]);
    }
    other_rows_stay(before.groups, kept, key);
    rows_keep_keys_unique(before.groups, kept);
    found_row_has_the_key(after, key);
    found_row_has_the_key(before.groups, key);
    if before.groups.contains(row) {
        let i = choose|i: int| 0 <= i < before.groups.len() && before.groups[i] == row;
        assert(before.groups[i].key() == key);
    }
    if after.contains(row) {
        let i = choose|i: int| 0 <= i < after.len() && after[i] == row;
        assert(after[i].key() == key);
    }
}

/// The observations are listed as their rows hold them, in the order of the
/// rows.
pub proof fn observations_are_listed(store: StoreView)
    ensures
        workloads_seen(store).len() == store.workloads.len(),
        groups_seen(store).len() == store.groups.len(),
        forall|i: int|
            0 <= i < store.workloads.len() ==> #[trigger] workloads_seen(store)[i]
                == store.workloads[i].seen,
        forall|i: int|
            0 <= i < store.groups.len() ==> #[trigger] groups_seen(store)[i]
                == store.groups[i].seen,
{
}

/// What is loaded for a workload is what the row of its tenant and workload
/// holds, and nothing is loaded where there is no such row.
pub proof fn rows_are_loaded(store: StoreView, tenant_id: Seq<char>, workload_id: Seq<char>)
    requires
        store.keys_unique(),
    ensures
        forall|i: int|
            0 <= i < store.policies.len() && (#[trigger] store.policies[i]).tenant_id == tenant_id
                && store.policies[i].workload_id == workload_id ==> policy_of(
                store,
                tenant_id,
                workload_id,
            ) == Some(
                PolicyRowView {
                    runtime_function_id: store.policies[i].runtime_function_id,
                    max_concurrency: store.policies[i].max_concurrency,
                    hard_quota: store.policies[i].hard_quota,
                    soft_burst: store.policies[i].soft_burst,
                    absolute_limit: store.policies[i].absolute_limit,
                    cooldown_seconds: store.policies[i].cooldown_seconds,
                    hysteresis_pct: store.policies[i].hysteresis_pct,
                    burst_cpu_cap: store.policies[i].burst_cpu_cap,
                    burst_mem_mb: store.policies[i].burst_mem_mb,
                    burst_ttl_seconds: store.policies[i].burst_ttl_seconds,
                    target_container_ids: list_or_empty(
                        store.policies[i].target_container_ids_json,
                    ),
                },
            ) && owned(store, tenant_id, workload_id),
        (forall|i: int|
            0 <= i < store.policies.len() ==> (#[trigger] store.policies[i]).tenant_id != tenant_id
                || store.policies[i].workload_id != workload_id) ==> policy_of(
            store,
            tenant_id,
            workload_id,
        ) is None && !owned(store, tenant_id, workload_id),
        forall|i: int|
            0 <= i < store.slos.len() && (#[trigger] store.slos[i]).tenant_id == tenant_id
                && store.slos[i].workload_id == workload_id ==> slo_of(
                store,
                tenant_id,
                workload_id,
            ) == Some(
                WorkloadSloRow {
                    p95_latency_ms: store.slos[i].p95_latency_ms,
                    max_cold_start_pct: store.slos[i].max_cold_start_pct,
                    max_reject_pct: store.slos[i].max_reject_pct,
                    max_cost_per_compute_unit: store.slos[i].max_cost_per_compute_unit,
                },
            ),
        (forall|i: int|
            0 <= i < store.slos.len() ==> (#[trigger] store.slos[i]).tenant_id != tenant_id
                || store.slos[i].workload_id != workload_id) ==> slo_of(
            store,
            tenant_id,
            workload_id,
        ) is None,
        forall|i: int|
            0 <= i < store.intents.len() && (#[trigger] store.intents[i]).tenant_id == tenant_id
                && store.intents[i].workload_id == workload_id ==> current_intent(
                store,
                tenant_id,
                workload_id,
            ) == Some((store.intents[i].target_concurrency, store.intents[i].updated_at)),
        (forall|i: int|
            0 <= i < store.intents.len() ==> (#[trigger] store.intents[i]).tenant_id != tenant_id
                || store.intents[i].workload_id != workload_id) ==> current_intent(
            store,
            tenant_id,
            workload_id,
        ) is None,
{
    let key = (tenant_id, workload_id);
    found_row_has_the_key(store.policies, key);
    found_row_has_the_key(store.slos, key);
    found_row_has_the_key(store.intents, key);
    assert forall|i: int|
        0 <= i < store.policies.len() && (#[trigger] store.policies[i]).tenant_id == tenant_id
            && store.policies[i].workload_id == workload_id implies row_with(store.policies, key)
        == Some(store.policies[i]) by {
        assert(store.policies[i].key() == key);
    }
    assert forall|i: int|
        0 <= i < store.slos.len() && (#[trigger] store.slos[i]).tenant_id == tenant_id
            && store.slos[i].workload_id == workload_id implies row_with(store.slos, key) == Some(
        store.slos[i],
    ) by {
        assert(store.slos[i].key() == key);
    }
    assert forall|i: int|
        0 <= i < store.intents.len() && (#[trigger] store.intents[i]).tenant_id == tenant_id
            && store.intents[i].workload_id == workload_id implies row_with(store.intents, key)
        == Some(store.intents[i]) by {
        assert(store.intents[i].key() == key);
    }
}

/// The clock gives no time before 1970 and none so late that milliseconds
/// between two times could not be counted; sound tables hold only such times
/// where others are computed from them.
pub proof fn sound_tables_hold_times(store: StoreView, t: i64)
    ensures
        is_time(t) <==> 0 <= t <= 4_611_686_018_427_387,
        store.sound() <==> store.keys_unique() && (forall|i: int|
            0 <= i < store.intents.len() ==> 0 <= (#[trigger] store.intents[i]).updated_at
                <= 4_611_686_018_427_387) && (forall|i: int|
            0 <= i < store.actions.len() ==> 0 <= (#[trigger] store.actions[i]).created_at
                <= 4_611_686_018_427_387 && 0 <= store.actions[i].effective_at
                <= 4_611_686_018_427_387),
{
}

/// Intents are listed by tenant, and those of one tenant by workload.
pub proof fn intents_are_listed_by_name(store: StoreView, i: int, j: int)
    requires
        0 <= i < j < intents_listed(store).len(),
    ensures
        ({
            let a = intents_listed(store)[i];
            let b = intents_listed(store)[j];
            text_before(a.tenant_id, b.tenant_id) || (a.tenant_id == b.tenant_id && (text_before(
                a.workload_id,
                b.workload_id,
            ) || a.workload_id == b.workload_id))
        }),
{
    intents_are_listed_by_workload(store);
    assert(ByWorkload::before(intents_listed(store)[i], intents_listed(store)[j]));
}

/// An optional policy is the policy that it holds.
pub proof fn optional_policy_is_what_it_holds(policy: WorkloadPolicyRow)
    ensures
        opt_policy(Some(policy)) == Some(policy@),
        opt_policy(None) is None,
{
}

} // verus!
