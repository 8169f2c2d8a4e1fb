//! The free local path: run a query on this node's own engine, or hand it to the grid.

use vstd::prelude::*;
use crate::coordinator::account::ReceiptDraft;
use crate::coordinator::attempt::Outcome;
use crate::coordinator::error::{CoordinatorError, ErrorView};
use crate::engine::{EngineError, ExecLease, ResultSet};
use crate::estimator::explain::{has_data_source, mentions_source};
use crate::estimator::WorkingSetEstimate;
use crate::governor::{CapacityGovernor, Held, PoolView, Role};
use crate::math::{max_int, max_u64, min_int, sat_add_u64};
use crate::planner::{
    exhaustion_text, is_resource_exhaustion, reserved_sum, DefaultPlanner,
    LocalExecutor, LocalOrRemotePlanner, LocalReservation, LocalView, PlanDecision, PlanRequest, PreferMode, Route,
};
use crate::text::ascii_lower_seq;
use crate::types::{ids, opt_id, opt_str, NodeId};

verus! {

/// The least memory a local execution is granted.
pub const MIN_LOCAL_LEASE_BYTES: u64 = 67_108_864;

/// The estimate that the planner may see.
pub open spec fn visible_estimate(sql: Seq<char>, estimate: Option<WorkingSetEstimate>) -> Option<
    WorkingSetEstimate,
> {
    if mentions_source(sql) {
        None
    } else {
        estimate
    }
}

/// The estimate that the planner may see. The local engine cannot read outside data, so
/// a query that may read any is never offered to the local path by its size.
pub fn local_estimate(sql: &str, estimate: Option<WorkingSetEstimate>) -> (r: Option<
    WorkingSetEstimate,
>)
    ensures
        r == visible_estimate(sql@, estimate),
{
    if has_data_source(sql) {
        None
    } else {
        estimate
    }
}

/// What the planner is asked.
pub open spec fn request_of(
    local: LocalView,
    prefer: PreferMode,
    estimate: Option<WorkingSetEstimate>,
) -> PlanRequest {
    PlanRequest {
        prefer,
        estimate,
        headroom_bytes: (local.budget - reserved_sum(local.out)) as u64,
        local_slot_available: local.out.len() < local.max_jobs,
    }
}

/// The memory to reserve: the estimated peak, if there is an estimate.
pub open spec fn reserve_bytes_of(estimate: Option<WorkingSetEstimate>) -> u64 {
    match estimate {
        Some(e) => e.peak_working_set_bytes,
        None => 0,
    }
}

/// The lease of a local execution: the local budget and the spill tolerance, but at
/// least the minimum, and at least one thread.
pub open spec fn local_lease_spec(budget: u64, spill_tolerance: u64, threads: u32) -> ExecLease {
    ExecLease {
        memory_bytes: max_int(
            min_int(budget + spill_tolerance, u64::MAX as int),
            MIN_LOCAL_LEASE_BYTES as int,
        ) as u64,
        threads: max_int(threads as int, 1) as u32,
        max_spill_bytes: 0,
    }
}

fn local_lease(budget: u64, spill_tolerance: u64, threads: u32) -> (r: ExecLease)
    ensures
        r == local_lease_spec(budget, spill_tolerance, threads),
{
    ExecLease {
        memory_bytes: max_u64(sat_add_u64(budget, spill_tolerance), MIN_LOCAL_LEASE_BYTES),
        threads: if threads == 0 {
            1
        } else {
            threads
        },
        max_spill_bytes: 0,
    }
}

/// A local execution that may begin.
pub struct LocalStart {
    pub reservation: LocalReservation,
    pub lease: ExecLease,
}

/// Whether `r` and what is reserved afterwards follow a decision: on the local route room
/// is reserved where there is some, and nothing changes otherwise.
pub open spec fn begins(
    d: PlanDecision,
    before: LocalView,
    after: LocalView,
    estimate: Option<WorkingSetEstimate>,
    spill_tolerance_bytes: u64,
    per_job_threads: u32,
    r: Option<LocalStart>,
) -> bool {
    let bytes = reserve_bytes_of(estimate);
    &&& r is Some <==> d.route == Route::Local && before.fits(bytes)
    &&& r is None ==> after == before
    &&& r is Some ==> {
        &&& r->0.reservation.bytes() == before.footprint(bytes)
        &&& r->0.reservation.governed() is None
        &&& r->0.lease == local_lease_spec(before.budget, spill_tolerance_bytes, per_job_threads)
        &&& after == (LocalView { out: before.out.push(before.footprint(bytes)), ..before })
    }
}

/// What the planner is asked.
pub fn plan_request(
    local: &LocalExecutor,
    prefer: PreferMode,
    estimate: Option<WorkingSetEstimate>,
) -> (r: PlanRequest)
    ensures
        r == request_of(local@, prefer, estimate),
{
    PlanRequest {
        prefer,
        estimate,
        headroom_bytes: local.headroom_bytes(),
        local_slot_available: local.slot_available(),
    }
}

/// Reserve room on this node, where a planner decided for it. `None` means the query goes
/// to the grid: the planner chose it, or there is no room.
pub fn begin_decided(
    decision: &PlanDecision,
    local: &mut LocalExecutor,
    estimate: Option<WorkingSetEstimate>,
    spill_tolerance_bytes: u64,
    per_job_threads: u32,
) -> (r: Option<LocalStart>)
    ensures
        begins(
            *decision,
            old(local)@,
            final(local)@,
            estimate,
            spill_tolerance_bytes,
            per_job_threads,
            r,
        ),
{
    if !decision.is_local() {
        return None;
    }
    let bytes: u64 = match &estimate {
        Some(e) => e.peak_working_set_bytes,
        None => 0,
    };
    match local.reserve(bytes) {
        Some(reservation) => {
            let lease = local_lease(
                local.local_budget_bytes(),
                spill_tolerance_bytes,
                per_job_threads,
            );
            Some(LocalStart { reservation, lease })
        },
        None => None,
    }
}

/// Ask the planner, and act on what it decides as [`begin_decided`] does.
pub fn begin_local<P: LocalOrRemotePlanner>(
    planner: &P,
    local: &mut LocalExecutor,
    prefer: PreferMode,
    estimate: Option<WorkingSetEstimate>,
    spill_tolerance_bytes: u64,
    per_job_threads: u32,
) -> (r: Option<LocalStart>)
    ensures
        exists|d: PlanDecision|
            #[trigger] call_ensures(
                P::decide,
                (planner, &request_of(old(local)@, prefer, estimate)),
                d,
            ) && begins(
                d,
                old(local)@,
                final(local)@,
                estimate,
                spill_tolerance_bytes,
                per_job_threads,
                r,
            ),
{
    let decision = planner.decide(&plan_request(local, prefer, estimate));
    begin_decided(&decision, local, estimate, spill_tolerance_bytes, per_job_threads)
}

/// What a local execution holds of the shared pool.
pub open spec fn held_by(local: LocalView, estimate: Option<WorkingSetEstimate>) -> Held {
    Held {
        role: Role::Local,
        memory: local.footprint(reserve_bytes_of(estimate)),
        threads: local.job_threads,
    }
}

/// Whether `r` and what is reserved afterwards, here and of the shared pool, follow a
/// decision: as [`begins`], but there must be room in the pool too.
pub open spec fn begins_governed(
    d: PlanDecision,
    before: LocalView,
    after: LocalView,
    pool: PoolView,
    pool_after: PoolView,
    estimate: Option<WorkingSetEstimate>,
    spill_tolerance_bytes: u64,
    per_job_threads: u32,
    r: Option<LocalStart>,
) -> bool {
    let bytes = reserve_bytes_of(estimate);
    let held = held_by(before, estimate);
    &&& r is Some <==> d.route == Route::Local && before.fits(bytes) && pool.fits(held)
    &&& r is None ==> after == before && pool_after == pool
    &&& r is Some ==> {
        &&& r->0.reservation.bytes() == before.footprint(bytes)
        &&& r->0.reservation.governed() is Some
        &&& r->0.reservation.governed()->0@ == held
        &&& pool_after == (PoolView { out: pool.out.push(held), ..pool })
        &&& r->0.lease == local_lease_spec(before.budget, spill_tolerance_bytes, per_job_threads)
        &&& after == (LocalView { out: before.out.push(before.footprint(bytes)), ..before })
    }
}

/// As [`begin_decided`], on a node whose jobs also reserve from the shared pool.
pub fn begin_decided_governed(
    decision: &PlanDecision,
    local: &mut LocalExecutor,
    governor: &mut CapacityGovernor,
    estimate: Option<WorkingSetEstimate>,
    spill_tolerance_bytes: u64,
    per_job_threads: u32,
) -> (r: Option<LocalStart>)
    ensures
        begins_governed(
            *decision,
            old(local)@,
            final(local)@,
            old(governor)@,
            final(governor)@,
            estimate,
            spill_tolerance_bytes,
            per_job_threads,
            r,
        ),
{
    if !decision.is_local() {
        return None;
    }
    let bytes: u64 = match &estimate {
        Some(e) => e.peak_working_set_bytes,
        None => 0,
    };
    match local.reserve_governed(governor, bytes) {
        Some(reservation) => {
            let lease = local_lease(
                local.local_budget_bytes(),
                spill_tolerance_bytes,
                per_job_threads,
            );
            Some(LocalStart { reservation, lease })
        },
        None => None,
    }
}

/// As [`begin_local`], on a node whose jobs also reserve from the shared pool.
pub fn begin_local_governed<P: LocalOrRemotePlanner>(
    planner: &P,
    local: &mut LocalExecutor,
    governor: &mut CapacityGovernor,
    prefer: PreferMode,
    estimate: Option<WorkingSetEstimate>,
    spill_tolerance_bytes: u64,
    per_job_threads: u32,
) -> (r: Option<LocalStart>)
    ensures
        exists|d: PlanDecision|
            #[trigger] call_ensures(
                P::decide,
                (planner, &request_of(old(local)@, prefer, estimate)),
                d,
            ) && begins_governed(
                d,
                old(local)@,
                final(local)@,
                old(governor)@,
                final(governor)@,
                estimate,
                spill_tolerance_bytes,
                per_job_threads,
                r,
            ),
{
    let decision = planner.decide(&plan_request(local, prefer, estimate));
    begin_decided_governed(
        &decision,
        local,
        governor,
        estimate,
        spill_tolerance_bytes,
        per_job_threads,
    )
}

/// The outcome of a query.
#[derive(Debug, Clone, PartialEq, Eq)]
pub struct QueryOutcome {
    pub job_id: String,
    pub result: ResultSet,
    pub agreed_hash: Option<String>,
    pub agreement: usize,
    pub quorum: usize,
    pub verified: bool,
    pub winner: Option<NodeId>,
    pub participants: Vec<NodeId>,
    pub receipts: Vec<ReceiptDraft>,
    /// Whether the query ran on this node's own engine, without bids or payment.
    pub executed_locally: bool,
}

/// How a local execution ends.
#[derive(Debug, Clone, PartialEq, Eq)]
pub enum LocalEnd {
    Done(QueryOutcome),
    /// The grid takes over.
    Grid,
    Failed(CoordinatorError),
}

/// Whether this is the outcome of a local execution: this node's own result is trusted,
/// needs no quorum and leaves no receipts.
pub open spec fn own_outcome(
    o: QueryOutcome,
    result: ResultSet,
    job_id: String,
    self_id: Seq<char>,
) -> bool {
    &&& o.job_id == job_id
    &&& o.result == result
    &&& o.agreed_hash is None
    &&& o.agreement == 1
    &&& o.quorum == 0
    &&& o.verified
    &&& opt_id(o.winner) == Some(self_id)
    &&& ids(o.participants@) == seq![self_id]
    &&& o.receipts@.len() == 0
    &&& o.executed_locally
}

/// Conclude a local execution. `failover` is what the planner says of handing a query
/// that ran out of resources to the grid.
pub fn end_decided(
    failover: bool,
    exec: Result<ResultSet, EngineError>,
    job_id: String,
    self_id: &NodeId,
) -> (r: LocalEnd)
    ensures
        match exec {
            Ok(result) => r is Done && own_outcome(r->Done_0, result, job_id, self_id@),
            Err(e) => if exhaustion_text(ascii_lower_seq(e.text())) && failover {
                r is Grid
            } else {
                r is Failed && r->Failed_0@ == ErrorView::LocalExecution(e.text())
            },
        },
{
    match exec {
        Ok(result) => {
            let mut participants: Vec<NodeId> = Vec::new();
            participants.push(self_id.duplicate());
            assert(ids(participants@) =~= seq![self_id@]);
            LocalEnd::Done(
                QueryOutcome {
                    job_id,
                    result,
                    agreed_hash: None,
                    agreement: 1,
                    quorum: 0,
                    verified: true,
                    winner: Some(self_id.duplicate()),
                    participants,
                    receipts: Vec::new(),
                    executed_locally: true,
                },
            )
        },
        Err(e) => {
            if is_resource_exhaustion(&e) && failover {
                LocalEnd::Grid
            } else {
                LocalEnd::Failed(CoordinatorError::LocalExecution(e.message()))
            }
        },
    }
}

/// Conclude a local execution, as [`end_decided`] does on what the planner says.
pub fn end_local<P: LocalOrRemotePlanner>(
    planner: &P,
    prefer: PreferMode,
    exec: Result<ResultSet, EngineError>,
    job_id: String,
    self_id: &NodeId,
) -> (r: LocalEnd)
    ensures
        exec is Ok ==> r is Done && own_outcome(r->Done_0, exec->Ok_0, job_id, self_id@),
        exec is Err ==> exists|over: bool|
            #[trigger] call_ensures(P::failover_to_remote, (planner, prefer), over) && (if
            exhaustion_text(ascii_lower_seq(exec->Err_0.text())) && over {
                r is Grid
            } else {
                r is Failed && r->Failed_0@ == ErrorView::LocalExecution(exec->Err_0.text())
            }),
{
    let over = planner.failover_to_remote(prefer);
    end_decided(over, exec, job_id, self_id)
}

/// The outcome of a query that the grid ran.
pub fn grid_outcome(
    job_id: String,
    result: ResultSet,
    outcome: Outcome,
    receipts: Vec<ReceiptDraft>,
) -> (r: QueryOutcome)
    ensures
        r.job_id == job_id,
        r.result == result,
        opt_str(r.agreed_hash) == Some(outcome.agreed_hash@),
        r.agreement == outcome.agreement,
        r.quorum == outcome.quorum,
        r.verified == outcome.verified,
        opt_id(r.winner) == Some(outcome.winner@),
        r.participants == outcome.participants,
        r.receipts == receipts,
        !r.executed_locally,
{
    QueryOutcome {
        job_id,
        result,
        agreed_hash: Some(outcome.agreed_hash),
        agreement: outcome.agreement,
        quorum: outcome.quorum,
        verified: outcome.verified,
        winner: Some(outcome.winner),
        participants: outcome.participants,
        receipts,
        executed_locally: false,
    }
}

/// A query that may read outside data never runs locally by its size: the planner sees
/// no estimate of it and, unless the local path is forced, sends it to the grid.
pub proof fn source_queries_run_on_the_grid(
    sql: Seq<char>,
    estimate: Option<WorkingSetEstimate>,
    planner: DefaultPlanner,
    local: LocalView,
    prefer: PreferMode,
    d: PlanDecision,
)
    requires
        mentions_source(sql),
        prefer != PreferMode::Local,
        call_ensures(
            DefaultPlanner::decide,
            (&planner, &request_of(local, prefer, visible_estimate(sql, estimate))),
            d,
        ),
    ensures
        d.route == Route::Remote,
{
}

/// A caller that insists on the local path never fails over; any other does.
pub proof fn only_forced_local_stays(planner: DefaultPlanner, prefer: PreferMode, over: bool)
    requires
        call_ensures(DefaultPlanner::failover_to_remote, (&planner, prefer), over),
    ensures
        over == (prefer != PreferMode::Local),
{
}

/// The planner is told what is free: the budget that no reservation holds, and whether a
/// slot is left.
pub proof fn the_planner_is_told_what_is_free(
    local: LocalView,
    prefer: PreferMode,
    estimate: Option<WorkingSetEstimate>,
)
    requires
        local.within_budget(),
        reserved_sum(local.out) >= 0,
    ensures
        ({
            let r = request_of(local, prefer, estimate);
            &&& r.prefer == prefer && r.estimate == estimate
            &&& r.headroom_bytes + reserved_sum(local.out) == local.budget
            &&& r.local_slot_available == (local.out.len() < local.max_jobs)
        }),
{
}

/// A local execution is leased the local budget and the tolerated spill, 64 MiB at least,
/// and a thread at least.
pub proof fn local_leases_hold_the_budget(budget: u64, spill: u64, threads: u32)
    ensures
        ({
            let l = local_lease_spec(budget, spill, threads);
            &&& l.memory_bytes >= 67_108_864
            &&& 67_108_864 <= budget + spill <= u64::MAX ==> l.memory_bytes == budget + spill
            &&& budget + spill < 67_108_864 ==> l.memory_bytes == 67_108_864
            &&& budget + spill > u64::MAX ==> l.memory_bytes == u64::MAX
            &&& threads > 0 ==> l.threads == threads
            &&& threads == 0 ==> l.threads == 1
            &&& l.max_spill_bytes == 0
        }),
{
}

/// A query begins on this node exactly where the planner decides for it and there is room;
/// its reservation is what its peak asks for, and what is out grows by that alone.
pub proof fn beginning_reserves_the_peak(
    d: PlanDecision,
    before: LocalView,
    after: LocalView,
    estimate: Option<WorkingSetEstimate>,
    spill: u64,
    threads: u32,
    r: Option<LocalStart>,
)
    requires
        begins(d, before, after, estimate, spill, threads, r),
    ensures
        ({
            let peak = match estimate {
                Some(e) => e.peak_working_set_bytes,
                None => 0,
            };
            let asked = if peak > before.min_reservation {
                peak
            } else {
                before.min_reservation
            };
            let room = before.out.len() < before.max_jobs && reserved_sum(before.out) + asked
                <= before.budget;
            &&& r is Some <==> d.route == Route::Local && room
            &&& r is Some ==> after.out == before.out.push(asked) && r->0.reservation.bytes()
                == asked
            &&& r is Some ==> after.budget == before.budget && after.max_jobs == before.max_jobs
            &&& r is None ==> after == before
        }),
{
}

/// On a node with a shared pool the pool must have room too, and holds the same.
pub proof fn beginning_reserves_from_the_pool(
    d: PlanDecision,
    before: LocalView,
    after: LocalView,
    pool: PoolView,
    pool_after: PoolView,
    estimate: Option<WorkingSetEstimate>,
    spill: u64,
    threads: u32,
    r: Option<LocalStart>,
)
    requires
        begins_governed(d, before, after, pool, pool_after, estimate, spill, threads, r),
    ensures
        ({
            let peak = match estimate {
                Some(e) => e.peak_working_set_bytes,
                None => 0,
            };
            let asked = if peak > before.min_reservation {
                peak
            } else {
                before.min_reservation
            };
            let held = Held { role: Role::Local, memory: asked, threads: before.job_threads };
            let room = before.out.len() < before.max_jobs && reserved_sum(before.out) + asked
                <= before.budget;
            &&& r is Some <==> d.route == Route::Local && room && pool.fits(held)
            &&& r is Some ==> after.out == before.out.push(asked) && pool_after.out
                == pool.out.push(held)
            &&& r is None ==> after == before && pool_after == pool
        }),
{
}

/// A result of this node's own counts as verified, without a quorum, receipts or a hash,
/// and this node is its winner.
pub proof fn own_results_are_trusted(
    o: QueryOutcome,
    result: ResultSet,
    job_id: String,
    self_id: Seq<char>,
)
    requires
        own_outcome(o, result, job_id, self_id),
    ensures
        o.result == result,
        o.verified && o.executed_locally,
        o.agreed_hash is None,
        o.agreement == 1 && o.quorum == 0,
        o.winner is Some && o.winner->0@ == self_id,
        o.participants@.len() == 1 && o.participants@[0]@ == self_id,
        o.receipts@.len() == 0,
        o.job_id == job_id,
{
    assert(ids(o.participants@).len() == 1);
    assert(ids(o.participants@)[0] == self_id);
}

/// Only a query that reads nothing from outside is offered to this node by its size.
pub proof fn sizes_of_outside_data_are_hidden(
    sql: Seq<char>,
    estimate: Option<WorkingSetEstimate>,
)
    ensures
        mentions_source(sql) ==> visible_estimate(sql, estimate) is None,
        !mentions_source(sql) ==> visible_estimate(sql, estimate) == estimate,
{
}

} // verus!
