//! Whether a query runs on the node's own engine or on the grid, and the
//! accounting of what runs locally.

use vstd::prelude::*;
use crate::engine::EngineError;
use crate::estimator::WorkingSetEstimate;
use crate::governor::{CapacityGovernor, GovernorLease, Held, PoolView, Role};
use crate::input_resolver::sources::{has_head, standing_is_head, stands_in};
use crate::math::{max_int, max_u64, min_int, sat_add_u64};
use crate::text::{ascii_lower_seq, ascii_lowercase, contains, contains_seq};

verus! {

/// Where a query runs.
#[derive(Debug, Clone, Copy, PartialEq, Eq, Structural)]
pub enum Route {
    Local,
    Remote,
}

/// Why a route was chosen.
#[derive(Debug, Clone, Copy, PartialEq, Eq, Structural)]
pub enum PlanReason {
    /// The caller asked for the local path.
    ForcedLocal,
    /// The caller asked for the grid, or the planner is off.
    ForcedRemote,
    /// This node never runs a query itself.
    LocalDisabled,
    /// The estimate fits.
    FitsLocal,
    /// The estimated peak exceeds headroom plus spill tolerance.
    TooLarge,
    /// The estimated scan exceeds the size threshold.
    OverSizeThreshold,
    /// The estimated runtime exceeds the latency budget.
    OverLatencyBudget,
    /// No local job slot is free.
    LocallySaturated,
    /// There is no estimate.
    NoEstimate,
}

/// A routing decision.
#[derive(Debug, Clone, Copy, PartialEq, Eq, Structural)]
pub struct PlanDecision {
    pub route: Route,
    pub reason: PlanReason,
}

impl PlanDecision {
    pub fn local(reason: PlanReason) -> (r: PlanDecision)
        ensures
            r == (PlanDecision { route: Route::Local, reason }),
    {
        PlanDecision { route: Route::Local, reason }
    }

    pub fn remote(reason: PlanReason) -> (r: PlanDecision)
        ensures
            r == (PlanDecision { route: Route::Remote, reason }),
    {
        PlanDecision { route: Route::Remote, reason }
    }

    pub fn is_local(&self) -> (r: bool)
        ensures
            r == (self.route == Route::Local),
    {
        self.route == Route::Local
    }
}

/// The caller's preference.
#[derive(Debug, Clone, Copy, PartialEq, Eq, Structural)]
pub enum PreferMode {
    Local,
    Remote,
    Auto,
}

/// The planner's configuration.
#[derive(Debug, Clone, Copy, PartialEq, Eq, Structural)]
pub struct PlannerConfig {
    pub enabled: bool,
    pub local_execution_enabled: bool,
    pub prefer: PreferMode,
    pub max_concurrent_local_jobs: usize,
    pub size_threshold_bytes: u64,
    pub spill_tolerance_bytes: u64,
    /// The longest estimated local runtime (`0` for no limit).
    pub max_local_latency_ms: u64,
}

/// Inputs to a routing decision.
#[derive(Debug, Clone, Copy, PartialEq, Eq, Structural)]
pub struct PlanRequest {
    pub prefer: PreferMode,
    pub estimate: Option<WorkingSetEstimate>,
    pub headroom_bytes: u64,
    pub local_slot_available: bool,
}

/// A local-vs-remote routing policy.
pub trait LocalOrRemotePlanner {
    fn decide(&self, req: &PlanRequest) -> PlanDecision;

    /// Whether a query that ran out of resources locally is re-dispatched to the grid:
    /// by default, unless the caller asked for the local path.
    fn failover_to_remote(&self, prefer: PreferMode) -> (r: bool)
        default_ensures
            r == (prefer != PreferMode::Local),
    {
        prefer != PreferMode::Local
    }
}

/// The configuration-driven policy.
#[derive(Debug, Clone, Copy, PartialEq, Eq, Structural)]
pub struct DefaultPlanner {
    cfg: PlannerConfig,
}

/// The routing rule.
pub open spec fn decide_spec(cfg: PlannerConfig, req: PlanRequest) -> PlanDecision {
    let local = |reason: PlanReason| PlanDecision { route: Route::Local, reason };
    let remote = |reason: PlanReason| PlanDecision { route: Route::Remote, reason };
    if !cfg.enabled {
        remote(PlanReason::ForcedRemote)
    } else if !cfg.local_execution_enabled {
        remote(PlanReason::LocalDisabled)
    } else if req.prefer == PreferMode::Local {
        local(PlanReason::ForcedLocal)
    } else if req.prefer == PreferMode::Remote {
        remote(PlanReason::ForcedRemote)
    } else if !req.local_slot_available {
        remote(PlanReason::LocallySaturated)
    } else {
        match req.estimate {
            None => remote(PlanReason::NoEstimate),
            Some(est) => if est.scanned_uncompressed_bytes > cfg.size_threshold_bytes {
                remote(PlanReason::OverSizeThreshold)
            } else if cfg.max_local_latency_ms > 0 && est.estimated_runtime_ms
                > cfg.max_local_latency_ms {
                remote(PlanReason::OverLatencyBudget)
            } else if est.peak_working_set_bytes > min_int(
                cfg.spill_tolerance_bytes + req.headroom_bytes,
                u64::MAX as int,
            ) {
                remote(PlanReason::TooLarge)
            } else {
                local(PlanReason::FitsLocal)
            },
        }
    }
}

impl DefaultPlanner {
    pub closed spec fn config_spec(&self) -> PlannerConfig {
        self.cfg
    }

    pub fn new(cfg: PlannerConfig) -> (r: DefaultPlanner)
        ensures
            r.config_spec() == cfg,
    {
        DefaultPlanner { cfg }
    }

    pub fn config(&self) -> (r: &PlannerConfig)
        ensures
            *r == self.config_spec(),
    {
        &self.cfg
    }
}

impl LocalOrRemotePlanner for DefaultPlanner {
    fn decide(&self, req: &PlanRequest) -> (r: PlanDecision)
        ensures
            r == decide_spec(self.config_spec(), *req),
    {
        if !self.cfg.enabled {
            return PlanDecision::remote(PlanReason::ForcedRemote);
        }
        if !self.cfg.local_execution_enabled {
            return PlanDecision::remote(PlanReason::LocalDisabled);
        }
        match req.prefer {
            PreferMode::Local => {
                return PlanDecision::local(PlanReason::ForcedLocal);
            },
            PreferMode::Remote => {
                return PlanDecision::remote(PlanReason::ForcedRemote);
            },
            PreferMode::Auto => {},
        }
        if !req.local_slot_available {
            return PlanDecision::remote(PlanReason::LocallySaturated);
        }
        let est = match &req.estimate {
            Some(e) => e,
            None => {
                return PlanDecision::remote(PlanReason::NoEstimate);
            },
        };
        if est.scanned_uncompressed_bytes > self.cfg.size_threshold_bytes {
            return PlanDecision::remote(PlanReason::OverSizeThreshold);
        }
        if self.cfg.max_local_latency_ms > 0 && est.estimated_runtime_ms
            > self.cfg.max_local_latency_ms {
            return PlanDecision::remote(PlanReason::OverLatencyBudget);
        }
        let allowance: u64 = sat_add_u64(self.cfg.spill_tolerance_bytes, req.headroom_bytes);
        if est.peak_working_set_bytes > allowance {
            return PlanDecision::remote(PlanReason::TooLarge);
        }
        PlanDecision::local(PlanReason::FitsLocal)
    }
}

/// A remote-only node never runs a query itself, whatever is preferred or estimated.
pub proof fn remote_only_never_runs_locally(cfg: PlannerConfig, req: PlanRequest)
    requires
        !cfg.local_execution_enabled,
    ensures
        decide_spec(cfg, req).route == Route::Remote,
{
}

/// In automatic mode the local path is taken only with a free slot, an estimate,
/// and everything within its limit.
pub proof fn auto_local_is_within_every_limit(cfg: PlannerConfig, req: PlanRequest)
    requires
        req.prefer == PreferMode::Auto,
        decide_spec(cfg, req).route == Route::Local,
    ensures
        req.local_slot_available,
        req.estimate is Some,
        req.estimate->0.scanned_uncompressed_bytes <= cfg.size_threshold_bytes,
        cfg.max_local_latency_ms > 0 ==> req.estimate->0.estimated_runtime_ms
            <= cfg.max_local_latency_ms,
        req.estimate->0.peak_working_set_bytes <= cfg.spill_tolerance_bytes + req.headroom_bytes,
{
}

/// The bytes that the local reservations `v` hold together.
pub open spec fn reserved_sum(v: Seq<u64>) -> int
    decreases v.len(),
{
    if v.len() == 0 {
        0
    } else {
        reserved_sum(v.drop_last()) + v.last()
    }
}

proof fn reserved_after_remove(v: Seq<u64>, i: int)
    requires
        0 <= i < v.len(),
    ensures
        reserved_sum(v.remove(i)) == reserved_sum(v) - v[i],
        0 <= reserved_sum(v.remove(i)),
    decreases v.len(),
{
    reserved_not_negative(v.remove(i));
    if i == v.len() - 1 {
        assert(v.remove(i) =~= v.drop_last());
    } else {
        reserved_after_remove(v.drop_last(), i);
        assert(v.remove(i).drop_last() =~= v.drop_last().remove(i));
        assert(v.remove(i).last() == v.last());
    }
}

proof fn reserved_not_negative(v: Seq<u64>)
    ensures
        0 <= reserved_sum(v),
    decreases v.len(),
{
    if v.len() > 0 {
        reserved_not_negative(v.drop_last());
    }
}

/// Headroom and slots of the local path. The ghost field lists the reservations
/// that are out.
pub struct LocalExecutor {
    local_budget_bytes: u64,
    used_bytes: u64,
    slots_used: usize,
    max_jobs: usize,
    job_threads: u32,
    min_reservation_bytes: u64,
    out: Ghost<Seq<u64>>,
}

/// The executor over mathematical values.
#[verifier::ext_equal]
pub struct LocalView {
    pub budget: u64,
    pub max_jobs: usize,
    /// Threads each local job reserves from the shared pool.
    pub job_threads: u32,
    /// The least a job reserves, whatever its estimate.
    pub min_reservation: u64,
    /// The reservations that are out, in bytes.
    pub out: Seq<u64>,
}

impl LocalView {
    /// What a job that asks for `bytes` reserves.
    pub open spec fn footprint(self, bytes: u64) -> u64 {
        if bytes >= self.min_reservation {
            bytes
        } else {
            self.min_reservation
        }
    }

    /// Whether a job that asks for `bytes` fits: a slot and the local budget.
    pub open spec fn fits(self, bytes: u64) -> bool {
        self.out.len() < self.max_jobs && reserved_sum(self.out) + self.footprint(bytes)
            <= self.budget
    }

    /// The local budget: it holds of every executor.
    pub open spec fn within_budget(self) -> bool {
        self.out.len() <= self.max_jobs && reserved_sum(self.out) <= self.budget
    }
}

impl View for LocalExecutor {
    type V = LocalView;

    closed spec fn view(&self) -> LocalView {
        LocalView {
            budget: self.local_budget_bytes,
            max_jobs: self.max_jobs,
            job_threads: self.job_threads,
            min_reservation: self.min_reservation_bytes,
            out: self.out@,
        }
    }
}

/// A local reservation, given back with [`LocalExecutor::release`].
#[derive(Debug, PartialEq, Eq)]
pub struct LocalReservation {
    reserved_bytes: u64,
    governor_lease: Option<GovernorLease>,
}

impl LocalReservation {
    pub closed spec fn bytes(&self) -> u64 {
        self.reserved_bytes
    }

    /// The reservation held from the shared pool, if there is one.
    pub closed spec fn governed(&self) -> Option<GovernorLease> {
        self.governor_lease
    }

    /// The bytes reserved.
    pub fn reserved_bytes(&self) -> (r: u64)
        ensures
            r == self.bytes(),
    {
        self.reserved_bytes
    }
}

impl LocalExecutor {
    #[verifier::type_invariant]
    spec fn inv(self) -> bool {
        &&& self.used_bytes == reserved_sum(self.out@)
        &&& self.slots_used == self.out@.len()
        &&& self.used_bytes <= self.local_budget_bytes
        &&& self.slots_used <= self.max_jobs
    }

    /// A standalone executor with `local_budget_bytes` of memory for local work.
    pub fn new(local_budget_bytes: u64, cfg: &PlannerConfig) -> (r: LocalExecutor)
        ensures
            r@ == (LocalView {
                budget: local_budget_bytes,
                max_jobs: max_int(cfg.max_concurrent_local_jobs as int, 1) as usize,
                job_threads: 1,
                min_reservation: 0,
                out: Seq::empty(),
            }),
    {
        LocalExecutor::governed(local_budget_bytes, cfg, 1, 0)
    }

    /// An executor whose jobs also reserve from the shared pool: `job_threads` threads
    /// and at least `per_job_memory_bytes` each.
    pub fn governed(
        local_budget_bytes: u64,
        cfg: &PlannerConfig,
        job_threads: u32,
        per_job_memory_bytes: u64,
    ) -> (r: LocalExecutor)
        ensures
            r@ == (LocalView {
                budget: local_budget_bytes,
                max_jobs: max_int(cfg.max_concurrent_local_jobs as int, 1) as usize,
                job_threads: max_int(job_threads as int, 1) as u32,
                min_reservation: per_job_memory_bytes,
                out: Seq::empty(),
            }),
    {
        LocalExecutor {
            local_budget_bytes,
            used_bytes: 0,
            slots_used: 0,
            max_jobs: if cfg.max_concurrent_local_jobs == 0 {
                1
            } else {
                cfg.max_concurrent_local_jobs
            },
            job_threads: if job_threads == 0 {
                1
            } else {
                job_threads
            },
            min_reservation_bytes: per_job_memory_bytes,
            out: Ghost(Seq::empty()),
        }
    }

    pub fn local_budget_bytes(&self) -> (r: u64)
        ensures
            r == self@.budget,
    {
        self.local_budget_bytes
    }

    pub fn max_jobs(&self) -> (r: usize)
        ensures
            r == self@.max_jobs,
    {
        self.max_jobs
    }

    /// The local budget less what is reserved.
    pub fn headroom_bytes(&self) -> (r: u64)
        ensures
            r == self@.budget - reserved_sum(self@.out),
            self@.within_budget(),
    {
        proof {
            use_type_invariant(self);
        }
        self.local_budget_bytes - self.used_bytes
    }

    /// Whether a local job slot is free.
    pub fn slot_available(&self) -> (r: bool)
        ensures
            r == (self@.out.len() < self@.max_jobs),
    {
        proof {
            use_type_invariant(self);
        }
        self.slots_used < self.max_jobs
    }

    fn footprint_of(&self, reserve_bytes: u64) -> (r: u64)
        ensures
            r == self@.footprint(reserve_bytes),
    {
        max_u64(reserve_bytes, self.min_reservation_bytes)
    }

    fn fits(&self, bytes: u64) -> (r: bool)
        ensures
            r == (self@.out.len() < self@.max_jobs && reserved_sum(self@.out) + bytes
                <= self@.budget),
    {
        proof {
            use_type_invariant(self);
        }
        self.slots_used < self.max_jobs && bytes <= self.local_budget_bytes - self.used_bytes
    }

    fn commit(&mut self, bytes: u64)
        requires
            old(self)@.out.len() < old(self)@.max_jobs,
            reserved_sum(old(self)@.out) + bytes <= old(self)@.budget,
        ensures
            final(self)@.within_budget(),
            final(self)@ == (LocalView { out: old(self)@.out.push(bytes), ..old(self)@ }),
    {
        proof {
            use_type_invariant(&*self);
            assert(self.out@.push(bytes).drop_last() =~= self.out@);
        }
        let ghost before = self.out@;
        *self = LocalExecutor {
            local_budget_bytes: self.local_budget_bytes,
            used_bytes: self.used_bytes + bytes,
            slots_used: self.slots_used + 1,
            max_jobs: self.max_jobs,
            job_threads: self.job_threads,
            min_reservation_bytes: self.min_reservation_bytes,
            out: Ghost(before.push(bytes)),
        };
    }

    /// Reserve a slot and headroom on a node with no shared pool. Succeeds exactly
    /// when the job fits; otherwise nothing changes.
    pub fn reserve(&mut self, reserve_bytes: u64) -> (r: Option<LocalReservation>)
        ensures
            r is Some <==> old(self)@.fits(reserve_bytes),
            r is None ==> final(self)@ == old(self)@,
            r is Some ==> {
                &&& r->0.bytes() == old(self)@.footprint(reserve_bytes)
                &&& r->0.governed() is None
                &&& final(self)@.within_budget()
                &&& final(self)@ == (LocalView {
                    out: old(self)@.out.push(old(self)@.footprint(reserve_bytes)),
                    ..old(self)@
                })
            },
    {
        let bytes: u64 = self.footprint_of(reserve_bytes);
        if !self.fits(bytes) {
            return None;
        }
        self.commit(bytes);
        Some(LocalReservation { reserved_bytes: bytes, governor_lease: None })
    }

    /// Reserve a slot, headroom and a share of the pool shared with served work.
    /// Succeeds exactly when the job fits both; otherwise neither changes.
    pub fn reserve_governed(
        &mut self,
        governor: &mut CapacityGovernor,
        reserve_bytes: u64,
    ) -> (r: Option<LocalReservation>)
        ensures
            ({
                let bytes = old(self)@.footprint(reserve_bytes);
                let h = Held {
                    role: Role::Local,
                    memory: bytes,
                    threads: old(self)@.job_threads,
                };
                &&& r is Some <==> old(self)@.fits(reserve_bytes) && old(governor)@.fits(h)
                &&& r is None ==> final(self)@ == old(self)@ && final(governor)@ == old(governor)@
                &&& r is Some ==> {
                    &&& r->0.bytes() == bytes
                    &&& r->0.governed() is Some
                    &&& r->0.governed()->0@ == h
                    &&& final(self)@.within_budget()
                    &&& final(governor)@.within_caps()
                    &&& final(self)@ == (LocalView { out: old(self)@.out.push(bytes), ..old(self)@ })
                    &&& final(governor)@ == (PoolView {
                        out: old(governor)@.out.push(h),
                        ..old(governor)@
                    })
                }
            }),
    {
        let bytes: u64 = self.footprint_of(reserve_bytes);
        if !self.fits(bytes) {
            return None;
        }
        match governor.try_reserve(Role::Local, bytes, self.job_threads) {
            Some(lease) => {
                self.commit(bytes);
                Some(LocalReservation { reserved_bytes: bytes, governor_lease: Some(lease) })
            },
            None => None,
        }
    }

    /// Give a reservation back. What it held from the shared pool, if anything, is
    /// handed on to be given back there.
    pub fn release(&mut self, reservation: LocalReservation) -> (r: Option<GovernorLease>)
        requires
            old(self)@.out.contains(reservation.bytes()),
        ensures
            final(self)@.within_budget(),
            final(self)@ == (LocalView {
                out: old(self)@.out.remove(old(self)@.out.index_of(reservation.bytes())),
                ..old(self)@
            }),
            r == reservation.governed(),
    {
        proof {
            use_type_invariant(&*self);
            reserved_after_remove(self.out@, self.out@.index_of(reservation.bytes()));
        }
        let ghost before = self.out@;
        *self = LocalExecutor {
            local_budget_bytes: self.local_budget_bytes,
            used_bytes: self.used_bytes - reservation.reserved_bytes,
            slots_used: self.slots_used - 1,
            max_jobs: self.max_jobs,
            job_threads: self.job_threads,
            min_reservation_bytes: self.min_reservation_bytes,
            out: Ghost(before.remove(before.index_of(reservation.bytes()))),
        };
        reservation.governor_lease
    }
}

/// The phrases that mark an engine error as running out of memory.
pub open spec fn exhaustion_text(lower: Seq<char>) -> bool {
    contains_seq(lower, "out of memory"@) || contains_seq(lower, "could not allocate"@)
        || contains_seq(lower, "memory limit"@) || contains_seq(lower, "failed to allocate"@)
        || contains_seq(lower, "exceeds the memory limit"@)
}

/// Whether an engine error looks like running out of memory.
pub fn is_resource_exhaustion(err: &EngineError) -> (r: bool)
    ensures
        r == exhaustion_text(ascii_lower_seq(err.text())),
{
    let text = err.message();
    let msg = ascii_lowercase(text.as_str());
    contains(msg.as_str(), "out of memory") || contains(msg.as_str(), "could not allocate")
        || contains(msg.as_str(), "memory limit") || contains(msg.as_str(), "failed to allocate")
        || contains(msg.as_str(), "exceeds the memory limit")
}

/// A planner that is switched off sends every query to the grid, and so does a node that
/// runs none itself.
pub proof fn a_planner_that_is_off_stays_remote(cfg: PlannerConfig, req: PlanRequest)
    ensures
        !cfg.enabled ==> decide_spec(cfg, req).route == Route::Remote && decide_spec(
            cfg,
            req,
        ).reason == PlanReason::ForcedRemote,
        cfg.enabled && !cfg.local_execution_enabled ==> decide_spec(cfg, req).route
            == Route::Remote && decide_spec(cfg, req).reason == PlanReason::LocalDisabled,
{
}

/// A preference decides, whatever is estimated and however busy the node is.
pub proof fn a_preference_decides(cfg: PlannerConfig, req: PlanRequest)
    requires
        cfg.enabled,
        cfg.local_execution_enabled,
        req.prefer != PreferMode::Auto,
    ensures
        req.prefer == PreferMode::Local ==> decide_spec(cfg, req).route == Route::Local
            && decide_spec(cfg, req).reason == PlanReason::ForcedLocal,
        req.prefer == PreferMode::Remote ==> decide_spec(cfg, req).route == Route::Remote
            && decide_spec(cfg, req).reason == PlanReason::ForcedRemote,
{
}

/// In automatic mode a query that is within every limit runs on this node: only its peak
/// is held against the memory, its input against the size threshold, and its runtime
/// against the latency budget.
pub proof fn what_fits_runs_locally(cfg: PlannerConfig, req: PlanRequest)
    requires
        cfg.enabled,
        cfg.local_execution_enabled,
        req.prefer == PreferMode::Auto,
        req.local_slot_available,
        req.estimate is Some,
        req.estimate->0.scanned_uncompressed_bytes <= cfg.size_threshold_bytes,
        cfg.max_local_latency_ms == 0 || req.estimate->0.estimated_runtime_ms
            <= cfg.max_local_latency_ms,
        req.estimate->0.peak_working_set_bytes <= cfg.spill_tolerance_bytes + req.headroom_bytes,
    ensures
        decide_spec(cfg, req).route == Route::Local,
        decide_spec(cfg, req).reason == PlanReason::FitsLocal,
{
}

/// In automatic mode the first limit that a query breaks is the reason that it goes to the
/// grid: a slot, an estimate, the input's size, the runtime, the peak.
pub proof fn the_first_broken_limit_is_the_reason(cfg: PlannerConfig, req: PlanRequest)
    requires
        cfg.enabled,
        cfg.local_execution_enabled,
        req.prefer == PreferMode::Auto,
    ensures
        ({
            let d = decide_spec(cfg, req);
            let slow = cfg.max_local_latency_ms > 0 && req.estimate is Some
                && req.estimate->0.estimated_runtime_ms > cfg.max_local_latency_ms;
            let wide = req.estimate is Some && req.estimate->0.scanned_uncompressed_bytes
                > cfg.size_threshold_bytes;
            let large = req.estimate is Some && req.estimate->0.peak_working_set_bytes
                > cfg.spill_tolerance_bytes + req.headroom_bytes;
            &&& d.reason == PlanReason::LocallySaturated <==> !req.local_slot_available
            &&& d.reason == PlanReason::NoEstimate <==> req.local_slot_available
                && req.estimate is None
            &&& d.reason == PlanReason::OverSizeThreshold <==> req.local_slot_available && wide
            &&& d.reason == PlanReason::OverLatencyBudget <==> req.local_slot_available && !wide
                && slow
            &&& d.reason == PlanReason::TooLarge <==> req.local_slot_available && !wide && !slow
                && large
            &&& d.route == Route::Remote <==> d.reason != PlanReason::FitsLocal
        }),
{
}

/// More headroom never sends a query to the grid that ran here before.
pub proof fn headroom_only_helps(cfg: PlannerConfig, a: PlanRequest, b: PlanRequest)
    requires
        a.headroom_bytes <= b.headroom_bytes,
        b == (PlanRequest { headroom_bytes: b.headroom_bytes, ..a }),
        decide_spec(cfg, a).route == Route::Local,
    ensures
        decide_spec(cfg, b).route == Route::Local,
{
}

/// A job reserves what it asks for, and the least that any job reserves; it fits where a
/// slot is free and the reservations stay within the budget with it.
pub proof fn jobs_fit_by_slot_and_budget(v: LocalView, bytes: u64)
    ensures
        v.footprint(bytes) >= bytes,
        v.footprint(bytes) >= v.min_reservation,
        v.footprint(bytes) == bytes || v.footprint(bytes) == v.min_reservation,
        v.fits(bytes) <==> v.out.len() < v.max_jobs && reserved_sum(
            v.out.push(v.footprint(bytes)),
        ) <= v.budget,
{
    assert(v.out.push(v.footprint(bytes)).drop_last() =~= v.out);
}

/// The reservations add up.
pub proof fn reservations_add_up(v: Seq<u64>, more: u64)
    ensures
        reserved_sum(Seq::empty()) == 0,
        reserved_sum(v.push(more)) == reserved_sum(v) + more,
{
    assert(v.push(more).drop_last() =~= v);
}

/// An engine that ran out of memory is known by what it says.
pub proof fn memory_errors_are_known_by_their_words(lower: Seq<char>)
    ensures
        exhaustion_text(lower) == (stands_in(lower, "out of memory"@) || stands_in(
            lower,
            "could not allocate"@,
        ) || stands_in(lower, "memory limit"@) || stands_in(lower, "failed to allocate"@)),
{
    standing_is_head(lower, "out of memory"@);
    standing_is_head(lower, "could not allocate"@);
    standing_is_head(lower, "memory limit"@);
    standing_is_head(lower, "failed to allocate"@);
    standing_is_head(lower, "exceeds the memory limit"@);
    reveal_strlit("exceeds the memory limit");
    reveal_strlit("memory limit");
    if stands_in(lower, "exceeds the memory limit"@) {
        let i = choose|i: int|
            0 <= i <= lower.len() && #[trigger] has_head(
                lower.skip(i),
                "exceeds the memory limit"@,
            );
        let u = lower.skip(i + 12);
        assert forall|k: int| 0 <= k < "memory limit"@.len() implies #[trigger] "memory limit"@[k]
            == u[k] by {
            assert("exceeds the memory limit"@[k + 12] == lower.skip(i)[k + 12]);
            assert("memory limit"@[k] == "exceeds the memory limit"@[k + 12]);
        }
        assert(has_head(lower.skip(i + 12), "memory limit"@));
    }
}

} // verus!
