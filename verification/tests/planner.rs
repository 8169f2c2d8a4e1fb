use p2p_node::governor::{BudgetConfig, CapacityGovernor, Role};
use p2p_node::planner::{PlannerConfig, PreferMode};
use p2p_node::types::DataClassCfg;
use p2p_node::{
    is_resource_exhaustion, DefaultPlanner, EngineError, LocalExecutor, LocalOrRemotePlanner,
    PlanDecision, PlanReason, PlanRequest, Route, WorkingSetEstimate,
};

fn ws(peak: u64, scanned: u64, runtime_ms: u64) -> WorkingSetEstimate {
    WorkingSetEstimate {
        scanned_uncompressed_bytes: scanned,
        estimated_rows: 0,
        scan_buffer_bytes: 0,
        group_by_bytes: 0,
        join_build_bytes: 0,
        sort_bytes: 0,
        peak_working_set_bytes: peak,
        estimated_runtime_ms: runtime_ms,
    }
}

fn cfg() -> PlannerConfig {
    PlannerConfig {
        enabled: true,
        local_execution_enabled: true,
        prefer: PreferMode::Auto,
        max_concurrent_local_jobs: 4,
        size_threshold_bytes: 256 * 1024 * 1024,
        spill_tolerance_bytes: 0,
        max_local_latency_ms: 10_000,
    }
}

#[test]
fn fits_goes_local() {
    let p = DefaultPlanner::new(cfg());
    let d = p.decide(&PlanRequest {
        prefer: PreferMode::Auto,
        estimate: Some(ws(50_000_000, 50_000_000, 100)),
        headroom_bytes: 100_000_000,
        local_slot_available: true,
    });
    assert_eq!(d, PlanDecision::local(PlanReason::FitsLocal));
}

#[test]
fn too_big_for_headroom_goes_remote() {
    let p = DefaultPlanner::new(cfg());
    let d = p.decide(&PlanRequest {
        prefer: PreferMode::Auto,
        estimate: Some(ws(200_000_000, 100_000_000, 100)),
        headroom_bytes: 100_000_000,
        local_slot_available: true,
    });
    assert_eq!(d.route, Route::Remote);
    assert_eq!(d.reason, PlanReason::TooLarge);
}

#[test]
fn spill_tolerance_allows_slight_overflow_local() {
    let mut c = cfg();
    c.spill_tolerance_bytes = 50_000_000;
    let p = DefaultPlanner::new(c);
    // peak 130M, headroom 100M, tolerance 50M: 130 <= 150, local.
    let d = p.decide(&PlanRequest {
        prefer: PreferMode::Auto,
        estimate: Some(ws(130_000_000, 100_000_000, 100)),
        headroom_bytes: 100_000_000,
        local_slot_available: true,
    });
    assert!(d.is_local());
}

#[test]
fn over_size_threshold_goes_remote() {
    let mut c = cfg();
    c.size_threshold_bytes = 10_000_000;
    let p = DefaultPlanner::new(c);
    let d = p.decide(&PlanRequest {
        prefer: PreferMode::Auto,
        estimate: Some(ws(1_000, 20_000_000, 1)),
        headroom_bytes: u64::MAX,
        local_slot_available: true,
    });
    assert_eq!(d.reason, PlanReason::OverSizeThreshold);
}

#[test]
fn latency_budget_routes_remote() {
    let p = DefaultPlanner::new(cfg());
    let d = p.decide(&PlanRequest {
        prefer: PreferMode::Auto,
        estimate: Some(ws(1_000, 1_000, 999_999)),
        headroom_bytes: u64::MAX,
        local_slot_available: true,
    });
    assert_eq!(d.reason, PlanReason::OverLatencyBudget);
}

#[test]
fn locally_saturated_goes_remote() {
    let p = DefaultPlanner::new(cfg());
    let d = p.decide(&PlanRequest {
        prefer: PreferMode::Auto,
        estimate: Some(ws(1, 1, 1)),
        headroom_bytes: u64::MAX,
        local_slot_available: false,
    });
    assert_eq!(d.reason, PlanReason::LocallySaturated);
}

#[test]
fn no_estimate_in_auto_goes_remote() {
    let p = DefaultPlanner::new(cfg());
    let d = p.decide(&PlanRequest {
        prefer: PreferMode::Auto,
        estimate: None,
        headroom_bytes: u64::MAX,
        local_slot_available: true,
    });
    assert_eq!(d.reason, PlanReason::NoEstimate);
}

#[test]
fn prefer_local_forces_local_even_without_estimate() {
    let p = DefaultPlanner::new(cfg());
    let d = p.decide(&PlanRequest {
        prefer: PreferMode::Local,
        estimate: None,
        headroom_bytes: 0,
        local_slot_available: true,
    });
    assert_eq!(d, PlanDecision::local(PlanReason::ForcedLocal));
}

#[test]
fn remote_only_mode_forces_remote_even_for_fitting_tiny_query() {
    // local_execution_enabled = false: a tiny query that would fit locally
    // is still routed to the grid.
    let mut c = cfg();
    c.local_execution_enabled = false;
    let p = DefaultPlanner::new(c);
    let d = p.decide(&PlanRequest {
        prefer: PreferMode::Auto,
        estimate: Some(ws(1, 1, 1)),
        headroom_bytes: u64::MAX,
        local_slot_available: true,
    });
    assert_eq!(d, PlanDecision::remote(PlanReason::LocalDisabled));
}

#[test]
fn remote_only_mode_overrides_prefer_local() {
    // The hard gate beats an explicit `prefer => local`.
    let mut c = cfg();
    c.local_execution_enabled = false;
    let p = DefaultPlanner::new(c);
    let d = p.decide(&PlanRequest {
        prefer: PreferMode::Local,
        estimate: None,
        headroom_bytes: u64::MAX,
        local_slot_available: true,
    });
    assert_eq!(d, PlanDecision::remote(PlanReason::LocalDisabled));
}

#[test]
fn disabled_planner_always_remote() {
    let mut c = cfg();
    c.enabled = false;
    let p = DefaultPlanner::new(c);
    let d = p.decide(&PlanRequest {
        prefer: PreferMode::Local,
        estimate: Some(ws(1, 1, 1)),
        headroom_bytes: u64::MAX,
        local_slot_available: true,
    });
    assert_eq!(d, PlanDecision::remote(PlanReason::ForcedRemote));
}

#[test]
fn failover_policy_respects_forced_local() {
    let p = DefaultPlanner::new(cfg());
    assert!(p.failover_to_remote(PreferMode::Auto));
    assert!(p.failover_to_remote(PreferMode::Remote));
    assert!(!p.failover_to_remote(PreferMode::Local));
}

/// The share of `total` that local jobs may use.
fn local_budget(total: u64, ram_fraction: f64) -> u64 {
    (total as f64 * ram_fraction) as u64
}

#[test]
fn local_executor_headroom_and_saturation() {
    let mut c = cfg();
    c.max_concurrent_local_jobs = 2;
    let mut ex = LocalExecutor::new(local_budget(1_000, 0.5), &c);
    assert_eq!(ex.local_budget_bytes(), 500);
    assert_eq!(ex.headroom_bytes(), 500);

    let r1 = ex.reserve(200).unwrap();
    assert_eq!(ex.headroom_bytes(), 300);
    let _r2 = ex.reserve(100).unwrap();
    assert_eq!(ex.headroom_bytes(), 200);
    // Only 2 slots: third reservation fails (saturated).
    assert!(!ex.slot_available());
    assert!(ex.reserve(1).is_none());
    // Giving a reservation back restores headroom + slot.
    ex.release(r1);
    assert_eq!(ex.headroom_bytes(), 400);
    assert!(ex.slot_available());
}

#[test]
fn reserve_cas_rejects_over_budget_local_reservation() {
    let mut c = cfg();
    c.max_concurrent_local_jobs = 8; // slots are not the binding constraint here
    let mut ex = LocalExecutor::new(local_budget(1_000, 0.5), &c);
    assert_eq!(ex.local_budget_bytes(), 500);

    let _r = ex.reserve(400).expect("400 <= 500 fits");
    // A free slot remains, but 400 + 200 > 500.
    assert!(ex.slot_available());
    assert!(ex.reserve(200).is_none(), "over-budget reservation must be rejected");
    // A reservation that fits the remaining 100 still succeeds.
    let _r2 = ex.reserve(100).expect("400 + 100 == 500 fits exactly");
    assert_eq!(ex.headroom_bytes(), 0);
}

#[test]
fn governed_reserve_claims_from_shared_governor_and_releases_on_drop() {
    let budget = BudgetConfig {
        memory_bytes: 1000,
        threads: 4,
        max_jobs: 4,
        per_job_memory_bytes: 100,
        per_job_threads: 1,
        data_classes: vec![DataClassCfg::Public],
    };
    let mut governor = CapacityGovernor::new(&budget, 4, 1000, true);
    let mut c = cfg();
    c.max_concurrent_local_jobs = 4;
    let mut ex = LocalExecutor::governed(local_budget(1000, 1.0), &c, 1, 0);

    // Pre-occupy 800 of the governor on the served role.
    let served = governor.try_reserve(Role::Served, 800, 1).unwrap();
    // Local fits in the remaining 200 of the shared pool...
    let r = ex
        .reserve_governed(&mut governor, 200)
        .expect("200 fits the remaining governor headroom");
    assert_eq!(governor.free_memory(), 0);
    // ...but a further local reservation is refused by the governor even though
    // the local budget (1000) would allow it: the shared cap binds.
    assert!(ex.reserve_governed(&mut governor, 1).is_none());
    // Giving the local reservation back returns its bytes to the shared pool.
    let held = ex.release(r).unwrap();
    governor.release(held);
    assert_eq!(governor.free_memory(), 200);
    governor.release(served);
    assert_eq!(governor.free_memory(), 1000);
}

#[test]
fn resource_exhaustion_detection() {
    assert!(is_resource_exhaustion(&EngineError::Exec(
        "Out of Memory Error: failed to allocate".into()
    )));
    assert!(is_resource_exhaustion(&EngineError::Exec(
        "could not allocate 4GB".into()
    )));
    assert!(!is_resource_exhaustion(&EngineError::Exec(
        "syntax error near SELECT".into()
    )));
}

#[test]
fn estimate_drives_local_vs_remote_routing_by_size() {
    // A small estimate fits locally; a large one (scanned bytes over the
    // threshold) goes remote.
    let mut pc = cfg();
    pc.size_threshold_bytes = 64 * 1024 * 1024;
    let planner = DefaultPlanner::new(pc);

    let small = WorkingSetEstimate {
        scanned_uncompressed_bytes: 1_000,
        estimated_rows: 100,
        scan_buffer_bytes: 1_000,
        group_by_bytes: 0,
        join_build_bytes: 0,
        sort_bytes: 0,
        peak_working_set_bytes: 1_000,
        estimated_runtime_ms: 1,
    };
    let large = WorkingSetEstimate {
        scanned_uncompressed_bytes: 4 * 1024 * 1024 * 1024,
        peak_working_set_bytes: 4 * 1024 * 1024 * 1024,
        ..small
    };
    let req = |est| PlanRequest {
        prefer: PreferMode::Auto,
        estimate: Some(est),
        headroom_bytes: 8 * 1024 * 1024 * 1024,
        local_slot_available: true,
    };
    assert_eq!(planner.decide(&req(small)).route, Route::Local);
    assert_eq!(planner.decide(&req(large)).route, Route::Remote);
}

#[test]
fn exhaustion_is_read_from_the_message_whatever_the_case() {
    assert!(is_resource_exhaustion(&EngineError::Rejected(
        "OUT OF MEMORY".into()
    )));
    assert!(is_resource_exhaustion(&EngineError::Exec(
        "the Memory Limit was hit".into()
    )));
    assert!(!is_resource_exhaustion(&EngineError::Rejected(
        "memory".into()
    )));
}

#[test]
fn forced_remote_beats_a_fitting_estimate() {
    let p = DefaultPlanner::new(cfg());
    let d = p.decide(&PlanRequest {
        prefer: PreferMode::Remote,
        estimate: Some(ws(1, 1, 1)),
        headroom_bytes: u64::MAX,
        local_slot_available: true,
    });
    assert_eq!(d, PlanDecision::remote(PlanReason::ForcedRemote));
    assert_eq!(p.config().size_threshold_bytes, 256 * 1024 * 1024);
}

#[test]
fn a_governed_reservation_takes_at_least_the_job_share() {
    let budget = BudgetConfig {
        memory_bytes: 1000,
        threads: 4,
        max_jobs: 4,
        per_job_memory_bytes: 100,
        per_job_threads: 1,
        data_classes: vec![],
    };
    let mut governor = CapacityGovernor::new(&budget, 4, 1000, true);
    let mut ex = LocalExecutor::governed(1000, &cfg(), 2, 100);
    let r = ex.reserve_governed(&mut governor, 10).unwrap();
    assert_eq!(governor.free_memory(), 900);
    assert_eq!(governor.free_threads(), 2);
    let held = ex.release(r).unwrap();
    governor.release(held);
    assert_eq!(governor.free_memory(), 1000);
}
