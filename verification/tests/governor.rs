use p2p_node::governor::{BudgetConfig, CapacityGovernor, Role};
use p2p_node::types::DataClassCfg;

fn budget(mem: u64, threads: u32) -> BudgetConfig {
    BudgetConfig {
        memory_bytes: mem,
        threads,
        max_jobs: 8,
        per_job_memory_bytes: 100,
        per_job_threads: 1,
        data_classes: vec![DataClassCfg::Public],
    }
}

/// What is left for served jobs once `fraction` of `total` is kept for local ones.
fn ceiling(total: u64, fraction: f64) -> u64 {
    (total as f64 * (1.0 - fraction)).floor() as u64
}

#[test]
fn sum_of_roles_cannot_exceed_memory_cap() {
    // No reservation for local (fraction 0): pure sum cap across roles.
    let mut g = CapacityGovernor::new(&budget(1000, 8), 8, ceiling(1000, 0.0), true);
    let _served = g.try_reserve(Role::Served, 600, 1).unwrap();
    let _local = g.try_reserve(Role::Local, 400, 1).unwrap();
    // 600 + 400 == 1000 exactly; one more byte must be refused on either role.
    assert!(g.try_reserve(Role::Local, 1, 0).is_none());
    assert!(g.try_reserve(Role::Served, 1, 0).is_none());
    assert_eq!(g.free_memory(), 0);
}

#[test]
fn sum_of_roles_cannot_exceed_thread_cap() {
    let mut g = CapacityGovernor::new(&budget(10_000, 3), 8, ceiling(10_000, 0.0), true);
    let _served = g.try_reserve(Role::Served, 0, 2).unwrap();
    let _local = g.try_reserve(Role::Local, 0, 1).unwrap();
    assert!(g.try_reserve(Role::Local, 0, 1).is_none());
    assert_eq!(g.free_threads(), 0);
}

#[test]
fn global_slot_cap_bounds_total_concurrency() {
    // max_concurrent_jobs = 2 regardless of remaining mem/threads.
    let mut g = CapacityGovernor::new(&budget(1_000_000, 64), 2, ceiling(1_000_000, 0.0), true);
    let _a = g.try_reserve(Role::Local, 1, 1).unwrap();
    let _b = g.try_reserve(Role::Served, 1, 1).unwrap();
    assert!(g.try_reserve(Role::Local, 1, 1).is_none());
    assert_eq!(g.available_slots(), 0);
}

#[test]
fn served_ceiling_reserves_headroom_for_local() {
    // 20% reserved for local: served may hold at most 800 of 1000.
    let mut g = CapacityGovernor::new(&budget(1000, 8), 8, ceiling(1000, 0.2), true);
    assert_eq!(g.served_memory_ceiling(), 800);
    let _served = g.try_reserve(Role::Served, 800, 1).unwrap();
    // Served is at its ceiling: a further served reservation is refused...
    assert!(g.try_reserve(Role::Served, 1, 0).is_none());
    // ...but the reserved 200 is still available to local (no starvation).
    let _local = g.try_reserve(Role::Local, 200, 1).unwrap();
    assert_eq!(g.free_memory(), 0);
}

#[test]
fn serve_only_node_gets_full_budget() {
    // local_active = false: the reservation collapses; served gets all 1000.
    let mut g = CapacityGovernor::new(&budget(1000, 8), 8, ceiling(1000, 0.2), false);
    assert_eq!(g.served_memory_ceiling(), 1000);
    let _served = g.try_reserve(Role::Served, 1000, 1).unwrap();
    assert_eq!(g.free_memory(), 0);
}

#[test]
fn lease_drop_restores_pool() {
    let mut g = CapacityGovernor::new(&budget(1000, 4), 4, ceiling(1000, 0.2), true);
    let served = g.try_reserve(Role::Served, 800, 2).unwrap();
    let local = g.try_reserve(Role::Local, 200, 2).unwrap();
    assert_eq!(g.free_memory(), 0);
    assert_eq!(g.free_threads(), 0);
    assert_eq!(g.available_slots(), 2);
    g.release(served);
    g.release(local);
    // Everything (memory + threads + slots + served counter) is restored.
    assert_eq!(g.free_memory(), 1000);
    assert_eq!(g.free_threads(), 4);
    assert_eq!(g.available_slots(), 4);
    // The served counter was restored, so served can fill its ceiling again.
    let _served = g.try_reserve(Role::Served, 800, 1).unwrap();
}

#[test]
fn a_lease_names_what_it_holds() {
    let mut g = CapacityGovernor::new(&budget(1000, 4), 4, 800, true);
    assert_eq!(g.memory_total(), 1000);
    assert_eq!(g.max_jobs(), 4);
    let lease = g.try_reserve(Role::Served, 123, 3).unwrap();
    assert_eq!(lease.role(), Role::Served);
    assert_eq!(lease.memory_bytes(), 123);
    assert_eq!(lease.threads(), 3);
}

#[test]
fn an_empty_slot_count_still_leaves_one_job() {
    let mut g = CapacityGovernor::new(&budget(1000, 4), 0, 1000, true);
    assert_eq!(g.max_jobs(), 1);
    assert!(g.try_reserve(Role::Local, 1, 1).is_some());
    assert!(g.try_reserve(Role::Local, 1, 1).is_none());
}
