use p2p_node::governor::{BudgetConfig, CapacityGovernor, Role};
use p2p_node::types::{DataClass, DataClassCfg};
use p2p_node::{AdmissionController, FreeResources};

fn budget() -> BudgetConfig {
    BudgetConfig {
        memory_bytes: 1000,
        threads: 4,
        max_jobs: 2,
        per_job_memory_bytes: 100,
        per_job_threads: 1,
        data_classes: vec![DataClassCfg::Public],
    }
}

#[test]
fn admits_until_job_slots_exhausted() {
    let mut ac = AdmissionController::new(&budget());
    let l1 = ac.try_admit(100, 1).unwrap();
    let l2 = ac.try_admit(100, 1).unwrap();
    // max_jobs = 2 -> third is refused even though mem/threads remain
    assert!(ac.try_admit(100, 1).is_none());
    ac.release(l1);
    assert!(ac.try_admit(100, 1).is_some());
    ac.release(l2);
}

#[test]
fn refuses_when_memory_exceeded() {
    let mut ac = AdmissionController::new(&budget());
    let _l = ac.try_admit(900, 1).unwrap();
    // only 100 left, ask for 200
    assert!(ac.try_admit(200, 1).is_none());
}

#[test]
fn lease_drop_restores_budget() {
    let mut ac = AdmissionController::new(&budget());
    let l = ac.try_admit(1000, 4).unwrap();
    assert_eq!(ac.free().memory_bytes, 0);
    assert_eq!(ac.free().threads, 0);
    ac.release(l);
    assert_eq!(ac.free().memory_bytes, 1000);
    assert_eq!(ac.free().threads, 4);
}

#[test]
fn data_class_policy_enforced() {
    let ac = AdmissionController::new(&budget());
    assert!(ac.serves_data_class(DataClass::Public));
    assert!(!ac.serves_data_class(DataClass::Sensitive));
}

#[test]
fn free_resources_follow_each_grant() {
    let mut ac = AdmissionController::new(&budget());
    assert_eq!(ac.max_jobs(), 2);
    let l = ac.try_admit(300, 3).unwrap();
    assert_eq!(l.memory_bytes(), 300);
    assert_eq!(l.threads(), 3);
    assert_eq!(
        ac.free(),
        FreeResources { memory_bytes: 700, threads: 1, free_jobs: 1 }
    );
    // Two threads are asked for and one is left: nothing changes.
    assert!(ac.try_admit(1, 2).is_none());
    assert_eq!(
        ac.free(),
        FreeResources { memory_bytes: 700, threads: 1, free_jobs: 1 }
    );
}

#[test]
fn governed_admission_needs_both_budgets() {
    let mut pool = CapacityGovernor::new(&budget(), 8, 1000, true);
    let local = pool.try_reserve(Role::Local, 950, 1).unwrap();
    let mut ac = AdmissionController::new(&budget());
    // The controller alone would admit it, the shared pool does not.
    assert!(ac.try_admit_governed(&mut pool, 100, 1).is_none());
    assert_eq!(ac.free().memory_bytes, 1000);
    pool.release(local);
    let lease = ac.try_admit_governed(&mut pool, 100, 1).unwrap();
    assert_eq!(pool.free_memory(), 900);
    let held = ac.release(lease).unwrap();
    pool.release(held);
    assert_eq!(pool.free_memory(), 1000);
}
