use p2p_node::capability_store::ProfileDraft;
use p2p_node::types::{CapabilityProfile, NodeId};
use p2p_node::{CapabilityStore, MeasuredExecution};

fn signed(draft: &ProfileDraft, node: &NodeId) -> CapabilityProfile {
    CapabilityProfile {
        schema_version: 1,
        node_id: node.clone(),
        pubkey: "00".repeat(32),
        max_input_bytes: draft.max_input_bytes,
        max_result_rows: draft.max_result_rows,
        max_result_bytes: draft.max_result_bytes,
        max_peak_memory_bytes: draft.max_peak_memory_bytes,
        max_temp_dir_bytes: draft.max_temp_dir_bytes,
        successes: draft.successes,
        seq: draft.seq,
        ts: draft.ts,
        sig: String::new(),
    }
}

#[test]
fn observe_ratchets_persists_and_increments_seq() {
    let me = NodeId("b3:me".into());
    let d1 = CapabilityStore::observe(
        None,
        &MeasuredExecution {
            input_bytes: 1_000,
            result_rows: 50,
            result_bytes: 2_000,
            peak_memory_bytes: 4_000,
            temp_dir_bytes: 8_000,
        },
        100,
    );
    assert_eq!(d1.seq, 1);
    assert_eq!(d1.successes, 1);
    assert_eq!(d1.max_result_rows, 50);
    assert_eq!(d1.ts, 100);
    let p1 = signed(&d1, &me);

    // A smaller later run bumps successes/seq but never lowers the maxima.
    let d2 = CapabilityStore::observe(
        Some(&p1),
        &MeasuredExecution { result_rows: 10, ..Default::default() },
        200,
    );
    assert_eq!(d2.seq, 2);
    assert_eq!(d2.successes, 2);
    assert_eq!(d2.max_result_rows, 50, "maxima ratchet up only");
    assert_eq!(d2.max_temp_dir_bytes, 8_000);

    // What was stored binds to the same node.
    let loaded = CapabilityStore::load_verified(Some(signed(&d2, &me)), true, &me).unwrap();
    assert_eq!(loaded.seq, 2);
    assert_eq!(loaded.max_result_rows, 50);
}

#[test]
fn tampered_or_foreign_profile_is_ignored() {
    let me = NodeId("b3:me".into());
    let d = CapabilityStore::observe(None, &MeasuredExecution::default(), 1);
    let p = signed(&d, &me);

    // A different node must not adopt this profile (binding check).
    let other = NodeId("b3:other".into());
    assert!(CapabilityStore::load_verified(Some(p.clone()), true, &other).is_none());

    // A signature that does not verify, or no profile at all: cold start.
    assert!(CapabilityStore::load_verified(Some(p), false, &me).is_none());
    let none = CapabilityStore::load_verified(None, true, &me);
    assert!(none.is_none());
    // The next run then starts a fresh chain.
    let fresh = CapabilityStore::observe(none.as_ref(), &MeasuredExecution::default(), 2);
    assert_eq!(fresh.seq, 1);
}

#[test]
fn the_override_path_wins() {
    let s = CapabilityStore::open(Some("/tmp/a.json".into()), "/home/x/b.json".into());
    assert_eq!(s.path(), "/tmp/a.json");
    let s = CapabilityStore::open(None, "/home/x/b.json".into());
    assert_eq!(s.path(), "/home/x/b.json");
    assert_eq!(CapabilityStore::with_path("c.json".into()).path(), "c.json");
}

#[test]
fn counters_stop_at_their_top() {
    let me = NodeId("b3:me".into());
    let mut p = signed(&CapabilityStore::observe(None, &MeasuredExecution::default(), 1), &me);
    p.seq = u64::MAX;
    p.successes = u64::MAX;
    let d = CapabilityStore::observe(Some(&p), &MeasuredExecution::default(), 2);
    assert_eq!(d.seq, u64::MAX);
    assert_eq!(d.successes, u64::MAX);
}

#[test]
fn a_record_covers_every_execution() {
    let me = NodeId("b3:me".into());
    let runs = [(5u64, 100u64), (9, 40), (2, 70)];
    let mut draft = CapabilityStore::observe(None, &MeasuredExecution::default(), 0);
    for (rows, bytes) in runs {
        let m = MeasuredExecution { result_rows: rows, input_bytes: bytes, ..Default::default() };
        let loaded = CapabilityStore::load_verified(Some(signed(&draft, &me)), true, &me);
        draft = CapabilityStore::observe(loaded.as_ref(), &m, 1);
    }
    assert_eq!((draft.max_result_rows, draft.max_input_bytes), (9, 100));
    assert_eq!((draft.successes, draft.seq), (4, 4));
    // A profile that is not verified counts for nothing.
    let loaded = CapabilityStore::load_verified(Some(signed(&draft, &me)), false, &me);
    assert_eq!(CapabilityStore::observe(loaded.as_ref(), &MeasuredExecution::default(), 1).seq, 1);
}
