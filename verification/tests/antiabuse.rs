use p2p_node::antiabuse::{AbuseSignal, BlockEntry, BlockKind};
use p2p_node::types::NodeId;
use p2p_node::{cost_gate_reason, Blocklist, RateLimiter};

fn id(s: &str) -> NodeId {
    NodeId(s.into())
}

#[test]
fn blocklist_block_unblock() {
    let mut bl = Blocklist::new();
    assert!(!bl.is_blocked("b3:x"));
    bl.block("b3:x", BlockKind::NodeId, "cheating", "manual");
    assert!(bl.is_blocked("b3:x"));
    assert_eq!(bl.len(), 1);
    assert!(bl.unblock("b3:x"));
    assert!(!bl.is_blocked("b3:x"));
}

#[test]
fn rate_limiter_allows_burst_then_blocks_within_window() {
    let mut rl = RateLimiter::new(3, 60, 100);
    let id = id("b3:spammer");
    assert!(rl.check_and_record(&id, 100));
    assert!(rl.check_and_record(&id, 101));
    assert!(rl.check_and_record(&id, 102));
    // 4th within the window is refused.
    assert!(!rl.check_and_record(&id, 103));
    // After the window slides, attempts are allowed again.
    assert!(rl.check_and_record(&id, 200));
}

#[test]
fn rate_limiter_is_per_identity() {
    let mut rl = RateLimiter::new(1, 60, 100);
    let a = id("b3:a");
    let b = id("b3:b");
    assert!(rl.check_and_record(&a, 0));
    assert!(!rl.check_and_record(&a, 1));
    // A different requester has its own budget.
    assert!(rl.check_and_record(&b, 1));
}

#[test]
fn cost_gate_rejects_over_budget_and_admits_within() {
    let max_rows = 1_000_000;
    let cap = ((1u64 << 30) as f64 * 1.0) as u64;
    // Within the row cap and no estimate: admit.
    assert!(cost_gate_reason(max_rows, Some(500_000), None, cap).is_none());
    // Over the row cap: reject.
    assert!(cost_gate_reason(max_rows, Some(5_000_000), None, cap).is_some());
    // Estimated peak over the per-job memory budget: reject.
    assert!(cost_gate_reason(max_rows, None, Some(2 << 30), cap).is_some());
    // Estimated peak within budget: admit.
    assert!(cost_gate_reason(max_rows, None, Some(512 << 20), cap).is_none());
}

#[test]
fn signed_signal_blocks_only_when_honored_and_valid() {
    let sig = AbuseSignal {
        subject_id: id("b3:bad"),
        subject_wallet: None,
        reason: "equivocation".into(),
        reporter_id: id("b3:reporter"),
    };
    let mut bl = Blocklist::new();
    // Not honored: ignored.
    assert!(bl.apply_signed_signal(&sig, false, true).is_none());
    assert!(!bl.is_blocked("b3:bad"));
    // Honored but not verified: ignored too.
    assert!(bl.apply_signed_signal(&sig, true, false).is_none());
    assert!(!bl.is_blocked("b3:bad"));
    // Honored + valid: blocked.
    assert!(bl.apply_signed_signal(&sig, true, true).is_some());
    assert!(bl.is_blocked("b3:bad"));
}

#[test]
fn a_signal_blocks_the_wallet_too() {
    let sig = AbuseSignal {
        subject_id: id("b3:bad"),
        subject_wallet: Some("EQwallet".into()),
        reason: "equivocation".into(),
        reporter_id: id("b3:reporter"),
    };
    let mut bl = Blocklist::new();
    let entries = bl.apply_signed_signal(&sig, true, true).unwrap();
    assert_eq!(
        entries,
        vec![
            BlockEntry {
                id: "b3:bad".into(),
                kind: BlockKind::NodeId,
                reason: "abuse signal: equivocation (from b3:reporter)".into(),
                source: "gossip".into(),
            },
            BlockEntry {
                id: "EQwallet".into(),
                kind: BlockKind::Wallet,
                reason: "equivocation".into(),
                source: "gossip".into(),
            },
        ]
    );
    assert!(bl.is_blocked("EQwallet"));
    assert_eq!(bl.len(), 2);
}

#[test]
fn blank_ids_are_never_blocked() {
    let mut bl = Blocklist::new();
    assert!(bl.block("  ", BlockKind::Wallet, "why", "manual").is_none());
    assert!(bl.is_empty());
    let entry = bl.block(" b3:x ", BlockKind::NodeId, "why", "manual").unwrap();
    assert_eq!(entry.id, "b3:x");
    assert!(bl.is_blocked("b3:x"));
}

#[test]
fn blocking_twice_records_nothing_new() {
    let mut bl = Blocklist::with_store(&["b3:x".to_string()]);
    assert!(!bl.is_empty());
    assert!(bl.block("b3:x", BlockKind::NodeId, "again", "manual").is_none());
    assert_eq!(bl.len(), 1);
    assert_eq!(
        bl.block("b3:y", BlockKind::NodeId, "first", "auto").unwrap(),
        BlockEntry {
            id: "b3:y".into(),
            kind: BlockKind::NodeId,
            reason: "first".into(),
            source: "auto".into(),
        }
    );
    assert!(!bl.unblock("b3:z"));
}

#[test]
fn refusals_name_the_figures() {
    assert_eq!(
        cost_gate_reason(10, Some(11), None, 0).unwrap(),
        "over budget: estimated 11 rows exceeds the worker's max_cost_hint_rows (10)"
    );
    assert_eq!(
        cost_gate_reason(0, Some(11), Some(9), 8).unwrap(),
        "over budget: estimated peak working set 9 bytes exceeds budget 8 bytes"
    );
    // Zero disables either gate.
    assert!(cost_gate_reason(0, Some(u64::MAX), Some(u64::MAX), 0).is_none());
}

#[test]
fn no_more_than_the_limit_within_any_window() {
    let mut rl = RateLimiter::new(2, 10, 4);
    let a = id("b3:a");
    let mut granted: Vec<u64> = Vec::new();
    for t in 0..100u64 {
        if rl.check_and_record(&a, t) {
            granted.push(t);
        }
    }
    for w in granted.windows(3) {
        assert!(w[2] - w[0] >= 10, "{:?}", w);
    }
    assert!(granted.len() >= 18);
}
