use p2p_node::retry::Consensus;
use p2p_node::types::Verdict;
use p2p_node::{Backoff, FaultTally};

#[test]
fn backoff_grows_and_caps() {
    let mut b = Backoff::new(100, 1_000);
    assert_eq!(b.base_delay_ms(), 100);
    assert_eq!(b.next_delay(100), 100);
    assert_eq!(b.base_delay_ms(), 200);
    b.next_delay(200);
    assert_eq!(b.base_delay_ms(), 400);
    b.next_delay(400);
    assert_eq!(b.base_delay_ms(), 800);
    b.next_delay(800);
    // capped at max
    assert_eq!(b.base_delay_ms(), 1_000);
}

#[test]
fn backoff_jitter_stays_within_bounds() {
    let mut b = Backoff::new(1_000, 1_000);
    let mut seen: Vec<u64> = Vec::new();
    for _ in 0..50 {
        let floor = (b.base_delay_ms() as f64 * (1.0 - 0.5)) as u64;
        let d = b.next_delay(floor);
        assert!((500..=1_000).contains(&d), "jittered delay {} out of [500,1000]", d);
        seen.push(d);
        b.reset();
    }
    // The delays are drawn, not fixed.
    assert!(seen.iter().any(|d| *d != seen[0]));
}

#[test]
fn a_reset_goes_back_to_the_first_delay() {
    let mut b = Backoff::new(7, 1_000);
    b.next_delay(0);
    b.next_delay(0);
    assert_eq!(b.base_delay_ms(), 28);
    b.reset();
    assert_eq!(b.base_delay_ms(), 7);
}

/// Whether `count` of `selected` providers make up the consensus `fraction`.
fn agrees(count: usize, selected: usize, fraction: f64) -> bool {
    selected > 0 && count as f64 / selected as f64 >= fraction
}

fn rule(t: &FaultTally, fraction: f64) -> Consensus {
    Consensus {
        infeasible: agrees(t.infeasible, t.selected, fraction),
        resource_exceeded: agrees(t.resource_exceeded, t.selected, fraction),
    }
}

#[test]
fn fault_tally_consensus_infeasible_only_on_same_deterministic_failure() {
    // 3 providers, all infeasible: consensus-infeasible (stop).
    let mut t = FaultTally::new(3);
    t.record(Verdict::Infeasible);
    t.record(Verdict::Infeasible);
    t.record(Verdict::Infeasible);
    assert!(t.is_consensus_infeasible(rule(&t, 0.67)));
    assert!(t.consensus_reason(rule(&t, 0.67)).is_some());

    // 3 providers, all silent (timeout): transient, not consensus (retry).
    let mut t2 = FaultTally::new(3);
    t2.record_silent();
    t2.record_silent();
    t2.record_silent();
    assert!(!t2.is_consensus_infeasible(rule(&t2, 0.67)));

    // Mixed: 1 infeasible + 2 silent, not consensus.
    let mut t3 = FaultTally::new(3);
    t3.record(Verdict::Infeasible);
    t3.record_silent();
    t3.record_silent();
    assert!(!t3.is_consensus_infeasible(rule(&t3, 0.67)));
}

#[test]
fn each_verdict_is_counted_once() {
    let mut t = FaultTally::new(4);
    t.record(Verdict::ResourceExceeded);
    t.record(Verdict::Timeout);
    t.record(Verdict::Malformed);
    t.record_committed();
    assert_eq!(t.resource_exceeded, 1);
    assert_eq!(t.infeasible, 0);
    assert_eq!(t.silent, 2);
    assert_eq!(t.committed, 1);
    let r = Consensus { infeasible: false, resource_exceeded: true };
    assert_eq!(
        t.consensus_reason(r).unwrap(),
        "1/4 selected providers exceeded resources running this query — the job is too expensive (job fault, not a provider fault)"
    );
    let neither = Consensus { infeasible: false, resource_exceeded: false };
    assert!(t.consensus_reason(neither).is_none());
}

#[test]
fn silence_is_not_counted_as_consensus() {
    let half = |count: usize, selected: usize| 2 * count >= selected;
    let mut t = FaultTally::new(4);
    t.record(Verdict::Infeasible);
    let before = t.consensus(half);
    assert!(!t.is_consensus_infeasible(before));
    for _ in 0..8 {
        t.record_silent();
    }
    assert_eq!(t.consensus(half), before);
    t.record(Verdict::Infeasible);
    assert!(t.consensus(half).infeasible && !t.consensus(half).resource_exceeded);
    t.record_silent();
    assert!(t.is_consensus_infeasible(t.consensus(half)));
}
