use p2p_node::coordinator::account::ObservedSize;
use p2p_node::coordinator::attempt::{
    pin_inputs, AttemptPolicy, AttemptSettings, Dispatching, InputResolution, JobTerms, Offering,
    Selected,
};
use p2p_node::coordinator::candidates::{CandidateFacts, CandidatePolicy, Found};
use p2p_node::coordinator::failure::{clean_engine_detail, consensus_failure_detail, Failure};
use p2p_node::coordinator::judge::{AttemptResult, Collection, Commit, JudgePolicy, QuorumOutcome};
use p2p_node::coordinator::request::Timeouts;
use p2p_node::coordinator::resilient::{Next, Resilience, RetryPolicy};
use p2p_node::coordinator::selection::{Bidder, JobSize, SelectionPolicy};
use p2p_node::retry::Consensus;
use p2p_node::types::{
    AttestationLevel, Bid, BidDecision, DataClass, InputSnapshot, NodeId, Verdict, VerifyMode,
};
use p2p_node::{Backoff, Candidate, CandidateFilter, CoordinatorError};

fn id(s: &str) -> NodeId {
    NodeId(format!("b3:{}", s))
}

fn policy() -> AttemptPolicy {
    AttemptPolicy {
        candidates: CandidatePolicy {
            antiabuse_enabled: true,
            require_staked_hosts: false,
            min_stake_ton: 0,
        },
        selection: SelectionPolicy {
            min_level: AttestationLevel::L0,
            region_proof_required: false,
            spill_tolerance_bytes: 0,
            capability_tiebreak: false,
            auto_block: false,
            replicas: 3,
            quorum: 2,
        },
        judge: JudgePolicy {
            quorum: 2,
            verify_mode: VerifyMode::Quorum,
            fault_attribution: true,
            nondeterminism_active: true,
        },
        timeouts: Timeouts { stall_ms: 500, dispatch_ms: 900, attempt_ms: 10_000 },
        paid: false,
        max_bid_ton: 0,
        size: JobSize { scanned_bytes: 0, peak_bytes: 0, capacity_floor: 0 },
    }
}

fn filter() -> CandidateFilter {
    CandidateFilter {
        data_class: DataClass::Public,
        min_attestation: AttestationLevel::L0,
        network: None,
        groups: vec![],
        regions: vec![],
        fail_closed_labels: false,
        nodes: vec![],
    }
}

fn found(s: &str, blocked: bool) -> Found {
    Found {
        candidate: Candidate::new(Some(id(s)), format!("{}:1", s)),
        facts: CandidateFacts { blocked, proven: None, convicted: false, stake: None },
    }
}

fn bidder(s: &str, eta_ms: u64, rate: u64) -> Bidder {
    Bidder {
        worker: id(s),
        bid: Bid {
            worker_id: id(s),
            decision: BidDecision::Accept,
            eta_ms,
            price: 0,
            attestation_level: AttestationLevel::L0,
            free_mem_bytes: 1 << 30,
            free_threads: 4,
            region_proof: None,
            rate_per_second: rate,
            rate_per_gb: 0,
            estimated_seconds: 1,
            cap_seconds: 7,
        },
        evidence_verified: None,
        region_proved: false,
        proven: None,
        clears_min_trust: true,
        below_block_floor: false,
    }
}

fn commit(s: &str, hash: &str, latency_ms: u64) -> Commit {
    Commit {
        worker: id(s),
        hash: hash.into(),
        latency_ms,
        input_fingerprint: "fp".into(),
    }
}

fn failure(s: &str, verdict: Verdict, detail: &str) -> Failure {
    Failure { node: id(s), verdict, detail: detail.into() }
}

fn snapshot() -> InputSnapshot {
    InputSnapshot { objects: vec![], fingerprint: "fp".into() }
}

fn collection(commits: Vec<Commit>, outcome: QuorumOutcome) -> Collection {
    Collection {
        commits,
        failed: vec![],
        silent: vec![],
        canary: None,
        outcome,
        nondeterministic_sql: false,
        consensus: Consensus { infeasible: false, resource_exceeded: false },
    }
}

fn reached(hash: &str, agreement: usize) -> QuorumOutcome {
    QuorumOutcome {
        drifted: 0,
        agreed_hash: Some(hash.into()),
        agreement,
        quorum: 2,
        split: false,
        reached: true,
    }
}

fn not_reached() -> QuorumOutcome {
    QuorumOutcome {
        drifted: 0,
        agreed_hash: None,
        agreement: 1,
        quorum: 2,
        split: false,
        reached: false,
    }
}

fn offering(p: AttemptPolicy) -> Offering {
    let pinned = pin_inputs(p, InputResolution::Resolved(Some(snapshot()))).unwrap();
    assert_eq!(pinned.fingerprint().as_deref(), Some("fp"));
    let (offering, kept) = pinned
        .retain(
            &filter(),
            vec![found("a", false), found("bad", true), found("b", false), found("c", false)],
            &[id("c")],
        )
        .unwrap();
    let names: Vec<String> = kept.into_iter().map(|c| c.addr).collect();
    assert_eq!(names, vec!["a:1".to_string(), "b:1".to_string()]);
    offering
}

fn selected(p: AttemptPolicy) -> Selected {
    offering(p)
        .gate(vec![bidder("a", 30, 0), bidder("b", 20, 0), bidder("d", 10, 0)])
        .select(&[5, 9, 5])
        .unwrap()
}

fn dispatching(p: AttemptPolicy) -> Dispatching {
    selected(p).dispatch(Ok(())).unwrap()
}

#[test]
fn a_verified_job_pays_the_fastest_that_agrees() {
    let d = dispatching(policy());
    // Best score first, then the lower arrival estimate.
    let order: Vec<String> = (0..3).map(|i| d.worker(i).unwrap().worker.0).collect();
    assert_eq!(order, vec!["b3:b", "b3:d", "b3:a"]);
    assert!(d.worker(3).is_none());

    let mut c = collection(
        vec![commit("a", "h", 40), commit("b", "h", 25), commit("d", "other", 10)],
        reached("h", 2),
    );
    c.silent = vec![id("e")];
    c.failed = vec![failure("f", Verdict::Malformed, "")];
    let t = d.judge(c).unwrap();
    assert_eq!(t.winner().worker, id("b"));
    assert_eq!(t.ordered().len(), 3);

    let booked = t.book(Some(ObservedSize { input_bytes: 0, result_rows: 7, result_bytes: 99 }));
    let outcome = booked.outcome.unwrap();
    assert_eq!(outcome.agreed_hash, "h");
    assert!(outcome.verified);
    assert_eq!(outcome.winner, id("b"));
    assert_eq!(outcome.winner_latency_ms, 25);
    let a = booked.accounting;
    let verdicts: Vec<(String, Verdict)> =
        a.receipts.iter().map(|r| (r.worker.0.clone(), r.verdict)).collect();
    assert_eq!(
        verdicts,
        vec![
            ("b3:b".to_string(), Verdict::Correct),
            ("b3:a".to_string(), Verdict::Correct),
            ("b3:d".to_string(), Verdict::Incorrect),
            ("b3:e".to_string(), Verdict::Timeout),
            ("b3:f".to_string(), Verdict::Malformed),
        ]
    );
    assert_eq!(a.receipts[0].observed.result_rows, 7);
    assert_eq!(a.agreeing_non_winners, vec![id("a")]);
    assert_eq!(a.agreeing_latencies, vec![25, 40]);
    assert!(a.penalized.contains(&id("d")));
    assert!(!a.penalized.contains(&id("b")));
    assert!(a.commitment_failers.contains(&id("e")));
}

#[test]
fn a_winner_that_does_not_deliver_leaves_the_attempt_inconclusive() {
    let mut c = collection(vec![commit("a", "h", 40), commit("b", "h", 25)], reached("h", 2));
    c.silent = vec![id("e")];
    let booked = dispatching(policy()).judge(c).unwrap().book(None);
    match booked.outcome {
        Err(AttemptResult::Inconclusive { tried }) => assert_eq!(tried, vec![id("e")]),
        other => panic!("{:?}", other),
    }
    assert_eq!(booked.accounting.receipts[0].verdict, Verdict::Inconclusive);
}

#[test]
fn a_split_vote_is_a_disagreement() {
    let mut outcome = not_reached();
    outcome.split = true;
    let c = collection(vec![commit("a", "x", 1), commit("b", "y", 2)], outcome);
    let ended = dispatching(policy()).judge(c).unwrap_err();
    assert_eq!(ended.result, AttemptResult::QuorumDisagreement { agreement: 1, quorum: 2 });
    assert_eq!(ended.receipts.len(), 2);
    assert!(ended.receipts.iter().all(|r| r.verdict == Verdict::Inconclusive));
}

#[test]
fn the_same_failure_everywhere_is_the_job_s_fault() {
    let mut c = collection(vec![], not_reached());
    c.failed = vec![
        failure("a", Verdict::Infeasible, "execution failed: query: Catalog Error: no such table"),
        failure("b", Verdict::Infeasible, ""),
        failure("d", Verdict::Infeasible, ""),
    ];
    c.consensus = Consensus { infeasible: true, resource_exceeded: false };
    let ended = dispatching(policy()).judge(c).unwrap_err();
    assert_eq!(
        ended.result,
        AttemptResult::Infeasible {
            reason: "3/3 selected providers reported the query infeasible (missing data / unsatisfiable) — job fault, not a provider fault: Catalog Error: no such table".into()
        }
    );
}

#[test]
fn providers_out_of_memory_raise_the_capacity_floor() {
    let mut c = collection(vec![], not_reached());
    c.failed = vec![
        failure("a", Verdict::ResourceExceeded, "oom"),
        failure("b", Verdict::ResourceExceeded, "oom"),
    ];
    c.silent = vec![id("d")];
    c.consensus = Consensus { infeasible: false, resource_exceeded: true };
    let ended = dispatching(policy()).judge(c).unwrap_err();
    match ended.result {
        AttemptResult::ResourceExceeded { oomed, max_tried_capacity, .. } => {
            assert_eq!(oomed, vec![id("a"), id("b")]);
            assert_eq!(max_tried_capacity, 1 << 30);
        }
        other => panic!("{:?}", other),
    }
}

#[test]
fn silence_is_transient() {
    let mut c = collection(vec![], not_reached());
    c.silent = vec![id("a"), id("b")];
    c.failed = vec![failure("d", Verdict::Malformed, "")];
    let ended = dispatching(policy()).judge(c).unwrap_err();
    assert_eq!(
        ended.result,
        AttemptResult::Inconclusive { tried: vec![id("d"), id("a"), id("b")] }
    );
    assert!(ended.receipts.is_empty());
}

#[test]
fn unpinnable_inputs_are_not_held_against_anybody() {
    let pinned = pin_inputs(policy(), InputResolution::NotPinnable("a variable".into())).unwrap();
    assert!(pinned.not_pinnable());
    assert_eq!(pinned.fingerprint(), None);
    let (offering, _) = pinned.retain(&filter(), vec![found("a", false)], &[]).unwrap();
    let d = offering
        .gate(vec![bidder("a", 1, 0), bidder("b", 2, 0)])
        .select(&[1, 1])
        .unwrap()
        .dispatch(Ok(()))
        .unwrap();
    let c = collection(vec![commit("a", "x", 9), commit("b", "y", 3)], not_reached());
    let t = d.judge(c).unwrap();
    assert_eq!(t.winner().worker, id("b"));
    let booked = t.book(Some(ObservedSize::unknown()));
    assert!(!booked.outcome.unwrap().verified);
    assert!(booked.accounting.penalized.is_empty());
    assert!(booked.accounting.receipts.iter().all(|r| r.verdict == Verdict::Inconclusive));
}

#[test]
fn an_unreachable_source_ends_the_attempt() {
    let err = pin_inputs(policy(), InputResolution::Unavailable("s3 down".into())).unwrap_err();
    assert_eq!(
        err,
        AttemptResult::Infeasible { reason: "input source unavailable: s3 down".into() }
    );
    let pinned = pin_inputs(policy(), InputResolution::NotWired).unwrap();
    assert!(pinned.snapshot().is_none());
    let err = pinned.retain(&filter(), vec![found("bad", true)], &[]).unwrap_err();
    assert_eq!(err, AttemptResult::NoCandidates);
}

#[test]
fn too_few_bidders_is_an_end() {
    let mut low = bidder("b", 1, 0);
    low.clears_min_trust = false;
    let mut declined = bidder("d", 1, 0);
    declined.bid.decision = BidDecision::Reject;
    let scoring = offering(policy()).gate(vec![bidder("a", 1, 0), low, declined]);
    assert_eq!(scoring.eligible().bidders.len(), 1);
    let err = scoring.select(&[1]).unwrap_err();
    assert_eq!(err, AttemptResult::InsufficientWorkers { have: 1, quorum: 2 });
}

#[test]
fn the_escrow_must_cover_the_dearest_cap() {
    let mut p = policy();
    p.paid = true;
    p.max_bid_ton = 3;
    let s = offering(p)
        .gate(vec![bidder("a", 1, 100), bidder("b", 2, 300)])
        .select(&[1, 1])
        .unwrap();
    assert_eq!(s.count(), 2);
    let q = s.question().unwrap();
    assert_eq!(q.max_escrow, 3_000_000_000);
    assert_eq!(q.worst_cap_base, 2100);
    match s.dispatch(Err("too little".into())) {
        Err(e) => assert_eq!(e, CoordinatorError::InsufficientEscrow("too little".into())),
        Ok(_) => panic!("dispatched without cover"),
    }
    // A free job asks nothing.
    assert!(selected(policy()).question().is_none());
}

#[test]
fn metered_workers_may_run_to_their_cap() {
    let d = offering(policy())
        .gate(vec![bidder("a", 1, 100), bidder("b", 2, 0)])
        .select(&[2, 1])
        .unwrap()
        .dispatch(Ok(()))
        .unwrap();
    let metered = d.worker(0).unwrap().deadlines;
    assert_eq!(metered.cap_ms, Some(7_000));
    assert_eq!(metered.stall_ms, 500);
    assert_eq!(metered.attempt_ms, 10_000);
    assert_eq!(d.worker(1).unwrap().deadlines.cap_ms, None);
}

fn resilience(max_retries: u32, max_total_duration_ms: u64) -> Resilience {
    Resilience::new(RetryPolicy { max_retries, max_total_duration_ms }, Backoff::new(100, 1_000))
}

#[test]
fn stalled_providers_are_routed_around() {
    let mut r = resilience(2, 0);
    let tried = || AttemptResult::Inconclusive { tried: vec![id("a"), id("b")] };
    assert_eq!(r.on_attempt(tried(), 0), Next::AskBudget);
    assert_eq!(r.excluded(), vec![id("a"), id("b")]);
    assert_eq!(r.base_delay_ms(), 100);
    let delay = r.on_budget(true, 100).unwrap();
    assert_eq!(delay, 100);
    assert_eq!(r.retries(), 1);
    assert_eq!(r.on_attempt(tried(), 0), Next::AskBudget);
    r.on_budget(true, 200).unwrap();
    assert_eq!(
        r.on_attempt(tried(), 0),
        Next::Stop(CoordinatorError::Exhausted {
            attempts: 3,
            reason: "attempt 3 stalled/silent: 2 selected provider(s) did not deliver".into()
        })
    );
}

#[test]
fn an_empty_budget_stops_the_storm() {
    let mut r = resilience(0, 0);
    assert_eq!(
        r.on_attempt(AttemptResult::InputDrift { reason: "moved".into() }, 0),
        Next::AskBudget
    );
    assert_eq!(
        r.on_budget(false, 0).unwrap_err(),
        CoordinatorError::RetryBudgetExhausted { attempts: 1 }
    );
}

#[test]
fn the_clock_stops_the_loop() {
    let mut r = resilience(0, 1_000);
    assert_eq!(
        r.on_attempt(AttemptResult::Inconclusive { tried: vec![] }, 1_000),
        Next::Stop(CoordinatorError::Exhausted {
            attempts: 1,
            reason: "attempt 1 stalled/silent: 0 selected provider(s) did not deliver; max_total_duration reached".into()
        })
    );
}

#[test]
fn nobody_with_more_memory_is_left() {
    let mut r = resilience(5, 0);
    let oom = AttemptResult::ResourceExceeded {
        oomed: vec![id("a")],
        max_tried_capacity: 64,
        reason: "oom".into(),
    };
    assert_eq!(r.on_attempt(oom, 0), Next::AskBudget);
    assert_eq!(r.capacity_floor(), 64);
    r.on_budget(true, 0).unwrap();
    assert_eq!(
        r.on_attempt(AttemptResult::NoCandidates, 0),
        Next::Stop(CoordinatorError::ExceedsCapacity {
            reason: "attempt 1 resource-exceeded: oom".into()
        })
    );
}

#[test]
fn definite_ends_are_not_retried() {
    assert_eq!(
        resilience(9, 0).on_attempt(AttemptResult::Infeasible { reason: "x".into() }, 0),
        Next::Stop(CoordinatorError::Infeasible { reason: "x".into() })
    );
    assert_eq!(
        resilience(9, 0)
            .on_attempt(AttemptResult::QuorumDisagreement { agreement: 1, quorum: 2 }, 0),
        Next::Stop(CoordinatorError::QuorumFailed { agreement: 1, quorum: 2 })
    );
    assert_eq!(
        resilience(9, 0).on_attempt(AttemptResult::NoCandidates, 0),
        Next::Stop(CoordinatorError::NoCandidates)
    );
    assert_eq!(
        resilience(9, 0).on_attempt(AttemptResult::InsufficientWorkers { have: 1, quorum: 2 }, 0),
        Next::Stop(CoordinatorError::InsufficientWorkers { have: 1, quorum: 2 })
    );
}

#[test]
fn engine_details_lose_their_wrappers() {
    assert_eq!(
        clean_engine_detail("  exec error: execution failed: query: Parser Error: near X  "),
        "Parser Error: near X"
    );
    assert_eq!(clean_engine_detail("plain"), "plain");
    assert_eq!(consensus_failure_detail(&[]), None);
    assert_eq!(
        consensus_failure_detail(&[
            failure("a", Verdict::Malformed, "first"),
            failure("b", Verdict::Infeasible, "query: second"),
        ])
        .as_deref(),
        Some("second")
    );
}

#[test]
fn coordinator_errors_have_texts() {
    for (e, text) in [
        (
            CoordinatorError::InsufficientWorkers { have: 1, quorum: 2 },
            "not enough trustworthy workers: have 1, need quorum 2",
        ),
        (
            CoordinatorError::QuorumFailed { agreement: 1, quorum: 3 },
            "quorum not reached: best agreement 1/3",
        ),
        (
            CoordinatorError::RetryBudgetExhausted { attempts: 4 },
            "retry/hedge budget exhausted after 4 attempt(s) — stopping to avoid a retry storm",
        ),
        (CoordinatorError::NoResult, "winner did not return a result"),
        (CoordinatorError::Settlement("x".into()), "settlement error: x"),
        (CoordinatorError::InsufficientEscrow("x".into()), "x"),
        (CoordinatorError::LocalExecution("x".into()), "local execution failed: x"),
        (CoordinatorError::Transport("x".into()), "transport error: x"),
        (CoordinatorError::Config("x".into()), "config error: x"),
        (
            CoordinatorError::Exhausted { attempts: 2, reason: "r".into() },
            "re-dispatch exhausted after 2 attempt(s) without a usable result (last reason: r)",
        ),
    ] {
        assert_eq!(e.message(), text);
    }
    assert!(CoordinatorError::NoCandidates.message().starts_with("no hosts available"));
    assert!(CoordinatorError::Infeasible { reason: "r".into() }.message().ends_with(": r"));
    assert!(CoordinatorError::ExceedsCapacity { reason: "r".into() }.message().ends_with(": r"));
}

#[test]
fn rules_need_their_switches() {
    let settings = AttemptSettings {
        antiabuse_enabled: true,
        auto_block_enabled: true,
        auto_block_floor_set: true,
        fault_attribution: true,
        nondeterminism: true,
        require_staked_hosts: true,
        min_stake_ton: 5,
        region_attested: true,
        spill_tolerance_bytes: 6,
        capability_weighted: true,
        replicas: 3,
        quorum: 2,
        verify_mode: VerifyMode::Quorum,
        timeouts: Timeouts { stall_ms: 1, dispatch_ms: 2, attempt_ms: 3 },
        economics_enabled: true,
        max_bid_ton: 7,
    };
    let job = JobTerms {
        min_level: AttestationLevel::L1,
        regions_pinned: true,
        paid: true,
        input_bytes: Some(10),
        peak_bytes: None,
        capacity_floor: 9,
    };
    let on = AttemptPolicy::of(&settings, &job);
    assert!(on.selection.auto_block && on.judge.fault_attribution && on.judge.nondeterminism_active);
    assert!(on.selection.region_proof_required && on.paid);
    assert_eq!((on.size.scanned_bytes, on.size.peak_bytes, on.size.capacity_floor), (10, 0, 9));

    let off = AttemptPolicy::of(
        &AttemptSettings { antiabuse_enabled: false, economics_enabled: false, ..settings },
        &JobTerms { regions_pinned: false, ..job },
    );
    assert!(!off.selection.auto_block && !off.judge.fault_attribution);
    assert!(!off.judge.nondeterminism_active && !off.candidates.antiabuse_enabled);
    assert!(!off.selection.region_proof_required && !off.paid);
}
