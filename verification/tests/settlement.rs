use p2p_node::coordinator::attempt::Outcome;
use p2p_node::coordinator::local::{
    begin_local, begin_local_governed, end_local, grid_outcome, local_estimate, LocalEnd,
};
use p2p_node::coordinator::metering::MeteredTerms;
use p2p_node::coordinator::params::{
    commitment_fine, reputation_basis, wallet_siblings, OnchainPolicy, PolicyRead, ReputationBasis,
    SiblingHistory, SyncedParams, WalletEntry,
};
use p2p_node::coordinator::progress::{
    collect_one, Collected, Progress, ProgressTracker, StreamEvent,
};
use p2p_node::coordinator::request::{
    credential_prefix, data_class_from_cfg, data_class_to_cfg, job_data_class, make_offer,
    parse_level, request_scope, storage_grant, CredentialMode, StorageGrant,
};
use p2p_node::coordinator::selection::{
    region_issuer_key, region_proof_ok, verified_attestation_level, RegionIssuer,
};
use p2p_node::coordinator::settle::{
    candidate_wallets, escrow_bid_nanoton, fee_recipient_ok, job_record, local_recipient, open_escrow, payee_of,
    split_escrow, wallet_of, BindingLookup, LocalRecipient, MeteredSettle, Payee, SettleJob,
    WalletAddress, WorstCase,
};
use p2p_node::engine::{ResultSet, Value};
use p2p_node::governor::{BudgetConfig, CapacityGovernor, Role};
use p2p_node::planner::{PlannerConfig, PreferMode};
use p2p_node::types::{
    AttestationLevel, DataClass, DataClassCfg, InputSnapshot, NodeId, ObjectVersion, PinnedObject,
};
use p2p_node::{CoordinatorError, DefaultPlanner, EngineError, LocalExecutor, WorkingSetEstimate};

fn id(s: &str) -> NodeId {
    NodeId(format!("b3:{}", s))
}

fn wallet(n: u8) -> WalletAddress {
    WalletAddress { workchain: 0, account: vec![n; 32] }
}

fn payee(n: u8, payable: bool) -> Payee {
    Payee { wallet: wallet(n), payable }
}

#[test]
fn a_node_without_a_wallet_is_named_by_its_digest() {
    let n = id("w");
    let derived = wallet_of(&n, &BindingLookup::NotWired, &None);
    assert_eq!(derived.workchain, 0);
    assert_eq!(derived.account, blake3::hash(b"b3:w").as_bytes().to_vec());
    assert!(payee_of(&n, &BindingLookup::NotWired, &None).payable);
    assert!(!payee_of(&n, &BindingLookup::Free, &None).payable);
    assert_eq!(wallet_of(&n, &BindingLookup::Bound(wallet(1)), &Some(wallet(2))), wallet(1));
    assert_eq!(wallet_of(&n, &BindingLookup::Free, &Some(wallet(2))), wallet(2));
}

#[test]
fn the_fixed_split_spends_the_escrow() {
    // 12_000 = 10_000 + 15% + 5%.
    let s = split_escrow(12_000, None, 1500, 500, &payee(1, true), &[payee(2, true)]);
    assert_eq!(s.base, 10_000);
    assert_eq!(s.winner.amount, 10_000);
    assert_eq!(s.platform_fee, 1_500);
    assert_eq!(s.participants.len(), 1);
    assert_eq!(s.participants[0].to, wallet(2));
    assert_eq!(s.participants[0].amount, 500);
    assert_eq!(s.base + s.platform_fee + 500, 12_000);
}

#[test]
fn the_metered_split_bills_what_ran() {
    let terms = MeteredTerms { rate_per_second: 100, rate_per_gb: 0, cap_seconds: 50 };
    let m = MeteredSettle { terms, billed_seconds: 3, bytes: 0 };
    let s = split_escrow(1_000_000, Some(m), 1000, 0, &payee(1, false), &[payee(2, false)]);
    assert_eq!(s.base, 300);
    // A winner without a wallet is not paid; the fee is still due.
    assert_eq!(s.winner.amount, 0);
    assert_eq!(s.platform_fee, 30);
    assert!(s.participants.is_empty());
}

#[test]
fn escrows_open_only_for_paid_jobs_with_a_sound_recipient() {
    let hash = "ab".repeat(32);
    let open = |paid: bool, rail: bool, chain: Option<WalletAddress>, local: LocalRecipient| {
        open_escrow(
            paid,
            rail,
            None,
            2,
            &hash,
            5,
            &payee(1, true),
            &[payee(2, true), payee(1, true)],
            &chain,
            &local,
        )
    };
    let e = open(true, true, Some(wallet(9)), LocalRecipient::Unset).unwrap();
    assert_eq!(e.max_bid, 2_000_000_000);
    assert_eq!(e.result_hash, blake3::hash(hash.as_bytes()).as_bytes().to_vec());
    assert_eq!(e.params_version, 5);
    assert_eq!(e.candidates, vec![wallet(1), wallet(2)]);
    assert_eq!(e.fee_recipient, Some(wallet(9)));
    assert!(open(false, true, None, LocalRecipient::Unset).is_none());
    assert!(open(true, false, None, LocalRecipient::Unset).is_none());
    assert!(open(true, true, Some(wallet(9)), LocalRecipient::Wallet(wallet(8))).is_none());
    assert!(open(true, true, Some(wallet(9)), LocalRecipient::Unparseable).is_none());
    assert!(fee_recipient_ok(&None, &LocalRecipient::Unparseable));
    assert_eq!(escrow_bid_nanoton(0), 1_000_000_000);
    assert_eq!(candidate_wallets(&payee(1, true), &[]), vec![wallet(1)]);
}

#[test]
fn the_job_record_names_what_was_settled() {
    let r = job_record("job", "qh", &payee(3, true), 77, "rh", 4, &Some("fp".into()));
    assert_eq!(r.job_id, "job");
    assert_eq!(r.query_hash, "qh");
    assert_eq!(r.requester_wallet, wallet(3));
    assert_eq!(r.max_bid, 77);
    assert_eq!(r.result_hash, "rh");
    assert_eq!(r.params_version, 4);
    assert_eq!(r.input_fingerprint, "fp");
}

#[test]
fn a_failed_read_keeps_the_cached_policy() {
    let mut p = SyncedParams::new().with_params_version(2);
    assert_eq!(p.current_params_version(), 2);
    assert_eq!(p.current_fee_recipient(), None);
    assert_eq!(
        p.sync_params_once(PolicyRead::NoSource).unwrap_err(),
        CoordinatorError::Settlement("no GlobalParams source wired".into())
    );
    let policy = OnchainPolicy { version: 7, fee_recipient: wallet(4) };
    assert_eq!(p.sync_params_once(PolicyRead::Read(policy.clone())).unwrap(), policy);
    assert!(p.sync_params_once(PolicyRead::Failed("down".into())).is_err());
    assert_eq!(p.current_params_version(), 7);
    assert_eq!(p.current_fee_recipient(), Some(wallet(4)));
    // A free job never runs under it.
    assert_eq!(p.overlay(false, true), None);
    assert_eq!(p.overlay(true, false), None);
    assert_eq!(p.overlay(true, true), Some(policy));
}

#[test]
fn reputations_are_shared_by_wallet() {
    let e = |n: &str, w: &str| WalletEntry { node_id: id(n), wallet: w.into() };
    let all = vec![e("a", "W"), e("b", "V"), e("c", "W")];
    assert_eq!(wallet_siblings(Some(&all[0]), Some(&all)), vec![id("a"), id("c")]);
    assert!(wallet_siblings(None, Some(&all)).is_empty());
    assert!(wallet_siblings(Some(&all[0]), None).is_empty());

    let h = |observations: usize, rated: bool| SiblingHistory { observations, rated };
    assert!(matches!(
        reputation_basis(&[h(0, false), h(0, true)]),
        ReputationBasis::Bootstrap
    ));
    match reputation_basis(&[h(3, true), h(0, true), h(5, true), h(9, false)]) {
        ReputationBasis::Weighted { members, total } => {
            assert_eq!(members, vec![0, 2]);
            assert_eq!(total, 8);
        }
        other => panic!("{:?}", other),
    }
    assert_eq!(commitment_fine(10, 3), Some(3));
    assert_eq!(commitment_fine(0, 3), None);
    assert_eq!(commitment_fine(10, 0), None);
}

fn beat(job: &str, seq: u64) -> Progress {
    Progress { job_id: job.into(), seq, body: vec![seq as u8] }
}

#[test]
fn heartbeats_keep_the_newest() {
    let mut t = ProgressTracker::new();
    t.update(beat("j", 2));
    t.update(beat("j", 1));
    t.update(beat("k", 1));
    assert_eq!(t.latest(&"j".to_string()), Some(beat("j", 2)));
    assert_eq!(t.snapshot().len(), 2);
    t.clear(&"j".to_string());
    assert_eq!(t.latest(&"j".to_string()), None);
}

#[test]
fn anything_but_a_heartbeat_ends_the_collection() {
    let mut t = ProgressTracker::new();
    let w = id("w");
    assert!(matches!(
        collect_one(&mut t, &w, StreamEvent::Progress(beat("j", 1))),
        Collected::Reading
    ));
    match collect_one(
        &mut t,
        &w,
        StreamEvent::Commit {
            result_hash: "h".into(),
            latency_ms: 5,
            input_fingerprint: "f".into(),
        },
    ) {
        Collected::Committed(c) => {
            assert_eq!((c.worker, c.hash.as_str(), c.latency_ms), (id("w"), "h", 5));
        }
        other => panic!("{:?}", other),
    }
    match collect_one(&mut t, &w, StreamEvent::Ack { ok: false, detail: "no".into() }) {
        Collected::Failed(n, why) => assert_eq!((n, why.as_str()), (id("w"), "no")),
        other => panic!("{:?}", other),
    }
    for e in [
        StreamEvent::Ack { ok: true, detail: String::new() },
        StreamEvent::Unexpected,
        StreamEvent::Broken,
        StreamEvent::Stalled,
        StreamEvent::DeadlinePassed,
    ] {
        assert!(matches!(collect_one(&mut t, &w, e), Collected::Silent(_)));
    }
}

fn planner() -> DefaultPlanner {
    DefaultPlanner::new(planner_config())
}

fn planner_config() -> PlannerConfig {
    PlannerConfig {
        enabled: true,
        local_execution_enabled: true,
        prefer: PreferMode::Auto,
        max_concurrent_local_jobs: 1,
        size_threshold_bytes: 1 << 30,
        spill_tolerance_bytes: 100,
        max_local_latency_ms: 0,
    }
}

fn tiny() -> WorkingSetEstimate {
    WorkingSetEstimate {
        scanned_uncompressed_bytes: 10,
        estimated_rows: 1,
        scan_buffer_bytes: 10,
        group_by_bytes: 0,
        join_build_bytes: 0,
        sort_bytes: 0,
        peak_working_set_bytes: 10,
        estimated_runtime_ms: 0,
    }
}

#[test]
fn local_runs_reserve_before_they_begin() {
    let mut local = LocalExecutor::new(1 << 30, &planner_config());
    let start = begin_local(&planner(), &mut local, PreferMode::Auto, Some(tiny()), 100, 0).unwrap();
    assert_eq!(start.lease.memory_bytes, (1 << 30) + 100);
    assert_eq!(start.lease.threads, 1);
    // The one slot is taken: the next goes to the grid.
    assert!(begin_local(&planner(), &mut local, PreferMode::Auto, Some(tiny()), 100, 0).is_none());
    local.release(start.reservation);
    assert!(begin_local(&planner(), &mut local, PreferMode::Remote, Some(tiny()), 100, 0).is_none());
    // What may read outside data is never offered by its size.
    assert_eq!(local_estimate("SELECT * FROM t", Some(tiny())), None);
    assert_eq!(local_estimate("SELECT 1", Some(tiny())), Some(tiny()));
}

#[test]
fn local_failures_for_want_of_memory_go_to_the_grid() {
    let oom = || Err(EngineError::Exec("Out of Memory".into()));
    let end = |prefer: PreferMode, exec: Result<ResultSet, EngineError>| {
        end_local(&planner(), prefer, exec, "job".into(), &id("me"))
    };
    assert!(matches!(end(PreferMode::Auto, oom()), LocalEnd::Grid));
    assert!(matches!(end(PreferMode::Local, oom()), LocalEnd::Failed(_)));
    match end(PreferMode::Auto, Err(EngineError::Exec("syntax".into()))) {
        LocalEnd::Failed(e) => {
            assert_eq!(e.message(), "local execution failed: execution failed: syntax")
        }
        _ => panic!("a syntax error is final"),
    }
    let rs = ResultSet { columns: vec!["x".into()], rows: vec![vec![Value::Int(1)]] };
    match end(PreferMode::Auto, Ok(rs.clone())) {
        LocalEnd::Done(o) => {
            assert!(o.executed_locally && o.verified);
            assert_eq!(o.result, rs);
            assert_eq!(o.winner, Some(id("me")));
        }
        _ => panic!("the result was there"),
    }
}

fn object(uri: &str) -> PinnedObject {
    PinnedObject {
        uri: uri.into(),
        provider: "s3".into(),
        version: ObjectVersion::ContentAddressed { sha256: "00".into() },
    }
}

#[test]
fn one_credential_covers_every_object() {
    let objs = vec![object("s3://b/data/y=1/a.parquet"), object("s3://b/data/y=2/b.parquet")];
    assert_eq!(credential_prefix(&objs), "s3://b/data/");
    assert_eq!(credential_prefix(&objs[..1]), "s3://b/data/y=1/");
    assert_eq!(credential_prefix(&[]), "");

    let snap = Some(InputSnapshot { objects: objs, fingerprint: "fp".into() });
    match storage_grant(CredentialMode::Presigned, true, true, &snap) {
        StorageGrant::Presign(uris) => assert_eq!(uris.len(), 2),
        other => panic!("{:?}", other),
    }
    match storage_grant(CredentialMode::ScopedSecret, true, true, &snap) {
        StorageGrant::Issue(prefix) => assert_eq!(prefix, "s3://b/data/"),
        other => panic!("{:?}", other),
    }
    assert!(matches!(
        storage_grant(CredentialMode::Presigned, false, true, &snap),
        StorageGrant::Nothing
    ));
}

#[test]
fn offers_carry_the_requester_s_scope() {
    let scope = request_scope(
        &Some("eu".to_string()),
        &[],
        &["de".to_string()],
        &["finance".to_string()],
        &Some("token".to_string()),
    );
    let offer = make_offer(
        "job",
        &id("me"),
        "qh",
        Some(42),
        DataClass::Internal,
        7,
        &scope,
        &Some("fp".to_string()),
    );
    assert_eq!(offer.network.as_deref(), Some("eu"));
    assert_eq!(offer.regions, vec!["de".to_string()]);
    assert_eq!(offer.nonce, 7);
    assert_eq!(offer.requester_id, id("me"));
    assert_eq!(offer.input_fingerprint_hint.as_deref(), Some("fp"));
    assert_eq!(offer.data_class, DataClass::Internal);
}

#[test]
fn levels_and_classes() {
    assert_eq!(parse_level("L2"), AttestationLevel::L2);
    assert_eq!(parse_level("l2"), AttestationLevel::L0);
    for c in [DataClass::Public, DataClass::Internal, DataClass::Sensitive] {
        assert_eq!(data_class_from_cfg(data_class_to_cfg(c)), c);
    }
    assert_eq!(job_data_class(Some(DataClassCfg::Sensitive)), DataClass::Sensitive);
    assert_eq!(job_data_class(None), DataClass::Public);
    assert_eq!(
        verified_attestation_level(AttestationLevel::L2, Some(false)),
        AttestationLevel::L0
    );
    assert_eq!(
        verified_attestation_level(AttestationLevel::L2, Some(true)),
        AttestationLevel::L2
    );
}

#[test]
fn a_region_is_proved_for_the_bidder_alone() {
    let issuers = vec![RegionIssuer { region: "eu".into(), key_hex: "0f".repeat(32) }];
    assert_eq!(region_issuer_key(&issuers, &"eu".to_string()), Some(vec![0x0f; 32]));
    assert_eq!(region_issuer_key(&issuers, &"us".to_string()), None);
    let bad = vec![RegionIssuer { region: "eu".into(), key_hex: "zz".into() }];
    assert_eq!(region_issuer_key(&bad, &"eu".to_string()), None);
    let regions = vec!["eu".to_string()];
    assert!(region_proof_ok(&id("w"), &regions, &issuers, &[Some(id("w"))]));
    assert!(!region_proof_ok(&id("w"), &regions, &issuers, &[Some(id("x"))]));
    assert!(!region_proof_ok(&id("w"), &regions, &issuers, &[None]));
    assert!(!region_proof_ok(&id("w"), &regions, &bad, &[Some(id("w"))]));
}

#[test]
fn governed_runs_hold_a_share_of_the_pool() {
    let budget = BudgetConfig {
        memory_bytes: 1000,
        threads: 2,
        max_jobs: 4,
        per_job_memory_bytes: 300,
        per_job_threads: 1,
        data_classes: vec![],
    };
    let mut pool = CapacityGovernor::new(&budget, 4, 1000, true);
    let mut local = LocalExecutor::governed(1000, &planner_config(), 1, 300);
    let start =
        begin_local_governed(&planner(), &mut local, &mut pool, PreferMode::Local, None, 5, 3)
            .unwrap();
    assert_eq!(start.reservation.reserved_bytes(), 300);
    assert_eq!(start.lease.threads, 3);
    assert_eq!(pool.free_memory(), 700);
    pool.release(local.release(start.reservation).unwrap());
    assert_eq!(pool.free_memory(), 1000);
    assert_eq!(local.headroom_bytes(), 1000);
    // A full pool sends the query to the grid, and nothing stays reserved.
    let _served = pool.try_reserve(Role::Served, 800, 1).unwrap();
    let start =
        begin_local_governed(&planner(), &mut local, &mut pool, PreferMode::Local, None, 5, 3);
    assert!(start.is_none());
    assert_eq!(local.headroom_bytes(), 1000);
}

#[test]
fn a_grid_outcome_carries_the_attempt_s() {
    let outcome = Outcome {
        agreed_hash: "h".into(),
        agreement: 2,
        quorum: 2,
        verified: true,
        winner: NodeId("b3:w".into()),
        winner_latency_ms: 7,
        winner_terms: None,
        participants: vec![NodeId("b3:w".into()), NodeId("b3:x".into())],
        fined: vec![],
    };
    let result = ResultSet { columns: vec!["a".into()], rows: vec![] };
    let o = grid_outcome("job".into(), result.clone(), outcome, vec![]);
    assert_eq!(o.agreed_hash.as_deref(), Some("h"));
    assert_eq!(o.winner, Some(NodeId("b3:w".into())));
    assert_eq!((o.agreement, o.quorum, o.verified), (2, 2, true));
    assert_eq!(o.participants.len(), 2);
    assert_eq!(o.result, result);
    assert!(!o.executed_locally);
}

fn settle_job(metered: Option<MeteredSettle>) -> SettleJob {
    SettleJob {
        job_id: "job".into(),
        query_hash: "q".into(),
        agreed_hash: "h".into(),
        params_version: 4,
        input_fingerprint: None,
        metered,
        fee_bps: 1500,
        comm_bps: 500,
        winner: payee(1, true),
        agreeing: vec![payee(2, true), payee(3, false)],
    }
}

#[test]
fn a_job_is_recorded_once_it_is_paid() {
    assert!(settle_job(None)
        .open(false, true, None, 3, &None, &LocalRecipient::Unset)
        .is_none());
    assert_eq!(settle_job(None).worst_case(), None);
    let terms = MeteredTerms { rate_per_second: 10, rate_per_gb: 0, cap_seconds: 100 };
    let metered = MeteredSettle { terms, billed_seconds: 30, bytes: 0 };
    let job = settle_job(Some(metered));
    assert_eq!(
        job.worst_case(),
        Some(WorstCase { base: 1000, verifiers: 2, fee_bps: 1500, comm_bps: 500 })
    );
    let (opening, escrow) =
        job.open(true, true, Some(1250), 3, &None, &LocalRecipient::Unset).unwrap();
    assert_eq!(escrow.max_bid, 1250);
    assert_eq!(escrow.candidates, vec![wallet(1), wallet(2), wallet(3)]);
    let splitting = opening.opened(1250);
    let q = splitting.question();
    // The free verifier takes part unpaid.
    assert_eq!((q.escrow, q.base, q.verifiers), (1250, 300, 1));
    let payable = splitting.covered(Ok(())).unwrap();
    assert_eq!(payable.split().winner.amount, 300);
    assert_eq!(payable.split().platform_fee, 45);
    assert_eq!(payable.split().participants[0].amount, 15);
    let record = payable.settled(&payee(9, true));
    assert_eq!((record.max_bid, record.params_version), (1250, 4));
    assert_eq!(record.requester_wallet, wallet(9));
    assert_eq!(record.input_fingerprint, "");
    // An escrow that falls short ends the settlement.
    let (opening, _) = settle_job(None)
        .open(true, true, None, 3, &None, &LocalRecipient::Unset)
        .unwrap();
    assert_eq!(opening.opened(7).covered(Err("short".into())).unwrap_err(), "short");
}

#[test]
fn a_blank_fee_recipient_is_none() {
    let blank = Some(" \t".to_string());
    assert_eq!(local_recipient(&None, Some(wallet(1))), LocalRecipient::Unset);
    assert_eq!(local_recipient(&blank, None), LocalRecipient::Unset);
    let set = Some("0:ab".to_string());
    assert_eq!(local_recipient(&set, None), LocalRecipient::Unparseable);
    assert_eq!(local_recipient(&set, Some(wallet(1))), LocalRecipient::Wallet(wallet(1)));
}
