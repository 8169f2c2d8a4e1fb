use p2p_node::coordinator::request::CredentialMode;
use p2p_node::node::{
    advertised_addr, build_host_capability_ad, extension, extract_string_literals,
    falls_back_to_local, host_sandbox, local_active, preflight_estimate, readvertise_secs,
    resolve_seeds, scan_method, seed_host, storage_wiring, subprocess_version, HostConfig,
    HostSandbox, NodeState, PathProbe, SandboxBackend, ScanMethod, StorageWiring,
};
use p2p_node::planner::PreferMode;
use p2p_node::types::AttestationLevel;
use p2p_node::{
    csv_metadata, estimate_text, CoordinatorError, EstimateParams, NodeError, Projection,
    ScanEstimate,
};

#[test]
fn preflight_pure_in_memory_query_is_tiny_local_estimate() {
    // No data source: a confidently-tiny (zero-size) estimate.
    let est = preflight_estimate("SELECT 1 + 1", &[]).expect("pure query gets an estimate");
    assert_eq!(est.scanned_uncompressed_bytes, 0);
    assert_eq!(est.peak_working_set_bytes, 0);
}

/// What is known of a path that is not there.
fn missing(path: &str) -> PathProbe {
    PathProbe { path: path.into(), exists: false, scan: None }
}

#[test]
fn preflight_unknowable_sources_yield_none() {
    // A remote object we cannot stat pre-flight: none.
    assert!(preflight_estimate(
        "SELECT * FROM read_parquet('s3://bucket/k.parquet')",
        &[missing("s3://bucket/k.parquet")]
    )
    .is_none());
    // A glob we cannot expand here: none.
    assert!(preflight_estimate(
        "SELECT * FROM read_csv_auto('/data/*.csv')",
        &[missing("/data/*.csv")]
    )
    .is_none());
    // A relation / table function with no on-disk literal: none.
    assert!(preflight_estimate("SELECT * FROM range(100)", &[]).is_none());
    assert!(preflight_estimate("SELECT * FROM my_table", &[]).is_none());
    // A data-looking local literal that does not exist: none (unknowable).
    assert!(preflight_estimate(
        "SELECT * FROM read_csv_auto('/nope/missing.csv')",
        &[missing("/nope/missing.csv")]
    )
    .is_none());
}

/// What a probe of a CSV file with these bytes finds.
fn csv_scan(bytes: &[u8]) -> ScanEstimate {
    let sample = &bytes[..bytes.len().min(64 * 1024)];
    let meta = csv_metadata(bytes.len() as u64, sample, b',');
    let totals =
        estimate_text(&meta, &Projection::All, &EstimateParams::default(), bytes.len() as u64);
    let rows = totals.total_rows;
    totals.finalize(rows)
}

#[test]
fn preflight_sizes_a_real_local_csv_by_metadata() {
    let mut small = b"id,name\n".to_vec();
    for i in 0..50 {
        small.extend_from_slice(format!("{},row-{}\n", i, i).as_bytes());
    }
    let mut big = b"id,name\n".to_vec();
    for i in 0..200_000 {
        big.extend_from_slice(format!("{},a-much-longer-row-value-{}\n", i, i).as_bytes());
    }
    let q = |p: &str| format!("SELECT * FROM read_csv_auto('{}')", p);
    let probe = |p: &str, bytes: &[u8]| PathProbe {
        path: p.into(),
        exists: true,
        scan: Some(csv_scan(bytes)),
    };
    let small_est = preflight_estimate(&q("/d/small.csv"), &[probe("/d/small.csv", &small)])
        .expect("local csv is sizeable");
    let big_est = preflight_estimate(&q("/d/big.csv"), &[probe("/d/big.csv", &big)])
        .expect("local csv is sizeable");
    assert!(small_est.scanned_uncompressed_bytes > 0);
    assert!(
        big_est.scanned_uncompressed_bytes > small_est.scanned_uncompressed_bytes,
        "the bigger file must estimate a larger scan"
    );
}

#[test]
fn preflight_estimate_only_for_pure_in_memory_queries() {
    // Pure scalar / no data source: a (tiny) estimate so `auto` stays local.
    let e = preflight_estimate("SELECT 1 + 1", &[]).expect("pure scalar gets an estimate");
    assert_eq!(e.peak_working_set_bytes, 0);
    assert!(preflight_estimate("SELECT now()", &[]).is_some());

    // Anything with a data source: none.
    assert!(preflight_estimate("SELECT * FROM t", &[]).is_none());
    assert!(preflight_estimate(
        "select count(*)\nfrom read_csv_auto('x.csv')",
        &[missing("x.csv")]
    )
    .is_none());
    assert!(preflight_estimate("SELECT a FROM range(100)", &[]).is_none());
}

fn neutral() -> HostSandbox {
    HostSandbox { enabled: false, process_per_job: false, backend: SandboxBackend::Noop }
}

fn secure() -> HostSandbox {
    HostSandbox { enabled: true, process_per_job: true, backend: SandboxBackend::CgroupsSeccomp }
}

#[test]
fn host_refuses_remote_access_without_egress_confinement() {
    let host = host_sandbox(neutral(), true, secure());
    // No executor: egress is not confined, so remote access is refused.
    assert!(!host.remote_egress_confined(&None));
    assert!(
        host.refusal(true, &None).is_some(),
        "remote-access host without egress confinement must refuse to serve"
    );
    // A host without remote access serves normally.
    assert!(host.refusal(false, &None).is_none());
    // With an executor the sandbox confines it.
    assert!(host.refusal(true, &Some("/usr/bin/job-exec".into())).is_none());
    assert!(host.runs_subprocess(&Some("/usr/bin/job-exec".into())));
    assert!(!host.runs_subprocess(&Some("  ".into())));
    assert!(!neutral().runs_subprocess(&Some("/usr/bin/job-exec".into())));
}

#[test]
fn host_sandbox_is_secure_by_default_but_self_run_is_not_sandboxed() {
    // The global default is neutral; the serving path is secure by default.
    let host = host_sandbox(neutral(), true, secure());
    assert!(host.enabled && host.process_per_job);
}

#[test]
fn host_sandbox_honors_explicit_operator_optout() {
    let configured = HostSandbox { backend: SandboxBackend::Noop, ..neutral() };
    let host = host_sandbox(configured, false, secure());
    assert_eq!(host.backend, SandboxBackend::Noop);
    assert!(!host.enabled, "operator opt-out is respected on the host");
}

#[test]
fn literals_and_extensions() {
    assert_eq!(
        extract_string_literals("SELECT 'a''b', 'c'"),
        vec!["a'b".to_string(), "c".to_string()]
    );
    assert_eq!(extension("/d/a.CSV").as_deref(), Some("csv"));
    assert_eq!(extension("/d.x/a"), None);
    assert_eq!(scan_method("a.csv"), ScanMethod::Delimited(b','));
    assert_eq!(scan_method("a.tsv"), ScanMethod::Delimited(b'\t'));
    assert_eq!(scan_method("a.ndjson"), ScanMethod::Json);
    assert_eq!(scan_method("a.parquet"), ScanMethod::Parquet);
    assert_eq!(scan_method("a.bin"), ScanMethod::Raw);
}

#[test]
fn paid_queries_need_a_wallet() {
    let node = NodeState { has_grid_targets: true, has_wallet: false };
    assert!(matches!(
        node.query_start(true, None, PreferMode::Auto, true),
        Err(NodeError::WalletRequired)
    ));
    let start = node.query_start(false, Some(PreferMode::Remote), PreferMode::Auto, true).unwrap();
    assert_eq!(start.effective, PreferMode::Remote);
}

#[test]
fn without_a_grid_an_automatic_query_stays_local() {
    let node = NodeState { has_grid_targets: false, has_wallet: false };
    let start = node.query_start(false, None, PreferMode::Auto, true).unwrap();
    assert_eq!(start.prefer, Some(PreferMode::Local));
    assert!(falls_back_to_local(&CoordinatorError::NoCandidates, PreferMode::Auto, true));
    assert!(!falls_back_to_local(&CoordinatorError::NoCandidates, PreferMode::Remote, true));
    assert!(!falls_back_to_local(&CoordinatorError::NoCandidates, PreferMode::Auto, false));
    assert!(!falls_back_to_local(&CoordinatorError::NoResult, PreferMode::Auto, true));
}

#[test]
fn storage_is_wired_only_for_remote_access() {
    assert_eq!(storage_wiring(false, CredentialMode::Presigned), StorageWiring::Nothing);
    assert_eq!(storage_wiring(true, CredentialMode::Presigned), StorageWiring::Presign);
    assert_eq!(storage_wiring(true, CredentialMode::ScopedSecret), StorageWiring::Credential);
    assert!(local_active(true, true));
    assert!(!local_active(true, false));
    assert!(!local_active(false, true));
}

#[test]
fn the_ad_says_what_the_host_offers() {
    let cfg = HostConfig {
        memory_bytes: 1 << 30,
        threads: 4,
        max_jobs: 3,
        economics_enabled: true,
        rate_per_second: u128::MAX,
        enabled: true,
        networks: vec!["default".into()],
        groups: vec![],
        region: Some("eu".into()),
    };
    let ad = build_host_capability_ad(&cfg, "1.2.3.4:5".into(), 99);
    assert_eq!(ad.addr, "1.2.3.4:5");
    assert_eq!(ad.free_mem_bytes, 1 << 30);
    assert_eq!(ad.free_threads, 4);
    assert_eq!(ad.max_jobs, 3);
    assert_eq!(ad.attestation_level, AttestationLevel::L0);
    assert_eq!(ad.price, u64::MAX);
    assert_eq!(ad.ts, 99);
    assert_eq!(ad.region.as_deref(), Some("eu"));
    let free = HostConfig { economics_enabled: false, ..cfg };
    assert_eq!(build_host_capability_ad(&free, "a".into(), 0).price, 0);
}

#[test]
fn addresses_and_seeds() {
    assert_eq!(
        advertised_addr(Some("pub:1".into()), Some("0.0.0.0:2".into())).as_deref(),
        Some("pub:1")
    );
    assert_eq!(advertised_addr(None, Some("0.0.0.0:2".into())).as_deref(), Some("0.0.0.0:2"));
    assert_eq!(advertised_addr(None, None), None);
    let seeds = resolve_seeds(&[Some("1.1.1.1:1".into()), None, Some("2.2.2.2:2".into())]);
    assert_eq!(seeds.len(), 2);
    assert_eq!(seeds[1].addr, "2.2.2.2:2");
    assert_eq!(seeds[0].node_id, None);
    assert_eq!(seed_host("quic://example.org:9000//"), "example.org:9000");
    assert_eq!(seed_host("udp://10.0.0.1:1"), "10.0.0.1:1");
    assert_eq!(seed_host("10.0.0.1:1"), "10.0.0.1:1");
    assert_eq!(readvertise_secs(0), 5);
    assert_eq!(readvertise_secs(61), 30);
    assert_eq!(subprocess_version("mock-1"), "mock-1-subprocess");
}

#[test]
fn node_errors_have_texts() {
    assert!(NodeError::WalletRequired
        .message()
        .starts_with("paid execution was requested (payment => 'paid') but this node has no wallet"));
    assert_eq!(NodeError::Config("x".into()).message(), "config error: x");
    assert_eq!(NodeError::Transport("x".into()).message(), "transport error: x");
    assert_eq!(NodeError::Engine("x".into()).message(), "engine init error: x");
    assert_eq!(NodeError::Discovery("x".into()).message(), "discovery error: x");
    assert_eq!(
        NodeError::Query(CoordinatorError::NoCandidates).message(),
        CoordinatorError::NoCandidates.message()
    );
}
