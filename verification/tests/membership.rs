use p2p_node::libp2p_discovery::{evaluate_ad, AdOutcome};
use p2p_node::membership::CapabilityAd;
use p2p_node::types::{AttestationLevel, CapabilityProfile, DataClass, NodeId};
use p2p_node::{CandidateFilter, MembershipTable};

const NOW: u64 = 1_700_000_000;

fn labeled_ad(
    port: u16,
    ts: u64,
    enabled: bool,
    networks: Vec<&str>,
    groups: Vec<&str>,
    region: Option<&str>,
) -> CapabilityAd {
    CapabilityAd {
        schema_version: 1,
        protocol_major: 1,
        node_id: NodeId(format!("b3:{}", port)),
        addr: format!("127.0.0.1:{}", port),
        dialable: true,
        attestation_level: AttestationLevel::L0,
        ts,
        enabled,
        networks: networks.into_iter().map(String::from).collect(),
        groups: groups.into_iter().map(String::from).collect(),
        region: region.map(String::from),
    }
}

fn signed_ad(port: u16, ts: u64) -> CapabilityAd {
    labeled_ad(port, ts, true, vec!["default"], vec![], None)
}

fn filter() -> CandidateFilter {
    CandidateFilter {
        data_class: DataClass::Public,
        min_attestation: AttestationLevel::L0,
        network: None,
        groups: vec![],
        regions: vec![],
        fail_closed_labels: false,
        nodes: vec![],
    }
}

fn profile(node: &NodeId, seq: u64, rows: u64) -> CapabilityProfile {
    CapabilityProfile {
        schema_version: 1,
        node_id: node.clone(),
        pubkey: "00".repeat(32),
        max_input_bytes: 0,
        max_result_rows: rows,
        max_result_bytes: 0,
        max_peak_memory_bytes: 0,
        max_temp_dir_bytes: 0,
        successes: seq,
        seq,
        ts: NOW,
        sig: String::new(),
    }
}

#[test]
fn find_candidates_prunes_standby_network_and_region() {
    let mut table = MembershipTable::new(50, 3600);
    let now = NOW;
    // A serving, ungrouped EU host.
    assert!(table.ingest(labeled_ad(41_000, now, true, vec!["eu"], vec![], Some("eu")), true));
    // A standby host (advertises enabled=false): must never be a candidate.
    assert!(table.ingest(labeled_ad(41_001, now, false, vec!["eu"], vec![], Some("eu")), true));

    assert_eq!(
        table.find_candidates(10, &filter(), now).len(),
        1,
        "standby ad must be excluded"
    );

    // Network prune: targeting "us" drops the EU host (known, non-matching).
    let mut us = filter();
    us.network = Some("us".into());
    assert!(table.find_candidates(10, &us, now).is_empty());

    // Region fail-closed: a ["us"] pin drops the EU host; an ["eu"] pin keeps it.
    let mut us_region = filter();
    us_region.regions = vec!["us".into()];
    assert!(table.find_candidates(10, &us_region, now).is_empty());
    let mut eu_region = filter();
    eu_region.regions = vec!["eu".into()];
    assert_eq!(table.find_candidates(10, &eu_region, now).len(), 1);
}

#[test]
fn find_candidates_group_is_a_private_pool() {
    let mut table = MembershipTable::new(50, 3600);
    let now = NOW;
    // A grouped (finance) host + an ungrouped public host.
    assert!(table.ingest(
        labeled_ad(42_000, now, true, vec!["default"], vec!["finance"], None),
        true
    ));
    assert!(table.ingest(labeled_ad(42_001, now, true, vec!["default"], vec![], None), true));

    // An ungrouped requester reaches only the public host (groups are private).
    assert_eq!(table.find_candidates(10, &filter(), now).len(), 1);
    // A finance requester reaches both (its claim matches the grouped host).
    let mut fin = filter();
    fin.groups = vec!["finance".into()];
    assert_eq!(table.find_candidates(10, &fin, now).len(), 2);
}

#[test]
fn ingest_verifies_and_samples_bounded() {
    let mut table = MembershipTable::new(50, 3600);
    let now = NOW;
    for p in 0..200u16 {
        assert!(table.ingest(signed_ad(10_000 + p, now), true));
    }
    // bounded capacity
    assert_eq!(table.len(), 50);
    // bounded candidate sample
    let cands = table.find_candidates(1000, &filter(), now);
    assert!(cands.len() <= 50);
    assert!(!cands.is_empty());
}

#[test]
fn rejects_unverifiable_ad() {
    let mut table = MembershipTable::new(50, 3600);
    assert!(!table.ingest(signed_ad(10_000, NOW), false));
    assert_eq!(table.len(), 0);
    assert!(table.is_empty());
}

#[test]
fn stale_ads_excluded_from_candidates() {
    let mut table = MembershipTable::new(50, 30);
    // ts far in the past: stale
    assert!(table.ingest(signed_ad(10_000, NOW.saturating_sub(10_000)), true));
    assert_eq!(table.len(), 1);
    let cands = table.find_candidates(10, &filter(), NOW);
    assert!(cands.is_empty(), "stale ad must not be a candidate");
}

#[test]
fn ingest_profile_requires_pow_verified_ad_and_is_monotonic() {
    let mut table = MembershipTable::new(50, 3600);
    let nid = NodeId("b3:19000".into());

    // No verified ad yet: profile refused, nothing stored.
    assert!(!table.ingest_profile(profile(&nid, 1, 100), true));
    assert!(table.proven_capacity(&nid).is_none());

    // Ingest the node's verified ad, then the profile is accepted.
    assert!(table.ingest(signed_ad(19_000, NOW), true));
    assert!(table.ingest_profile(profile(&nid, 2, 100), true));
    assert_eq!(table.proven_capacity(&nid).unwrap().max_result_rows, 100);

    // Monotonic seq: equal/older seq rejected; strictly newer updates.
    assert!(!table.ingest_profile(profile(&nid, 2, 999), true));
    assert!(!table.ingest_profile(profile(&nid, 1, 999), true));
    assert!(table.ingest_profile(profile(&nid, 3, 500), true));
    assert_eq!(table.proven_capacity(&nid).unwrap().max_result_rows, 500);

    // A profile whose signature does not verify is rejected.
    assert!(!table.ingest_profile(profile(&nid, 4, u64::MAX), false));
    assert_eq!(table.proven_capacity(&nid).unwrap().max_result_rows, 500);
}

#[test]
fn the_least_recent_member_makes_room() {
    let mut table = MembershipTable::new(2, 3600);
    assert!(table.ingest(signed_ad(1, NOW), true));
    assert!(table.ingest(signed_ad(2, NOW), true));
    // Hearing from the first again makes the second the least recent.
    assert!(table.ingest(signed_ad(1, NOW + 1), true));
    assert!(table.ingest(signed_ad(3, NOW + 1), true));
    assert_eq!(table.len(), 2);
    let mut ids: Vec<String> = table
        .eligible(&filter(), NOW + 1)
        .into_iter()
        .map(|c| c.node_id.unwrap().0)
        .collect();
    ids.sort();
    assert_eq!(ids, vec!["b3:1".to_string(), "b3:3".to_string()]);
}

#[test]
fn the_ad_heard_last_is_kept() {
    let mut table = MembershipTable::new(4, 3600);
    assert!(table.ingest(labeled_ad(7, NOW, true, vec!["one"], vec![], None), true));
    assert!(table.ingest(labeled_ad(7, NOW + 5, true, vec!["two"], vec![], None), true));
    let got = table.eligible(&filter(), NOW);
    assert_eq!(got.len(), 1);
    assert_eq!(got[0].advertised_networks, vec!["two".to_string()]);
}

#[test]
fn each_ad_is_judged_for_its_first_fault() {
    let mut table = MembershipTable::new(4, 3600);
    let ad = |ts: u64| signed_ad(5, ts);
    assert_eq!(evaluate_ad(None, true, &mut table, NOW, 600, 1, 1), AdOutcome::Malformed);
    assert_eq!(
        evaluate_ad(Some(ad(NOW)), true, &mut table, NOW, 600, 2, 1),
        AdOutcome::IncompatibleVersion
    );
    assert_eq!(
        evaluate_ad(Some(ad(NOW)), true, &mut table, NOW, 600, 1, 2),
        AdOutcome::IncompatibleVersion
    );
    assert_eq!(
        evaluate_ad(Some(ad(NOW - 601)), true, &mut table, NOW, 600, 1, 1),
        AdOutcome::Expired
    );
    assert_eq!(
        evaluate_ad(Some(ad(NOW + 61)), true, &mut table, NOW, 600, 1, 1),
        AdOutcome::Expired
    );
    assert_eq!(
        evaluate_ad(Some(ad(NOW)), false, &mut table, NOW, 600, 1, 1),
        AdOutcome::Rejected
    );
    assert!(table.is_empty());
    assert_eq!(
        evaluate_ad(Some(ad(NOW + 60)), true, &mut table, NOW, 600, 1, 1),
        AdOutcome::Accepted
    );
    assert_eq!(table.len(), 1);
}
