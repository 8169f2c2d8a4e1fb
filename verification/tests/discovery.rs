use p2p_node::discovery::{any_shared, IdProvenance};
use p2p_node::types::{AttestationLevel, DataClass, NodeId};
use p2p_node::{Candidate, CandidateFilter, StaticDiscovery};

fn peer(port: u16) -> Candidate {
    Candidate::new(None, format!("127.0.0.1:{}", port))
}

fn filter() -> CandidateFilter {
    CandidateFilter {
        data_class: DataClass::Public,
        min_attestation: AttestationLevel::L0,
        network: None,
        groups: vec![],
        regions: vec![],
        fail_closed_labels: false,
        nodes: vec![],
    }
}

#[test]
fn returns_bounded_sample() {
    let peers: Vec<_> = (0..1000).map(|i| peer(10_000 + i)).collect();
    let mut disc = StaticDiscovery::new(peers, 16);
    // even asking for 1000, we never exceed the sample cap
    let got = disc.find_candidates(1000, &filter());
    assert_eq!(got.len(), 16);
}

#[test]
fn respects_want_below_cap() {
    let peers: Vec<_> = (0..100).map(|i| peer(20_000 + i)).collect();
    let mut disc = StaticDiscovery::new(peers, 16);
    let got = disc.find_candidates(5, &filter());
    assert_eq!(got.len(), 5);
}

#[test]
fn node_targeting_restricts_to_exact_ids_fail_closed() {
    let with_id =
        |port: u16, id: &str| Candidate::new(Some(NodeId(id.into())), format!("127.0.0.1:{}", port));
    let peers = vec![
        with_id(41_000, "b3:aaaa"),
        with_id(41_001, "b3:bbbb"),
        with_id(41_002, "b3:cccc"),
        peer(41_003), // no id
    ];
    let mut disc = StaticDiscovery::new(peers, 16);

    let mut f = filter();
    f.nodes = vec![NodeId("b3:bbbb".into())];
    let got = disc.find_candidates(16, &f);
    assert_eq!(got.len(), 1);
    assert_eq!(got[0].node_id, Some(NodeId("b3:bbbb".into())));

    // Targeting an id no candidate has: no candidates (no silent fallback).
    let mut f2 = filter();
    f2.nodes = vec![NodeId("b3:zzzz".into())];
    assert!(disc.find_candidates(16, &f2).is_empty());

    // Targeting multiple ids returns exactly those that exist.
    let mut f3 = filter();
    f3.nodes = vec![NodeId("b3:aaaa".into()), NodeId("b3:cccc".into())];
    let got3 = disc.find_candidates(16, &f3);
    assert_eq!(got3.len(), 2);
    assert!(got3
        .iter()
        .all(|c| matches!(&c.node_id, Some(id) if id.0 == "b3:aaaa" || id.0 == "b3:cccc")));
}

#[test]
fn filters_by_advertised_attestation() {
    let mut p = peer(30_000);
    p.advertised_level = Some(AttestationLevel::L0);
    let mut disc = StaticDiscovery::new(vec![p], 16);
    let f = CandidateFilter {
        data_class: DataClass::Sensitive,
        min_attestation: AttestationLevel::L2,
        network: None,
        groups: vec![],
        regions: vec![],
        fail_closed_labels: false,
        nodes: vec![],
    };
    assert!(disc.find_candidates(10, &f).is_empty());
}

#[test]
fn id_provenance_gates_stake_eligibility() {
    let tofu = peer(50_000);
    assert_eq!(tofu.id_provenance, IdProvenance::Tofu);
    assert!(!tofu.id_provenance.is_verified());

    let addr = "127.0.0.1:50001".to_string();
    let pinned = Candidate::new(Some(NodeId("b3:op".into())), addr.clone());
    assert_eq!(pinned.id_provenance, IdProvenance::Pinned);
    assert!(pinned.id_provenance.is_verified());

    let advertised = Candidate::new(Some(NodeId("b3:ad".into())), addr).advertised();
    assert_eq!(advertised.id_provenance, IdProvenance::Advertised);
    assert!(advertised.id_provenance.is_verified());

    // Pinning a learned id keeps it routable but not gate-eligible.
    let learned = peer(50_002).with_tofu_id(NodeId("b3:learned".into()));
    assert_eq!(learned.node_id, Some(NodeId("b3:learned".into())));
    assert_eq!(learned.id_provenance, IdProvenance::Tofu);
    assert!(!learned.id_provenance.is_verified());
}

#[test]
fn admits_labels_network_group_soft_region_failclosed() {
    let mut net = peer(40_100);
    net.advertised_networks = vec!["eu".into()];
    let mut grp = peer(40_101);
    grp.advertised_groups = vec!["finance".into()];
    let mut reg = peer(40_102);
    reg.advertised_region = Some("eu".into());
    let unknown = peer(40_103); // no advertised labels

    let f = |network: Option<&str>, groups: Vec<&str>, regions: Vec<&str>| CandidateFilter {
        data_class: DataClass::Public,
        min_attestation: AttestationLevel::L0,
        network: network.map(String::from),
        groups: groups.into_iter().map(String::from).collect(),
        regions: regions.into_iter().map(String::from).collect(),
        fail_closed_labels: false,
        nodes: vec![],
    };

    // No constraint: unlabeled / network-only / region-only candidates kept.
    assert!(f(None, vec![], vec![]).admits_labels(&net));
    assert!(f(None, vec![], vec![]).admits_labels(&unknown));

    // Network (soft): known-but-wrong dropped; matching kept; unknown kept.
    assert!(!f(Some("us"), vec![], vec![]).admits_labels(&net));
    assert!(f(Some("eu"), vec![], vec![]).admits_labels(&net));
    assert!(f(Some("us"), vec![], vec![]).admits_labels(&unknown));

    // Group: a grouped host is a private pool, reachable only by a requester
    // sharing a group; an unknown/ungrouped candidate is kept (soft).
    assert!(!f(None, vec!["ops"], vec![]).admits_labels(&grp));
    assert!(f(None, vec!["finance"], vec![]).admits_labels(&grp));
    assert!(!f(None, vec![], vec![]).admits_labels(&grp));
    assert!(f(None, vec!["ops"], vec![]).admits_labels(&unknown));

    // Region (fail-closed): only an advertised region in the set is kept; an
    // unknown region is always dropped.
    assert!(!f(None, vec![], vec!["us"]).admits_labels(&reg));
    assert!(f(None, vec![], vec!["eu"]).admits_labels(&reg));
    assert!(!f(None, vec![], vec!["eu"]).admits_labels(&unknown));
}

#[test]
fn admits_labels_private_mode_drops_unknown_network_and_group() {
    let net = peer(41_100); // no advertised labels at all
    let unknown = peer(41_101);

    let private = |network: Option<&str>, groups: Vec<&str>| CandidateFilter {
        data_class: DataClass::Public,
        min_attestation: AttestationLevel::L0,
        network: network.map(String::from),
        groups: groups.into_iter().map(String::from).collect(),
        regions: vec![],
        fail_closed_labels: true,
        nodes: vec![],
    };
    let public = |network: Option<&str>, groups: Vec<&str>| CandidateFilter {
        data_class: DataClass::Public,
        min_attestation: AttestationLevel::L0,
        network: network.map(String::from),
        groups: groups.into_iter().map(String::from).collect(),
        regions: vec![],
        fail_closed_labels: false,
        nodes: vec![],
    };

    // Unknown network: kept in public, dropped in private (when constrained).
    assert!(public(Some("acme"), vec![]).admits_labels(&net));
    assert!(!private(Some("acme"), vec![]).admits_labels(&net));

    // Unknown group + requester has group constraints: kept public, dropped
    // private.
    assert!(public(None, vec!["finance"]).admits_labels(&unknown));
    assert!(!private(None, vec!["finance"]).admits_labels(&unknown));

    // A known matching label is still admitted in private mode.
    let mut labeled = peer(41_102);
    labeled.advertised_networks = vec!["acme".into()];
    labeled.advertised_groups = vec!["finance".into()];
    assert!(private(Some("acme"), vec!["finance"]).admits_labels(&labeled));

    // No constraints: private mode keeps everything.
    assert!(private(None, vec![]).admits_labels(&unknown));
}

#[test]
fn samples_are_drawn_not_taken_in_order() {
    let peers: Vec<_> = (0..200).map(|i| peer(10_000 + i)).collect();
    let first: Vec<Candidate> = peers[..16].to_vec();
    let mut disc = StaticDiscovery::new(peers.clone(), 16);
    let a = disc.find_candidates(16, &filter());
    let b = disc.find_candidates(16, &filter());
    assert_ne!(a, first);
    assert_ne!(a, b);
    for c in a.iter().chain(b.iter()) {
        assert!(peers.contains(c));
    }
    // Nobody is drawn twice.
    for i in 0..a.len() {
        assert!(!a[..i].contains(&a[i]));
    }
}

#[test]
fn two_discoveries_draw_the_same_first_sample() {
    let peers: Vec<_> = (0..50).map(|i| peer(10_000 + i)).collect();
    let mut one = StaticDiscovery::new(peers.clone(), 8);
    let mut two = StaticDiscovery::new(peers, 8);
    assert_eq!(one.find_candidates(8, &filter()), two.find_candidates(8, &filter()));
}

#[test]
fn shared_labels() {
    let v = |xs: &[&str]| xs.iter().map(|s| s.to_string()).collect::<Vec<String>>();
    assert!(any_shared(&v(&["a", "b"]), &v(&["b"])));
    assert!(!any_shared(&v(&["a"]), &v(&["b"])));
    assert!(!any_shared(&v(&[]), &v(&["b"])));
}

#[test]
fn a_sample_of_one_is_eligible() {
    let mut low = peer(31_000);
    low.advertised_level = Some(AttestationLevel::L0);
    let mut high = peer(31_001);
    high.advertised_level = Some(AttestationLevel::L2);
    let mut disc = StaticDiscovery::new(vec![low, high], 16);
    let mut f = filter();
    f.min_attestation = AttestationLevel::L1;
    for _ in 0..8 {
        let got = disc.find_candidates(1, &f);
        assert_eq!(got.len(), 1);
        assert_eq!(got[0].advertised_level, Some(AttestationLevel::L2));
    }
}
