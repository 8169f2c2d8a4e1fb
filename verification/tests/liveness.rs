use p2p_node::liveness::{clock_ms, keep_living, on_indirect, over_fetch, SwimConfig, SwimStep};
use p2p_node::types::{AttestationLevel, DataClass, NodeId};
use p2p_node::{now_ms, Candidate, CandidateFilter, LivenessView, StaticDiscovery, SwimVerdict};

fn cfg() -> SwimConfig {
    SwimConfig {
        enabled: true,
        probe_timeout_ms: 500,
        indirect_probe_count: 3,
        indirect_probe_timeout_ms: 800,
    }
}

fn node(s: &str) -> NodeId {
    NodeId(s.to_string())
}

/// A detector of the test's own: a minute of silence convicts.
fn convicted(last: u64, now: u64) -> bool {
    now - last >= 60_000
}

#[test]
fn phi_silence_marks_node_suspect_and_excluded() {
    let mut view = LivenessView::new(true, cfg());
    let n = node("b3:w");
    for _ in 0..10u64 {
        view.heartbeat(&n);
    }
    let last = 9 * 1_000;
    // Fresh: available.
    assert!(!view.is_excluded(&n, convicted(last, last + 500)));
    // Long silence: suspect, excluded.
    assert!(view.is_suspect(&n, convicted(last, last + 60_000)));
    assert!(view.is_excluded(&n, convicted(last, last + 60_000)));
}

#[test]
fn swim_indirect_probe_rescues_a_peer_reachable_via_peers() {
    let mut view = LivenessView::new(true, cfg());
    let target = node("b3:target");
    for _ in 0..10u64 {
        view.heartbeat(&target);
    }
    assert!(view.is_excluded(&target, true), "silent target is excluded before SWIM");

    // Direct probe fails, but relay r2 can reach the target.
    let relays = vec![node("b3:r1"), node("b3:r2"), node("b3:r3")];
    assert_eq!(view.confirm_with_swim(&target, true), None);
    let verdict = match view.config().on_direct(false, &target, &relays) {
        SwimStep::Ask { relays, timeout_ms } => {
            assert_eq!(timeout_ms, 800);
            let reached: Vec<bool> = relays.iter().map(|r| r.0 == "b3:r2").collect();
            on_indirect(&reached)
        }
        SwimStep::Done(v) => panic!("asked nobody: {:?}", v),
    };
    assert_eq!(verdict, SwimVerdict::Alive, "SWIM should rescue a peer reachable via a relay");
    view.apply_swim(&target, verdict);
    assert!(!view.is_excluded(&target, true), "rescued peer is selectable again");
}

#[test]
fn swim_declares_dead_when_no_path_exists() {
    let mut view = LivenessView::new(true, cfg());
    let target = node("b3:gone");
    for _ in 0..10u64 {
        view.heartbeat(&target);
    }
    let relays = vec![node("b3:r1"), node("b3:r2")];
    let verdict = match view.config().on_direct(false, &target, &relays) {
        SwimStep::Ask { relays, .. } => {
            let reached: Vec<bool> = relays.iter().map(|_| false).collect();
            on_indirect(&reached)
        }
        SwimStep::Done(v) => v,
    };
    assert_eq!(verdict, SwimVerdict::Dead);
    view.apply_swim(&target, verdict);
    assert!(view.is_excluded(&target, true), "unreachable peer stays excluded");
}

#[test]
fn liveness_filtered_discovery_drops_excluded_peers() {
    let dead = node("b3:dead");
    let mut view = LivenessView::new(true, cfg());
    view.apply_swim(&dead, SwimVerdict::Dead);

    let mut c_dead = Candidate::new(Some(dead.clone()), "127.0.0.1:9001".into());
    c_dead.advertised_level = Some(AttestationLevel::L0);
    let mut c_ok = Candidate::new(Some(node("b3:ok")), "127.0.0.1:9002".into());
    c_ok.advertised_level = Some(AttestationLevel::L0);

    let mut inner = StaticDiscovery::new(vec![c_dead, c_ok], 16);
    let raw = inner.find_candidates(
        over_fetch(16),
        &CandidateFilter {
            data_class: DataClass::Public,
            min_attestation: AttestationLevel::L0,
            network: None,
            groups: vec![],
            regions: vec![],
            fail_closed_labels: false,
            nodes: vec![],
        },
    );
    let convicted = vec![false; raw.len()];
    let got = keep_living(&view, &raw, &convicted, 16);
    assert!(got.iter().all(|c| c.node_id.as_ref() != Some(&dead)));
    assert!(got.iter().any(|c| c.node_id.as_ref() == Some(&node("b3:ok"))));
}

#[test]
fn an_answered_probe_asks_nobody() {
    match cfg().on_direct(true, &node("b3:t"), &[node("b3:r")]) {
        SwimStep::Done(v) => assert_eq!(v, SwimVerdict::Alive),
        SwimStep::Ask { .. } => panic!("the target had answered"),
    }
    assert_eq!(cfg().direct_timeout_ms(), 500);
}

#[test]
fn relays_are_bounded_and_never_the_target() {
    let t = node("b3:t");
    let relays = vec![node("b3:1"), t.clone(), node("b3:2"), node("b3:3"), node("b3:4")];
    match cfg().on_direct(false, &t, &relays) {
        SwimStep::Ask { relays: asked, .. } => {
            assert_eq!(asked.len(), 3);
            assert!(asked.iter().all(|r| *r != t && relays.contains(r)));
            for i in 0..3 {
                assert!(!asked[..i].contains(&asked[i]));
            }
        }
        SwimStep::Done(v) => panic!("asked nobody: {:?}", v),
    }
}

#[test]
fn a_heartbeat_voids_what_was_confirmed() {
    let mut view = LivenessView::new(true, cfg());
    let n = node("b3:n");
    view.apply_swim(&n, SwimVerdict::Dead);
    assert!(view.is_excluded(&n, false));
    view.heartbeat(&n);
    assert!(!view.is_excluded(&n, false));
}

#[test]
fn the_clock_is_past_its_epoch() {
    assert_eq!(clock_ms(None), 0);
    assert_eq!(clock_ms(Some(1234)), 1234);
    let now = now_ms();
    // After 2020, before 2100.
    assert!(now > 1_577_836_800_000 && now < 4_102_444_800_000);
}

#[test]
fn twice_as_many_are_fetched() {
    assert_eq!(over_fetch(16), 32);
    assert_eq!(over_fetch(usize::MAX), usize::MAX);
}
