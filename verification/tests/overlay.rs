use p2p_node::libp2p_discovery::{
    circuit_on, dialable_addr, parse_multiaddrs, peer_id_from_multiaddr, FoundPeer, NatConfig,
    Overlay, OverlayAction, OverlayConfig, OverlayEvent,
};
use p2p_node::{DiscoveryError, Libp2pDiscoveryConfig, NatParams, RelayLimits};

const PEER: &str = "12D3KooWD3eckifWpRn9wQpMG9R9hX3sD158z7EqHWmweQAJU5SA";
const OTHER: &str = "12D3KooWPjceQrSwdWXPyLLeABRXmuqt69Rg3sBYbU1Nft9HyQ6X";

fn nat_config() -> NatConfig {
    NatConfig {
        autonat: true,
        dcutr: true,
        relay_client: true,
        act_as_relay: false,
        mdns: false,
        mdns_query_interval_secs: 30,
        external_addresses: vec![],
        relays: vec![],
        max_relays: 2,
        relay_limits: RelayLimits::default(),
    }
}

fn overlay_config() -> OverlayConfig {
    OverlayConfig {
        listen_addrs: vec!["/ip4/0.0.0.0/udp/0/quic-v1".into()],
        bootstrap: vec![],
        topic: "grid".into(),
        heartbeat_ms: 1000,
        fanout: 6,
        capability_ttl_secs: 60,
        pow_difficulty_bits: 8,
        peer_cache_capacity: 100,
        replication_factor: 20,
        query_parallelism: 3,
        nat: nat_config(),
        antiabuse_enabled: true,
        peer_scoring: true,
        diverse_bootstrap: false,
    }
}

#[test]
fn peers_are_read_from_their_addresses() {
    let addr = format!("/ip4/1.2.3.4/udp/9/quic-v1/p2p/{}", PEER);
    assert_eq!(peer_id_from_multiaddr(&addr).as_deref(), Some(PEER));
    assert_eq!(peer_id_from_multiaddr("/ip4/1.2.3.4/udp/9/quic-v1"), None);
    assert_eq!(peer_id_from_multiaddr("nonsense"), None);
}

#[test]
fn a_bad_address_is_named() {
    let good = "/ip4/1.2.3.4/udp/9/quic-v1".to_string();
    assert_eq!(parse_multiaddrs(&[good.clone()]).unwrap(), vec![good.clone()]);
    let err = parse_multiaddrs(&[good, "oops".to_string()]).unwrap_err();
    let why = "oops".parse::<libp2p::Multiaddr>().unwrap_err().to_string();
    match &err {
        DiscoveryError::BadMultiaddr(addr, text) => {
            assert_eq!(addr, "oops");
            assert_eq!(*text, why);
        }
        other => panic!("{:?}", other),
    }
    assert_eq!(err.message(), format!("invalid multiaddr \"oops\": {}", why));
}

#[test]
fn circuits_go_through_their_relay() {
    let relay = format!("/ip4/1.2.3.4/udp/9/quic-v1/p2p/{}", PEER);
    assert_eq!(circuit_on(&relay), format!("{}/p2p-circuit", relay));
    assert_eq!(
        dialable_addr("/ip4/1.2.3.4/udp/9/quic-v1", OTHER),
        format!("/ip4/1.2.3.4/udp/9/quic-v1/p2p/{}", OTHER)
    );
    let circuit = circuit_on(&relay);
    assert_eq!(dialable_addr(&circuit, OTHER), format!("{}/p2p/{}", circuit, OTHER));
}

#[test]
fn the_grid_s_settings_make_the_overlay_s() {
    let c = Libp2pDiscoveryConfig::from_grid(&overlay_config(), None, 3).unwrap();
    assert_eq!(c.topic, "grid");
    assert_eq!(c.mesh_n, 6);
    assert_eq!(c.protocol_major, 3);
    assert_eq!(c.required_pow_bits, 8);
    assert_eq!(c.membership_capacity, 100);
    assert!(c.gossip_peer_scoring);
    let c = Libp2pDiscoveryConfig::from_grid(&overlay_config(), Some(9), 3).unwrap();
    assert_eq!(c.protocol_major, 9);
    let mut off = overlay_config();
    off.antiabuse_enabled = false;
    assert!(!Libp2pDiscoveryConfig::from_grid(&off, None, 3).unwrap().gossip_peer_scoring);
    let mut bad = overlay_config();
    bad.bootstrap = vec!["oops".into()];
    assert!(Libp2pDiscoveryConfig::from_grid(&bad, None, 3).is_err());
    let mut bad = overlay_config();
    bad.nat.relays = vec!["oops".into()];
    assert!(Libp2pDiscoveryConfig::from_grid(&bad, None, 3).is_err());
    assert!(NatParams::from_config(&nat_config()).is_ok());
}

#[test]
fn mesh_bounds_surround_the_mesh() {
    let c = Libp2pDiscoveryConfig::from_grid(&overlay_config(), None, 1).unwrap();
    let (low, high) = c.mesh_bounds();
    assert!(low <= 6 && 6 <= high);
    assert_eq!(c.listen_on(), vec!["/ip4/0.0.0.0/udp/0/quic-v1".to_string()]);
    assert!(c.bootstrap_order().is_empty());
    assert!(c.first_relays().is_empty());
}

#[test]
fn every_seed_is_dialed_once() {
    let mut cfg = overlay_config();
    cfg.diverse_bootstrap = true;
    cfg.bootstrap = (0..20).map(|i| format!("/ip4/10.0.0.{}/udp/9/quic-v1", i)).collect();
    let c = Libp2pDiscoveryConfig::from_grid(&cfg, None, 1).unwrap();
    let mut order = c.bootstrap_order();
    order.sort();
    assert_eq!(order, (0..20).collect::<Vec<usize>>());
    cfg.diverse_bootstrap = false;
    let c = Libp2pDiscoveryConfig::from_grid(&cfg, None, 1).unwrap();
    assert_eq!(c.bootstrap_order(), (0..20).collect::<Vec<usize>>());
}

#[test]
fn relays_are_asked_no_more_than_allowed() {
    let mut o = Overlay::new(true, 1, &[]);
    let hop = libp2p::relay::HOP_PROTOCOL_NAME.to_string();
    let addr = format!("/ip4/1.2.3.4/udp/9/quic-v1/p2p/{}", PEER);
    let circuit = o
        .maybe_reserve_relay(&PEER.to_string(), &[addr.clone()], &[hop.clone()])
        .unwrap();
    assert!(circuit.ends_with("/p2p-circuit"), "{}", circuit);
    // A peer that does not relay is not asked.
    assert!(o
        .maybe_reserve_relay(&PEER.to_string(), &[addr.clone()], &["/other".to_string()])
        .is_none());
    o.on_reserve(&PEER.to_string(), true);
    assert!(o.maybe_reserve_relay(&OTHER.to_string(), &[addr.clone()], &[hop.clone()]).is_none());
    let off = Overlay::new(false, 4, &[]);
    assert!(off.maybe_reserve_relay(&PEER.to_string(), &[addr], &[hop]).is_none());
}

#[test]
fn events_become_actions() {
    let mut o = Overlay::new(true, 4, &[]);
    let addr = "/ip4/1.2.3.4/udp/9/quic-v1".to_string();
    o.on_event(OverlayEvent::NewListenAddr(addr.clone()));
    assert_eq!(o.listen_addrs(), vec![addr.clone()]);
    let acts = o.on_event(OverlayEvent::FoundOnLan(vec![FoundPeer {
        peer: PEER.into(),
        addr: addr.clone(),
    }]));
    assert!(acts.contains(&OverlayAction::AddAddress { peer: PEER.into(), addr: addr.clone() }));
    let acts = o.on_event(OverlayEvent::Connected(PEER.into()));
    assert_eq!(acts, vec![OverlayAction::AddGossipPeer(PEER.into())]);
    assert_eq!(
        o.on_event(OverlayEvent::PublicAt(addr.clone())),
        vec![OverlayAction::AddExternal(addr)]
    );
    assert!(o.on_event(OverlayEvent::Other).is_empty());
}

#[test]
fn discovery_errors_have_texts() {
    assert!(DiscoveryError::Build("x".into()).message().contains("x"));
    assert!(DiscoveryError::Transport("x".into()).message().contains("x"));
    assert!(!DiscoveryError::TaskStopped.message().is_empty());
}

#[test]
fn a_node_enters_by_its_seeds_and_relays() {
    let seed = format!("/ip4/10.0.0.1/udp/9/quic-v1/p2p/{}", PEER);
    let anonymous = "/ip4/10.0.0.2/udp/9/quic-v1".to_string();
    let relay = format!("/ip4/10.0.0.3/udp/9/quic-v1/p2p/{}", OTHER);
    let own = "/ip4/1.2.3.4/udp/9/quic-v1".to_string();
    let mut cfg = overlay_config();
    cfg.bootstrap = vec![seed.clone(), anonymous.clone()];
    cfg.nat.external_addresses = vec![own.clone()];
    cfg.nat.relays = vec![relay.clone(), anonymous.clone(), seed.clone()];
    let c = Libp2pDiscoveryConfig::from_grid(&cfg, None, 1).unwrap();
    assert_eq!(
        c.entry_actions(&[1, 0]),
        vec![
            OverlayAction::Dial(anonymous.clone()),
            OverlayAction::AddAddress { peer: PEER.into(), addr: seed.clone() },
            OverlayAction::Dial(seed.clone()),
            OverlayAction::Bootstrap,
            OverlayAction::AddExternal(own),
            OverlayAction::AddAddress { peer: OTHER.into(), addr: relay.clone() },
            OverlayAction::Listen(format!("{}/p2p-circuit", relay)),
            OverlayAction::Listen(format!("{}/p2p-circuit", anonymous)),
        ]
    );
    // The relay that was asked counts, so there is room for one more.
    let hop = "/libp2p/circuit/relay/0.2.0/hop".to_string();
    let o = c.overlay();
    assert!(o.maybe_reserve_relay(&OTHER.to_string(), &[anonymous.clone()], &[hop.clone()]).is_none());
    assert!(o.maybe_reserve_relay(&PEER.to_string(), &[anonymous], &[hop]).is_some());
    cfg.bootstrap = vec![];
    cfg.nat.relay_client = false;
    let c = Libp2pDiscoveryConfig::from_grid(&cfg, None, 1).unwrap();
    assert_eq!(c.entry_actions(&[]).len(), 1);
}

#[test]
fn default_limits_of_a_relay() {
    let limits = NatParams::default().relay_limits;
    assert_eq!(limits.max_reservations, 128);
    assert_eq!(limits.max_reservations_per_peer, 4);
    assert_eq!(limits.reservation_duration_secs, 3600);
    assert_eq!(limits.max_circuits, 16);
    assert_eq!(limits.max_circuits_per_peer, 4);
    assert_eq!(limits.max_circuit_duration_secs, 120);
    assert_eq!(limits.max_circuit_bytes, 131_072);
}
