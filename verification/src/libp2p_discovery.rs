//! The discovery overlay: its parameters, which gossiped ads it accepts, and how it
//! reacts to network events.

use vstd::prelude::*;
use crate::math::{max_int, min_int};
use crate::membership::{after_ad, CapabilityAd, MembershipTable, TableView};
use crate::sampling::{is_permutation, random_order};
use crate::scan::join;
use crate::types::{copy_strs, has_str, opt_str, strs};

verus! {

/// Errors from building or driving the overlay.
#[derive(Debug, Clone, PartialEq, Eq)]
pub enum DiscoveryError {
    /// An address that cannot be read, and why.
    BadMultiaddr(String, String),
    Build(String),
    Transport(String),
    TaskStopped,
}

/// The text in double quotes, with quotes and control characters escaped.
pub uninterp spec fn debug_text(s: Seq<char>) -> Seq<char>;

/// `<str as Debug>::fmt`, by way of `format!`: the quoted form of `s`, which depends on
/// nothing else.
#[verifier::external_body]
fn debug_of(s: &str) -> (r: String)
    ensures
        r@ == debug_text(s@),
{
    format!("{s:?}")
}

impl DiscoveryError {
    /// The text of the error.
    pub open spec fn text(self) -> Seq<char> {
        match self {
            DiscoveryError::BadMultiaddr(addr, why) => "invalid multiaddr "@ + debug_text(addr@)
                + ": "@ + why@,
            DiscoveryError::Build(why) => "libp2p build error: "@ + why@,
            DiscoveryError::Transport(why) => "transport/listen error: "@ + why@,
            DiscoveryError::TaskStopped => "discovery task has stopped"@,
        }
    }

    /// The text of the error.
    pub fn message(&self) -> (r: String)
        ensures
            r@ == self.text(),
    {
        match self {
            DiscoveryError::BadMultiaddr(addr, why) => {
                let mut r = join("invalid multiaddr ", debug_of(addr.as_str()).as_str());
                r.append(": ");
                r.append(why.as_str());
                r
            },
            DiscoveryError::Build(why) => join("libp2p build error: ", why.as_str()),
            DiscoveryError::Transport(why) => join("transport/listen error: ", why.as_str()),
            DiscoveryError::TaskStopped => "discovery task has stopped".to_owned(),
        }
    }
}

/// One component of a multiaddress, as far as the overlay tells them apart.
#[derive(Debug, Clone, PartialEq, Eq)]
pub enum AddrPart {
    /// `/p2p/<peer id>`.
    Peer(String),
    /// `/p2p-circuit`.
    Circuit,
    /// Any other component.
    Other(String),
}

/// `AddrPart` over mathematical values.
pub enum PartView {
    Peer(Seq<char>),
    Circuit,
    Other(Seq<char>),
}

impl View for AddrPart {
    type V = PartView;

    open spec fn view(&self) -> PartView {
        match self {
            AddrPart::Peer(s) => PartView::Peer(s@),
            AddrPart::Circuit => PartView::Circuit,
            AddrPart::Other(s) => PartView::Other(s@),
        }
    }
}

pub open spec fn part_views(v: Seq<AddrPart>) -> Seq<PartView> {
    v.map_values(|p: AddrPart| p@)
}

/// What reading a multiaddress gives: its canonical text, or why it is none.
pub uninterp spec fn multiaddr_read(s: Seq<char>) -> Result<Seq<char>, Seq<char>>;

/// The components of a multiaddress; none where the text is no multiaddress.
pub uninterp spec fn multiaddr_parts(s: Seq<char>) -> Seq<PartView>;

pub open spec fn read_view(r: Result<String, String>) -> Result<Seq<char>, Seq<char>> {
    match r {
        Ok(s) => Ok(s@),
        Err(e) => Err(e@),
    }
}

/// `Multiaddr::from_str` and its text: the canonical text of a multiaddress, or the
/// parser's complaint. Depends on the text alone.
#[verifier::external_body]
fn read_multiaddr(s: &str) -> (r: Result<String, String>)
    ensures
        read_view(r) == multiaddr_read(s@),
{
    s.parse::<libp2p::Multiaddr>().map(|m| m.to_string()).map_err(|e| e.to_string())
}

/// `Multiaddr::from_str` and `Multiaddr::iter`: the components in order, each as its
/// kind. Depends on the text alone.
#[verifier::external_body]
fn split_multiaddr(s: &str) -> (r: Vec<AddrPart>)
    ensures
        part_views(r@) == multiaddr_parts(s@),
{
    let addr = s.parse::<libp2p::Multiaddr>().unwrap_or_else(|_| libp2p::Multiaddr::empty());
    addr.iter().map(|p| match p {
        libp2p::multiaddr::Protocol::P2p(peer) => AddrPart::Peer(peer.to_string()),
        libp2p::multiaddr::Protocol::P2pCircuit => AddrPart::Circuit,
        other => AddrPart::Other(other.to_string()),
    }).collect()
}

/// `relay::HOP_PROTOCOL_NAME`: the protocol that a volunteer relay announces.
#[verifier::external_body]
fn hop_protocol() -> (r: String)
    ensures
        r@ == "/libp2p/circuit/relay/0.2.0/hop"@,
{
    libp2p::relay::HOP_PROTOCOL_NAME.to_string()
}

/// The peer that the components name first.
pub open spec fn first_peer(parts: Seq<PartView>, from: int) -> Option<Seq<char>>
    decreases parts.len() - from,
{
    if from >= parts.len() {
        None
    } else {
        match parts[from] {
            PartView::Peer(p) => Some(p),
            _ => first_peer(parts, from + 1),
        }
    }
}

/// The peer that a multiaddress names, if it names one.
pub fn peer_id_from_multiaddr(addr: &str) -> (r: Option<String>)
    ensures
        opt_str(r) == first_peer(multiaddr_parts(addr@), 0),
{
    let parts = split_multiaddr(addr);
    let ghost views = part_views(parts@);
    let mut i: usize = 0;
    while i < parts.len()
        invariant
            i <= parts@.len(),
            views == part_views(parts@),
            views == multiaddr_parts(addr@),
            first_peer(views, i as int) == first_peer(views, 0),
        decreases parts@.len() - i,
    {
        assert(views[i as int] == parts@[i as int]@);
        if let AddrPart::Peer(p) = &parts[i] {
            return Some(p.clone());
        }
        i = i + 1;
    }
    None
}

/// Whether a multiaddress leads through a relay.
pub open spec fn relayed(parts: Seq<PartView>) -> bool {
    exists|i: int| 0 <= i < parts.len() && #[trigger] parts[i] is Circuit
}

fn is_relayed(addr: &str) -> (r: bool)
    ensures
        r == relayed(multiaddr_parts(addr@)),
{
    let parts = split_multiaddr(addr);
    let ghost views = part_views(parts@);
    let mut i: usize = 0;
    while i < parts.len()
        invariant
            i <= parts@.len(),
            views == part_views(parts@),
            views == multiaddr_parts(addr@),
            forall|k: int| 0 <= k < i ==> !(#[trigger] views[k] is Circuit),
        decreases parts@.len() - i,
    {
        assert(views[i as int] == parts@[i as int]@);
        if let AddrPart::Circuit = &parts[i] {
            assert(views[i as int] is Circuit);
            return true;
        }
        i = i + 1;
    }
    false
}

/// The first text that is no multiaddress.
pub open spec fn first_bad(raw: Seq<Seq<char>>, from: int) -> Option<int>
    decreases raw.len() - from,
{
    if from >= raw.len() {
        None
    } else if multiaddr_read(raw[from]) is Err {
        Some(from)
    } else {
        first_bad(raw, from + 1)
    }
}

pub open spec fn canonical(raw: Seq<Seq<char>>) -> Seq<Seq<char>> {
    raw.map_values(|s: Seq<char>| multiaddr_read(s)->Ok_0)
}

/// What reading a list of addresses gives: all of them in canonical form, or the first
/// that is none.
pub open spec fn addresses_read(r: Result<Vec<String>, DiscoveryError>, raw: Seq<Seq<char>>) -> bool {
    match first_bad(raw, 0) {
        None => r is Ok && strs(r->Ok_0@) == canonical(raw),
        Some(i) => r is Err && r->Err_0 is BadMultiaddr && r->Err_0->BadMultiaddr_0@ == raw[i]
            && r->Err_0->BadMultiaddr_1@ == multiaddr_read(raw[i])->Err_0,
    }
}

/// Reads a list of addresses.
pub fn parse_multiaddrs(raw: &[String]) -> (r: Result<Vec<String>, DiscoveryError>)
    ensures
        addresses_read(r, strs(raw@)),
{
    let ghost texts = strs(raw@);
    let mut out: Vec<String> = Vec::new();
    let mut i: usize = 0;
    while i < raw.len()
        invariant
            i <= raw@.len(),
            texts == strs(raw@),
            first_bad(texts, i as int) == first_bad(texts, 0),
            out@.len() == i,
            forall|k: int| 0 <= k < i ==> (#[trigger] out@[k])@ == multiaddr_read(texts[k])->Ok_0,
        decreases raw@.len() - i,
    {
        assert(texts[i as int] == raw@[i as int]@);
        match read_multiaddr(raw[i].as_str()) {
            Ok(addr) => {
                out.push(addr);
            },
            Err(e) => {
                return Err(DiscoveryError::BadMultiaddr(raw[i].clone(), e));
            },
        }
        i = i + 1;
    }
    assert(strs(out@) =~= canonical(texts));
    Ok(out)
}

/// The limits of a volunteer relay. Durations are in seconds.
#[derive(Debug, Clone, Copy, PartialEq, Eq, Structural)]
pub struct RelayLimits {
    pub max_reservations: usize,
    pub max_reservations_per_peer: usize,
    pub reservation_duration_secs: u64,
    pub max_circuits: usize,
    pub max_circuits_per_peer: usize,
    pub max_circuit_duration_secs: u64,
    pub max_circuit_bytes: u64,
}

impl Default for RelayLimits {
    fn default() -> (r: RelayLimits)
        ensures
            r == (RelayLimits {
                max_reservations: 128,
                max_reservations_per_peer: 4,
                reservation_duration_secs: 3600,
                max_circuits: 16,
                max_circuits_per_peer: 4,
                max_circuit_duration_secs: 120,
                max_circuit_bytes: 131_072,
            }),
    {
        RelayLimits {
            max_reservations: 128,
            max_reservations_per_peer: 4,
            reservation_duration_secs: 3600,
            max_circuits: 16,
            max_circuits_per_peer: 4,
            max_circuit_duration_secs: 120,
            max_circuit_bytes: 131_072,
        }
    }
}

/// The NAT-traversal section of the configuration.
#[derive(Debug, Clone, PartialEq, Eq)]
pub struct NatConfig {
    pub autonat: bool,
    pub dcutr: bool,
    pub relay_client: bool,
    pub act_as_relay: bool,
    pub mdns: bool,
    pub mdns_query_interval_secs: u64,
    pub external_addresses: Vec<String>,
    pub relays: Vec<String>,
    pub max_relays: usize,
    pub relay_limits: RelayLimits,
}

/// The overlay's NAT-traversal parameters.
#[derive(Debug, Clone, PartialEq, Eq)]
pub struct NatParams {
    pub autonat: bool,
    pub dcutr: bool,
    pub relay_client: bool,
    pub act_as_relay: bool,
    pub mdns: bool,
    pub mdns_query_interval_secs: u64,
    pub external_addresses: Vec<String>,
    pub relays: Vec<String>,
    pub max_relays: usize,
    pub relay_limits: RelayLimits,
}

impl Default for NatParams {
    fn default() -> (r: NatParams)
        ensures
            !r.autonat && !r.dcutr && !r.relay_client && !r.act_as_relay && !r.mdns,
            r.mdns_query_interval_secs == 300,
            r.external_addresses@.len() == 0,
            r.relays@.len() == 0,
            r.max_relays == 3,
            r.relay_limits == (RelayLimits {
                max_reservations: 128,
                max_reservations_per_peer: 4,
                reservation_duration_secs: 3600,
                max_circuits: 16,
                max_circuits_per_peer: 4,
                max_circuit_duration_secs: 120,
                max_circuit_bytes: 131_072,
            }),
    {
        NatParams {
            autonat: false,
            dcutr: false,
            relay_client: false,
            act_as_relay: false,
            mdns: false,
            mdns_query_interval_secs: 300,
            external_addresses: Vec::new(),
            relays: Vec::new(),
            max_relays: 3,
            relay_limits: RelayLimits::default(),
        }
    }
}

fn at_least_one(n: usize) -> (r: usize)
    ensures
        r == max_int(n as int, 1),
{
    if n == 0 {
        1
    } else {
        n
    }
}

fn at_least_one_u64(n: u64) -> (r: u64)
    ensures
        r == max_int(n as int, 1),
{
    if n == 0 {
        1
    } else {
        n
    }
}

/// Whether `p` holds what the configuration says: the switches as they are, a positive
/// query interval and a positive number of relays.
pub open spec fn nat_from(p: NatParams, cfg: NatConfig) -> bool {
    &&& p.autonat == cfg.autonat
    &&& p.dcutr == cfg.dcutr
    &&& p.relay_client == cfg.relay_client
    &&& p.act_as_relay == cfg.act_as_relay
    &&& p.mdns == cfg.mdns
    &&& p.mdns_query_interval_secs == max_int(cfg.mdns_query_interval_secs as int, 1)
    &&& strs(p.external_addresses@) == canonical(strs(cfg.external_addresses@))
    &&& strs(p.relays@) == canonical(strs(cfg.relays@))
    &&& p.max_relays == max_int(cfg.max_relays as int, 1)
    &&& p.relay_limits == cfg.relay_limits
}

/// The first list with a bad address, external addresses before relays.
pub open spec fn nat_fault(cfg: NatConfig) -> Option<Seq<Seq<char>>> {
    if first_bad(strs(cfg.external_addresses@), 0) is Some {
        Some(strs(cfg.external_addresses@))
    } else if first_bad(strs(cfg.relays@), 0) is Some {
        Some(strs(cfg.relays@))
    } else {
        None
    }
}

/// Whether an error names the first bad address of a list.
pub open spec fn names_bad(e: DiscoveryError, raw: Seq<Seq<char>>) -> bool {
    e is BadMultiaddr && e->BadMultiaddr_0@ == raw[first_bad(raw, 0)->0] && e->BadMultiaddr_1@
        == multiaddr_read(raw[first_bad(raw, 0)->0])->Err_0
}

impl NatParams {
    /// The parameters that a configuration describes.
    pub fn from_config(cfg: &NatConfig) -> (r: Result<NatParams, DiscoveryError>)
        ensures
            r is Ok <==> nat_fault(*cfg) is None,
            r is Ok ==> nat_from(r->Ok_0, *cfg),
            r is Err ==> names_bad(r->Err_0, nat_fault(*cfg)->0),
    {
        let external_addresses = match parse_multiaddrs(&cfg.external_addresses) {
            Ok(v) => v,
            Err(e) => {
                return Err(e);
            },
        };
        let relays = match parse_multiaddrs(&cfg.relays) {
            Ok(v) => v,
            Err(e) => {
                return Err(e);
            },
        };
        Ok(
            NatParams {
                autonat: cfg.autonat,
                dcutr: cfg.dcutr,
                relay_client: cfg.relay_client,
                act_as_relay: cfg.act_as_relay,
                mdns: cfg.mdns,
                mdns_query_interval_secs: at_least_one_u64(cfg.mdns_query_interval_secs),
                external_addresses,
                relays,
                max_relays: at_least_one(cfg.max_relays),
                relay_limits: cfg.relay_limits,
            },
        )
    }
}

/// The sections of the configuration that the overlay reads.
#[derive(Debug, Clone, PartialEq, Eq)]
pub struct OverlayConfig {
    pub listen_addrs: Vec<String>,
    pub bootstrap: Vec<String>,
    pub topic: String,
    pub heartbeat_ms: u64,
    pub fanout: usize,
    pub capability_ttl_secs: u64,
    pub pow_difficulty_bits: u32,
    pub peer_cache_capacity: usize,
    pub replication_factor: usize,
    pub query_parallelism: usize,
    pub nat: NatConfig,
    pub antiabuse_enabled: bool,
    pub peer_scoring: bool,
    pub diverse_bootstrap: bool,
}

/// The overlay's parameters.
#[derive(Debug, Clone, PartialEq, Eq)]
pub struct Libp2pDiscoveryConfig {
    pub listen_addrs: Vec<String>,
    pub bootstrap: Vec<String>,
    pub topic: String,
    pub heartbeat_ms: u64,
    pub mesh_n: usize,
    pub capability_ttl_secs: u64,
    pub required_pow_bits: u32,
    pub membership_capacity: usize,
    pub replication_factor: usize,
    pub query_parallelism: usize,
    pub protocol_major: u16,
    pub nat: NatParams,
    pub gossip_peer_scoring: bool,
    pub diverse_bootstrap: bool,
}

/// Whether the overlay's parameters hold what the configuration says, with everything
/// that must be positive at least one.
pub open spec fn overlay_from(p: Libp2pDiscoveryConfig, cfg: OverlayConfig, major: u16) -> bool {
    &&& strs(p.listen_addrs@) == canonical(strs(cfg.listen_addrs@))
    &&& strs(p.bootstrap@) == canonical(strs(cfg.bootstrap@))
    &&& p.topic@ == cfg.topic@
    &&& p.heartbeat_ms == max_int(cfg.heartbeat_ms as int, 1)
    &&& p.mesh_n == max_int(cfg.fanout as int, 1)
    &&& p.capability_ttl_secs == cfg.capability_ttl_secs
    &&& p.required_pow_bits == cfg.pow_difficulty_bits
    &&& p.membership_capacity == max_int(cfg.peer_cache_capacity as int, 1)
    &&& p.replication_factor == max_int(cfg.replication_factor as int, 1)
    &&& p.query_parallelism == max_int(cfg.query_parallelism as int, 1)
    &&& p.protocol_major == major
    &&& nat_from(p.nat, cfg.nat)
    &&& p.gossip_peer_scoring == (cfg.antiabuse_enabled && cfg.peer_scoring)
    &&& p.diverse_bootstrap == cfg.diverse_bootstrap
}

/// The first list with a bad address, in the order in which they are read.
pub open spec fn overlay_fault(cfg: OverlayConfig) -> Option<Seq<Seq<char>>> {
    if first_bad(strs(cfg.listen_addrs@), 0) is Some {
        Some(strs(cfg.listen_addrs@))
    } else if first_bad(strs(cfg.bootstrap@), 0) is Some {
        Some(strs(cfg.bootstrap@))
    } else {
        nat_fault(cfg.nat)
    }
}

impl Libp2pDiscoveryConfig {
    /// The parameters that a configuration describes. `configured_major` is the major
    /// version of the configured protocol, where it can be read; else this node's own
    /// counts.
    pub fn from_grid(cfg: &OverlayConfig, configured_major: Option<u16>, own_major: u16) -> (r:
        Result<Libp2pDiscoveryConfig, DiscoveryError>)
        ensures
            r is Ok <==> overlay_fault(*cfg) is None,
            r is Ok ==> overlay_from(
                r->Ok_0,
                *cfg,
                match configured_major {
                    Some(m) => m,
                    None => own_major,
                },
            ),
            r is Err ==> names_bad(r->Err_0, overlay_fault(*cfg)->0),
    {
        let protocol_major: u16 = match configured_major {
            Some(m) => m,
            None => own_major,
        };
        let listen_addrs = match parse_multiaddrs(&cfg.listen_addrs) {
            Ok(v) => v,
            Err(e) => {
                return Err(e);
            },
        };
        let bootstrap = match parse_multiaddrs(&cfg.bootstrap) {
            Ok(v) => v,
            Err(e) => {
                return Err(e);
            },
        };
        let traversal = match NatParams::from_config(&cfg.nat) {
            Ok(n) => n,
            Err(e) => {
                return Err(e);
            },
        };
        Ok(
            Libp2pDiscoveryConfig {
                listen_addrs,
                bootstrap,
                topic: cfg.topic.clone(),
                heartbeat_ms: at_least_one_u64(cfg.heartbeat_ms),
                mesh_n: at_least_one(cfg.fanout),
                capability_ttl_secs: cfg.capability_ttl_secs,
                required_pow_bits: cfg.pow_difficulty_bits,
                membership_capacity: at_least_one(cfg.peer_cache_capacity),
                replication_factor: at_least_one(cfg.replication_factor),
                query_parallelism: at_least_one(cfg.query_parallelism),
                protocol_major,
                nat: traversal,
                gossip_peer_scoring: cfg.antiabuse_enabled && cfg.peer_scoring,
                diverse_bootstrap: cfg.diverse_bootstrap,
            },
        )
    }

    /// The bounds of the gossip mesh around its target size.
    pub fn mesh_bounds(&self) -> (r: (usize, usize))
        requires
            self.mesh_n <= usize::MAX / 2,
            self.mesh_n < usize::MAX,
        ensures
            r.0 == max_int(1, self.mesh_n as int / 2),
            r.1 == max_int(self.mesh_n * 2, self.mesh_n + 1),
    {
        let half: usize = self.mesh_n / 2;
        let low: usize = if half > 1 {
            half
        } else {
            1
        };
        let twice: usize = self.mesh_n * 2;
        let next: usize = self.mesh_n + 1;
        let high: usize = if twice > next {
            twice
        } else {
            next
        };
        (low, high)
    }

    /// The addresses to listen on: the configured ones, or a loopback port.
    pub fn listen_on(&self) -> (r: Vec<String>)
        ensures
            strs(r@) == (if self.listen_addrs@.len() == 0 {
                seq!["/ip4/127.0.0.1/tcp/0"@]
            } else {
                strs(self.listen_addrs@)
            }),
    {
        if self.listen_addrs.len() == 0 {
            let mut r: Vec<String> = Vec::new();
            r.push("/ip4/127.0.0.1/tcp/0".to_owned());
            assert(strs(r@) =~= seq!["/ip4/127.0.0.1/tcp/0"@]);
            r
        } else {
            copy_strs(&self.listen_addrs)
        }
    }

    /// The order in which the bootstrap peers are dialled: a random one where a diverse
    /// set is preferred, else as configured.
    pub fn bootstrap_order(&self) -> (r: Vec<usize>)
        ensures
            is_permutation(r@, self.bootstrap@.len() as int),
            !self.diverse_bootstrap ==> forall|i: int|
                0 <= i < r@.len() ==> #[trigger] r@[i] == i,
    {
        if self.diverse_bootstrap {
            return random_order(self.bootstrap.len());
        }
        let mut r: Vec<usize> = Vec::new();
        let mut i: usize = 0;
        while i < self.bootstrap.len()
            invariant
                i <= self.bootstrap@.len(),
                r@.len() == i,
                forall|k: int| 0 <= k < i ==> #[trigger] r@[k] == k,
            decreases self.bootstrap@.len() - i,
        {
            r.push(i);
            i = i + 1;
        }
        r
    }

    /// The configured relays to reserve a circuit on from the start.
    pub fn first_relays(&self) -> (r: Vec<String>)
        ensures
            strs(r@) == self.relays_spec(),
    {
        let mut r: Vec<String> = Vec::new();
        assert(strs(r@) =~= Seq::empty());
        if !self.nat.relay_client {
            return r;
        }
        let ghost all = strs(self.nat.relays@);
        let mut i: usize = 0;
        assert(strs(r@) =~= all.take(0));
        while i < self.nat.relays.len() && i < self.nat.max_relays
            invariant
                i <= self.nat.relays@.len(),
                i <= self.nat.max_relays,
                all == strs(self.nat.relays@),
                strs(r@) == all.take(i as int),
            decreases self.nat.relays@.len() - i,
        {
            let ghost before = strs(r@);
            r.push(self.nat.relays[i].clone());
            proof {
                assert(strs(r@) =~= before.push(self.nat.relays@[i as int]@));
                assert(all.take(i + 1) =~= all.take(i as int).push(all[i as int]));
            }
            i = i + 1;
        }
        r
    }
}

/// The address that asks a relay for a circuit.
pub fn circuit_on(relay: &str) -> (r: String)
    ensures
        r@ == relay@ + "/p2p-circuit"@,
{
    join(relay, "/p2p-circuit")
}

/// A listen address with this node's own peer id behind it.
pub fn dialable_addr(addr: &str, local_peer: &str) -> (r: String)
    ensures
        r@ == addr@ + "/p2p/"@ + local_peer@,
{
    join(join(addr, "/p2p/").as_str(), local_peer)
}

/// What becomes of a gossiped ad.
#[derive(Debug, Clone, Copy, PartialEq, Eq, Structural)]
pub enum AdOutcome {
    /// Verified and stored.
    Accepted,
    /// The bytes are no ad.
    Malformed,
    /// Made for another schema or protocol.
    IncompatibleVersion,
    /// Too old, or too far in the future.
    Expired,
    /// Its signature, its node id or its proof of work does not hold.
    Rejected,
}

/// How far in the future an ad's time may lie, in seconds.
pub const FUTURE_SKEW_SECS: u64 = 60;

/// Whether an ad's time is acceptable at `now`.
pub open spec fn timely(ts: u64, now: u64, ttl_secs: u64) -> bool {
    now - ts <= ttl_secs && ts <= min_int(now + FUTURE_SKEW_SECS, u64::MAX as int)
}

/// What becomes of an ad: versions first, then its time, then its verification.
pub open spec fn ad_outcome(
    ad: Option<CapabilityAd>,
    verified: bool,
    now: u64,
    ttl_secs: u64,
    schema: u16,
    major: u16,
) -> AdOutcome {
    match ad {
        None => AdOutcome::Malformed,
        Some(a) => if a.schema_version != schema || a.protocol_major != major {
            AdOutcome::IncompatibleVersion
        } else if !timely(a.ts, now, ttl_secs) {
            AdOutcome::Expired
        } else if verified {
            AdOutcome::Accepted
        } else {
            AdOutcome::Rejected
        },
    }
}

/// Decides about a gossiped ad, and stores it if it is accepted. `ad` is what the bytes
/// decode to, and `verified` says whether its signature, node id and proof of work hold.
pub fn evaluate_ad(
    ad: Option<CapabilityAd>,
    verified: bool,
    membership: &mut MembershipTable,
    now: u64,
    ttl_secs: u64,
    expected_schema: u16,
    expected_major: u16,
) -> (r: AdOutcome)
    ensures
        r == ad_outcome(ad, verified, now, ttl_secs, expected_schema, expected_major),
        r == AdOutcome::Accepted ==> final(membership)@ == (TableView {
            members: after_ad(old(membership)@.members, old(membership)@.capacity as int, ad->0),
            ..old(membership)@
        }),
        r != AdOutcome::Accepted ==> final(membership)@ == old(membership)@,
{
    let ad = match ad {
        Some(a) => a,
        None => {
            return AdOutcome::Malformed;
        },
    };
    if ad.schema_version != expected_schema || ad.protocol_major != expected_major {
        return AdOutcome::IncompatibleVersion;
    }
    let old = ad.ts < now && now - ad.ts > ttl_secs;
    let latest: u64 = now.saturating_add(FUTURE_SKEW_SECS);
    if old || ad.ts > latest {
        return AdOutcome::Expired;
    }
    if membership.ingest(ad, verified) {
        AdOutcome::Accepted
    } else {
        AdOutcome::Rejected
    }
}

/// An ad that was made for another version never gets in, whatever else holds of it.
pub proof fn other_versions_are_refused(
    ad: CapabilityAd,
    verified: bool,
    now: u64,
    ttl_secs: u64,
    schema: u16,
    major: u16,
)
    requires
        ad.schema_version != schema || ad.protocol_major != major,
    ensures
        ad_outcome(Some(ad), verified, now, ttl_secs, schema, major)
            == AdOutcome::IncompatibleVersion,
{
}

/// A peer that was found on the local network.
#[derive(Debug, Clone, PartialEq, Eq)]
pub struct FoundPeer {
    pub peer: String,
    pub addr: String,
}

/// What happened on the overlay.
#[derive(Debug)]
pub enum OverlayEvent {
    /// This node listens on an address.
    NewListenAddr(String),
    /// A peer told its addresses and protocols.
    Identified { peer: String, listen_addrs: Vec<String>, protocols: Vec<String> },
    /// This node is reachable at a public address.
    PublicAt(String),
    /// A relay granted a circuit.
    ReservationAccepted(String),
    FoundOnLan(Vec<FoundPeer>),
    Connected(String),
    /// Anything else.
    Other,
}

/// What to do on the overlay.
#[derive(Debug, Clone, PartialEq, Eq)]
pub enum OverlayAction {
    /// Add an address of a peer to the routing table.
    AddAddress { peer: String, addr: String },
    /// Gossip with a peer.
    AddGossipPeer(String),
    /// Announce an address of this node.
    AddExternal(String),
    Dial(String),
    /// Look for peers, starting from the routing table.
    Bootstrap,
    /// Listen on an address. Where that fails, the overlay goes on without it.
    Listen(String),
    /// Ask a relay for a circuit; what comes of it is reported back.
    Reserve { relay: String, circuit: String },
}

/// `OverlayAction` over mathematical values.
pub enum ActionView {
    AddAddress { peer: Seq<char>, addr: Seq<char> },
    AddGossipPeer(Seq<char>),
    AddExternal(Seq<char>),
    Dial(Seq<char>),
    Bootstrap,
    Listen(Seq<char>),
    Reserve { relay: Seq<char>, circuit: Seq<char> },
}

impl View for OverlayAction {
    type V = ActionView;

    open spec fn view(&self) -> ActionView {
        match self {
            OverlayAction::AddAddress { peer, addr } => ActionView::AddAddress {
                peer: peer@,
                addr: addr@,
            },
            OverlayAction::AddGossipPeer(p) => ActionView::AddGossipPeer(p@),
            OverlayAction::AddExternal(a) => ActionView::AddExternal(a@),
            OverlayAction::Dial(a) => ActionView::Dial(a@),
            OverlayAction::Bootstrap => ActionView::Bootstrap,
            OverlayAction::Listen(a) => ActionView::Listen(a@),
            OverlayAction::Reserve { relay, circuit } => ActionView::Reserve {
                relay: relay@,
                circuit: circuit@,
            },
        }
    }
}

pub open spec fn action_views(v: Seq<OverlayAction>) -> Seq<ActionView> {
    v.map_values(|a: OverlayAction| a@)
}

/// The overlay's own state.
#[derive(Debug)]
pub struct Overlay {
    listen_addrs: Vec<String>,
    relay_client: bool,
    max_relays: usize,
    reserved: Vec<String>,
}

/// `Overlay` over mathematical values.
pub struct OverlayView {
    pub listen_addrs: Seq<Seq<char>>,
    pub relay_client: bool,
    pub max_relays: usize,
    /// The relays that granted a circuit or were asked for one, each once.
    pub reserved: Seq<Seq<char>>,
}

impl View for Overlay {
    type V = OverlayView;

    closed spec fn view(&self) -> OverlayView {
        OverlayView {
            listen_addrs: strs(self.listen_addrs@),
            relay_client: self.relay_client,
            max_relays: self.max_relays,
            reserved: strs(self.reserved@),
        }
    }
}

/// `set` with `x` in it.
pub open spec fn with_member(set: Seq<Seq<char>>, x: Seq<char>) -> Seq<Seq<char>> {
    if set.contains(x) {
        set
    } else {
        set.push(x)
    }
}

/// The first address from `from` on that does not lead through a relay.
pub open spec fn direct_addr(addrs: Seq<Seq<char>>, from: int) -> Option<Seq<char>>
    decreases addrs.len() - from,
{
    if from >= addrs.len() {
        None
    } else if !relayed(multiaddr_parts(addrs[from])) {
        Some(addrs[from])
    } else {
        direct_addr(addrs, from + 1)
    }
}

/// The circuit to ask a peer for: only as a relay client with room for another relay,
/// of a relay that is not known yet and can be reached directly.
pub open spec fn wanted_circuit(
    o: OverlayView,
    peer: Seq<char>,
    addrs: Seq<Seq<char>>,
    protocols: Seq<Seq<char>>,
) -> Option<Seq<char>> {
    if o.relay_client && o.reserved.len() < o.max_relays && !o.reserved.contains(peer)
        && protocols.contains("/libp2p/circuit/relay/0.2.0/hop"@) {
        match direct_addr(addrs, 0) {
            Some(base) => Some(base + "/p2p/"@ + peer + "/p2p-circuit"@),
            None => None,
        }
    } else {
        None
    }
}

/// Adding each address of a peer.
pub open spec fn add_all(peer: Seq<char>, addrs: Seq<Seq<char>>) -> Seq<ActionView> {
    addrs.map_values(|a: Seq<char>| ActionView::AddAddress { peer, addr: a })
}

/// Routing to, gossiping with and dialling each found peer.
pub open spec fn greet_all(peers: Seq<FoundPeer>) -> Seq<ActionView>
    decreases peers.len(),
{
    if peers.len() == 0 {
        Seq::empty()
    } else {
        greet_all(peers.drop_last()).push(
            ActionView::AddAddress { peer: peers.last().peer@, addr: peers.last().addr@ },
        ).push(ActionView::AddGossipPeer(peers.last().peer@)).push(
            ActionView::Dial(peers.last().addr@),
        )
    }
}

/// What an event leads to.
pub open spec fn reaction(o: OverlayView, event: OverlayEvent) -> Seq<ActionView> {
    match event {
        OverlayEvent::Identified { peer, listen_addrs, protocols } => {
            let known = add_all(peer@, strs(listen_addrs@)).push(
                ActionView::AddGossipPeer(peer@),
            );
            match wanted_circuit(o, peer@, strs(listen_addrs@), strs(protocols@)) {
                Some(circuit) => known.push(ActionView::Reserve { relay: peer@, circuit }),
                None => known,
            }
        },
        OverlayEvent::PublicAt(addr) => seq![ActionView::AddExternal(addr@)],
        OverlayEvent::FoundOnLan(peers) => greet_all(peers@),
        OverlayEvent::Connected(peer) => seq![ActionView::AddGossipPeer(peer@)],
        _ => Seq::empty(),
    }
}

/// The state after an event.
pub open spec fn after_event(o: OverlayView, event: OverlayEvent) -> OverlayView {
    match event {
        OverlayEvent::NewListenAddr(addr) => OverlayView {
            listen_addrs: o.listen_addrs.push(addr@),
            ..o
        },
        OverlayEvent::ReservationAccepted(peer) => OverlayView {
            reserved: with_member(o.reserved, peer@),
            ..o
        },
        _ => o,
    }
}

fn push_action(actions: &mut Vec<OverlayAction>, a: OverlayAction)
    ensures
        action_views(final(actions)@) == action_views(old(actions)@).push(a@),
{
    let ghost before = action_views(actions@);
    actions.push(a);
    assert(action_views(actions@) =~= before.push(a@));
}

impl Overlay {
    /// The state of an overlay that has asked `reserved` for circuits.
    pub fn new(relay_client: bool, max_relays: usize, asked: &[String]) -> (r: Overlay)
        ensures
            r@.listen_addrs.len() == 0,
            r@.relay_client == relay_client,
            r@.max_relays == max_relays,
            r@.reserved == asked_once(strs(asked@)),
    {
        let mut reserved: Vec<String> = Vec::new();
        let ghost all = strs(asked@);
        let mut i: usize = 0;
        assert(strs(reserved@) =~= Seq::empty());
        while i < asked.len()
            invariant
                i <= asked@.len(),
                all == strs(asked@),
                strs(reserved@) == asked_once(all.take(i as int)),
            decreases asked@.len() - i,
        {
            let ghost before = strs(reserved@);
            proof {
                let next = all.take(i + 1);
                assert(next.drop_last() =~= all.take(i as int));
                assert(next.last() == asked@[i as int]@);
            }
            if !has_str(&reserved, &asked[i]) {
                reserved.push(asked[i].clone());
                assert(strs(reserved@) =~= before.push(asked@[i as int]@));
            }
            i = i + 1;
        }
        assert(all.take(i as int) =~= all);
        let listen_addrs: Vec<String> = Vec::new();
        assert(strs(listen_addrs@).len() == 0);
        Overlay { listen_addrs, relay_client, max_relays, reserved }
    }

    /// The addresses this node listens on.
    pub fn listen_addrs(&self) -> (r: Vec<String>)
        ensures
            strs(r@) == self@.listen_addrs,
    {
        copy_strs(&self.listen_addrs)
    }

    /// The circuit to ask a peer for, if any.
    pub fn maybe_reserve_relay(&self, peer: &String, addrs: &[String], protocols: &[String]) -> (r:
        Option<String>)
        ensures
            opt_str(r) == wanted_circuit(self@, peer@, strs(addrs@), strs(protocols@)),
    {
        if !self.relay_client || self.reserved.len() >= self.max_relays || has_str(
            &self.reserved,
            peer,
        ) || !has_str(protocols, &hop_protocol()) {
            return None;
        }
        let ghost views = strs(addrs@);
        let mut i: usize = 0;
        while i < addrs.len()
            invariant
                i <= addrs@.len(),
                views == strs(addrs@),
                direct_addr(views, i as int) == direct_addr(views, 0),
                wanted_circuit(self@, peer@, views, strs(protocols@)) == (match direct_addr(
                    views,
                    0,
                ) {
                    Some(base) => Some(base + "/p2p/"@ + peer@ + "/p2p-circuit"@),
                    None => None,
                }),
            decreases addrs@.len() - i,
        {
            assert(views[i as int] == addrs@[i as int]@);
            if !is_relayed(addrs[i].as_str()) {
                let mut circuit = join(addrs[i].as_str(), "/p2p/");
                circuit.append(peer.as_str());
                circuit.append("/p2p-circuit");
                return Some(circuit);
            }
            i = i + 1;
        }
        None
    }

    /// Notes what came of asking a relay for a circuit.
    pub fn on_reserve(&mut self, relay: &String, asked: bool)
        ensures
            final(self)@ == (if asked {
                OverlayView { reserved: with_member(old(self)@.reserved, relay@), ..old(self)@ }
            } else {
                old(self)@
            }),
    {
        if asked && !has_str(&self.reserved, relay) {
            let ghost before = strs(self.reserved@);
            self.reserved.push(relay.clone());
            assert(strs(self.reserved@) =~= before.push(relay@));
        }
    }

    /// Reacts to an event.
    pub fn on_event(&mut self, event: OverlayEvent) -> (r: Vec<OverlayAction>)
        ensures
            action_views(r@) == reaction(old(self)@, event),
            final(self)@ == after_event(old(self)@, event),
    {
        let mut actions: Vec<OverlayAction> = Vec::new();
        assert(action_views(actions@) =~= Seq::empty());
        match event {
            OverlayEvent::NewListenAddr(addr) => {
                let ghost before = strs(self.listen_addrs@);
                self.listen_addrs.push(addr);
                assert(strs(self.listen_addrs@) =~= before.push(addr@));
            },
            OverlayEvent::Identified { peer, listen_addrs, protocols } => {
                let ghost addrs = strs(listen_addrs@);
                let mut i: usize = 0;
                assert(action_views(actions@) =~= add_all(peer@, addrs.take(0)));
                while i < listen_addrs.len()
                    invariant
                        i <= listen_addrs@.len(),
                        addrs == strs(listen_addrs@),
                        action_views(actions@) == add_all(peer@, addrs.take(i as int)),
                    decreases listen_addrs@.len() - i,
                {
                    push_action(
                        &mut actions,
                        OverlayAction::AddAddress {
                            peer: peer.clone(),
                            addr: listen_addrs[i].clone(),
                        },
                    );
                    proof {
                        assert(add_all(peer@, addrs.take(i + 1)) =~= add_all(
                            peer@,
                            addrs.take(i as int),
                        ).push(ActionView::AddAddress { peer: peer@, addr: addrs[i as int] }));
                    }
                    i = i + 1;
                }
                assert(addrs.take(i as int) =~= addrs);
                push_action(&mut actions, OverlayAction::AddGossipPeer(peer.clone()));
                let wanted = self.maybe_reserve_relay(&peer, &listen_addrs, &protocols);
                if let Some(circuit) = wanted {
                    push_action(&mut actions, OverlayAction::Reserve { relay: peer, circuit });
                }
            },
            OverlayEvent::PublicAt(addr) => {
                push_action(&mut actions, OverlayAction::AddExternal(addr));
                assert(action_views(actions@) =~= seq![ActionView::AddExternal(addr@)]);
            },
            OverlayEvent::ReservationAccepted(peer) => {
                self.on_reserve(&peer, true);
            },
            OverlayEvent::FoundOnLan(peers) => {
                let mut i: usize = 0;
                while i < peers.len()
                    invariant
                        i <= peers@.len(),
                        action_views(actions@) == greet_all(peers@.take(i as int)),
                    decreases peers@.len() - i,
                {
                    proof {
                        let next = peers@.take(i + 1);
                        assert(next.drop_last() =~= peers@.take(i as int));
                        assert(next.last() == peers@[i as int]);
                    }
                    let p = &peers[i];
                    push_action(
                        &mut actions,
                        OverlayAction::AddAddress { peer: p.peer.clone(), addr: p.addr.clone() },
                    );
                    push_action(&mut actions, OverlayAction::AddGossipPeer(p.peer.clone()));
                    push_action(&mut actions, OverlayAction::Dial(p.addr.clone()));
                    i = i + 1;
                }
                assert(peers@.take(i as int) =~= peers@);
            },
            OverlayEvent::Connected(peer) => {
                push_action(&mut actions, OverlayAction::AddGossipPeer(peer));
                assert(action_views(actions@) =~= seq![ActionView::AddGossipPeer(peer@)]);
            },
            OverlayEvent::Other => {},
        }
        actions
    }
}

/// Routing to the peer that an address names, if it names one, and then `then`.
pub open spec fn routed(addr: Seq<char>, then: ActionView) -> Seq<ActionView> {
    match first_peer(multiaddr_parts(addr), 0) {
        Some(peer) => seq![ActionView::AddAddress { peer, addr }, then],
        None => seq![then],
    }
}

/// Dialling each address.
pub open spec fn dial_all(addrs: Seq<Seq<char>>) -> Seq<ActionView>
    decreases addrs.len(),
{
    if addrs.len() == 0 {
        Seq::empty()
    } else {
        dial_all(addrs.drop_last()) + routed(addrs.last(), ActionView::Dial(addrs.last()))
    }
}

/// Announcing each address of this node.
pub open spec fn announce_all(addrs: Seq<Seq<char>>) -> Seq<ActionView> {
    addrs.map_values(|a: Seq<char>| ActionView::AddExternal(a))
}

/// Asking each relay for a circuit.
pub open spec fn ask_all(relays: Seq<Seq<char>>) -> Seq<ActionView>
    decreases relays.len(),
{
    if relays.len() == 0 {
        Seq::empty()
    } else {
        ask_all(relays.drop_last()) + routed(
            relays.last(),
            ActionView::Listen(relays.last() + "/p2p-circuit"@),
        )
    }
}

/// The peers that the addresses name, in order.
pub open spec fn named_peers(addrs: Seq<Seq<char>>) -> Seq<Seq<char>>
    decreases addrs.len(),
{
    if addrs.len() == 0 {
        Seq::empty()
    } else {
        match first_peer(multiaddr_parts(addrs.last()), 0) {
            Some(peer) => named_peers(addrs.drop_last()).push(peer),
            None => named_peers(addrs.drop_last()),
        }
    }
}

/// How a node enters the overlay: it dials the bootstrap peers and looks for more from
/// there, announces its own addresses, and asks its relays for circuits.
pub open spec fn entry(
    bootstrap: Seq<Seq<char>>,
    external: Seq<Seq<char>>,
    relays: Seq<Seq<char>>,
) -> Seq<ActionView> {
    dial_all(bootstrap) + (if bootstrap.len() > 0 {
        seq![ActionView::Bootstrap]
    } else {
        Seq::empty()
    }) + announce_all(external) + ask_all(relays)
}

fn push_routed(actions: &mut Vec<OverlayAction>, addr: &String, then: OverlayAction)
    ensures
        action_views(final(actions)@) == action_views(old(actions)@) + routed(addr@, then@),
{
    let ghost before = action_views(actions@);
    if let Some(peer) = peer_id_from_multiaddr(addr.as_str()) {
        push_action(actions, OverlayAction::AddAddress { peer, addr: addr.clone() });
    }
    push_action(actions, then);
    assert(action_views(actions@) =~= before + routed(addr@, then@));
}

impl Libp2pDiscoveryConfig {
    /// The relays to reserve a circuit on from the start.
    pub open spec fn relays_spec(&self) -> Seq<Seq<char>> {
        if self.nat.relay_client {
            strs(self.nat.relays@).take(
                min_int(self.nat.max_relays as int, self.nat.relays@.len() as int),
            )
        } else {
            Seq::empty()
        }
    }

    /// What a node does to enter the overlay, dialling its bootstrap peers in the given
    /// order.
    pub fn entry_actions(&self, order: &[usize]) -> (r: Vec<OverlayAction>)
        requires
            is_permutation(order@, self.bootstrap@.len() as int),
        ensures
            action_views(r@) == entry(
                Seq::new(order@.len(), |i: int| self.bootstrap@[order@[i] as int]@),
                strs(self.nat.external_addresses@),
                self.relays_spec(),
            ),
    {
        let mut actions: Vec<OverlayAction> = Vec::new();
        let ghost dialled = Seq::new(order@.len(), |i: int| self.bootstrap@[order@[i] as int]@);
        let ghost external = strs(self.nat.external_addresses@);
        assert(action_views(actions@) =~= dial_all(dialled.take(0)));
        let mut i: usize = 0;
        while i < order.len()
            invariant
                i <= order@.len(),
                is_permutation(order@, self.bootstrap@.len() as int),
                dialled == Seq::new(order@.len(), |i: int| self.bootstrap@[order@[i] as int]@),
                action_views(actions@) == dial_all(dialled.take(i as int)),
            decreases order@.len() - i,
        {
            proof {
                let next = dialled.take(i + 1);
                assert(next.drop_last() =~= dialled.take(i as int));
                assert(next.last() == self.bootstrap@[order@[i as int] as int]@);
            }
            let addr = &self.bootstrap[order[i]];
            push_routed(&mut actions, addr, OverlayAction::Dial(addr.clone()));
            i = i + 1;
        }
        assert(dialled.take(i as int) =~= dialled);
        let ghost dials = dial_all(dialled);
        if order.len() > 0 {
            push_action(&mut actions, OverlayAction::Bootstrap);
        }
        let ghost looked = action_views(actions@);
        assert(looked =~= dials + (if dialled.len() > 0 {
            seq![ActionView::Bootstrap]
        } else {
            Seq::empty()
        }));
        let mut k: usize = 0;
        assert(looked =~= looked + announce_all(external.take(0)));
        while k < self.nat.external_addresses.len()
            invariant
                k <= external.len(),
                external == strs(self.nat.external_addresses@),
                action_views(actions@) == looked + announce_all(external.take(k as int)),
            decreases external.len() - k,
        {
            push_action(
                &mut actions,
                OverlayAction::AddExternal(self.nat.external_addresses[k].clone()),
            );
            assert(announce_all(external.take(k + 1)) =~= announce_all(
                external.take(k as int),
            ).push(ActionView::AddExternal(external[k as int])));
            k = k + 1;
        }
        assert(external.take(k as int) =~= external);
        let ghost announced = action_views(actions@);
        let relays = self.first_relays();
        let ghost asked = strs(relays@);
        let mut q: usize = 0;
        assert(announced =~= announced + ask_all(asked.take(0)));
        while q < relays.len()
            invariant
                q <= relays@.len(),
                asked == strs(relays@),
                action_views(actions@) == announced + ask_all(asked.take(q as int)),
            decreases relays@.len() - q,
        {
            proof {
                let next = asked.take(q + 1);
                assert(next.drop_last() =~= asked.take(q as int));
                assert(next.last() == relays@[q as int]@);
            }
            let circuit = circuit_on(relays[q].as_str());
            let ghost before = action_views(actions@);
            push_routed(&mut actions, &relays[q], OverlayAction::Listen(circuit));
            assert(action_views(actions@) =~= announced + ask_all(asked.take(q + 1)));
            q = q + 1;
        }
        assert(asked.take(q as int) =~= asked);
        assert(action_views(actions@) =~= entry(dialled, external, asked));
        actions
    }

    /// The state of the overlay that a node enters: the relays it asks from the start,
    /// as far as their addresses name them, count as reserved.
    pub fn overlay(&self) -> (r: Overlay)
        ensures
            r@.listen_addrs.len() == 0,
            r@.relay_client == self.nat.relay_client,
            r@.max_relays == self.nat.max_relays,
            r@.reserved == asked_once(named_peers(self.relays_spec())),
    {
        let relays = self.first_relays();
        let ghost all = strs(relays@);
        let mut asked: Vec<String> = Vec::new();
        let mut i: usize = 0;
        assert(strs(asked@) =~= named_peers(all.take(0)));
        while i < relays.len()
            invariant
                i <= relays@.len(),
                all == strs(relays@),
                strs(asked@) == named_peers(all.take(i as int)),
            decreases relays@.len() - i,
        {
            let ghost before = strs(asked@);
            proof {
                let next = all.take(i + 1);
                assert(next.drop_last() =~= all.take(i as int));
                assert(next.last() == relays@[i as int]@);
            }
            if let Some(peer) = peer_id_from_multiaddr(relays[i].as_str()) {
                asked.push(peer);
                assert(strs(asked@) =~= before.push(peer@));
            }
            i = i + 1;
        }
        assert(all.take(i as int) =~= all);
        Overlay::new(self.nat.relay_client, self.nat.max_relays, &asked)
    }
}

/// Whoever enters the overlay asks for no more circuits than it may.
pub proof fn entry_keeps_the_relay_bound(cfg: Libp2pDiscoveryConfig)
    ensures
        asked_once(named_peers(cfg.relays_spec())).len() <= cfg.nat.max_relays,
{
    named_are_fewer(cfg.relays_spec());
    asked_are_fewer(named_peers(cfg.relays_spec()));
}

proof fn named_are_fewer(addrs: Seq<Seq<char>>)
    ensures
        named_peers(addrs).len() <= addrs.len(),
    decreases addrs.len(),
{
    if addrs.len() > 0 {
        named_are_fewer(addrs.drop_last());
    }
}

proof fn asked_are_fewer(asked: Seq<Seq<char>>)
    ensures
        asked_once(asked).len() <= asked.len(),
    decreases asked.len(),
{
    if asked.len() > 0 {
        asked_are_fewer(asked.drop_last());
    }
}

/// Relays asked from the start, each once.
pub open spec fn asked_once(asked: Seq<Seq<char>>) -> Seq<Seq<char>>
    decreases asked.len(),
{
    if asked.len() == 0 {
        Seq::empty()
    } else {
        with_member(asked_once(asked.drop_last()), asked.last())
    }
}

/// The overlay never asks for a circuit once it holds as many as it may, nor a second
/// time of the same relay.
pub proof fn reservations_are_bounded(
    o: OverlayView,
    peer: Seq<char>,
    addrs: Seq<Seq<char>>,
    protocols: Seq<Seq<char>>,
)
    ensures
        wanted_circuit(o, peer, addrs, protocols) is Some ==> o.relay_client && with_member(
            o.reserved,
            peer,
        ).len() <= o.max_relays && !o.reserved.contains(peer),
{
}

/// An ad is judged in order: it must be readable, of this version, of this time and
/// verified.
pub proof fn ads_are_judged_in_order(
    ad: Option<CapabilityAd>,
    verified: bool,
    now: u64,
    ttl: u64,
    schema: u16,
    major: u16,
)
    ensures
        ({
            let r = ad_outcome(ad, verified, now, ttl, schema, major);
            let ours = ad is Some && ad->0.schema_version == schema && ad->0.protocol_major
                == major;
            let current = ad is Some && now <= ad->0.ts + ttl && ad->0.ts <= now + 60;
            &&& r == AdOutcome::Malformed <==> ad is None
            &&& r == AdOutcome::IncompatibleVersion <==> ad is Some && !ours
            &&& r == AdOutcome::Expired <==> ours && !current
            &&& r == AdOutcome::Accepted <==> ours && current && verified
            &&& r == AdOutcome::Rejected <==> ours && current && !verified
        }),
{
}

/// The peer of an address is the first that it names.
pub proof fn an_address_names_its_first_peer(parts: Seq<PartView>, from: int, i: int)
    requires
        0 <= from <= i <= parts.len(),
        forall|k: int| from <= k < i ==> !(#[trigger] parts[k] is Peer),
        i < parts.len() ==> parts[i] is Peer,
    ensures
        first_peer(parts, from) == (if i < parts.len() {
            Some(parts[i]->Peer_0)
        } else {
            None
        }),
    decreases i - from,
{
    if from < i {
        assert(!(parts[from] is Peer));
        an_address_names_its_first_peer(parts, from + 1, i);
    }
}

/// The first address that cannot be read is the one that is complained of.
pub proof fn the_first_bad_address_is_named(raw: Seq<Seq<char>>, from: int, i: int)
    requires
        0 <= from <= i <= raw.len(),
        forall|k: int| from <= k < i ==> multiaddr_read(#[trigger] raw[k]) is Ok,
        i < raw.len() ==> multiaddr_read(raw[i]) is Err,
    ensures
        first_bad(raw, from) == (if i < raw.len() {
            Some(i)
        } else {
            None
        }),
    decreases i - from,
{
    if from < i {
        assert(multiaddr_read(raw[from]) is Ok);
        the_first_bad_address_is_named(raw, from + 1, i);
    }
}

/// A peer is reached directly at its first address without a circuit.
pub proof fn peers_are_reached_at_their_first_direct_address(
    addrs: Seq<Seq<char>>,
    from: int,
    i: int,
)
    requires
        0 <= from <= i <= addrs.len(),
        forall|k: int| from <= k < i ==> relayed(multiaddr_parts(#[trigger] addrs[k])),
        i < addrs.len() ==> !relayed(multiaddr_parts(addrs[i])),
    ensures
        direct_addr(addrs, from) == (if i < addrs.len() {
            Some(addrs[i])
        } else {
            None
        }),
    decreases i - from,
{
    if from < i {
        assert(relayed(multiaddr_parts(addrs[from])));
        peers_are_reached_at_their_first_direct_address(addrs, from + 1, i);
    }
}

/// A circuit is asked for exactly where this node takes circuits, holds fewer than it may
/// and none of this peer, and the peer offers them at an address of its own.
pub proof fn circuits_are_asked_of_relays(
    o: OverlayView,
    peer: Seq<char>,
    addrs: Seq<Seq<char>>,
    protocols: Seq<Seq<char>>,
)
    ensures
        ({
            let c = wanted_circuit(o, peer, addrs, protocols);
            let base = direct_addr(addrs, 0);
            &&& c is Some <==> {
                &&& o.relay_client
                &&& o.reserved.len() < o.max_relays
                &&& !o.reserved.contains(peer)
                &&& protocols.contains("/libp2p/circuit/relay/0.2.0/hop"@)
                &&& base is Some
            }
            &&& c is Some ==> c->0 == base->0 + "/p2p/"@ + peer + "/p2p-circuit"@
        }),
{
}

/// The overlay reacts to a peer that identified itself by taking in every address of it
/// and gossiping with it, and then asks for a circuit where it wants one.
pub proof fn identified_peers_are_taken_in(
    o: OverlayView,
    peer: String,
    listen_addrs: Vec<String>,
    protocols: Vec<String>,
    i: int,
)
    ensures
        ({
            let r = reaction(o, OverlayEvent::Identified { peer, listen_addrs, protocols });
            let n = listen_addrs@.len() as int;
            let wanted = wanted_circuit(o, peer@, strs(listen_addrs@), strs(protocols@));
            &&& 0 <= i < n ==> r[i] == (ActionView::AddAddress {
                peer: peer@,
                addr: listen_addrs@[i]@,
            })
            &&& r[n] == ActionView::AddGossipPeer(peer@)
            &&& wanted is None ==> r.len() == n + 1
            &&& wanted is Some ==> r.len() == n + 2 && r[n + 1] == (ActionView::Reserve {
                relay: peer@,
                circuit: wanted->0,
            })
        }),
{
}

/// The overlay announces an address that it was found at, gossips with whoever connects,
/// greets whom it finds nearby, and does nothing else.
pub proof fn other_events_have_their_reaction(o: OverlayView, event: OverlayEvent)
    ensures
        event matches OverlayEvent::PublicAt(a) ==> reaction(o, event) == seq![
            ActionView::AddExternal(a@),
        ],
        event matches OverlayEvent::Connected(p) ==> reaction(o, event) == seq![
            ActionView::AddGossipPeer(p@),
        ],
        event matches OverlayEvent::FoundOnLan(peers) ==> reaction(o, event) == greet_all(peers@),
        !(event is Identified) && !(event is PublicAt) && !(event is Connected) && !(event
            is FoundOnLan) ==> reaction(o, event).len() == 0,
{
}

/// Whoever is found nearby is taken in, gossiped with and dialled, one after the other.
pub proof fn nearby_peers_are_greeted(peers: Seq<FoundPeer>, more: FoundPeer)
    ensures
        greet_all(Seq::empty()).len() == 0,
        greet_all(peers.push(more)) == greet_all(peers) + seq![
            ActionView::AddAddress { peer: more.peer@, addr: more.addr@ },
            ActionView::AddGossipPeer(more.peer@),
            ActionView::Dial(more.addr@),
        ],
{
    assert(peers.push(more).drop_last() =~= peers);
    assert(greet_all(peers.push(more)) =~= greet_all(peers) + seq![
        ActionView::AddAddress { peer: more.peer@, addr: more.addr@ },
        ActionView::AddGossipPeer(more.peer@),
        ActionView::Dial(more.addr@),
    ]);
}

/// The overlay remembers the addresses that it listens at and the circuits that it was
/// granted, each once, and nothing else changes it.
pub proof fn the_overlay_remembers(o: OverlayView, event: OverlayEvent, x: Seq<char>)
    ensures
        ({
            let t = after_event(o, event);
            &&& t.relay_client == o.relay_client && t.max_relays == o.max_relays
            &&& event matches OverlayEvent::NewListenAddr(a) ==> t.listen_addrs
                == o.listen_addrs.push(a@) && t.reserved == o.reserved
            &&& event matches OverlayEvent::ReservationAccepted(p) ==> t.listen_addrs
                == o.listen_addrs && t.reserved.contains(x) == (o.reserved.contains(x) || x == p@)
            &&& !(event is NewListenAddr) && !(event is ReservationAccepted) ==> t == o
        }),
{
    if let OverlayEvent::ReservationAccepted(p) = event {
        joined(o.reserved, p@, x);
    }
}

proof fn joined(set: Seq<Seq<char>>, p: Seq<char>, x: Seq<char>)
    ensures
        with_member(set, p).contains(x) == (set.contains(x) || x == p),
{
    if !set.contains(p) {
        let t = set.push(p);
        if set.contains(x) {
            let i = choose|i: int| 0 <= i < set.len() && set[i] == x;
            assert(t[i] == x);
        }
        assert(t[set.len() as int] == p);
        if t.contains(x) {
            let i = choose|i: int| 0 <= i < t.len() && t[i] == x;
            if i < set.len() {
                assert(set[i] == x);
            }
        }
    }
}

/// Whoever enters the overlay dials every bootstrap node, and takes in the peer that its
/// address names first; then it announces its own addresses and asks its relays.
pub proof fn entering_dials_announces_and_asks(
    bootstrap: Seq<Seq<char>>,
    external: Seq<Seq<char>>,
    relays: Seq<Seq<char>>,
    more: Seq<char>,
)
    ensures
        ({
            let peer = first_peer(multiaddr_parts(more), 0);
            &&& peer is Some ==> dial_all(bootstrap.push(more)) == dial_all(bootstrap) + seq![
                ActionView::AddAddress { peer: peer->0, addr: more },
                ActionView::Dial(more),
            ]
            &&& peer is None ==> dial_all(bootstrap.push(more)) == dial_all(bootstrap) + seq![
                ActionView::Dial(more),
            ]
            &&& peer is Some ==> ask_all(relays.push(more)) == ask_all(relays) + seq![
                ActionView::AddAddress { peer: peer->0, addr: more },
                ActionView::Listen(more + "/p2p-circuit"@),
            ]
            &&& peer is None ==> ask_all(relays.push(more)) == ask_all(relays) + seq![
                ActionView::Listen(more + "/p2p-circuit"@),
            ]
        }),
        dial_all(Seq::empty()).len() == 0 && ask_all(Seq::empty()).len() == 0,
        bootstrap.len() > 0 ==> entry(bootstrap, external, relays) == dial_all(bootstrap) + seq![
            ActionView::Bootstrap,
        ] + external.map_values(|a: Seq<char>| ActionView::AddExternal(a)) + ask_all(relays),
        bootstrap.len() == 0 ==> entry(bootstrap, external, relays) == external.map_values(
            |a: Seq<char>| ActionView::AddExternal(a),
        ) + ask_all(relays),
{
    assert(bootstrap.push(more).drop_last() =~= bootstrap);
    assert(relays.push(more).drop_last() =~= relays);
    assert(announce_all(external) =~= external.map_values(
        |a: Seq<char>| ActionView::AddExternal(a),
    ));
    if bootstrap.len() == 0 {
        assert(dial_all(bootstrap) =~= Seq::empty());
        assert(entry(bootstrap, external, relays) =~= announce_all(external) + ask_all(relays));
    }
}

/// The relays that are asked are the configured ones, as many as there may be, and none
/// where this node takes no circuits.
pub proof fn relays_are_asked_up_to_the_bound(cfg: Libp2pDiscoveryConfig, i: int)
    ensures
        ({
            let r = cfg.relays_spec();
            &&& !cfg.nat.relay_client ==> r.len() == 0
            &&& cfg.nat.relay_client && cfg.nat.relays@.len() <= cfg.nat.max_relays ==> r.len()
                == cfg.nat.relays@.len()
            &&& cfg.nat.relay_client && cfg.nat.relays@.len() > cfg.nat.max_relays ==> r.len()
                == cfg.nat.max_relays
            &&& 0 <= i < r.len() ==> r[i] == cfg.nat.relays@[i]@
        }),
{
}

/// The overlay's parameters are the configured ones, and one at least where none makes no
/// sense.
pub proof fn overlay_parameters_are_as_configured(
    p: Libp2pDiscoveryConfig,
    cfg: OverlayConfig,
    major: u16,
)
    requires
        overlay_from(p, cfg, major),
    ensures
        p.topic@ == cfg.topic@ && p.protocol_major == major,
        p.capability_ttl_secs == cfg.capability_ttl_secs && p.required_pow_bits
            == cfg.pow_difficulty_bits,
        cfg.heartbeat_ms > 0 ==> p.heartbeat_ms == cfg.heartbeat_ms,
        cfg.fanout > 0 ==> p.mesh_n == cfg.fanout,
        cfg.peer_cache_capacity > 0 ==> p.membership_capacity == cfg.peer_cache_capacity,
        cfg.replication_factor > 0 ==> p.replication_factor == cfg.replication_factor,
        cfg.query_parallelism > 0 ==> p.query_parallelism == cfg.query_parallelism,
        p.heartbeat_ms >= 1 && p.mesh_n >= 1 && p.membership_capacity >= 1 && p.replication_factor
            >= 1 && p.query_parallelism >= 1,
        p.gossip_peer_scoring <==> cfg.antiabuse_enabled && cfg.peer_scoring,
        p.diverse_bootstrap == cfg.diverse_bootstrap,
        p.nat.autonat == cfg.nat.autonat && p.nat.dcutr == cfg.nat.dcutr && p.nat.relay_client
            == cfg.nat.relay_client && p.nat.act_as_relay == cfg.nat.act_as_relay && p.nat.mdns
            == cfg.nat.mdns,
        cfg.nat.mdns_query_interval_secs > 0 ==> p.nat.mdns_query_interval_secs
            == cfg.nat.mdns_query_interval_secs,
        cfg.nat.max_relays > 0 ==> p.nat.max_relays == cfg.nat.max_relays,
        p.nat.relay_limits == cfg.nat.relay_limits,
        p.listen_addrs@.len() == cfg.listen_addrs@.len() && p.bootstrap@.len()
            == cfg.bootstrap@.len(),
        forall|i: int|
            0 <= i < p.listen_addrs@.len() ==> (#[trigger] p.listen_addrs@[i])@ == multiaddr_read(
                cfg.listen_addrs@[i]@,
            )->Ok_0,
        forall|i: int|
            0 <= i < p.bootstrap@.len() ==> (#[trigger] p.bootstrap@[i])@ == multiaddr_read(
                cfg.bootstrap@[i]@,
            )->Ok_0,
{
    assert(strs(p.listen_addrs@).len() == canonical(strs(cfg.listen_addrs@)).len());
    assert(strs(p.bootstrap@).len() == canonical(strs(cfg.bootstrap@)).len());
    assert forall|i: int| 0 <= i < p.listen_addrs@.len() implies (#[trigger] p.listen_addrs@[i])@
        == multiaddr_read(cfg.listen_addrs@[i]@)->Ok_0 by {
        assert(strs(p.listen_addrs@)[i] == canonical(strs(cfg.listen_addrs@))[i]);
    }
    assert forall|i: int| 0 <= i < p.bootstrap@.len() implies (#[trigger] p.bootstrap@[i])@
        == multiaddr_read(cfg.bootstrap@[i]@)->Ok_0 by {
        assert(strs(p.bootstrap@)[i] == canonical(strs(cfg.bootstrap@))[i]);
    }
}

/// An error tells its reason last, and the address that it is about.
pub proof fn overlay_faults_tell_their_reason(addr: String, why: String)
    ensures
        DiscoveryError::BadMultiaddr(addr, why).text() =~= "invalid multiaddr "@ + (debug_text(
            addr@,
        ) + (": "@ + why@)),
        DiscoveryError::Build(why).text() == "libp2p build error: "@ + why@,
        DiscoveryError::Transport(why).text() == "transport/listen error: "@ + why@,
{
}

} // verus!
