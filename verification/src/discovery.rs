//! Candidate workers and the filters a requester applies to them.

use vstd::prelude::*;
use crate::math::min_int;
use crate::sampling::{is_permutation, seeded_order, seeded_shuffle};
use crate::types::{
    copy_opt_id, copy_opt_str, copy_strs, has_id, has_str, ids, opt_id, opt_str, strs,
    AttestationLevel, DataClass, NodeId,
};

verus! {

/// How a candidate's `node_id` was learned. Only an attributable id may satisfy
/// the stake and sybil gates.
#[derive(Debug, Clone, Copy, PartialEq, Eq, Structural)]
pub enum IdProvenance {
    /// Configured by the operator.
    Pinned,
    /// Taken from a verified capability ad.
    Advertised,
    /// Trust on first use: no id, or one learned without verification.
    Tofu,
}

impl IdProvenance {
    pub open spec fn verified(self) -> bool {
        self == IdProvenance::Pinned || self == IdProvenance::Advertised
    }

    /// Whether this id may satisfy the fail-closed stake and sybil gates.
    pub fn is_verified(self) -> (r: bool)
        ensures
            r == self.verified(),
    {
        match self {
            IdProvenance::Pinned | IdProvenance::Advertised => true,
            IdProvenance::Tofu => false,
        }
    }
}

/// A discovered worker candidate.
#[derive(Debug, Clone, PartialEq, Eq)]
pub struct Candidate {
    /// Known node id, if any.
    pub node_id: Option<NodeId>,
    /// How `node_id` was learned.
    pub id_provenance: IdProvenance,
    /// The socket address the candidate is dialled at.
    pub addr: String,
    /// Advertised attestation level, if known.
    pub advertised_level: Option<AttestationLevel>,
    /// Advertised logical partitions (empty when unknown).
    pub advertised_networks: Vec<String>,
    /// Advertised group memberships (empty when ungrouped or unknown).
    pub advertised_groups: Vec<String>,
    /// Advertised region, if known.
    pub advertised_region: Option<String>,
}

impl Candidate {
    /// A candidate with no advertised labels. An id given here is pinned by the
    /// operator; without one the candidate is trust-on-first-use.
    pub fn new(node_id: Option<NodeId>, addr: String) -> (r: Candidate)
        ensures
            r.node_id == node_id,
            r.addr == addr,
            r.id_provenance == (if node_id is Some {
                IdProvenance::Pinned
            } else {
                IdProvenance::Tofu
            }),
            r.advertised_level is None,
            r.advertised_networks@.len() == 0,
            r.advertised_groups@.len() == 0,
            r.advertised_region is None,
    {
        let id_provenance = if node_id.is_some() {
            IdProvenance::Pinned
        } else {
            IdProvenance::Tofu
        };
        Candidate {
            node_id,
            id_provenance,
            addr,
            advertised_level: None,
            advertised_networks: Vec::new(),
            advertised_groups: Vec::new(),
            advertised_region: None,
        }
    }

    /// Mark the id as learned from a verified capability ad.
    pub fn advertised(self) -> (r: Candidate)
        ensures
            r == (Candidate { id_provenance: IdProvenance::Advertised, ..self }),
    {
        Candidate { id_provenance: IdProvenance::Advertised, ..self }
    }

    /// Remember an unverified id for routing. The candidate stays
    /// trust-on-first-use, so the fail-closed gates keep excluding it.
    pub fn with_tofu_id(self, node_id: NodeId) -> (r: Candidate)
        ensures
            r == (Candidate { node_id: Some(node_id), id_provenance: IdProvenance::Tofu, ..self }),
    {
        Candidate { node_id: Some(node_id), id_provenance: IdProvenance::Tofu, ..self }
    }

    /// Another copy of this candidate.
    pub fn duplicate(&self) -> (r: Candidate)
        ensures
            r.view_spec() == self.view_spec(),
    {
        Candidate {
            node_id: copy_opt_id(&self.node_id),
            id_provenance: self.id_provenance,
            addr: self.addr.clone(),
            advertised_level: self.advertised_level,
            advertised_networks: copy_strs(&self.advertised_networks),
            advertised_groups: copy_strs(&self.advertised_groups),
            advertised_region: copy_opt_str(&self.advertised_region),
        }
    }

    /// Everything a candidate holds, as mathematical values.
    pub open spec fn view_spec(&self) -> CandidateView {
        CandidateView {
            node_id: opt_id(self.node_id),
            id_provenance: self.id_provenance,
            addr: self.addr@,
            advertised_level: self.advertised_level,
            advertised_networks: strs(self.advertised_networks@),
            advertised_groups: strs(self.advertised_groups@),
            advertised_region: opt_str(self.advertised_region),
        }
    }
}

/// A candidate's contents as mathematical values.
#[verifier::ext_equal]
pub struct CandidateView {
    pub node_id: Option<Seq<char>>,
    pub id_provenance: IdProvenance,
    pub addr: Seq<char>,
    pub advertised_level: Option<AttestationLevel>,
    pub advertised_networks: Seq<Seq<char>>,
    pub advertised_groups: Seq<Seq<char>>,
    pub advertised_region: Option<Seq<char>>,
}

impl View for Candidate {
    type V = CandidateView;

    open spec fn view(&self) -> CandidateView {
        self.view_spec()
    }
}

/// What kind of candidates a requester wants.
#[derive(Debug, Clone, PartialEq, Eq)]
pub struct CandidateFilter {
    pub data_class: DataClass,
    pub min_attestation: AttestationLevel,
    /// Target logical partition (`None` for any).
    pub network: Option<String>,
    /// The requester's group claims.
    pub groups: Vec<String>,
    /// Accepted regions (empty for no constraint).
    pub regions: Vec<String>,
    /// Whether an unknown network or group label drops a candidate that the
    /// requester's constraint applies to.
    pub fail_closed_labels: bool,
    /// Exact target nodes (empty for no constraint).
    pub nodes: Vec<NodeId>,
}

/// Whether two sequences share an element.
pub open spec fn overlap(a: Seq<Seq<char>>, b: Seq<Seq<char>>) -> bool {
    exists|i: int| 0 <= i < a.len() && #[trigger] b.contains(a[i])
}

impl CandidateFilter {
    /// A targeted query reaches only the candidates whose known id is a target.
    pub open spec fn node_ok(&self, c: CandidateView) -> bool {
        self.nodes@.len() == 0 || (c.node_id is Some && ids(self.nodes@).contains(c.node_id->0))
    }

    /// A known network label must match; an unknown one is kept unless labels
    /// fail closed.
    pub open spec fn network_ok(&self, c: CandidateView) -> bool {
        self.network is None || (if c.advertised_networks.len() == 0 {
            !self.fail_closed_labels
        } else {
            c.advertised_networks.contains(self.network->0@)
        })
    }

    /// A grouped candidate serves only requesters that share a group; an
    /// ungrouped one is kept unless labels fail closed and groups are required.
    pub open spec fn group_ok(&self, c: CandidateView) -> bool {
        if c.advertised_groups.len() > 0 {
            overlap(c.advertised_groups, strs(self.groups@))
        } else {
            !(self.fail_closed_labels && self.groups@.len() > 0)
        }
    }

    /// A region constraint keeps only candidates that advertise one of the regions.
    pub open spec fn region_ok(&self, c: CandidateView) -> bool {
        self.regions@.len() == 0 || (c.advertised_region is Some && strs(self.regions@).contains(
            c.advertised_region->0,
        ))
    }

    /// Whether a candidate's labels pass this filter.
    pub open spec fn admits(&self, c: CandidateView) -> bool {
        self.node_ok(c) && self.network_ok(c) && self.group_ok(c) && self.region_ok(c)
    }

    /// Whether a candidate's advertised labels pass this filter. The same test
    /// serves the early prune in discovery and the enforcement in the scheduler.
    pub fn admits_labels(&self, c: &Candidate) -> (r: bool)
        ensures
            r == self.admits(c@),
    {
        if self.nodes.len() > 0 {
            match &c.node_id {
                Some(id) => {
                    if !has_id(&self.nodes, id) {
                        return false;
                    }
                },
                None => {
                    return false;
                },
            }
        }
        if let Some(net) = &self.network {
            if c.advertised_networks.len() == 0 {
                if self.fail_closed_labels {
                    return false;
                }
            } else if !has_str(&c.advertised_networks, net) {
                return false;
            }
        }
        if c.advertised_groups.len() > 0 {
            if !any_shared(&c.advertised_groups, &self.groups) {
                return false;
            }
        } else if self.fail_closed_labels && self.groups.len() > 0 {
            return false;
        }
        if self.regions.len() > 0 {
            match &c.advertised_region {
                Some(r) => {
                    if !has_str(&self.regions, r) {
                        return false;
                    }
                },
                None => {
                    return false;
                },
            }
        }
        true
    }
}

/// Whether any of `a` is among `b`.
pub fn any_shared(a: &[String], b: &[String]) -> (r: bool)
    ensures
        r == overlap(strs(a@), strs(b@)),
{
    let mut i: usize = 0;
    while i < a.len()
        invariant
            i <= a@.len(),
            forall|k: int| 0 <= k < i ==> !strs(b@).contains(a@[k]@),
        decreases a@.len() - i,
    {
        if has_str(b, &a[i]) {
            assert(strs(b@).contains(strs(a@)[i as int]));
            return true;
        }
        i = i + 1;
    }
    assert forall|k: int| 0 <= k < strs(a@).len() implies !strs(b@).contains(strs(a@)[k]) by {
        assert(strs(a@)[k] == a@[k]@);
    }
    false
}

/// The candidates at the first `take` indices of `order`.
pub open spec fn picked(from: Seq<CandidateView>, order: Seq<usize>, take: int) -> Seq<
    CandidateView,
> {
    Seq::new(min_int(take, order.len() as int) as nat, |i: int| from[order[i] as int])
}

pub open spec fn candidate_views(v: Seq<Candidate>) -> Seq<CandidateView> {
    v.map_values(|c: Candidate| c@)
}

/// The candidates at the first `take` indices of `order`.
pub fn pick(from: &[Candidate], order: &[usize], take: usize) -> (r: Vec<Candidate>)
    requires
        is_permutation(order@, from@.len() as int),
    ensures
        candidate_views(r@) == picked(candidate_views(from@), order@, take as int),
        r@.len() == min_int(take as int, from@.len() as int),
{
    let mut r: Vec<Candidate> = Vec::new();
    let mut i: usize = 0;
    while i < order.len() && i < take
        invariant
            i <= order@.len(),
            i <= take,
            is_permutation(order@, from@.len() as int),
            r@.len() == i,
            forall|k: int| 0 <= k < i ==> (#[trigger] r@[k])@ == from@[order@[k] as int]@,
        decreases order@.len() - i,
    {
        r.push(from[order[i]].duplicate());
        i = i + 1;
    }
    assert(candidate_views(r@) =~= picked(candidate_views(from@), order@, take as int));
    r
}

/// Whether a static peer may be offered work: its level, where known, is high enough,
/// and its labels pass.
pub open spec fn peer_eligible(c: CandidateView, filter: CandidateFilter) -> bool {
    (c.advertised_level is Some ==> c.advertised_level->0.rank_spec()
        >= filter.min_attestation.rank_spec()) && filter.admits(c)
}

/// The eligible peers, in order.
pub open spec fn eligible_peers(peers: Seq<CandidateView>, filter: CandidateFilter) -> Seq<
    CandidateView,
>
    decreases peers.len(),
{
    if peers.len() == 0 {
        Seq::empty()
    } else if peer_eligible(peers.last(), filter) {
        eligible_peers(peers.drop_last(), filter).push(peers.last())
    } else {
        eligible_peers(peers.drop_last(), filter)
    }
}

/// The next state of the sampling seed.
pub open spec fn next_seed(s: u64) -> u64 {
    let a = s ^ (s << 13u64);
    let b = a ^ (a >> 7u64);
    b ^ (b << 17u64)
}

/// Discovery over a fixed list of peers, with bounded sampling.
#[derive(Debug)]
pub struct StaticDiscovery {
    peers: Vec<Candidate>,
    sample_cap: usize,
    seed: u64,
}

/// `StaticDiscovery` over mathematical values.
pub struct StaticView {
    pub peers: Seq<CandidateView>,
    pub sample_cap: usize,
    pub seed: u64,
}

impl View for StaticDiscovery {
    type V = StaticView;

    closed spec fn view(&self) -> StaticView {
        StaticView {
            peers: candidate_views(self.peers@),
            sample_cap: self.sample_cap,
            seed: self.seed,
        }
    }
}

/// The sampling seed that discovery starts with.
pub const FIRST_SEED: u64 = 0x9e37_79b9_7f4a_7c15;

impl StaticDiscovery {
    /// Discovery over `peers` that never returns more than `sample_cap` (at least one).
    pub fn new(peers: Vec<Candidate>, sample_cap: usize) -> (r: StaticDiscovery)
        ensures
            r@ == (StaticView {
                peers: candidate_views(peers@),
                sample_cap: if sample_cap == 0 {
                    1
                } else {
                    sample_cap
                },
                seed: FIRST_SEED,
            }),
    {
        StaticDiscovery {
            peers,
            sample_cap: if sample_cap == 0 {
                1
            } else {
                sample_cap
            },
            seed: FIRST_SEED,
        }
    }

    /// Up to `want` eligible peers, never more than the cap. Each call varies the order.
    pub fn find_candidates(&mut self, want: usize, filter: &CandidateFilter) -> (r: Vec<Candidate>)
        ensures
            final(self)@ == (StaticView { seed: next_seed(old(self)@.seed), ..old(self)@ }),
            ({
                let eligible = eligible_peers(old(self)@.peers, *filter);
                let order = seeded_order(next_seed(old(self)@.seed), eligible.len());
                is_permutation(order, eligible.len() as int) && candidate_views(r@) == picked(
                    eligible,
                    order,
                    min_int(want as int, old(self)@.sample_cap as int),
                ) && r@.len() == min_int(
                    min_int(want as int, old(self)@.sample_cap as int),
                    eligible.len() as int,
                )
            }),
    {
        let ghost all = candidate_views(self.peers@);
        let mut eligible: Vec<Candidate> = Vec::new();
        let mut i: usize = 0;
        assert(candidate_views(eligible@) =~= all.take(0));
        while i < self.peers.len()
            invariant
                i <= self.peers@.len(),
                all == candidate_views(self.peers@),
                candidate_views(eligible@) == eligible_peers(all.take(i as int), *filter),
            decreases self.peers@.len() - i,
        {
            let ghost before = candidate_views(eligible@);
            proof {
                let next = all.take(i + 1);
                assert(next.drop_last() =~= all.take(i as int));
                assert(next.last() == self.peers@[i as int]@);
            }
            let peer = &self.peers[i];
            let level_ok = match peer.advertised_level {
                Some(level) => level.rank() >= filter.min_attestation.rank(),
                None => true,
            };
            if level_ok && filter.admits_labels(peer) {
                let c = peer.duplicate();
                eligible.push(c);
                assert(candidate_views(eligible@) =~= before.push(c@));
            }
            i = i + 1;
        }
        assert(all.take(i as int) =~= all);
        let take: usize = if want < self.sample_cap {
            want
        } else {
            self.sample_cap
        };
        let s: u64 = self.seed;
        let a: u64 = s ^ (s << 13u64);
        let b: u64 = a ^ (a >> 7u64);
        let seed: u64 = b ^ (b << 17u64);
        self.seed = seed;
        let order = seeded_shuffle(seed, eligible.len());
        pick(&eligible, &order, take)
    }
}

/// A filter without a constraint keeps every candidate but the members of a group, which
/// serve their own.
pub proof fn unconstrained_filters_keep_ungrouped_peers(f: CandidateFilter, c: CandidateView)
    requires
        f.nodes@.len() == 0,
        f.network is None,
        f.groups@.len() == 0,
        f.regions@.len() == 0,
    ensures
        f.admits(c) == (c.advertised_groups.len() == 0),
{
}

/// Named nodes and regions fail closed: a candidate that is not known to be one of them
/// is dropped, whatever else it advertises.
pub proof fn targets_and_regions_fail_closed(f: CandidateFilter, c: CandidateView)
    requires
        f.admits(c),
    ensures
        f.nodes@.len() > 0 ==> c.node_id is Some && ids(f.nodes@).contains(c.node_id->0),
        f.regions@.len() > 0 ==> c.advertised_region is Some && strs(f.regions@).contains(
            c.advertised_region->0,
        ),
{
}

/// In a private grid an unknown network or group fails closed too; in a public one it
/// drops nobody.
pub proof fn unknown_labels_fail_closed_in_private(f: CandidateFilter, c: CandidateView)
    requires
        c.advertised_networks.len() == 0,
        c.advertised_groups.len() == 0,
    ensures
        f.fail_closed_labels && (f.network is Some || f.groups@.len() > 0) ==> !f.admits(c),
        !f.fail_closed_labels ==> f.admits(c) == (f.node_ok(c) && f.region_ok(c)),
{
}

/// A sample holds only eligible peers.
pub proof fn samples_are_eligible(
    peers: Seq<CandidateView>,
    filter: CandidateFilter,
    order: Seq<usize>,
    take: int,
    i: int,
)
    requires
        is_permutation(order, eligible_peers(peers, filter).len() as int),
        0 <= take,
        0 <= i < picked(eligible_peers(peers, filter), order, take).len(),
    ensures
        peer_eligible(picked(eligible_peers(peers, filter), order, take)[i], filter),
{
    every_eligible_peer(peers, filter, order[i] as int);
}

/// No two places of a sample hold the same place of what is sampled.
pub proof fn samples_do_not_repeat(
    from: Seq<CandidateView>,
    order: Seq<usize>,
    take: int,
    i: int,
    j: int,
)
    requires
        is_permutation(order, from.len() as int),
        0 <= take,
        0 <= i < j < picked(from, order, take).len(),
    ensures
        order[i] != order[j],
        picked(from, order, take)[i] == from[order[i] as int],
        picked(from, order, take)[j] == from[order[j] as int],
{
}

proof fn every_eligible_peer(peers: Seq<CandidateView>, filter: CandidateFilter, k: int)
    requires
        0 <= k < eligible_peers(peers, filter).len(),
    ensures
        peer_eligible(eligible_peers(peers, filter)[k], filter),
    decreases peers.len(),
{
    let rest = eligible_peers(peers.drop_last(), filter);
    if k < rest.len() {
        every_eligible_peer(peers.drop_last(), filter, k);
    }
}

/// A filter admits a candidate exactly where none of its constraints is broken: the named
/// nodes, the network, the groups and the regions.
pub proof fn filters_admit_what_breaks_no_constraint(f: CandidateFilter, c: CandidateView)
    ensures
        f.admits(c) <==> {
            let shares = exists|i: int, j: int|
                0 <= i < c.advertised_groups.len() && 0 <= j < f.groups@.len()
                    && #[trigger] c.advertised_groups[i] == (#[trigger] f.groups@[j])@;
            &&& f.nodes@.len() == 0 || exists|i: int|
                0 <= i < f.nodes@.len() && c.node_id == Some((#[trigger] f.nodes@[i])@)
            &&& f.network is None || c.advertised_networks.contains(f.network->0@) || (
            c.advertised_networks.len() == 0 && !f.fail_closed_labels)
            &&& shares || (c.advertised_groups.len() == 0 && (f.groups@.len() == 0
                || !f.fail_closed_labels))
            &&& f.regions@.len() == 0 || exists|i: int|
                0 <= i < f.regions@.len() && c.advertised_region == Some(
                    (#[trigger] f.regions@[i])@,
                )
        },
{
    let ns = ids(f.nodes@);
    let gs = strs(f.groups@);
    let rs = strs(f.regions@);
    assert forall|i: int| 0 <= i < f.nodes@.len() implies ns[i] == (#[trigger] f.nodes@[i])@ by {}
    assert forall|i: int| 0 <= i < f.groups@.len() implies gs[i] == (#[trigger] f.groups@[i])@ by {}
    assert forall|i: int| 0 <= i < f.regions@.len() implies rs[i]
        == (#[trigger] f.regions@[i])@ by {}
    if c.node_id is Some && ns.contains(c.node_id->0) {
        let i = choose|i: int| 0 <= i < ns.len() && ns[i] == c.node_id->0;
        assert(c.node_id == Some(f.nodes@[i]@));
    }
    if exists|i: int| 0 <= i < f.nodes@.len() && c.node_id == Some((#[trigger] f.nodes@[i])@) {
        let i = choose|i: int|
            0 <= i < f.nodes@.len() && c.node_id == Some((#[trigger] f.nodes@[i])@);
        assert(ns[i] == c.node_id->0);
    }
    if c.advertised_region is Some && rs.contains(c.advertised_region->0) {
        let i = choose|i: int| 0 <= i < rs.len() && rs[i] == c.advertised_region->0;
        assert(c.advertised_region == Some(f.regions@[i]@));
    }
    if exists|i: int|
        0 <= i < f.regions@.len() && c.advertised_region == Some((#[trigger] f.regions@[i])@) {
        let i = choose|i: int|
            0 <= i < f.regions@.len() && c.advertised_region == Some((#[trigger] f.regions@[i])@);
        assert(rs[i] == c.advertised_region->0);
    }
    if overlap(c.advertised_groups, gs) {
        let i = choose|i: int|
            0 <= i < c.advertised_groups.len() && #[trigger] gs.contains(c.advertised_groups[i]);
        let j = choose|j: int| 0 <= j < gs.len() && gs[j] == c.advertised_groups[i];
        assert(c.advertised_groups[i] == f.groups@[j]@);
    }
    if exists|i: int, j: int|
        0 <= i < c.advertised_groups.len() && 0 <= j < f.groups@.len()
            && #[trigger] c.advertised_groups[i] == (#[trigger] f.groups@[j])@ {
        let (i, j) = choose|i: int, j: int|
            0 <= i < c.advertised_groups.len() && 0 <= j < f.groups@.len()
                && #[trigger] c.advertised_groups[i] == (#[trigger] f.groups@[j])@;
        assert(gs[j] == c.advertised_groups[i]);
        assert(gs.contains(c.advertised_groups[i]));
    }
}

/// The eligible peers are those whose labels pass and whose level, where it is known, is
/// sufficient, in order.
pub proof fn eligible_peers_are_filtered(peers: Seq<CandidateView>, filter: CandidateFilter)
    ensures
        eligible_peers(peers, filter) == peers.filter(
            |c: CandidateView|
                filter.admits(c) && (c.advertised_level is None || filter.min_attestation
                    == AttestationLevel::L0 || c.advertised_level == Some(AttestationLevel::L2)
                    || c.advertised_level == Some(filter.min_attestation)),
        ),
    decreases peers.len(),
{
    reveal(Seq::filter);
    if peers.len() > 0 {
        eligible_peers_are_filtered(peers.drop_last(), filter);
    } else {
        assert(eligible_peers(peers, filter) =~= peers.filter(
            |c: CandidateView|
                filter.admits(c) && (c.advertised_level is None || filter.min_attestation
                    == AttestationLevel::L0 || c.advertised_level == Some(AttestationLevel::L2)
                    || c.advertised_level == Some(filter.min_attestation)),
        ));
    }
}

/// A sample is as large as asked for, where there are as many.
pub proof fn samples_are_as_large_as_asked(
    from: Seq<CandidateView>,
    order: Seq<usize>,
    take: int,
)
    requires
        is_permutation(order, from.len() as int),
        0 <= take,
    ensures
        take <= from.len() ==> picked(from, order, take).len() == take,
        take > from.len() ==> picked(from, order, take).len() == from.len(),
{
}

/// An id is verified unless it was taken on trust.
pub proof fn ids_taken_on_trust_are_not_verified(p: IdProvenance)
    ensures
        p.verified() <==> p != IdProvenance::Tofu,
{
}

} // verus!
