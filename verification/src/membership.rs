//! The bounded local view of the swarm: verified capability ads, and samples of them.

use vstd::prelude::*;
use crate::discovery::{
    candidate_views, pick, picked, Candidate, CandidateFilter, CandidateView, IdProvenance,
};
use crate::math::min_int;
use crate::sampling::{is_permutation, random_order};
use crate::types::{
    copy_opt_str, copy_strs, opt_str, strs, AttestationLevel, CapabilityProfile, NodeId,
};

verus! {

/// A host's signed capability ad, as far as it is acted on.
#[derive(Debug, Clone, PartialEq, Eq)]
pub struct CapabilityAd {
    pub schema_version: u16,
    pub protocol_major: u16,
    pub node_id: NodeId,
    pub addr: String,
    /// Whether `addr` is a socket address.
    pub dialable: bool,
    pub attestation_level: AttestationLevel,
    /// When the ad was made, in seconds.
    pub ts: u64,
    /// Whether the host takes new work.
    pub enabled: bool,
    pub networks: Vec<String>,
    pub groups: Vec<String>,
    pub region: Option<String>,
}

/// A known host: its latest ad, and its self-measured profile if it sent one.
#[derive(Debug)]
pub struct Member {
    pub ad: CapabilityAd,
    /// A hint about capacity. Never an input to trust.
    pub profile: Option<CapabilityProfile>,
}

/// A bounded table of verified ads. When it is full, the host that was heard of least
/// recently makes room.
pub struct MembershipTable {
    members: Vec<Member>,
    capacity: usize,
    capability_ttl_secs: u64,
}

/// `MembershipTable` over mathematical values: the members from the least recently
/// heard of to the most recently.
pub struct TableView {
    pub members: Seq<Member>,
    pub capacity: usize,
    pub ttl: u64,
}

impl View for MembershipTable {
    type V = TableView;

    closed spec fn view(&self) -> TableView {
        TableView {
            members: self.members@,
            capacity: self.capacity,
            ttl: self.capability_ttl_secs,
        }
    }
}

/// The place of a node among members.
pub open spec fn member_at(members: Seq<Member>, node: Seq<char>, from: int) -> Option<int>
    decreases members.len() - from,
{
    if from >= members.len() {
        None
    } else if members[from].ad.node_id@ == node {
        Some(from)
    } else {
        member_at(members, node, from + 1)
    }
}

/// The members after a verified ad is taken in: a known host keeps its profile and
/// becomes the most recent; a new one takes the place of the least recent when there is
/// no room.
pub open spec fn after_ad(members: Seq<Member>, capacity: int, ad: CapabilityAd) -> Seq<Member> {
    match member_at(members, ad.node_id@, 0) {
        Some(i) => members.remove(i).push(Member { ad, profile: members[i].profile }),
        None => if members.len() >= capacity {
            members.subrange(1, members.len() as int).push(Member { ad, profile: None })
        } else {
            members.push(Member { ad, profile: None })
        },
    }
}

/// Whether no host occurs twice.
pub open spec fn one_per_node(members: Seq<Member>) -> bool {
    forall|i: int, j: int|
        0 <= i < j < members.len() ==> (#[trigger] members[i]).ad.node_id@ != (
        #[trigger] members[j]).ad.node_id@
}

proof fn member_at_finds(members: Seq<Member>, node: Seq<char>, from: int)
    requires
        0 <= from <= members.len(),
    ensures
        match member_at(members, node, from) {
            Some(i) => from <= i < members.len() && members[i].ad.node_id@ == node,
            None => forall|k: int|
                from <= k < members.len() ==> (#[trigger] members[k]).ad.node_id@ != node,
        },
    decreases members.len() - from,
{
    if from < members.len() && members[from].ad.node_id@ != node {
        member_at_finds(members, node, from + 1);
    }
}

/// An ad is young enough, by the clock `now`.
pub open spec fn is_fresh(ad: CapabilityAd, now: u64, ttl: u64) -> bool {
    now - ad.ts <= ttl
}

/// The candidate that an ad describes.
pub open spec fn candidate_of(ad: CapabilityAd) -> CandidateView {
    CandidateView {
        node_id: Some(ad.node_id@),
        id_provenance: IdProvenance::Advertised,
        addr: ad.addr@,
        advertised_level: Some(ad.attestation_level),
        advertised_networks: strs(ad.networks@),
        advertised_groups: strs(ad.groups@),
        advertised_region: opt_str(ad.region),
    }
}

/// Whether a host may be offered work: it takes new work, its ad is fresh, its level is
/// high enough, its address can be dialled and its labels pass.
pub open spec fn ad_eligible(ad: CapabilityAd, filter: CandidateFilter, now: u64, ttl: u64) -> bool {
    &&& ad.enabled
    &&& is_fresh(ad, now, ttl)
    &&& ad.attestation_level.rank_spec() >= filter.min_attestation.rank_spec()
    &&& ad.dialable
    &&& filter.admits(candidate_of(ad))
}

/// The candidates among the members, in the table's order.
pub open spec fn eligible_members(
    members: Seq<Member>,
    filter: CandidateFilter,
    now: u64,
    ttl: u64,
) -> Seq<CandidateView>
    decreases members.len(),
{
    if members.len() == 0 {
        Seq::empty()
    } else {
        let rest = eligible_members(members.drop_last(), filter, now, ttl);
        if ad_eligible(members.last().ad, filter, now, ttl) {
            rest.push(candidate_of(members.last().ad))
        } else {
            rest
        }
    }
}

impl MembershipTable {
    #[verifier::type_invariant]
    spec fn inv(self) -> bool {
        &&& self.capacity > 0
        &&& self.members@.len() <= self.capacity
        &&& one_per_node(self.members@)
    }

    /// What holds of every table: it is within its capacity, and knows no host twice.
    pub open spec fn bounded(&self) -> bool {
        &&& self@.capacity > 0
        &&& self@.members.len() <= self@.capacity
        &&& one_per_node(self@.members)
    }

    /// An empty table with room for `capacity` hosts (at least one).
    pub fn new(capacity: usize, capability_ttl_secs: u64) -> (r: MembershipTable)
        ensures
            r@.members.len() == 0,
            r@.capacity == (if capacity == 0 {
                1
            } else {
                capacity
            }),
            r@.ttl == capability_ttl_secs,
    {
        MembershipTable {
            members: Vec::new(),
            capacity: if capacity == 0 {
                1
            } else {
                capacity
            },
            capability_ttl_secs,
        }
    }

    fn find(&self, node: &NodeId) -> (r: Option<usize>)
        ensures
            r is Some <==> member_at(self@.members, node@, 0) is Some,
            r is Some ==> r->0 == member_at(self@.members, node@, 0)->0 && r->0
                < self.members@.len(),
    {
        let mut i: usize = 0;
        while i < self.members.len()
            invariant
                i <= self.members@.len(),
                member_at(self.members@, node@, i as int) == member_at(self.members@, node@, 0),
            decreases self.members@.len() - i,
        {
            if self.members[i].ad.node_id.same(node) {
                return Some(i);
            }
            i = i + 1;
        }
        None
    }

    /// Takes an ad in, if it was verified: signature, binding of the node id, and proof
    /// of work.
    pub fn ingest(&mut self, ad: CapabilityAd, verified: bool) -> (r: bool)
        ensures
            r == verified,
            !verified ==> final(self)@ == old(self)@,
            verified ==> final(self)@ == (TableView {
                members: after_ad(old(self)@.members, old(self)@.capacity as int, ad),
                ..old(self)@
            }),
            final(self).bounded(),
    {
        proof {
            use_type_invariant(&*self);
        }
        if !verified {
            return false;
        }
        let found = self.find(&ad.node_id);
        let capacity: usize = self.capacity;
        let ttl: u64 = self.capability_ttl_secs;
        let ghost before = self.members@;
        let mut members: Vec<Member> = Vec::new();
        proof {
            member_at_finds(before, ad.node_id@, 0);
        }
        std::mem::swap(&mut members, &mut self.members);
        match found {
            Some(i) => {
                let old_member = members.remove(i);
                assert(members@ =~= before.remove(i as int));
                members.push(Member { ad, profile: old_member.profile });
                proof {
                    assert forall|a: int, b: int| 0 <= a < b < members@.len() implies (
                    #[trigger] members@[a]).ad.node_id@ != (#[trigger] members@[b]).ad.node_id@ by {
                        let x = if a < i { a } else { a + 1 };
                        assert(members@[a] == before[x]);
                        if b < members@.len() - 1 {
                            let y = if b < i { b } else { b + 1 };
                            assert(members@[b] == before[y]);
                        } else if x < i {
                            assert(before[x].ad.node_id@ != before[i as int].ad.node_id@);
                        } else {
                            assert(before[i as int].ad.node_id@ != before[x].ad.node_id@);
                        }
                    }
                }
            },
            None => {
                if members.len() >= capacity {
                    let _ = members.remove(0);
                    assert(members@ =~= before.subrange(1, before.len() as int));
                }
                members.push(Member { ad, profile: None });
                proof {
                    let shift = before.len() + 1 - members@.len();
                    assert forall|a: int, b: int| 0 <= a < b < members@.len() implies (
                    #[trigger] members@[a]).ad.node_id@ != (#[trigger] members@[b]).ad.node_id@ by {
                        assert(members@[a] == before[a + shift]);
                        if b < members@.len() - 1 {
                            assert(members@[b] == before[b + shift]);
                        }
                    }
                }
            },
        }
        *self = MembershipTable { members, capacity, capability_ttl_secs: ttl };
        true
    }

    /// Takes a host's profile in, if it was verified, its host has an ad here, and it is
    /// newer than the one known.
    pub fn ingest_profile(&mut self, profile: CapabilityProfile, verified: bool) -> (r: bool)
        ensures
            ({
                let place = member_at(old(self)@.members, profile.node_id@, 0);
                let known = old(self)@.members[place->0].profile;
                &&& r == (verified && place is Some && (known is Some ==> profile.seq
                    > known->0.seq))
                &&& !r ==> final(self)@ == old(self)@
                &&& r ==> final(self)@ == (TableView {
                    members: old(self)@.members.update(
                        place->0,
                        Member {
                            ad: old(self)@.members[place->0].ad,
                            profile: Some(profile),
                        },
                    ),
                    ..old(self)@
                })
                &&& final(self).bounded()
            }),
    {
        proof {
            use_type_invariant(&*self);
        }
        if !verified {
            return false;
        }
        let i: usize = match self.find(&profile.node_id) {
            Some(i) => i,
            None => {
                return false;
            },
        };
        if let Some(known) = &self.members[i].profile {
            if profile.seq <= known.seq {
                return false;
            }
        }
        let capacity: usize = self.capacity;
        let ttl: u64 = self.capability_ttl_secs;
        let ghost before = self.members@;
        let mut members: Vec<Member> = Vec::new();
        std::mem::swap(&mut members, &mut self.members);
        let old_member = members.remove(i);
        members.insert(i, Member { ad: old_member.ad, profile: Some(profile) });
        proof {
            assert(members@ =~= before.update(
                i as int,
                Member { ad: before[i as int].ad, profile: Some(profile) },
            ));
            assert forall|a: int, b: int| 0 <= a < b < members@.len() implies (
            #[trigger] members@[a]).ad.node_id@ != (#[trigger] members@[b]).ad.node_id@ by {
                assert(before[a].ad.node_id@ != before[b].ad.node_id@);
            }
        }
        *self = MembershipTable { members, capacity, capability_ttl_secs: ttl };
        true
    }

    /// A host's latest profile.
    pub fn proven_capacity(&self, node: &NodeId) -> (r: Option<&CapabilityProfile>)
        ensures
            ({
                let place = member_at(self@.members, node@, 0);
                &&& r is Some <==> place is Some && self@.members[place->0].profile is Some
                &&& r is Some ==> *r->0 == self@.members[place->0].profile->0
            }),
    {
        match self.find(node) {
            Some(i) => match &self.members[i].profile {
                Some(p) => Some(p),
                None => None,
            },
            None => None,
        }
    }

    pub fn len(&self) -> (r: usize)
        ensures
            r == self@.members.len(),
    {
        self.members.len()
    }

    pub fn is_empty(&self) -> (r: bool)
        ensures
            r == (self@.members.len() == 0),
    {
        self.members.len() == 0
    }

    /// The hosts that may be offered work, in the table's order.
    pub fn eligible(&self, filter: &CandidateFilter, now: u64) -> (r: Vec<Candidate>)
        ensures
            candidate_views(r@) == eligible_members(self@.members, *filter, now, self@.ttl),
    {
        let mut r: Vec<Candidate> = Vec::new();
        let mut i: usize = 0;
        assert(candidate_views(r@) =~= Seq::empty());
        while i < self.members.len()
            invariant
                i <= self.members@.len(),
                candidate_views(r@) == eligible_members(
                    self.members@.take(i as int),
                    *filter,
                    now,
                    self.capability_ttl_secs,
                ),
            decreases self.members@.len() - i,
        {
            let ghost before = candidate_views(r@);
            proof {
                let next = self.members@.take(i + 1);
                assert(next.drop_last() =~= self.members@.take(i as int));
                assert(next.last() == self.members@[i as int]);
            }
            let ad = &self.members[i].ad;
            let young = ad.ts >= now || now - ad.ts <= self.capability_ttl_secs;
            if ad.enabled && young && ad.attestation_level.rank() >= filter.min_attestation.rank()
                && ad.dialable {
                let c = Candidate {
                    node_id: Some(ad.node_id.duplicate()),
                    id_provenance: IdProvenance::Advertised,
                    addr: ad.addr.clone(),
                    advertised_level: Some(ad.attestation_level),
                    advertised_networks: copy_strs(&ad.networks),
                    advertised_groups: copy_strs(&ad.groups),
                    advertised_region: copy_opt_str(&ad.region),
                };
                assert(c@ == candidate_of(*ad));
                if filter.admits_labels(&c) {
                    r.push(c);
                    assert(candidate_views(r@) =~= before.push(c@));
                }
            }
            i = i + 1;
        }
        assert(self.members@.take(i as int) =~= self.members@);
        r
    }

    /// Up to `want` hosts that may be offered work, drawn at random and never more than
    /// the table holds.
    pub fn find_candidates(&self, want: usize, filter: &CandidateFilter, now: u64) -> (r: Vec<
        Candidate,
    >)
        ensures
            ({
                let eligible = eligible_members(self@.members, *filter, now, self@.ttl);
                &&& r@.len() == min_int(
                    min_int(want as int, self@.capacity as int),
                    eligible.len() as int,
                )
                &&& exists|order: Seq<usize>| #[trigger]
                    is_permutation(order, eligible.len() as int) && candidate_views(r@) == picked(
                        eligible,
                        order,
                        min_int(want as int, self@.capacity as int),
                    )
            }),
    {
        let eligible = self.eligible(filter, now);
        let take: usize = if want < self.capacity {
            want
        } else {
            self.capacity
        };
        let order = random_order(eligible.len());
        assert(candidate_views(eligible@).len() == eligible@.len());
        let r = pick(&eligible, &order, take);
        assert(is_permutation(order@, candidate_views(eligible@).len() as int));
        r
    }
}

/// A host that was just heard of is the most recent, with the ad it sent.
pub proof fn latest_ad_is_kept(members: Seq<Member>, capacity: int, ad: CapabilityAd)
    requires
        capacity > 0,
    ensures
        after_ad(members, capacity, ad).last().ad == ad,
        after_ad(members, capacity, ad).len() > 0,
{
}

/// A new host displaces only the host that was heard of least recently.
pub proof fn eviction_takes_the_least_recent(
    members: Seq<Member>,
    capacity: int,
    ad: CapabilityAd,
    i: int,
)
    requires
        0 < capacity,
        members.len() <= capacity,
        one_per_node(members),
        member_at(members, ad.node_id@, 0) is None,
        0 <= i < members.len(),
    ensures
        after_ad(members, capacity, ad).contains(members[i]) <== i > 0 || members.len() < capacity,
{
    let after = after_ad(members, capacity, ad);
    if members.len() < capacity {
        assert(after[i] == members[i]);
    } else if i > 0 {
        assert(after[i - 1] == members[i]);
    }
}

/// Every candidate is a member whose ad is eligible: enabled, fresh, of a sufficient level,
/// dialable and with passing labels.
pub proof fn candidates_are_eligible_members(
    members: Seq<Member>,
    filter: CandidateFilter,
    now: u64,
    ttl: u64,
    k: int,
)
    requires
        0 <= k < eligible_members(members, filter, now, ttl).len(),
    ensures
        exists|i: int|
            0 <= i < members.len() && ad_eligible((#[trigger] members[i]).ad, filter, now, ttl)
                && candidate_of(members[i].ad) == eligible_members(members, filter, now, ttl)[k],
    decreases members.len(),
{
    let rest = eligible_members(members.drop_last(), filter, now, ttl);
    if k < rest.len() {
        candidates_are_eligible_members(members.drop_last(), filter, now, ttl, k);
        let i = choose|i: int|
            0 <= i < members.drop_last().len() && ad_eligible(
                (#[trigger] members.drop_last()[i]).ad,
                filter,
                now,
                ttl,
            ) && candidate_of(members.drop_last()[i].ad) == rest[k];
        assert(members[i] == members.drop_last()[i]);
    } else {
        assert(ad_eligible(members[members.len() - 1].ad, filter, now, ttl));
    }
}

/// A host is a candidate exactly where its ad is on, still valid, of a sufficient level,
/// dialable, and its labels pass.
pub proof fn ads_are_eligible_as_they_say(
    ad: CapabilityAd,
    filter: CandidateFilter,
    now: u64,
    ttl: u64,
)
    ensures
        ad_eligible(ad, filter, now, ttl) <==> {
            &&& ad.enabled
            &&& now <= ad.ts + ttl
            &&& filter.min_attestation == AttestationLevel::L0 || ad.attestation_level
                == AttestationLevel::L2 || ad.attestation_level == filter.min_attestation
            &&& ad.dialable
            &&& filter.admits(candidate_of(ad))
        },
{
}

/// A candidate is told as its ad tells it, and its id is attributable.
pub proof fn candidates_are_as_advertised(ad: CapabilityAd)
    ensures
        ({
            let c = candidate_of(ad);
            &&& c.node_id == Some(ad.node_id@)
            &&& c.id_provenance == IdProvenance::Advertised
            &&& c.addr == ad.addr@
            &&& c.advertised_level == Some(ad.attestation_level)
            &&& c.advertised_networks == strs(ad.networks@)
            &&& c.advertised_groups == strs(ad.groups@)
            &&& c.advertised_region == opt_str(ad.region)
        }),
{
}

/// The candidates are those of the eligible ads, in order.
pub proof fn eligible_members_are_filtered(
    members: Seq<Member>,
    filter: CandidateFilter,
    now: u64,
    ttl: u64,
)
    ensures
        eligible_members(members, filter, now, ttl) == members.filter(
            |m: Member| ad_eligible(m.ad, filter, now, ttl),
        ).map_values(|m: Member| candidate_of(m.ad)),
    decreases members.len(),
{
    reveal(Seq::filter);
    let good = |m: Member| ad_eligible(m.ad, filter, now, ttl);
    let named = |m: Member| candidate_of(m.ad);
    if members.len() > 0 {
        eligible_members_are_filtered(members.drop_last(), filter, now, ttl);
        let rest = members.drop_last().filter(good);
        assert(rest.push(members.last()).map_values(named) =~= rest.map_values(named).push(
            candidate_of(members.last().ad),
        ));
    } else {
        assert(members.filter(good).map_values(named) =~= Seq::empty());
    }
}

/// A member is where its node stands first.
pub proof fn members_are_found_by_their_node(members: Seq<Member>, node: Seq<char>, from: int, i: int)
    requires
        0 <= from <= i <= members.len(),
        forall|k: int| from <= k < i ==> (#[trigger] members[k]).ad.node_id@ != node,
        i < members.len() ==> members[i].ad.node_id@ == node,
    ensures
        member_at(members, node, from) == (if i < members.len() {
            Some(i)
        } else {
            None
        }),
    decreases i - from,
{
    if from < i {
        assert(members[from].ad.node_id@ != node);
        members_are_found_by_their_node(members, node, from + 1, i);
    }
}

/// A new ad of a known host replaces its old one and keeps its profile; everybody else
/// stays as they are.
pub proof fn a_new_ad_replaces_the_old(
    members: Seq<Member>,
    capacity: int,
    ad: CapabilityAd,
    i: int,
)
    requires
        0 <= i < members.len(),
        members[i].ad.node_id@ == ad.node_id@,
        forall|k: int| 0 <= k < i ==> (#[trigger] members[k]).ad.node_id@ != ad.node_id@,
    ensures
        ({
            let after = after_ad(members, capacity, ad);
            &&& after.len() == members.len()
            &&& after.last().ad == ad
            &&& after.last().profile == members[i].profile
            &&& after.drop_last() == members.remove(i)
        }),
{
    members_are_found_by_their_node(members, ad.node_id@, 0, i);
    assert(after_ad(members, capacity, ad).drop_last() =~= members.remove(i));
}

/// A new host is taken in without a profile, and displaces somebody only where there is no
/// room.
pub proof fn new_hosts_are_taken_in(members: Seq<Member>, capacity: int, ad: CapabilityAd)
    requires
        forall|k: int| 0 <= k < members.len() ==> (#[trigger] members[k]).ad.node_id@ != ad.node_id@,
        capacity > 0,
    ensures
        ({
            let after = after_ad(members, capacity, ad);
            &&& after.last().ad == ad
            &&& after.last().profile is None
            &&& members.len() < capacity ==> after.drop_last() == members
            &&& members.len() >= capacity ==> after.drop_last() == members.subrange(
                1,
                members.len() as int,
            )
        }),
{
    members_are_found_by_their_node(members, ad.node_id@, 0, members.len() as int);
    let after = after_ad(members, capacity, ad);
    if members.len() < capacity {
        assert(after.drop_last() =~= members);
    } else {
        assert(after.drop_last() =~= members.subrange(1, members.len() as int));
    }
}

} // verus!
