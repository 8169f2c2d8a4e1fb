//! Which discovered candidates an attempt may make an offer to.

use vstd::prelude::*;
use crate::coordinator::capacity::{proven_admits, proven_capacity_admits};
use crate::coordinator::metering::TON_NANOTON;
use crate::discovery::{Candidate, CandidateFilter, CandidateView, IdProvenance};
use crate::types::{has_id, ids, CapabilityProfile, NodeId};

verus! {

/// The fail-closed and anti-abuse switches that candidate retention reads.
#[derive(Debug, Clone, Copy, PartialEq, Eq, Structural)]
pub struct CandidatePolicy {
    /// Whether the deny-list applies.
    pub antiabuse_enabled: bool,
    /// Only bonded hosts qualify.
    pub require_staked_hosts: bool,
    /// The least bonded stake in whole TON (`0` for no floor).
    pub min_stake_ton: u64,
}

impl CandidatePolicy {
    /// Whether a stake gate is on, so that unattributable ids are refused.
    pub open spec fn gates_on(self) -> bool {
        self.require_staked_hosts || self.min_stake_ton > 0
    }
}

/// What the node's other components know about one candidate.
#[derive(Debug, Clone, PartialEq, Eq)]
pub struct CandidateFacts {
    /// The candidate's id is on the local deny-list.
    pub blocked: bool,
    /// The gossiped proven profile, if any.
    pub proven: Option<CapabilityProfile>,
    /// The failure detector convicted the peer and no probe rescued it.
    pub convicted: bool,
    /// The bonded stake in nanoton; `None` when no registry is wired.
    pub stake: Option<u128>,
}

/// Whether a candidate with a known id passes every id-based gate.
pub open spec fn known_id_ok(
    policy: CandidatePolicy,
    id: Seq<char>,
    facts: CandidateFacts,
    excluded: Seq<Seq<char>>,
    scanned: u64,
) -> bool {
    &&& !(policy.antiabuse_enabled && facts.blocked)
    &&& !excluded.contains(id)
    &&& proven_admits(facts.proven, scanned)
    &&& !facts.convicted
    &&& policy.require_staked_hosts ==> facts.stake is Some && facts.stake->0 > 0
    &&& policy.min_stake_ton > 0 ==> facts.stake is Some && facts.stake->0 >= policy.min_stake_ton
        * TON_NANOTON
}

/// Whether the attempt keeps a candidate.
pub open spec fn keeps(
    policy: CandidatePolicy,
    filter: CandidateFilter,
    c: CandidateView,
    facts: CandidateFacts,
    excluded: Seq<Seq<char>>,
    scanned: u64,
) -> bool {
    &&& filter.admits(c)
    &&& policy.gates_on() ==> c.id_provenance.verified()
    &&& match c.node_id {
        Some(id) => known_id_ok(policy, id, facts, excluded, scanned),
        None => !policy.gates_on(),
    }
}

/// Whether this attempt keeps the candidate `c`: its labels pass the filter, its
/// id is attributable where a stake gate is on, it is neither blocked nor
/// excluded nor convicted, its proven capacity admits the job, and it clears the
/// stake floors.
pub fn keep_candidate(
    policy: &CandidatePolicy,
    filter: &CandidateFilter,
    c: &Candidate,
    facts: &CandidateFacts,
    excluded: &[NodeId],
    scanned_bytes: u64,
) -> (r: bool)
    ensures
        r == keeps(*policy, *filter, c@, *facts, ids(excluded@), scanned_bytes),
{
    if !filter.admits_labels(c) {
        return false;
    }
    let gates_on = policy.require_staked_hosts || policy.min_stake_ton > 0;
    if gates_on && !c.id_provenance.is_verified() {
        return false;
    }
    match &c.node_id {
        Some(id) => {
            if policy.antiabuse_enabled && facts.blocked {
                return false;
            }
            if has_id(excluded, id) {
                return false;
            }
            if scanned_bytes > 0 && !proven_capacity_admits(facts.proven.as_ref(), scanned_bytes) {
                return false;
            }
            if facts.convicted {
                return false;
            }
            let stake: u128 = match facts.stake {
                Some(s) => s,
                None => 0,
            };
            if policy.require_staked_hosts && stake == 0 {
                return false;
            }
            if policy.min_stake_ton > 0 {
                assert(policy.min_stake_ton * TON_NANOTON <= u64::MAX * 1_000_000_000);
                let need: u128 = policy.min_stake_ton as u128 * TON_NANOTON;
                if stake < need {
                    return false;
                }
            }
            true
        },
        None => !gates_on,
    }
}

/// A candidate together with what is known about it.
#[derive(Debug, Clone, PartialEq, Eq)]
pub struct Found {
    pub candidate: Candidate,
    pub facts: CandidateFacts,
}

/// The kept candidates of `found`, in order.
pub open spec fn kept_seq(
    policy: CandidatePolicy,
    filter: CandidateFilter,
    found: Seq<Found>,
    excluded: Seq<Seq<char>>,
    scanned: u64,
) -> Seq<Candidate>
    decreases found.len(),
{
    if found.len() == 0 {
        Seq::empty()
    } else {
        let rest = kept_seq(policy, filter, found.drop_last(), excluded, scanned);
        let f = found.last();
        if keeps(policy, filter, f.candidate@, f.facts, excluded, scanned) {
            rest.push(f.candidate)
        } else {
            rest
        }
    }
}

/// The candidates of `found` that the attempt keeps, in order.
pub fn retain_candidates(
    policy: &CandidatePolicy,
    filter: &CandidateFilter,
    found: Vec<Found>,
    excluded: &[NodeId],
    scanned_bytes: u64,
) -> (kept: Vec<Candidate>)
    ensures
        kept@ == kept_seq(*policy, *filter, found@, ids(excluded@), scanned_bytes),
{
    let ghost all = found@;
    let mut kept: Vec<Candidate> = Vec::new();
    for f in it: found
        invariant
            it.seq() == all,
            kept@ == kept_seq(
                *policy,
                *filter,
                all.take(it.index() as int),
                ids(excluded@),
                scanned_bytes,
            ),
    {
        proof {
            let next = all.take(it.index() + 1);
            assert(next.drop_last() =~= all.take(it.index() as int));
            assert(next.last() == f);
        }
        if keep_candidate(policy, filter, &f.candidate, &f.facts, excluded, scanned_bytes) {
            kept.push(f.candidate);
        }
    }
    assert(all.take(all.len() as int) =~= all);
    kept
}

/// An id learned by trust on first use never satisfies a stake gate, whatever
/// stake is claimed for it.
pub proof fn tofu_never_passes_a_stake_gate(
    policy: CandidatePolicy,
    filter: CandidateFilter,
    c: CandidateView,
    facts: CandidateFacts,
    excluded: Seq<Seq<char>>,
    scanned: u64,
)
    requires
        policy.gates_on(),
        !c.id_provenance.verified(),
    ensures
        !keeps(policy, filter, c, facts, excluded, scanned),
{
}

/// Without a stake registry, a stake gate refuses every candidate.
pub proof fn stake_gates_fail_closed_without_registry(
    policy: CandidatePolicy,
    filter: CandidateFilter,
    c: CandidateView,
    facts: CandidateFacts,
    excluded: Seq<Seq<char>>,
    scanned: u64,
)
    requires
        policy.gates_on(),
        facts.stake is None,
    ensures
        !keeps(policy, filter, c, facts, excluded, scanned),
{
}

/// An excluded provider is never contacted again by the attempt.
pub proof fn excluded_is_routed_around(
    policy: CandidatePolicy,
    filter: CandidateFilter,
    c: CandidateView,
    facts: CandidateFacts,
    excluded: Seq<Seq<char>>,
    scanned: u64,
)
    requires
        c.node_id is Some,
        excluded.contains(c.node_id->0),
    ensures
        !keeps(policy, filter, c, facts, excluded, scanned),
{
}

/// An attempt keeps a candidate exactly where nothing speaks against it: its labels, a
/// block, a failed attempt before, a conviction, a job beyond what it has proved, or the
/// stake that is asked for and that only an attributable id can have.
pub proof fn candidates_are_kept_unless_something_speaks_against_them(
    policy: CandidatePolicy,
    filter: CandidateFilter,
    c: CandidateView,
    facts: CandidateFacts,
    excluded: Seq<Seq<char>>,
    scanned: u64,
)
    ensures
        keeps(policy, filter, c, facts, excluded, scanned) <==> {
            let gated = policy.require_staked_hosts || policy.min_stake_ton > 0;
            let attributable = c.id_provenance == IdProvenance::Pinned || c.id_provenance
                == IdProvenance::Advertised;
            &&& filter.admits(c)
            &&& gated ==> attributable && c.node_id is Some
            &&& c.node_id is Some ==> {
                &&& !policy.antiabuse_enabled || !facts.blocked
                &&& !excluded.contains(c.node_id->0)
                &&& !facts.convicted
                &&& scanned > 0 && facts.proven is Some && facts.proven->0.successes >= 4
                    ==> scanned <= facts.proven->0.max_input_bytes
                    + facts.proven->0.max_temp_dir_bytes
                &&& policy.require_staked_hosts ==> facts.stake is Some && facts.stake->0 > 0
                &&& policy.min_stake_ton > 0 ==> facts.stake is Some && facts.stake->0
                    >= policy.min_stake_ton * 1_000_000_000
            }
        },
{
}

/// The kept candidates are those that are kept one by one, in the order in which they were
/// found.
pub proof fn kept_candidates_are_filtered(
    policy: CandidatePolicy,
    filter: CandidateFilter,
    found: Seq<Found>,
    excluded: Seq<Seq<char>>,
    scanned: u64,
)
    ensures
        kept_seq(policy, filter, found, excluded, scanned) == found.filter(
            |f: Found| keeps(policy, filter, f.candidate@, f.facts, excluded, scanned),
        ).map_values(|f: Found| f.candidate),
    decreases found.len(),
{
    reveal(Seq::filter);
    let keep = |f: Found| keeps(policy, filter, f.candidate@, f.facts, excluded, scanned);
    let pick = |f: Found| f.candidate;
    if found.len() == 0 {
        assert(found.filter(keep).map_values(pick) =~= Seq::empty());
    } else {
        kept_candidates_are_filtered(policy, filter, found.drop_last(), excluded, scanned);
        let rest = found.drop_last().filter(keep);
        assert(rest.push(found.last()).map_values(pick) =~= rest.map_values(pick).push(
            found.last().candidate,
        ));
    }
}

} // verus!
