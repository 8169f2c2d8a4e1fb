//! From accepted bids to the workers a job is dispatched to: the hard floors,
//! then a ranking among those that clear them.

use vstd::prelude::*;
use crate::coordinator::capacity::{advertised_admits, advertised_capacity_admits};
use crate::coordinator::metering::{
    bid_price_signal, price_signal, terms_of, Amount, MeteredTerms, TON_NANOTON,
};
use crate::hexadecimal::{decode, hex_bytes, is_hex};
use crate::math::{max_int, min_int, sat_mul_u128};
use crate::ranking::{is_stable_order, key_lt, stable_order, Key};
use crate::types::{
    ids, strs, AttestationLevel, Bid, BidDecision, CapabilityProfile, NodeId,
};

verus! {

/// The level a bid's attestation counts for: a claim above `L0` counts only when
/// its evidence verified.
pub open spec fn verified_level(claimed: AttestationLevel, evidence_verified: bool) -> AttestationLevel {
    if claimed == AttestationLevel::L0 || evidence_verified {
        claimed
    } else {
        AttestationLevel::L0
    }
}

/// The verified attestation level of a bid. `evidence_verified` is `None` when no
/// verifier is wired, so that every claim above `L0` is refused.
pub fn verified_attestation_level(
    claimed: AttestationLevel,
    evidence_verified: Option<bool>,
) -> (r: AttestationLevel)
    ensures
        r == verified_level(claimed, evidence_verified == Some(true)),
{
    if claimed.rank() == 0 {
        return claimed;
    }
    match evidence_verified {
        Some(ok) => if ok {
            claimed
        } else {
            AttestationLevel::L0
        },
        None => AttestationLevel::L0,
    }
}

/// A configured trusted issuer: the region it vouches for and its public key in
/// hexadecimal. Regions are distinct.
#[derive(Debug, Clone, PartialEq, Eq)]
pub struct RegionIssuer {
    pub region: String,
    pub key_hex: String,
}

/// The key configured for `region`, if there is one and it is 32 bytes.
pub open spec fn issuer_key(issuers: Seq<RegionIssuer>, region: Seq<char>) -> Option<Seq<u8>>
    decreases issuers.len(),
{
    if issuers.len() == 0 {
        None
    } else if issuers[0].region@ == region {
        if is_hex(issuers[0].key_hex@) && hex_bytes(issuers[0].key_hex@).len() == 32 {
            Some(hex_bytes(issuers[0].key_hex@))
        } else {
            None
        }
    } else {
        issuer_key(issuers.subrange(1, issuers.len() as int), region)
    }
}

/// The 32-byte key of the issuer trusted for `region`.
pub fn region_issuer_key(issuers: &[RegionIssuer], region: &String) -> (r: Option<Vec<u8>>)
    ensures
        r is Some <==> issuer_key(issuers@, region@) is Some,
        r is Some ==> r->0@ == issuer_key(issuers@, region@)->0,
{
    let n: usize = issuers.len();
    let mut i: usize = 0;
    assert(issuers@.subrange(0, n as int) =~= issuers@);
    while i < n
        invariant
            i <= n,
            n == issuers@.len(),
            issuer_key(issuers@.subrange(i as int, n as int), region@) == issuer_key(
                issuers@,
                region@,
            ),
        decreases n - i,
    {
        let ghost rest = issuers@.subrange(i as int, n as int);
        if issuers[i].region == *region {
            return match decode(issuers[i].key_hex.as_str()) {
                Some(b) => if b.len() == 32 {
                    Some(b)
                } else {
                    None
                },
                None => None,
            };
        }
        i = i + 1;
        assert(rest.subrange(1, rest.len() as int) =~= issuers@.subrange(i as int, n as int));
    }
    None
}

/// Whether some accepted region has a usable issuer for which the presented
/// token proves that `worker` holds it.
pub open spec fn region_proved(
    worker: Seq<char>,
    regions: Seq<Seq<char>>,
    issuers: Seq<RegionIssuer>,
    holders: Seq<Option<NodeId>>,
) -> bool {
    exists|i: int|
        0 <= i < regions.len() && i < holders.len() && issuer_key(issuers, #[trigger] regions[i]) is Some
            && holders[i] is Some && holders[i]->0@ == worker
}

/// Region attestation: `holders[i]` is the identity that the bidder's token
/// proves against the issuer of `regions[i]`, `None` where it does not verify.
/// The proof counts only for the bidder's own identity.
pub fn region_proof_ok(
    worker: &NodeId,
    regions: &[String],
    issuers: &[RegionIssuer],
    holders: &[Option<NodeId>],
) -> (r: bool)
    ensures
        r == region_proved(worker@, strs(regions@), issuers@, holders@),
{
    let mut i: usize = 0;
    while i < regions.len() && i < holders.len()
        invariant
            i <= regions@.len(),
            i <= holders@.len(),
            forall|k: int|
                0 <= k < i ==> !(issuer_key(issuers@, #[trigger] strs(regions@)[k]) is Some
                    && holders@[k] is Some && holders@[k]->0@ == worker@),
        decreases regions@.len() - i,
    {
        let key = region_issuer_key(issuers, &regions[i]);
        if key.is_some() {
            if let Some(h) = &holders[i] {
                if h.same(worker) {
                    assert(issuer_key(issuers@, strs(regions@)[i as int]) is Some);
                    return true;
                }
            }
        }
        i = i + 1;
    }
    false
}

/// The floors and switches that bidder selection reads.
#[derive(Debug, Clone, Copy, PartialEq, Eq, Structural)]
pub struct SelectionPolicy {
    pub min_level: AttestationLevel,
    /// A pinned region must be proved rather than merely declared.
    pub region_proof_required: bool,
    pub spill_tolerance_bytes: u64,
    /// Break ties toward the larger proven input size.
    pub capability_tiebreak: bool,
    /// Whether trust below the auto-block floor puts a bidder on the deny-list.
    pub auto_block: bool,
    pub replicas: usize,
    pub quorum: usize,
}

/// The job's sizes as far as they are known (`0` when unknown) and the largest
/// capacity that already failed.
#[derive(Debug, Clone, Copy, PartialEq, Eq, Structural)]
pub struct JobSize {
    pub scanned_bytes: u64,
    pub peak_bytes: u64,
    pub capacity_floor: u64,
}

/// A bidder with what is known about it.
#[derive(Debug, Clone, PartialEq, Eq)]
pub struct Bidder {
    /// The authenticated identity of the peer that sent the bid.
    pub worker: NodeId,
    pub bid: Bid,
    /// What the attestation verifier said of the bid's evidence.
    pub evidence_verified: Option<bool>,
    /// Whether the bid's region proof verified for this worker.
    pub region_proved: bool,
    /// The gossiped proven profile, if any.
    pub proven: Option<CapabilityProfile>,
    /// Effective trust reaches the configured minimum.
    pub clears_min_trust: bool,
    /// Effective trust lies below the auto-block floor.
    pub below_block_floor: bool,
}

/// Whether a bidder passes every gate but the trust floor.
pub open spec fn passes_gates(p: SelectionPolicy, size: JobSize, b: Bidder) -> bool {
    &&& b.bid.decision == BidDecision::Accept
    &&& verified_level(b.bid.attestation_level, b.evidence_verified == Some(true)).rank_spec()
        >= p.min_level.rank_spec()
    &&& p.region_proof_required ==> b.region_proved
    &&& advertised_admits(
        b.bid.free_mem_bytes,
        b.proven,
        size.peak_bytes,
        p.spill_tolerance_bytes,
    )
    &&& size.capacity_floor == 0 || b.bid.free_mem_bytes == 0 || b.bid.free_mem_bytes
        > size.capacity_floor
}

/// Whether a bidder clears every hard floor.
pub open spec fn clears_floors(p: SelectionPolicy, size: JobSize, b: Bidder) -> bool {
    passes_gates(p, size, b) && b.clears_min_trust
}

fn check_gates(p: &SelectionPolicy, size: &JobSize, b: &Bidder) -> (r: bool)
    ensures
        r == passes_gates(*p, *size, *b),
{
    match b.bid.decision {
        BidDecision::Accept => {},
        BidDecision::Reject => {
            return false;
        },
    }
    let level = verified_attestation_level(b.bid.attestation_level, b.evidence_verified);
    if level.rank() < p.min_level.rank() {
        return false;
    }
    if p.region_proof_required && !b.region_proved {
        return false;
    }
    if !(size.peak_bytes == 0 || advertised_capacity_admits(
        b.bid.free_mem_bytes,
        b.proven.as_ref(),
        size.peak_bytes,
        p.spill_tolerance_bytes,
    )) {
        return false;
    }
    size.capacity_floor == 0 || b.bid.free_mem_bytes == 0 || b.bid.free_mem_bytes
        > size.capacity_floor
}

/// The bidders of `bids` that clear every floor, in order.
pub open spec fn eligible_seq(p: SelectionPolicy, size: JobSize, bids: Seq<Bidder>) -> Seq<Bidder>
    decreases bids.len(),
{
    if bids.len() == 0 {
        Seq::empty()
    } else {
        let rest = eligible_seq(p, size, bids.drop_last());
        if clears_floors(p, size, bids.last()) {
            rest.push(bids.last())
        } else {
            rest
        }
    }
}

/// The bidders that the auto-block rule puts on the deny-list, in order.
pub open spec fn blocked_seq(p: SelectionPolicy, size: JobSize, bids: Seq<Bidder>) -> Seq<Seq<char>>
    decreases bids.len(),
{
    if bids.len() == 0 {
        Seq::empty()
    } else {
        let rest = blocked_seq(p, size, bids.drop_last());
        if p.auto_block && passes_gates(p, size, bids.last()) && bids.last().below_block_floor {
            rest.push(bids.last().worker@)
        } else {
            rest
        }
    }
}

/// The least price signal among `bids`, or the largest `u64` when there is none.
pub open spec fn least_price(bids: Seq<Bidder>) -> int
    decreases bids.len(),
{
    if bids.len() == 0 {
        u64::MAX as int
    } else {
        min_int(least_price(bids.drop_last()), price_signal(bids.last().bid) as int)
    }
}

/// The greatest price signal among `bids`, or `0` when there is none.
pub open spec fn greatest_price(bids: Seq<Bidder>) -> int
    decreases bids.len(),
{
    if bids.len() == 0 {
        0
    } else {
        max_int(greatest_price(bids.drop_last()), price_signal(bids.last().bid) as int)
    }
}

/// The bidders that clear the floors, the ones to auto-block, and the price range
/// that the composite score is normalized over.
#[derive(Debug, Clone, PartialEq, Eq)]
pub struct Eligible {
    pub bidders: Vec<Bidder>,
    pub auto_blocked: Vec<NodeId>,
    pub price_min: u64,
    pub price_max: u64,
}

/// Apply the hard floors to the collected bids.
pub fn eligible_bidders(p: &SelectionPolicy, size: &JobSize, bids: Vec<Bidder>) -> (r: Eligible)
    ensures
        r.bidders@ == eligible_seq(*p, *size, bids@),
        ids(r.auto_blocked@) == blocked_seq(*p, *size, bids@),
        r.price_min == least_price(r.bidders@),
        r.price_max == greatest_price(r.bidders@),
{
    let ghost all = bids@;
    let mut bidders: Vec<Bidder> = Vec::new();
    let mut auto_blocked: Vec<NodeId> = Vec::new();
    let mut price_min: u64 = u64::MAX;
    let mut price_max: u64 = 0;
    assert(ids(auto_blocked@) =~= Seq::<Seq<char>>::empty());
    for b in it: bids
        invariant
            it.seq() == all,
            bidders@ == eligible_seq(*p, *size, all.take(it.index() as int)),
            ids(auto_blocked@) == blocked_seq(*p, *size, all.take(it.index() as int)),
            price_min == least_price(bidders@),
            price_max == greatest_price(bidders@),
    {
        proof {
            let next = all.take(it.index() + 1);
            assert(next.drop_last() =~= all.take(it.index() as int));
            assert(next.last() == b);
        }
        if check_gates(p, size, &b) {
            if p.auto_block && b.below_block_floor {
                let ghost before = auto_blocked@;
                auto_blocked.push(b.worker.duplicate());
                assert(ids(auto_blocked@) =~= ids(before).push(b.worker@));
            }
            if b.clears_min_trust {
                let price: u64 = bid_price_signal(&b.bid);
                if price < price_min {
                    price_min = price;
                }
                if price > price_max {
                    price_max = price;
                }
                let ghost before = bidders@;
                bidders.push(b);
                assert(bidders@.drop_last() =~= before);
            }
        }
    }
    assert(all.take(all.len() as int) =~= all);
    Eligible { bidders, auto_blocked, price_min, price_max }
}

/// The capacity tie-break of a bidder: its proven input size, where it counts.
pub open spec fn cap_hint_spec(p: SelectionPolicy, b: Bidder) -> u64 {
    if p.capability_tiebreak && b.proven is Some {
        b.proven->0.max_input_bytes
    } else {
        0
    }
}

/// The sort key of a bidder: higher score first, then the lower ETA, then the
/// larger proven capacity.
pub open spec fn rank_key(p: SelectionPolicy, b: Bidder, score: u64) -> Key {
    (
        (u64::MAX - score) as u64,
        b.bid.eta_ms,
        (u64::MAX - cap_hint_spec(p, b)) as u64,
    )
}

pub open spec fn rank_keys(p: SelectionPolicy, bidders: Seq<Bidder>, scores: Seq<u64>) -> Seq<Key> {
    Seq::new(bidders.len(), |i: int| rank_key(p, bidders[i], scores[i]))
}

/// The positions of the selected bidders: the best `replicas` in rank order.
/// `scores[i]` is the composite score of `bidders[i]` as an integer that orders
/// as the score does.
pub fn select_top(p: &SelectionPolicy, bidders: &[Bidder], scores: &[u64]) -> (r: Vec<usize>)
    requires
        bidders@.len() == scores@.len(),
    ensures
        exists|order: Seq<usize>| #[trigger]
            is_stable_order(
                order,
                rank_keys(*p, bidders@, scores@),
                bidders@.len() as int,
            ) && r@ == order.take(min_int(p.replicas as int, bidders@.len() as int)),
{
    let mut keys: Vec<Key> = Vec::new();
    let n: usize = bidders.len();
    let mut i: usize = 0;
    while i < n
        invariant
            i <= n,
            n == bidders@.len(),
            n == scores@.len(),
            keys@.len() == i,
            forall|k: int| 0 <= k < i ==> keys@[k] == rank_key(*p, bidders@[k], scores@[k]),
        decreases n - i,
    {
        let hint: u64 = match &bidders[i].proven {
            Some(profile) => if p.capability_tiebreak {
                profile.max_input_bytes
            } else {
                0
            },
            None => 0,
        };
        keys.push((u64::MAX - scores[i], bidders[i].bid.eta_ms, u64::MAX - hint));
        i = i + 1;
    }
    assert(keys@ =~= rank_keys(*p, bidders@, scores@));
    let mut order = stable_order(&keys);
    let ghost full = order@;
    if order.len() > p.replicas {
        order.truncate(p.replicas);
        assert(order@ =~= full.take(p.replicas as int));
    } else {
        assert(full.take(full.len() as int) =~= full);
    }
    assert(is_stable_order(full, rank_keys(*p, bidders@, scores@), bidders@.len() as int));
    order
}

/// The worst-case metered price among the selected bidders.
pub open spec fn worst_cap_base_spec(
    bidders: Seq<Bidder>,
    selected: Seq<usize>,
    bytes: u64,
) -> int
    decreases selected.len(),
{
    if selected.len() == 0 {
        0
    } else {
        let rest = worst_cap_base_spec(bidders, selected.drop_last(), bytes);
        match terms_of(bidders[selected.last() as int].bid) {
            Some(t) => max_int(rest, t.cap_base_spec(bytes)),
            None => rest,
        }
    }
}

pub fn worst_cap_base(bidders: &[Bidder], selected: &[usize], bytes: u64) -> (r: Amount)
    requires
        forall|i: int| 0 <= i < selected@.len() ==> #[trigger] selected@[i] < bidders@.len(),
    ensures
        r == worst_cap_base_spec(bidders@, selected@, bytes),
{
    let mut worst: Amount = 0;
    let mut i: usize = 0;
    while i < selected.len()
        invariant
            i <= selected@.len(),
            forall|k: int| 0 <= k < selected@.len() ==> #[trigger] selected@[k] < bidders@.len(),
            worst == worst_cap_base_spec(bidders@, selected@.take(i as int), bytes),
        decreases selected@.len() - i,
    {
        proof {
            let next = selected@.take(i + 1);
            assert(next.drop_last() =~= selected@.take(i as int));
            assert(next.last() == selected@[i as int]);
        }
        let at: usize = selected[i];
        if let Some(t) = MeteredTerms::from_bid(&bidders[at].bid) {
            let base = t.cap_base(bytes);
            if base > worst {
                worst = base;
            }
        }
        i = i + 1;
    }
    assert(selected@.take(i as int) =~= selected@);
    worst
}

/// The coverage question an attempt must have answered before it dispatches.
#[derive(Debug, Clone, Copy, PartialEq, Eq, Structural)]
pub struct EscrowQuestion {
    /// What the requester is willing to lock, in nanoton.
    pub max_escrow: Amount,
    /// The worst-case price among the selected bids.
    pub worst_cap_base: Amount,
    /// How many selected workers besides the winner may earn a commission.
    pub n_verifiers: usize,
}

pub open spec fn escrow_question_spec(
    paid: bool,
    max_bid_ton: u64,
    bidders: Seq<Bidder>,
    selected: Seq<usize>,
    bytes: u64,
) -> Option<EscrowQuestion> {
    let worst = worst_cap_base_spec(bidders, selected, bytes);
    if paid && max_bid_ton > 0 && worst > 0 {
        Some(
            EscrowQuestion {
                max_escrow: min_int(max_bid_ton * TON_NANOTON, u128::MAX as int) as u128,
                worst_cap_base: worst as u128,
                n_verifiers: (if selected.len() > 0 {
                    selected.len() - 1
                } else {
                    0
                }) as usize,
            },
        )
    } else {
        None
    }
}

/// The up-front coverage question: asked only of a paid job with metered bids and
/// a configured ceiling. `paid` says that the job pays and economics is on.
pub fn escrow_question(
    paid: bool,
    max_bid_ton: u64,
    bidders: &[Bidder],
    selected: &[usize],
    bytes: u64,
) -> (r: Option<EscrowQuestion>)
    requires
        forall|i: int| 0 <= i < selected@.len() ==> #[trigger] selected@[i] < bidders@.len(),
    ensures
        r == escrow_question_spec(paid, max_bid_ton, bidders@, selected@, bytes),
{
    let worst = worst_cap_base(bidders, selected, bytes);
    if paid && max_bid_ton > 0 && worst > 0 {
        let n: usize = selected.len();
        Some(
            EscrowQuestion {
                max_escrow: sat_mul_u128(max_bid_ton as u128, TON_NANOTON),
                worst_cap_base: worst,
                n_verifiers: if n > 0 {
                    n - 1
                } else {
                    0
                },
            },
        )
    } else {
        None
    }
}

/// Ranking only reorders: whoever is eligible cleared every hard floor.
pub proof fn eligible_cleared_the_floors(p: SelectionPolicy, size: JobSize, bids: Seq<Bidder>, i: int)
    requires
        0 <= i < eligible_seq(p, size, bids).len(),
    ensures
        clears_floors(p, size, eligible_seq(p, size, bids)[i]),
        bids.contains(eligible_seq(p, size, bids)[i]),
    decreases bids.len(),
{
    if bids.len() > 0 {
        let rest = eligible_seq(p, size, bids.drop_last());
        if i < rest.len() {
            eligible_cleared_the_floors(p, size, bids.drop_last(), i);
            let k = choose|k: int| 0 <= k < bids.drop_last().len() && bids.drop_last()[k] == rest[i];
            assert(bids[k] == rest[i]);
        } else {
            assert(bids[bids.len() - 1] == bids.last());
        }
    }
}

/// A self-reported level above `L0` never passes a gate above `L0` without
/// verified evidence.
pub proof fn spoofed_level_fails_closed(p: SelectionPolicy, size: JobSize, b: Bidder)
    requires
        p.min_level != AttestationLevel::L0,
        b.evidence_verified != Some(true),
    ensures
        !passes_gates(p, size, b),
{
}

/// After a consensus of providers ran out of resources, a bidder that advertises
/// its memory is routed to only if it advertises strictly more than any that failed.
pub proof fn reroute_needs_strictly_more_memory(p: SelectionPolicy, size: JobSize, b: Bidder)
    requires
        size.capacity_floor > 0,
        0 < b.bid.free_mem_bytes <= size.capacity_floor,
    ensures
        !clears_floors(p, size, b),
{
}

/// Whether a bid counts before trust is looked at.
pub open spec fn acceptable(p: SelectionPolicy, size: JobSize, b: Bidder) -> bool {
    &&& b.bid.decision == BidDecision::Accept
    &&& p.min_level == AttestationLevel::L0 || (b.evidence_verified == Some(true) && (
    b.bid.attestation_level == AttestationLevel::L2 || (b.bid.attestation_level
        == AttestationLevel::L1 && p.min_level == AttestationLevel::L1)))
    &&& p.region_proof_required ==> b.region_proved
    &&& size.peak_bytes == 0 || b.bid.free_mem_bytes == 0 || size.peak_bytes
        <= b.bid.free_mem_bytes + p.spill_tolerance_bytes || (b.proven is Some && size.peak_bytes
        <= b.proven->0.max_peak_memory_bytes + b.proven->0.max_temp_dir_bytes)
    &&& size.capacity_floor == 0 || b.bid.free_mem_bytes == 0 || b.bid.free_mem_bytes
        > size.capacity_floor
}

/// A bidder passes the gates exactly where its bid is acceptable: an attested level counts
/// only where its evidence was verified.
pub proof fn gates_pass_what_is_acceptable(p: SelectionPolicy, size: JobSize, b: Bidder)
    ensures
        passes_gates(p, size, b) == acceptable(p, size, b),
{
}

/// The eligible bidders are the acceptable ones that are trusted, in the order of their
/// bids.
pub proof fn eligible_bidders_are_filtered(p: SelectionPolicy, size: JobSize, bids: Seq<Bidder>)
    ensures
        eligible_seq(p, size, bids) == bids.filter(
            |b: Bidder| acceptable(p, size, b) && b.clears_min_trust,
        ),
    decreases bids.len(),
{
    reveal(Seq::filter);
    if bids.len() > 0 {
        eligible_bidders_are_filtered(p, size, bids.drop_last());
        gates_pass_what_is_acceptable(p, size, bids.last());
    } else {
        assert(eligible_seq(p, size, bids) =~= bids.filter(
            |b: Bidder| acceptable(p, size, b) && b.clears_min_trust,
        ));
    }
}

/// Those that are put on the deny-list are the acceptable bidders whose trust is below the
/// floor, and nobody where that is switched off.
pub proof fn blocked_bidders_are_filtered(p: SelectionPolicy, size: JobSize, bids: Seq<Bidder>)
    ensures
        blocked_seq(p, size, bids) == bids.filter(
            |b: Bidder| p.auto_block && acceptable(p, size, b) && b.below_block_floor,
        ).map_values(|b: Bidder| b.worker@),
    decreases bids.len(),
{
    reveal(Seq::filter);
    let low = |b: Bidder| p.auto_block && acceptable(p, size, b) && b.below_block_floor;
    let name = |b: Bidder| b.worker@;
    if bids.len() > 0 {
        blocked_bidders_are_filtered(p, size, bids.drop_last());
        gates_pass_what_is_acceptable(p, size, bids.last());
        let rest = bids.drop_last().filter(low);
        assert(rest.push(bids.last()).map_values(name) =~= rest.map_values(name).push(
            bids.last().worker@,
        ));
    } else {
        assert(bids.filter(low).map_values(name) =~= Seq::empty());
    }
}

/// No bid is cheaper than the least price, none dearer than the greatest, and both are
/// somebody's.
pub proof fn prices_lie_between_the_extremes(bids: Seq<Bidder>, i: int)
    requires
        0 <= i < bids.len(),
    ensures
        least_price(bids) <= price_signal(bids[i].bid) <= greatest_price(bids),
        exists|k: int| 0 <= k < bids.len() && least_price(bids) == price_signal((#[trigger] bids[k]).bid),
        exists|k: int|
            0 <= k < bids.len() && greatest_price(bids) == price_signal((#[trigger] bids[k]).bid),
    decreases bids.len(),
{
    let rest = bids.drop_last();
    let last = bids.len() - 1;
    assert(bids[last] == bids.last());
    if rest.len() > 0 {
        let j = if i < last {
            i
        } else {
            0
        };
        prices_lie_between_the_extremes(rest, j);
        assert(rest[j] == bids[j]);
        let a = choose|k: int|
            0 <= k < rest.len() && least_price(rest) == price_signal((#[trigger] rest[k]).bid);
        let b = choose|k: int|
            0 <= k < rest.len() && greatest_price(rest) == price_signal((#[trigger] rest[k]).bid);
        assert(rest[a] == bids[a] && rest[b] == bids[b]);
        assert(least_price(bids) == price_signal(bids[a].bid) || least_price(bids) == price_signal(
            bids[last].bid,
        ));
        assert(greatest_price(bids) == price_signal(bids[b].bid) || greatest_price(bids)
            == price_signal(bids[last].bid));
    } else {
        assert(least_price(bids) == price_signal(bids[last].bid));
        assert(greatest_price(bids) == price_signal(bids[last].bid));
    }
}

/// The better bidder comes first: by its score, then by the sooner answer, then by the
/// larger input that it has proved, where that counts.
pub proof fn better_bidders_come_first(p: SelectionPolicy, a: Bidder, b: Bidder, x: u64, y: u64)
    ensures
        ({
            let proved = |d: Bidder| if d.proven is Some {
                d.proven->0.max_input_bytes
            } else {
                0
            };
            let first = key_lt(rank_key(p, a, x), rank_key(p, b, y));
            &&& x > y ==> first
            &&& x < y ==> !first
            &&& x == y && a.bid.eta_ms < b.bid.eta_ms ==> first
            &&& x == y && a.bid.eta_ms > b.bid.eta_ms ==> !first
            &&& x == y && a.bid.eta_ms == b.bid.eta_ms ==> first == (p.capability_tiebreak
                && proved(a) > proved(b))
        }),
{
}

/// The positions of a selection are those of its best bidders: `replicas` of them where
/// there are as many, each once, and nobody who was left out comes before one of them.
pub proof fn the_best_are_selected(
    p: SelectionPolicy,
    bidders: Seq<Bidder>,
    scores: Seq<u64>,
    order: Seq<usize>,
    i: int,
    j: int,
)
    requires
        bidders.len() == scores.len(),
        is_stable_order(order, rank_keys(p, bidders, scores), bidders.len() as int),
        0 <= i < j < order.len(),
    ensures
        order[i] < bidders.len(),
        order[i] != order[j],
        !key_lt(
            rank_key(p, bidders[order[j] as int], scores[order[j] as int]),
            rank_key(p, bidders[order[i] as int], scores[order[i] as int]),
        ),
{
}

/// The worst case of a selection is the dearest that one of its bidders can become.
pub proof fn the_worst_case_is_the_dearest(
    bidders: Seq<Bidder>,
    selected: Seq<usize>,
    bytes: u64,
    i: int,
)
    requires
        0 <= i < selected.len(),
        terms_of(bidders[selected[i] as int].bid) is Some,
    ensures
        worst_cap_base_spec(bidders, selected, bytes) >= terms_of(
            bidders[selected[i] as int].bid,
        )->0.cap_base_spec(bytes),
    decreases selected.len(),
{
    if i < selected.len() - 1 {
        assert(selected.drop_last()[i] == selected[i]);
        the_worst_case_is_the_dearest(bidders, selected.drop_last(), bytes, i);
    }
}

/// The worst case of a selection is nothing, or what one of its bidders can become.
pub proof fn the_worst_case_is_somebodys(
    bidders: Seq<Bidder>,
    selected: Seq<usize>,
    bytes: u64,
)
    ensures
        worst_cap_base_spec(bidders, selected, bytes) != 0 ==> exists|k: int|
            0 <= k < selected.len() && terms_of(
                bidders[#[trigger] selected[k] as int].bid,
            ) is Some && worst_cap_base_spec(bidders, selected, bytes) == terms_of(
                bidders[selected[k] as int].bid,
            )->0.cap_base_spec(bytes),
    decreases selected.len(),
{
    if selected.len() > 0 {
        let rest = selected.drop_last();
        the_worst_case_is_somebodys(bidders, rest, bytes);
        assert(selected[selected.len() - 1] == selected.last());
        if worst_cap_base_spec(bidders, rest, bytes) != 0 {
            let k = choose|k: int|
                0 <= k < rest.len() && terms_of(
                    bidders[#[trigger] rest[k] as int].bid,
                ) is Some && worst_cap_base_spec(bidders, rest, bytes) == terms_of(
                    bidders[rest[k] as int].bid,
                )->0.cap_base_spec(bytes);
            assert(selected[k] == rest[k]);
        }
    }
}

/// The requester's ceiling is asked about where the job is paid, there is one, and the
/// worst case costs something: for every provider but the winner, and in whole TON.
pub proof fn the_ceiling_is_asked_about(
    paid: bool,
    max_bid_ton: u64,
    bidders: Seq<Bidder>,
    selected: Seq<usize>,
    bytes: u64,
)
    requires
        selected.len() <= usize::MAX,
        worst_cap_base_spec(bidders, selected, bytes) <= u128::MAX,
    ensures
        ({
            let q = escrow_question_spec(paid, max_bid_ton, bidders, selected, bytes);
            &&& q is Some <==> paid && max_bid_ton > 0 && worst_cap_base_spec(
                bidders,
                selected,
                bytes,
            ) > 0
            &&& q is Some ==> q->0.max_escrow == max_bid_ton * 1_000_000_000
            &&& q is Some ==> q->0.worst_cap_base == worst_cap_base_spec(bidders, selected, bytes)
            &&& q is Some ==> q->0.n_verifiers + 1 == selected.len()
        }),
{
    if selected.len() == 0 {
        assert(worst_cap_base_spec(bidders, selected, bytes) == 0);
    }
}

/// The key that a region's proofs are held against is that of its first issuer, and only
/// where it is written as 32 bytes in hexadecimal.
pub proof fn a_region_has_its_first_issuer(issuers: Seq<RegionIssuer>, region: Seq<char>, i: int)
    requires
        0 <= i <= issuers.len(),
        forall|k: int| 0 <= k < i ==> (#[trigger] issuers[k]).region@ != region,
        i < issuers.len() ==> issuers[i].region@ == region,
    ensures
        issuer_key(issuers, region) is Some <==> i < issuers.len() && is_hex(issuers[i].key_hex@)
            && issuers[i].key_hex@.len() == 64,
        issuer_key(issuers, region) is Some ==> issuer_key(issuers, region)->0 == hex_bytes(
            issuers[i].key_hex@,
        ),
    decreases issuers.len(),
{
    if issuers.len() > 0 && i > 0 {
        let rest = issuers.subrange(1, issuers.len() as int);
        assert(issuers[0].region@ != region);
        assert forall|k: int| 0 <= k < i - 1 implies (#[trigger] rest[k]).region@ != region by {
            assert(rest[k] == issuers[k + 1]);
        }
        a_region_has_its_first_issuer(rest, region, i - 1);
    }
}

/// A region is proved by the worker's own token for it, against an issuer that can be used,
/// and by nothing else.
pub proof fn regions_are_proved_by_the_holder(
    worker: Seq<char>,
    regions: Seq<Seq<char>>,
    issuers: Seq<RegionIssuer>,
    holders: Seq<Option<NodeId>>,
    i: int,
)
    requires
        0 <= i < regions.len(),
    ensures
        i < holders.len() && issuer_key(issuers, regions[i]) is Some && holders[i] is Some
            && holders[i]->0@ == worker ==> region_proved(worker, regions, issuers, holders),
        (forall|k: int|
            0 <= k < holders.len() ==> (#[trigger] holders[k] is Some ==> holders[k]->0@ != worker))
            ==> !region_proved(worker, regions, issuers, holders),
        (forall|k: int|
            0 <= k < regions.len() ==> issuer_key(issuers, #[trigger] regions[k]) is None)
            ==> !region_proved(worker, regions, issuers, holders),
        holders.len() == 0 ==> !region_proved(worker, regions, issuers, holders),
{
    assert(regions[i] == regions[i]);
}

} // verus!
