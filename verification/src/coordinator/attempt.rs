//! One dispatch attempt, stage by stage. Each stage is left only through the step
//! that the one before it prepared, so the order of the decisions is fixed: pin the
//! inputs, retain candidates, gate and rank the bids, check coverage, judge what
//! was collected, book the outcome.

use vstd::prelude::*;
use crate::coordinator::account::{
    account, drafts, failure_receipt, failure_receipts, winner_first, winner_first_seq, Accounting,
    Conclusion, ObservedSize, ReceiptDraft, ReceiptView,
};
use crate::coordinator::candidates::{kept_seq, retain_candidates, CandidatePolicy, Found};
use crate::coordinator::error::{CoordinatorError, ErrorView};
use crate::coordinator::judge::{
    judge, judge_spec, AttemptResult, AttemptView, Collection, Commit, Judgement, JudgementView,
    JudgePolicy,
};
use crate::coordinator::metering::{
    billed_spec, is_median, metered_billed_seconds, terms_of, MeteredTerms,
};
use crate::coordinator::request::{Deadlines, Timeouts};
use crate::coordinator::selection::{
    blocked_seq, eligible_bidders, eligible_seq, escrow_question, escrow_question_spec,
    greatest_price, least_price, rank_keys, select_top, Bidder, Eligible, EscrowQuestion, JobSize,
    SelectionPolicy,
};
use crate::coordinator::settle::MeteredSettle;
use crate::discovery::{Candidate, CandidateFilter};
use crate::math::min_int;
use crate::ranking::is_stable_order;
use crate::types::{ids, opt_str, AttestationLevel, InputSnapshot, NodeId, VerifyMode};

verus! {

/// What the input resolver reported.
#[derive(Debug, Clone, PartialEq, Eq)]
pub enum InputResolution {
    /// No resolver is wired.
    NotWired,
    /// The pinned inputs, or none where the query reads none.
    Resolved(Option<InputSnapshot>),
    /// The inputs cannot be pinned from the query text.
    NotPinnable(String),
    /// An input source cannot be reached.
    Unavailable(String),
}

/// The rules of one attempt.
#[derive(Debug, Clone, Copy, PartialEq, Eq, Structural)]
pub struct AttemptPolicy {
    pub candidates: CandidatePolicy,
    pub selection: SelectionPolicy,
    pub judge: JudgePolicy,
    pub timeouts: Timeouts,
    /// The job pays and economics is on.
    pub paid: bool,
    /// The requester's ceiling in whole TON (`0` for none).
    pub max_bid_ton: u64,
    pub size: JobSize,
}

/// The settings that the rules of an attempt are made from.
#[derive(Debug, Clone, Copy, PartialEq, Eq, Structural)]
pub struct AttemptSettings {
    pub antiabuse_enabled: bool,
    pub auto_block_enabled: bool,
    /// Whether the trust floor of the auto-block is above zero.
    pub auto_block_floor_set: bool,
    pub fault_attribution: bool,
    pub nondeterminism: bool,
    pub require_staked_hosts: bool,
    pub min_stake_ton: u64,
    /// Whether regions are attested rather than declared.
    pub region_attested: bool,
    pub spill_tolerance_bytes: u64,
    /// Whether capability weighs in the ranking.
    pub capability_weighted: bool,
    pub replicas: usize,
    pub quorum: usize,
    pub verify_mode: VerifyMode,
    pub timeouts: Timeouts,
    pub economics_enabled: bool,
    pub max_bid_ton: u64,
}

/// What the rules of an attempt take from the job.
#[derive(Debug, Clone, Copy, PartialEq, Eq, Structural)]
pub struct JobTerms {
    pub min_level: AttestationLevel,
    /// Whether the job pins regions.
    pub regions_pinned: bool,
    pub paid: bool,
    pub input_bytes: Option<u64>,
    pub peak_bytes: Option<u64>,
    pub capacity_floor: u64,
}

impl AttemptPolicy {
    /// The rules of an attempt. Every anti-abuse rule needs anti-abuse to be on, a paid
    /// job economics, and a region is proved only where the job pins one.
    pub fn of(s: &AttemptSettings, job: &JobTerms) -> (r: AttemptPolicy)
        ensures
            r.candidates == (CandidatePolicy {
                antiabuse_enabled: s.antiabuse_enabled,
                require_staked_hosts: s.require_staked_hosts,
                min_stake_ton: s.min_stake_ton,
            }),
            r.selection == (SelectionPolicy {
                min_level: job.min_level,
                region_proof_required: s.region_attested && job.regions_pinned,
                spill_tolerance_bytes: s.spill_tolerance_bytes,
                capability_tiebreak: s.capability_weighted,
                auto_block: s.antiabuse_enabled && s.auto_block_enabled && s.auto_block_floor_set,
                replicas: s.replicas,
                quorum: s.quorum,
            }),
            r.judge == (JudgePolicy {
                quorum: s.quorum,
                verify_mode: s.verify_mode,
                fault_attribution: s.antiabuse_enabled && s.fault_attribution,
                nondeterminism_active: s.antiabuse_enabled && s.nondeterminism,
            }),
            r.timeouts == s.timeouts,
            r.paid == (job.paid && s.economics_enabled),
            r.max_bid_ton == s.max_bid_ton,
            r.size.scanned_bytes == (match job.input_bytes {
                Some(n) => n,
                None => 0,
            }),
            r.size.peak_bytes == (match job.peak_bytes {
                Some(n) => n,
                None => 0,
            }),
            r.size.capacity_floor == job.capacity_floor,
    {
        AttemptPolicy {
            candidates: CandidatePolicy {
                antiabuse_enabled: s.antiabuse_enabled,
                require_staked_hosts: s.require_staked_hosts,
                min_stake_ton: s.min_stake_ton,
            },
            selection: SelectionPolicy {
                min_level: job.min_level,
                region_proof_required: s.region_attested && job.regions_pinned,
                spill_tolerance_bytes: s.spill_tolerance_bytes,
                capability_tiebreak: s.capability_weighted,
                auto_block: s.antiabuse_enabled && s.auto_block_enabled && s.auto_block_floor_set,
                replicas: s.replicas,
                quorum: s.quorum,
            },
            judge: JudgePolicy {
                quorum: s.quorum,
                verify_mode: s.verify_mode,
                fault_attribution: s.antiabuse_enabled && s.fault_attribution,
                nondeterminism_active: s.antiabuse_enabled && s.nondeterminism,
            },
            timeouts: s.timeouts,
            paid: job.paid && s.economics_enabled,
            max_bid_ton: s.max_bid_ton,
            size: JobSize {
                scanned_bytes: match job.input_bytes {
                    Some(n) => n,
                    None => 0,
                },
                peak_bytes: match job.peak_bytes {
                    Some(n) => n,
                    None => 0,
                },
                capacity_floor: job.capacity_floor,
            },
        }
    }
}

/// The inputs of an attempt, once they are pinned as far as they can be.
#[derive(Debug)]
pub struct Pinned {
    policy: AttemptPolicy,
    snapshot: Option<InputSnapshot>,
    not_pinnable: bool,
}

impl Pinned {
    pub closed spec fn policy_spec(&self) -> AttemptPolicy {
        self.policy
    }

    pub closed spec fn snapshot_spec(&self) -> Option<InputSnapshot> {
        self.snapshot
    }

    pub closed spec fn not_pinnable_spec(&self) -> bool {
        self.not_pinnable
    }

    /// The fingerprint the job is pinned to.
    pub open spec fn fingerprint_spec(&self) -> Option<Seq<char>> {
        match self.snapshot_spec() {
            Some(s) => Some(s.fingerprint@),
            None => None,
        }
    }

    pub fn snapshot(&self) -> (r: &Option<InputSnapshot>)
        ensures
            *r == self.snapshot_spec(),
    {
        &self.snapshot
    }

    pub fn not_pinnable(&self) -> (r: bool)
        ensures
            r == self.not_pinnable_spec(),
    {
        self.not_pinnable
    }

    pub fn fingerprint(&self) -> (r: Option<String>)
        ensures
            opt_str(r) == self.fingerprint_spec(),
    {
        match &self.snapshot {
            Some(s) => Some(s.fingerprint.clone()),
            None => None,
        }
    }
}

/// Pin the job's inputs: an unreachable source ends the attempt as infeasible;
/// inputs that cannot be pinned make the job non-verifiable; without a resolver
/// nothing is pinned.
pub fn pin_inputs(policy: AttemptPolicy, resolution: InputResolution) -> (r: Result<
    Pinned,
    AttemptResult,
>)
    ensures
        match resolution {
            InputResolution::Unavailable(reason) => r is Err && r->Err_0@
                == (AttemptView::Infeasible { reason: "input source unavailable: "@ + reason@ }),
            InputResolution::NotPinnable(_) => r is Ok && r->Ok_0.snapshot_spec() is None
                && r->Ok_0.not_pinnable_spec(),
            InputResolution::Resolved(s) => r is Ok && r->Ok_0.snapshot_spec() == s
                && !r->Ok_0.not_pinnable_spec(),
            InputResolution::NotWired => r is Ok && r->Ok_0.snapshot_spec() is None
                && !r->Ok_0.not_pinnable_spec(),
        },
        r is Ok ==> r->Ok_0.policy_spec() == policy,
{
    match resolution {
        InputResolution::Unavailable(detail) => {
            let mut reason = "input source unavailable: ".to_owned();
            reason.append(detail.as_str());
            Err(AttemptResult::Infeasible { reason })
        },
        InputResolution::NotPinnable(_) => Ok(
            Pinned { policy, snapshot: None, not_pinnable: true },
        ),
        InputResolution::Resolved(snapshot) => Ok(
            Pinned { policy, snapshot, not_pinnable: false },
        ),
        InputResolution::NotWired => Ok(Pinned { policy, snapshot: None, not_pinnable: false }),
    }
}

/// An attempt that has candidates to make an offer to.
#[derive(Debug)]
pub struct Offering {
    pinned: Pinned,
}

impl Offering {
    pub closed spec fn pinned_spec(&self) -> Pinned {
        self.pinned
    }

    pub fn pinned(&self) -> (r: &Pinned)
        ensures
            *r == self.pinned_spec(),
    {
        &self.pinned
    }
}

impl Pinned {
    /// Keep the candidates that may be contacted. With none left the attempt ends.
    pub fn retain(
        self,
        filter: &CandidateFilter,
        found: Vec<Found>,
        excluded: &[NodeId],
    ) -> (r: Result<(Offering, Vec<Candidate>), AttemptResult>)
        ensures
            ({
                let kept = kept_seq(
                    self.policy_spec().candidates,
                    *filter,
                    found@,
                    ids(excluded@),
                    self.policy_spec().size.scanned_bytes,
                );
                &&& r is Err <==> kept.len() == 0
                &&& r is Err ==> r->Err_0@ == AttemptView::NoCandidates
                &&& r is Ok ==> r->Ok_0.0.pinned_spec() == self && r->Ok_0.1@ == kept
            }),
    {
        let kept = retain_candidates(
            &self.policy.candidates,
            filter,
            found,
            excluded,
            self.policy.size.scanned_bytes,
        );
        if kept.len() == 0 {
            Err(AttemptResult::NoCandidates)
        } else {
            Ok((Offering { pinned: self }, kept))
        }
    }
}

/// An attempt whose bidders have been held against the hard floors.
#[derive(Debug)]
pub struct Scoring {
    pinned: Pinned,
    eligible: Eligible,
}

impl Scoring {
    pub closed spec fn pinned_spec(&self) -> Pinned {
        self.pinned
    }

    pub closed spec fn eligible_spec(&self) -> Eligible {
        self.eligible
    }

    /// The bidders to score, the price range to score them over, and the bidders
    /// to put on the deny-list.
    pub fn eligible(&self) -> (r: &Eligible)
        ensures
            *r == self.eligible_spec(),
    {
        &self.eligible
    }
}

impl Offering {
    /// Hold the collected bids against the hard floors.
    pub fn gate(self, bids: Vec<Bidder>) -> (r: Scoring)
        ensures
            ({
                let p = self.pinned_spec().policy_spec();
                let e = r.eligible_spec();
                &&& r.pinned_spec() == self.pinned_spec()
                &&& e.bidders@ == eligible_seq(p.selection, p.size, bids@)
                &&& ids(e.auto_blocked@) == blocked_seq(p.selection, p.size, bids@)
                &&& e.price_min == least_price(e.bidders@)
                &&& e.price_max == greatest_price(e.bidders@)
            }),
    {
        let eligible = eligible_bidders(
            &self.pinned.policy.selection,
            &self.pinned.policy.size,
            bids,
        );
        Scoring { pinned: self.pinned, eligible }
    }
}

/// An attempt whose workers are selected.
#[derive(Debug)]
pub struct Selected {
    pinned: Pinned,
    bidders: Vec<Bidder>,
    order: Vec<usize>,
}

impl Selected {
    #[verifier::type_invariant]
    spec fn inv(self) -> bool {
        forall|i: int| 0 <= i < self.order@.len() ==> #[trigger] self.order@[i] < self.bidders@.len()
    }

    pub closed spec fn pinned_spec(&self) -> Pinned {
        self.pinned
    }

    pub closed spec fn bidders_spec(&self) -> Seq<Bidder> {
        self.bidders@
    }

    /// The positions of the selected bidders, best first.
    pub closed spec fn order_spec(&self) -> Seq<usize> {
        self.order@
    }

    /// How many workers are selected.
    pub fn count(&self) -> (r: usize)
        ensures
            r == self.order_spec().len(),
    {
        self.order.len()
    }

    /// The question to have answered before dispatching, if there is one.
    pub fn question(&self) -> (r: Option<EscrowQuestion>)
        ensures
            r == escrow_question_spec(
                self.pinned_spec().policy_spec().paid,
                self.pinned_spec().policy_spec().max_bid_ton,
                self.bidders_spec(),
                self.order_spec(),
                self.pinned_spec().policy_spec().size.scanned_bytes,
            ),
    {
        proof {
            use_type_invariant(self);
        }
        escrow_question(
            self.pinned.policy.paid,
            self.pinned.policy.max_bid_ton,
            &self.bidders,
            &self.order,
            self.pinned.policy.size.scanned_bytes,
        )
    }
}

impl Scoring {
    /// Select the best bidders by score. `scores[i]` orders as the composite score
    /// of the i-th eligible bidder does. With fewer than the quorum the attempt ends.
    pub fn select(self, scores: &[u64]) -> (r: Result<Selected, AttemptResult>)
        requires
            scores@.len() == self.eligible_spec().bidders@.len(),
        ensures
            ({
                let p = self.pinned_spec().policy_spec().selection;
                let bidders = self.eligible_spec().bidders@;
                let have = min_int(p.replicas as int, bidders.len() as int);
                &&& r is Err <==> have < p.quorum
                &&& r is Err ==> r->Err_0@ == (AttemptView::InsufficientWorkers {
                    have: have as usize,
                    quorum: p.quorum,
                })
                &&& r is Ok ==> {
                    &&& r->Ok_0.pinned_spec() == self.pinned_spec()
                    &&& r->Ok_0.bidders_spec() == bidders
                    &&& exists|order: Seq<usize>| #[trigger]
                        is_stable_order(
                            order,
                            rank_keys(p, bidders, scores@),
                            bidders.len() as int,
                        ) && r->Ok_0.order_spec() == order.take(have)
                }
            }),
    {
        let p = self.pinned.policy.selection;
        let order = select_top(&p, &self.eligible.bidders, scores);
        if order.len() < p.quorum {
            return Err(
                AttemptResult::InsufficientWorkers { have: order.len(), quorum: p.quorum },
            );
        }
        Ok(Selected { pinned: self.pinned, bidders: self.eligible.bidders, order })
    }
}

/// An attempt whose job is being run by the selected workers.
#[derive(Debug)]
pub struct Dispatching {
    selected: Selected,
}

/// One worker to dispatch to.
#[derive(Debug, Clone, PartialEq, Eq)]
pub struct WorkerDispatch {
    pub worker: NodeId,
    pub deadlines: Deadlines,
}

impl Dispatching {
    pub closed spec fn selected_spec(&self) -> Selected {
        self.selected
    }

    pub fn selected(&self) -> (r: &Selected)
        ensures
            *r == self.selected_spec(),
    {
        &self.selected
    }

    /// The i-th worker to dispatch to, best first, with its deadlines.
    pub fn worker(&self, i: usize) -> (r: Option<WorkerDispatch>)
        ensures
            ({
                let s = self.selected_spec();
                &&& r is Some <==> i < s.order_spec().len()
                &&& r is Some ==> {
                    let b = s.bidders_spec()[s.order_spec()[i as int] as int];
                    &&& r->0.worker == b.worker
                    &&& r->0.deadlines
                        == s.pinned_spec().policy_spec().timeouts.deadlines_spec(b.bid)
                }
            }),
    {
        proof {
            use_type_invariant(&self.selected);
        }
        if i >= self.selected.order.len() {
            return None;
        }
        let at: usize = self.selected.order[i];
        let b = &self.selected.bidders[at];
        Some(
            WorkerDispatch {
                worker: b.worker.duplicate(),
                deadlines: self.selected.pinned.policy.timeouts.deadlines(&b.bid),
            },
        )
    }
}

impl Selected {
    /// Go on to dispatch, unless the requester's ceiling does not cover the worst
    /// case. `coverage` is the answer to [`Selected::question`].
    pub fn dispatch(self, coverage: Result<(), String>) -> (r: Result<
        Dispatching,
        CoordinatorError,
    >)
        ensures
            ({
                let asked = escrow_question_spec(
                    self.pinned_spec().policy_spec().paid,
                    self.pinned_spec().policy_spec().max_bid_ton,
                    self.bidders_spec(),
                    self.order_spec(),
                    self.pinned_spec().policy_spec().size.scanned_bytes,
                ) is Some;
                &&& r is Err <==> asked && coverage is Err
                &&& r is Err ==> r->Err_0@ == ErrorView::InsufficientEscrow(coverage->Err_0@)
                &&& r is Ok ==> r->Ok_0.selected_spec() == self
            }),
    {
        let asked = self.question().is_some();
        match coverage {
            Err(text) => if asked {
                Err(CoordinatorError::InsufficientEscrow(text))
            } else {
                Ok(Dispatching { selected: self })
            },
            Ok(_) => Ok(Dispatching { selected: self }),
        }
    }
}

/// An attempt that agreed on a result, which the winner is about to deliver.
#[derive(Debug)]
pub struct Transferring {
    selected: Selected,
    collection: Collection,
    /// The commits, the winner's first.
    ordered: Vec<Commit>,
    agreed: String,
    verified: bool,
    non_verifiable: bool,
}

impl Transferring {
    #[verifier::type_invariant]
    spec fn inv(self) -> bool {
        self.ordered@.len() > 0
    }

    pub closed spec fn selected_spec(&self) -> Selected {
        self.selected
    }

    pub closed spec fn collection_spec(&self) -> Collection {
        self.collection
    }

    pub closed spec fn ordered_spec(&self) -> Seq<Commit> {
        self.ordered@
    }

    pub closed spec fn agreed_spec(&self) -> Seq<char> {
        self.agreed@
    }

    pub closed spec fn verified_spec(&self) -> bool {
        self.verified
    }

    pub closed spec fn non_verifiable_spec(&self) -> bool {
        self.non_verifiable
    }

    /// The provider to acknowledge and download from.
    pub fn winner(&self) -> (r: &Commit)
        ensures
            self.ordered_spec().len() > 0,
            *r == self.ordered_spec()[0],
    {
        proof {
            use_type_invariant(self);
        }
        &self.ordered[0]
    }

    /// The commits, the winner's first; every other one is cancelled.
    pub fn ordered(&self) -> (r: &[Commit])
        ensures
            r@ == self.ordered_spec(),
    {
        self.ordered.as_slice()
    }
}

/// How an attempt ended, with the receipts to issue to those that committed.
#[derive(Debug, Clone, PartialEq, Eq)]
pub struct Ended {
    pub result: AttemptResult,
    pub receipts: Vec<ReceiptDraft>,
}

fn copy_commits(v: &[Commit]) -> (r: Vec<Commit>)
    ensures
        r@ == v@,
{
    let mut r: Vec<Commit> = Vec::new();
    let mut i: usize = 0;
    while i < v.len()
        invariant
            i <= v@.len(),
            r@ == v@.take(i as int),
        decreases v@.len() - i,
    {
        r.push(
            Commit {
                worker: v[i].worker.duplicate(),
                hash: v[i].hash.clone(),
                latency_ms: v[i].latency_ms,
                input_fingerprint: v[i].input_fingerprint.clone(),
            },
        );
        i = i + 1;
        assert(r@ =~= v@.take(i as int));
    }
    assert(v@.take(i as int) =~= v@);
    r
}

impl Dispatching {
    /// Judge what was collected from the selected workers.
    pub fn judge(self, c: Collection) -> (r: Result<Transferring, Ended>)
        requires
            c.silent@.len() + c.failed@.len() <= usize::MAX,
        ensures
            ({
                let s = self.selected_spec();
                let p = s.pinned_spec().policy_spec().judge;
                let verdict = judge_spec(
                    p,
                    s.bidders_spec(),
                    s.order_spec().len() as usize,
                    s.pinned_spec().not_pinnable_spec(),
                    c,
                );
                &&& r is Ok <==> verdict is Proceed
                &&& verdict matches JudgementView::Proceed {
                    agreed,
                    verified,
                    non_verifiable,
                    winner,
                } ==> {
                    let t = r->Ok_0;
                    &&& t.selected_spec() == s
                    &&& t.collection_spec() == c
                    &&& t.ordered_spec() == winner_first_seq(c.commits@, winner)
                    &&& t.agreed_spec() == agreed
                    &&& t.verified_spec() == verified
                    &&& t.non_verifiable_spec() == non_verifiable
                }
                &&& verdict matches JudgementView::End { result, failure_receipts } ==> {
                    &&& r->Err_0.result@ == result
                    &&& drafts(r->Err_0.receipts@) == (if failure_receipts {
                        c.commits@.map_values(|x: Commit| failure_receipt(x, p.fault_attribution))
                    } else {
                        Seq::<ReceiptView>::empty()
                    })
                }
            }),
    {
        let p = self.selected.pinned.policy.judge;
        let count: usize = self.selected.order.len();
        let not_pinnable = self.selected.pinned.not_pinnable;
        match judge(&p, &self.selected.bidders, count, not_pinnable, &c) {
            Judgement::End { result, failure_receipts: issue } => {
                let receipts = if issue {
                    failure_receipts(&c.commits, p.fault_attribution)
                } else {
                    Vec::new()
                };
                assert(!issue ==> drafts(receipts@) =~= Seq::<ReceiptView>::empty());
                Err(Ended { result, receipts })
            },
            Judgement::Proceed { agreed, verified, non_verifiable, winner } => {
                proof {
                    crate::coordinator::judge::proceed_names_a_commit(
                        p,
                        self.selected.bidders@,
                        count,
                        not_pinnable,
                        c,
                    );
                }
                let ordered = winner_first(copy_commits(&c.commits), winner);
                Ok(
                    Transferring {
                        selected: self.selected,
                        collection: c,
                        ordered,
                        agreed,
                        verified,
                        non_verifiable,
                    },
                )
            },
        }
    }
}

/// An attempt whose books are made.
#[derive(Debug)]
pub struct Booked {
    pub accounting: Accounting,
    /// The outcome, or how the attempt ended where the winner did not deliver.
    pub outcome: Result<Outcome, AttemptResult>,
}

/// The outcome of a grid query, beside the result itself.
#[derive(Debug, Clone, PartialEq, Eq)]
pub struct Outcome {
    pub agreed_hash: String,
    pub agreement: usize,
    pub quorum: usize,
    pub verified: bool,
    pub winner: NodeId,
    pub winner_latency_ms: u64,
    /// The winner's metered terms, where its bid carried any.
    pub winner_terms: Option<MeteredTerms>,
    /// Everybody that committed, in the order of collection.
    pub participants: Vec<NodeId>,
    /// Providers to fine for a broken commitment: only on a paid, verified job.
    pub fined: Vec<NodeId>,
}

/// The metered terms of `node`'s bid.
pub open spec fn terms_of_node(bidders: Seq<Bidder>, node: Seq<char>) -> Option<MeteredTerms>
    decreases bidders.len(),
{
    if bidders.len() == 0 {
        None
    } else if bidders.last().worker@ == node {
        terms_of(bidders.last().bid)
    } else {
        terms_of_node(bidders.drop_last(), node)
    }
}

fn find_terms(bidders: &[Bidder], node: &NodeId) -> (r: Option<MeteredTerms>)
    ensures
        r == terms_of_node(bidders@, node@),
{
    let mut n: usize = bidders.len();
    assert(bidders@.take(n as int) =~= bidders@);
    while n > 0
        invariant
            n <= bidders@.len(),
            terms_of_node(bidders@.take(n as int), node@) == terms_of_node(bidders@, node@),
        decreases n,
    {
        proof {
            let here = bidders@.take(n as int);
            assert(here.last() == bidders@[n - 1]);
            assert(here.drop_last() =~= bidders@.take(n - 1));
        }
        if bidders[n - 1].worker.same(node) {
            return MeteredTerms::from_bid(&bidders[n - 1].bid);
        }
        n = n - 1;
    }
    None
}

fn workers_of(commits: &[Commit]) -> (r: Vec<NodeId>)
    ensures
        ids(r@) == commits@.map_values(|c: Commit| c.worker@),
{
    let mut r: Vec<NodeId> = Vec::new();
    let mut i: usize = 0;
    let ghost want = commits@.map_values(|c: Commit| c.worker@);
    assert(ids(r@) =~= want.take(0));
    while i < commits.len()
        invariant
            i <= commits@.len(),
            want == commits@.map_values(|c: Commit| c.worker@),
            ids(r@) == want.take(i as int),
        decreases commits@.len() - i,
    {
        let ghost before = r@;
        r.push(commits[i].worker.duplicate());
        proof {
            assert(ids(r@) =~= ids(before).push(want[i as int]));
            assert(want.take(i + 1) =~= want.take(i as int).push(want[i as int]));
        }
        i = i + 1;
    }
    assert(want.take(i as int) =~= want);
    r
}

impl Transferring {
    /// What the attempt concluded, given what the winner delivered.
    pub open spec fn conclusion_spec(&self, delivered: Option<ObservedSize>, k: Conclusion) -> bool {
        &&& k.agreed@ == self.agreed_spec()
        &&& k.verified == self.verified_spec()
        &&& k.non_verifiable == self.non_verifiable_spec()
        &&& opt_str(k.pinned) == self.selected_spec().pinned_spec().fingerprint_spec()
        &&& k.delivered == delivered
        &&& k.input_bytes == self.selected_spec().pinned_spec().policy_spec().size.scanned_bytes
    }

    /// Book the attempt. `delivered` measures the winner's result, and is `None`
    /// where the transfer failed: the attempt is then inconclusive.
    pub fn book(self, delivered: Option<ObservedSize>) -> (r: Booked)
        ensures
            ({
                let c = self.collection_spec();
                let ordered = self.ordered_spec();
                &&& ordered.len() > 0
                &&& exists|k: Conclusion| #[trigger]
                    self.conclusion_spec(delivered, k) && books_of(
                        k,
                        ordered,
                        c,
                        r.accounting,
                    )
                &&& r.outcome is Ok <==> delivered is Some
                &&& r.outcome is Err ==> r.outcome->Err_0@ == (AttemptView::Inconclusive {
                    tried: c.tried(),
                })
                &&& r.outcome is Ok ==> {
                    let o = r.outcome->Ok_0;
                    &&& o.agreed_hash@ == self.agreed_spec()
                    &&& o.agreement == c.outcome.agreement
                    &&& o.quorum == c.outcome.quorum
                    &&& o.verified == self.verified_spec()
                    &&& o.winner == ordered[0].worker
                    &&& o.winner_latency_ms == ordered[0].latency_ms
                    &&& o.winner_terms == terms_of_node(
                        self.selected_spec().bidders_spec(),
                        ordered[0].worker@,
                    )
                    &&& ids(o.participants@) == c.commits@.map_values(|x: Commit| x.worker@)
                    &&& ids(o.fined@) == (if self.verified_spec()
                        && self.selected_spec().pinned_spec().policy_spec().paid {
                        ids(r.accounting.commitment_failers@)
                    } else {
                        Seq::<Seq<char>>::empty()
                    })
                }
            }),
    {
        proof {
            use_type_invariant(&self);
        }
        let k = Conclusion {
            agreed: self.agreed.clone(),
            verified: self.verified,
            non_verifiable: self.non_verifiable,
            pinned: self.selected.pinned.fingerprint(),
            delivered,
            input_bytes: self.selected.pinned.policy.size.scanned_bytes,
        };
        let accounting = account(
            &k,
            &self.ordered,
            &self.collection.silent,
            &self.collection.failed,
        );
        assert(self.conclusion_spec(delivered, k) && books_of(
            k,
            self.ordered@,
            self.collection,
            accounting,
        ));
        if delivered.is_none() {
            let tried = crate::coordinator::judge::tried_nodes(&self.collection);
            return Booked { accounting, outcome: Err(AttemptResult::Inconclusive { tried }) };
        }
        let fined = if self.verified && self.selected.pinned.policy.paid {
            crate::types::copy_ids(&accounting.commitment_failers)
        } else {
            Vec::new()
        };
        assert(!(self.verified && self.selected.pinned.policy.paid) ==> ids(fined@) =~= Seq::<
            Seq<char>,
        >::empty());
        let outcome = Outcome {
            agreed_hash: self.agreed.clone(),
            agreement: self.collection.outcome.agreement,
            quorum: self.collection.outcome.quorum,
            verified: self.verified,
            winner: self.ordered[0].worker.duplicate(),
            winner_latency_ms: self.ordered[0].latency_ms,
            winner_terms: find_terms(&self.selected.bidders, &self.ordered[0].worker),
            participants: workers_of(&self.collection.commits),
            fined,
        };
        Booked { accounting, outcome: Ok(outcome) }
    }
}

/// The books that a conclusion leads to.
pub open spec fn books_of(k: Conclusion, ordered: Seq<Commit>, c: Collection, a: Accounting) -> bool {
    let losers = k.agreeing(ordered.subrange(1, ordered.len() as int));
    &&& drafts(a.receipts@) == k.commit_receipts(ordered) + k.other_receipts(c.silent@, c.failed@)
    &&& ids(a.penalized@) == k.wrong_workers(ordered) + k.absent_failers(c.silent@, c.failed@)
    &&& ids(a.commitment_failers@) == (if k.verified {
        k.wrong_workers(ordered)
    } else {
        Seq::empty()
    }) + k.absent_failers(c.silent@, c.failed@)
    &&& ids(a.agreeing_non_winners@) == losers.map_values(|x: Commit| x.worker@)
    &&& a.agreeing_latencies@ == seq![ordered[0].latency_ms] + losers.map_values(
        |x: Commit| x.latency_ms,
    )
}

impl Outcome {
    /// The metered settlement of the winner, where its bid was metered.
    /// `tolerated_median_ms` is the agreeing providers' median latency scaled by the
    /// metering tolerance and rounded up; `bytes` the estimated scanned bytes.
    pub fn metered(
        &self,
        agreeing_latencies: &[u64],
        tolerated_median_ms: u64,
        bytes: u64,
    ) -> (r: Option<MeteredSettle>)
        ensures
            r is Some <==> self.winner_terms is Some,
            r is Some ==> r->0.terms == self.winner_terms->0 && r->0.bytes == bytes && exists|
                m: u64,
            | #[trigger]
                is_median(agreeing_latencies@, m) && r->0.billed_seconds == billed_spec(
                    self.winner_latency_ms,
                    m,
                    tolerated_median_ms,
                ),
    {
        match self.winner_terms {
            Some(terms) => Some(
                MeteredSettle {
                    terms,
                    billed_seconds: metered_billed_seconds(
                        self.winner_latency_ms,
                        agreeing_latencies,
                        tolerated_median_ms,
                    ),
                    bytes,
                },
            ),
            None => None,
        }
    }
}

/// Every anti-abuse rule needs anti-abuse to be on, and a paid job economics; a region is
/// proved only where regions are attested and the job pins one.
pub proof fn rules_need_their_switches(s: AttemptSettings, job: JobTerms, r: AttemptPolicy)
    requires
        call_ensures(AttemptPolicy::of, (&s, &job), r),
    ensures
        !s.antiabuse_enabled ==> !r.selection.auto_block && !r.judge.fault_attribution
            && !r.judge.nondeterminism_active && !r.candidates.antiabuse_enabled,
        s.antiabuse_enabled ==> r.candidates.antiabuse_enabled && r.judge.fault_attribution
            == s.fault_attribution && r.judge.nondeterminism_active == s.nondeterminism,
        s.antiabuse_enabled && s.auto_block_enabled && s.auto_block_floor_set
            ==> r.selection.auto_block,
        !s.auto_block_enabled || !s.auto_block_floor_set ==> !r.selection.auto_block,
        r.paid <==> job.paid && s.economics_enabled,
        r.selection.region_proof_required <==> s.region_attested && job.regions_pinned,
        r.selection.min_level == job.min_level,
        r.selection.quorum == s.quorum && r.judge.quorum == s.quorum && r.selection.replicas
            == s.replicas,
        r.candidates.min_stake_ton == s.min_stake_ton && r.candidates.require_staked_hosts
            == s.require_staked_hosts,
        r.size.capacity_floor == job.capacity_floor,
        job.input_bytes is Some ==> r.size.scanned_bytes == job.input_bytes->0,
        job.peak_bytes is Some ==> r.size.peak_bytes == job.peak_bytes->0,
        job.input_bytes is None ==> r.size.scanned_bytes == 0,
        job.peak_bytes is None ==> r.size.peak_bytes == 0,
{
}

/// Inputs that cannot be had end the attempt; inputs that cannot be pinned do not, but
/// nothing is verified against them.
pub proof fn unavailable_inputs_end_the_attempt(
    policy: AttemptPolicy,
    resolution: InputResolution,
    r: Result<Pinned, AttemptResult>,
)
    requires
        call_ensures(pin_inputs, (policy, resolution), r),
    ensures
        r is Err <==> resolution is Unavailable,
        resolution matches InputResolution::Unavailable(why) ==> r->Err_0@ == (
        AttemptView::Infeasible { reason: "input source unavailable: "@ + why@ }),
        r is Ok ==> (r->Ok_0.not_pinnable_spec() <==> resolution is NotPinnable),
        resolution matches InputResolution::Resolved(s) ==> r->Ok_0.snapshot_spec() == s,
        r is Ok && !(resolution is Resolved) ==> r->Ok_0.snapshot_spec() is None,
{
}

/// An attempt goes on with the candidates that it keeps, and ends where it keeps none.
pub proof fn attempts_need_a_candidate(
    p: Pinned,
    filter: CandidateFilter,
    found: Vec<Found>,
    excluded: &[NodeId],
    r: Result<(Offering, Vec<Candidate>), AttemptResult>,
)
    requires
        call_ensures(Pinned::retain, (p, &filter, found, excluded), r),
    ensures
        r is Err ==> r->Err_0@ == AttemptView::NoCandidates,
        r is Ok ==> r->Ok_0.1@.len() > 0,
        r is Ok ==> r->Ok_0.1@ == found@.filter(
            |f: Found|
                crate::coordinator::candidates::keeps(
                    p.policy_spec().candidates,
                    filter,
                    f.candidate@,
                    f.facts,
                    ids(excluded@),
                    p.policy_spec().size.scanned_bytes,
                ),
        ).map_values(|f: Found| f.candidate),
        r is Err ==> forall|i: int|
            0 <= i < found@.len() ==> !crate::coordinator::candidates::keeps(
                p.policy_spec().candidates,
                filter,
                (#[trigger] found@[i]).candidate@,
                found@[i].facts,
                ids(excluded@),
                p.policy_spec().size.scanned_bytes,
            ),
{
    let c = p.policy_spec().candidates;
    let x = ids(excluded@);
    let n = p.policy_spec().size.scanned_bytes;
    crate::coordinator::candidates::kept_candidates_are_filtered(c, filter, found@, x, n);
    if r is Err {
        assert forall|i: int| 0 <= i < found@.len() implies !crate::coordinator::candidates::keeps(
            c,
            filter,
            (#[trigger] found@[i]).candidate@,
            found@[i].facts,
            x,
            n,
        ) by {
            none_kept(c, filter, found@, x, n, i);
        }
    }
}

proof fn none_kept(
    c: CandidatePolicy,
    filter: CandidateFilter,
    found: Seq<Found>,
    x: Seq<Seq<char>>,
    n: u64,
    i: int,
)
    requires
        kept_seq(c, filter, found, x, n).len() == 0,
        0 <= i < found.len(),
    ensures
        !crate::coordinator::candidates::keeps(
            c,
            filter,
            found[i].candidate@,
            found[i].facts,
            x,
            n,
        ),
    decreases found.len(),
{
    if i < found.len() - 1 {
        assert(found.drop_last()[i] == found[i]);
        none_kept(c, filter, found.drop_last(), x, n, i);
    }
}

/// A selection holds the best of the eligible bidders, as many as are asked for where there
/// are as many, each once; and there is none with fewer than the quorum.
pub proof fn selections_hold_the_best(s: Scoring, scores: &[u64], r: Result<Selected, AttemptResult>)
    requires
        scores@.len() == s.eligible_spec().bidders@.len(),
        call_ensures(Scoring::select, (s, scores), r),
    ensures
        ({
            let p = s.pinned_spec().policy_spec().selection;
            let bidders = s.eligible_spec().bidders@;
            &&& r is Ok <==> p.replicas >= p.quorum && bidders.len() >= p.quorum
            &&& r is Ok ==> {
                let o = r->Ok_0.order_spec();
                &&& bidders.len() >= p.replicas ==> o.len() == p.replicas
                &&& bidders.len() < p.replicas ==> o.len() == bidders.len()
                &&& forall|i: int| 0 <= i < o.len() ==> #[trigger] o[i] < bidders.len()
                &&& forall|i: int, j: int|
                    0 <= i < j < o.len() ==> #[trigger] o[i] != #[trigger] o[j]
                        && scores@[o[i] as int] >= scores@[o[j] as int]
                &&& forall|i: int, b: usize|
                    0 <= i < o.len() && b < bidders.len() && !o.contains(b)
                        ==> scores@[#[trigger] o[i] as int] >= #[trigger] scores@[b as int]
            }
            &&& r is Err ==> r->Err_0@ is InsufficientWorkers
        }),
{
    let p = s.pinned_spec().policy_spec().selection;
    let bidders = s.eligible_spec().bidders@;
    let n = bidders.len() as int;
    let keys = rank_keys(p, bidders, scores@);
    if r is Ok {
        let have = min_int(p.replicas as int, n);
        let order = choose|order: Seq<usize>| #[trigger]
            is_stable_order(order, keys, n) && r->Ok_0.order_spec() == order.take(have);
        let o = r->Ok_0.order_spec();
        assert forall|i: int| 0 <= i < o.len() implies #[trigger] o[i] < n by {
            assert(o[i] == order[i]);
        }
        assert forall|i: int, j: int| 0 <= i < j < o.len() implies #[trigger] o[i] != #[trigger] o[j]
            && scores@[o[i] as int] >= scores@[o[j] as int] by {
            assert(o[i] == order[i] && o[j] == order[j]);
            assert(crate::ranking::comes_before(keys, order[i] as int, order[j] as int));
        }
        assert forall|i: int, b: usize|
            0 <= i < o.len() && b < n && !o.contains(b) implies scores@[#[trigger] o[i] as int]
            >= #[trigger] scores@[b as int] by {
            order_is_onto(order, keys, n, b);
            let j = choose|j: int| 0 <= j < order.len() && order[j] == b;
            if j < have {
                assert(o[j] == b);
            }
            assert(o[i] == order[i]);
            assert(i < j);
            assert(crate::ranking::comes_before(keys, order[i] as int, order[j] as int));
        }
    }
}

proof fn order_is_onto(order: Seq<usize>, keys: Seq<crate::ranking::Key>, n: int, b: usize)
    requires
        is_stable_order(order, keys, n),
        b < n,
    ensures
        exists|j: int| 0 <= j < order.len() && order[j] == b,
{
    let all = Seq::new(n as nat, |i: int| i);
    let idx = Seq::new(n as nat, |i: int| order[i] as int);
    assert(idx.no_duplicates()) by {
        assert forall|i: int, j: int| 0 <= i < j < n implies idx[i] != idx[j] by {
            assert(order[i] != order[j]) by {
                assert(crate::ranking::comes_before(keys, order[i] as int, order[j] as int));
            }
        }
    }
    let range = vstd::set_lib::set_int_range(0, n);
    vstd::set_lib::lemma_int_range(0, n);
    idx.unique_seq_to_set();
    assert(idx.to_set().subset_of(range)) by {
        assert forall|x: int| idx.to_set().contains(x) implies range.contains(x) by {
            let i = choose|i: int| 0 <= i < idx.len() && idx[i] == x;
            assert(order[i] < n);
        }
    }
    vstd::set_lib::lemma_subset_equality(idx.to_set(), range);
    assert(range.contains(b as int));
    assert(idx.to_set().contains(b as int));
    let j = choose|j: int| 0 <= j < idx.len() && idx[j] == b;
    assert(order[j] == b);
}

/// A job is dispatched unless the requester's ceiling was asked about and does not cover
/// it.
pub proof fn uncovered_jobs_are_not_dispatched(
    s: Selected,
    coverage: Result<(), String>,
    question: Option<EscrowQuestion>,
    r: Result<Dispatching, CoordinatorError>,
)
    requires
        call_ensures(Selected::question, (&s,), question),
        call_ensures(Selected::dispatch, (s, coverage), r),
    ensures
        r is Err <==> question is Some && coverage is Err,
        r is Err ==> r->Err_0@ == ErrorView::InsufficientEscrow(coverage->Err_0@),
{
}

/// A delivered job names its winner, the first of the ordered commits, with what was agreed
/// and by how many; one that was not delivered is repeated. Only on a verified and paid job
/// is anybody fined.
pub proof fn delivered_jobs_name_their_winner(
    t: Transferring,
    delivered: Option<ObservedSize>,
    r: Booked,
)
    requires
        call_ensures(Transferring::book, (t, delivered), r),
    ensures
        r.outcome is Ok <==> delivered is Some,
        r.outcome is Err ==> (r.outcome->Err_0@ matches AttemptView::Inconclusive { tried }
            && crate::coordinator::judge::lists_non_deliverers(tried, t.collection_spec())),
        r.outcome is Ok ==> {
            let o = r.outcome->Ok_0;
            &&& o.winner@ == t.ordered_spec()[0].worker@
            &&& o.winner_latency_ms == t.ordered_spec()[0].latency_ms
            &&& o.agreed_hash@ == t.agreed_spec()
            &&& o.agreement == t.collection_spec().outcome.agreement
            &&& o.quorum == t.collection_spec().outcome.quorum
            &&& o.verified == t.verified_spec()
            &&& o.participants@.len() == t.collection_spec().commits@.len()
            &&& !o.verified || !t.selected_spec().pinned_spec().policy_spec().paid ==> o.fined@.len()
                == 0
        },
{
    if r.outcome is Ok {
        let o = r.outcome->Ok_0;
        assert(ids(o.participants@).len() == o.participants@.len());
        assert(ids(o.fined@).len() == o.fined@.len());
    }
}

/// Whether a job was delivered or not, its books hold a receipt for every commit, and for
/// everybody else only where it was verified; the winner's latency comes first among those
/// that agree, and nobody else's agreement counts where there was nothing to verify.
pub proof fn every_job_is_booked(t: Transferring, delivered: Option<ObservedSize>, r: Booked)
    requires
        call_ensures(Transferring::book, (t, delivered), r),
    ensures
        r.accounting.receipts@.len() == t.ordered_spec().len() + (if t.verified_spec() {
            t.collection_spec().silent@.len() + t.collection_spec().failed@.len()
        } else {
            0
        }),
        r.accounting.agreeing_latencies@.len() == r.accounting.agreeing_non_winners@.len() + 1,
        r.accounting.agreeing_latencies@[0] == t.ordered_spec()[0].latency_ms,
        !t.verified_spec() ==> r.accounting.commitment_failers@.len() == 0,
{
    let k = choose|k: Conclusion| #[trigger]
        t.conclusion_spec(delivered, k) && books_of(
            k,
            t.ordered_spec(),
            t.collection_spec(),
            r.accounting,
        );
    assert(crate::coordinator::account::drafts(r.accounting.receipts@).len()
        == r.accounting.receipts@.len());
    assert(ids(r.accounting.agreeing_non_winners@).len()
        == r.accounting.agreeing_non_winners@.len());
    assert(ids(r.accounting.commitment_failers@).len() == r.accounting.commitment_failers@.len());
}

} // verus!
