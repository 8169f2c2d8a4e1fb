//! The verdict on one attempt: agree on a result, or say how the attempt ended.

use vstd::prelude::*;
use crate::coordinator::failure::{consensus_failure_detail, detail_spec, Failure};
use crate::coordinator::selection::Bidder;
use crate::math::{max_int, max_u64};
use crate::retry::{Consensus, FaultTally};
use crate::text::{decimal, decimal_seq};
use crate::types::{copy_ids, ids, NodeId, Verdict, VerifyMode};

verus! {

/// A provider that committed a result hash.
#[derive(Debug, Clone, PartialEq, Eq)]
pub struct Commit {
    pub worker: NodeId,
    pub hash: String,
    pub latency_ms: u64,
    /// The input fingerprint the provider reported (empty when it reported none).
    pub input_fingerprint: String,
}

/// How one (re)dispatch attempt ended without a usable result.
#[derive(Debug, Clone, PartialEq, Eq)]
pub enum AttemptResult {
    /// Too few providers delivered: re-dispatch, routing around `tried`.
    Inconclusive { tried: Vec<NodeId> },
    /// The query cannot succeed anywhere: stop.
    Infeasible { reason: String },
    /// The job was too big for the selected providers: re-route to bigger ones.
    ResourceExceeded { oomed: Vec<NodeId>, max_tried_capacity: u64, reason: String },
    /// Enough providers committed, but they disagree: stop.
    QuorumDisagreement { agreement: usize, quorum: usize },
    /// Providers read another input snapshot than the pinned one: re-pin and retry.
    InputDrift { reason: String },
    /// Nobody to dispatch to.
    NoCandidates,
    /// Too few bidders cleared selection.
    InsufficientWorkers { have: usize, quorum: usize },
}

/// `AttemptResult` over mathematical values.
#[verifier::ext_equal]
pub enum AttemptView {
    Inconclusive { tried: Seq<Seq<char>> },
    Infeasible { reason: Seq<char> },
    ResourceExceeded { oomed: Seq<Seq<char>>, max_tried_capacity: u64, reason: Seq<char> },
    QuorumDisagreement { agreement: usize, quorum: usize },
    InputDrift { reason: Seq<char> },
    NoCandidates,
    InsufficientWorkers { have: usize, quorum: usize },
}

impl View for AttemptResult {
    type V = AttemptView;

    open spec fn view(&self) -> AttemptView {
        match self {
            AttemptResult::Inconclusive { tried } => AttemptView::Inconclusive {
                tried: ids(tried@),
            },
            AttemptResult::Infeasible { reason } => AttemptView::Infeasible { reason: reason@ },
            AttemptResult::ResourceExceeded { oomed, max_tried_capacity, reason } =>
                AttemptView::ResourceExceeded {
                oomed: ids(oomed@),
                max_tried_capacity: *max_tried_capacity,
                reason: reason@,
            },
            AttemptResult::QuorumDisagreement { agreement, quorum } =>
                AttemptView::QuorumDisagreement { agreement: *agreement, quorum: *quorum },
            AttemptResult::InputDrift { reason } => AttemptView::InputDrift { reason: reason@ },
            AttemptResult::NoCandidates => AttemptView::NoCandidates,
            AttemptResult::InsufficientWorkers { have, quorum } =>
                AttemptView::InsufficientWorkers { have: *have, quorum: *quorum },
        }
    }
}

/// The quorum tally over the committed hashes, grouped by the input snapshot read.
#[derive(Debug, Clone, PartialEq, Eq)]
pub struct QuorumOutcome {
    /// Providers that read another, non-empty fingerprint than the pinned one.
    pub drifted: usize,
    pub agreed_hash: Option<String>,
    pub agreement: usize,
    pub quorum: usize,
    /// Two or more distinct hashes each reached the quorum.
    pub split: bool,
    /// The quorum was reached.
    pub reached: bool,
}

/// The configuration the verdict depends on.
#[derive(Debug, Clone, Copy, PartialEq, Eq, Structural)]
pub struct JudgePolicy {
    pub quorum: usize,
    pub verify_mode: VerifyMode,
    /// Whether failures are attributed to the job or to providers.
    pub fault_attribution: bool,
    /// Whether non-deterministic queries are exempt from verification.
    pub nondeterminism_active: bool,
}

/// Everything known once every selected provider has answered or gone silent.
#[derive(Debug, Clone, PartialEq, Eq)]
pub struct Collection {
    pub commits: Vec<Commit>,
    pub failed: Vec<Failure>,
    pub silent: Vec<NodeId>,
    /// The known answer, when this query is a canary.
    pub canary: Option<String>,
    pub outcome: QuorumOutcome,
    pub nondeterministic_sql: bool,
    pub consensus: Consensus,
}

impl Collection {
    /// Whether the result cannot be held against other providers' results: the job's
    /// inputs could not be pinned, or the query is not deterministic.
    pub open spec fn non_verifiable(&self, p: JudgePolicy, not_pinnable: bool) -> bool {
        not_pinnable || (p.nondeterminism_active && self.canary is None
            && self.nondeterministic_sql)
    }

    /// The providers to route around: those that failed, then those that were silent.
    pub open spec fn tried(&self) -> Seq<Seq<char>> {
        failed_nodes(self.failed@) + ids(self.silent@)
    }
}

/// The nodes that answered with a failure, in order.
pub open spec fn failed_nodes(failed: Seq<Failure>) -> Seq<Seq<char>> {
    failed.map_values(|f: Failure| f.node@)
}

/// The nodes that ran out of resources, in order.
pub open spec fn oomed_nodes(failed: Seq<Failure>) -> Seq<Seq<char>>
    decreases failed.len(),
{
    if failed.len() == 0 {
        Seq::empty()
    } else {
        let rest = oomed_nodes(failed.drop_last());
        if failed.last().verdict == Verdict::ResourceExceeded {
            rest.push(failed.last().node@)
        } else {
            rest
        }
    }
}

/// The free memory that `node` advertised in its bid (`0` when it made none).
pub open spec fn free_mem_of(bidders: Seq<Bidder>, node: Seq<char>) -> u64
    decreases bidders.len(),
{
    if bidders.len() == 0 {
        0
    } else if bidders.last().worker@ == node {
        bidders.last().bid.free_mem_bytes
    } else {
        free_mem_of(bidders.drop_last(), node)
    }
}

/// The largest advertised memory among the providers that ran out of resources.
pub open spec fn max_tried(bidders: Seq<Bidder>, failed: Seq<Failure>) -> int
    decreases failed.len(),
{
    if failed.len() == 0 {
        0
    } else {
        let rest = max_tried(bidders, failed.drop_last());
        if failed.last().verdict == Verdict::ResourceExceeded {
            max_int(rest, free_mem_of(bidders, failed.last().node@) as int)
        } else {
            rest
        }
    }
}

/// The tally of an attempt.
pub open spec fn tally_spec(selected: usize, c: Collection) -> FaultTally {
    FaultTally {
        selected,
        resource_exceeded: count_verdict(c.failed@, Verdict::ResourceExceeded) as usize,
        infeasible: count_verdict(c.failed@, Verdict::Infeasible) as usize,
        silent: (c.silent@.len() + c.failed@.len() - count_verdict(
            c.failed@,
            Verdict::ResourceExceeded,
        ) - count_verdict(c.failed@, Verdict::Infeasible)) as usize,
        committed: c.commits@.len() as usize,
    }
}

/// How many failures carry the verdict `v`.
pub open spec fn count_verdict(failed: Seq<Failure>, v: Verdict) -> nat
    decreases failed.len(),
{
    if failed.len() == 0 {
        0
    } else {
        count_verdict(failed.drop_last(), v) + (if failed.last().verdict == v {
            1nat
        } else {
            0nat
        })
    }
}

/// The position of the fastest commit (the earliest one among equals), of all
/// commits or of those that carry the hash `want`.
pub open spec fn fastest(commits: Seq<Commit>, want: Option<Seq<char>>) -> Option<int>
    decreases commits.len(),
{
    if commits.len() == 0 {
        None
    } else {
        let best = fastest(commits.drop_last(), want);
        let last = commits.last();
        if want is Some && last.hash@ != want->0 {
            best
        } else {
            match best {
                Some(i) => if last.latency_ms < commits[i].latency_ms {
                    Some(commits.len() - 1)
                } else {
                    Some(i)
                },
                None => Some(commits.len() - 1),
            }
        }
    }
}

/// The verdict over mathematical values.
#[verifier::ext_equal]
pub enum JudgementView {
    /// The attempt is over. `failure_receipts` says whether neutral receipts are
    /// issued to the providers that committed.
    End { result: AttemptView, failure_receipts: bool },
    /// The commit at `winner` delivers the result whose hash is `agreed`.
    Proceed { agreed: Seq<char>, verified: bool, non_verifiable: bool, winner: int },
}

/// The verdict on an attempt.
#[derive(Debug, Clone, PartialEq, Eq)]
pub enum Judgement {
    End { result: AttemptResult, failure_receipts: bool },
    Proceed { agreed: String, verified: bool, non_verifiable: bool, winner: usize },
}

impl View for Judgement {
    type V = JudgementView;

    open spec fn view(&self) -> JudgementView {
        match self {
            Judgement::End { result, failure_receipts } => JudgementView::End {
                result: result@,
                failure_receipts: *failure_receipts,
            },
            Judgement::Proceed { agreed, verified, non_verifiable, winner } =>
                JudgementView::Proceed {
                agreed: agreed@,
                verified: *verified,
                non_verifiable: *non_verifiable,
                winner: *winner as int,
            },
        }
    }
}

pub open spec fn drift_text(drifted: nat, committed: nat) -> Seq<char> {
    decimal_seq(drifted) + " of "@ + decimal_seq(committed)
        + " committed provider(s) read a different input snapshot than pinned (source data changed between executions)"@
}

/// A consensus reason with the providers' own words behind it, where there are any.
pub open spec fn reason_with_detail(reason: Seq<char>, failed: Seq<Failure>) -> Seq<char> {
    match detail_spec(failed) {
        Some(d) => reason + ": "@ + d,
        None => reason,
    }
}

/// What the attempt agrees on before a winner is looked for: how it ended, or the
/// agreed hash (if any) and whether it counts as verified.
pub open spec fn agreement_spec(
    p: JudgePolicy,
    bidders: Seq<Bidder>,
    selected: usize,
    not_pinnable: bool,
    c: Collection,
) -> Result<(Option<Seq<char>>, bool), JudgementView> {
    let inconclusive = JudgementView::End {
        result: AttemptView::Inconclusive { tried: c.tried() },
        failure_receipts: false,
    };
    let disagreement = JudgementView::End {
        result: AttemptView::QuorumDisagreement {
            agreement: c.outcome.agreement,
            quorum: c.outcome.quorum,
        },
        failure_receipts: true,
    };
    let fastest_hash = match fastest(c.commits@, None) {
        Some(i) => Some(c.commits@[i].hash@),
        None => None,
    };
    let tally = tally_spec(selected, c);
    if c.canary is Some {
        Ok((Some(c.canary->0@), true))
    } else if c.non_verifiable(p, not_pinnable) {
        if c.commits@.len() == 0 {
            Err(inconclusive)
        } else {
            Ok((fastest_hash, false))
        }
    } else if p.verify_mode == VerifyMode::Quorum {
        if c.outcome.split {
            Err(disagreement)
        } else if c.outcome.reached {
            Ok((crate::types::opt_str(c.outcome.agreed_hash), true))
        } else if p.fault_attribution && c.consensus.infeasible {
            Err(
                JudgementView::End {
                    result: AttemptView::Infeasible {
                        reason: reason_with_detail(tally.reason_spec(c.consensus)->0, c.failed@),
                    },
                    failure_receipts: true,
                },
            )
        } else if p.fault_attribution && c.consensus.resource_exceeded {
            Err(
                JudgementView::End {
                    result: AttemptView::ResourceExceeded {
                        oomed: oomed_nodes(c.failed@),
                        max_tried_capacity: max_tried(bidders, c.failed@) as u64,
                        reason: reason_with_detail(tally.reason_spec(c.consensus)->0, c.failed@),
                    },
                    failure_receipts: true,
                },
            )
        } else if c.commits@.len() >= p.quorum {
            Err(disagreement)
        } else {
            Err(inconclusive)
        }
    } else if c.commits@.len() == 0 {
        Err(inconclusive)
    } else {
        Ok((fastest_hash, c.outcome.reached))
    }
}

/// The verdict on an attempt.
pub open spec fn judge_spec(
    p: JudgePolicy,
    bidders: Seq<Bidder>,
    selected: usize,
    not_pinnable: bool,
    c: Collection,
) -> JudgementView {
    if c.canary is None && c.outcome.drifted > 0 {
        JudgementView::End {
            result: AttemptView::InputDrift {
                reason: drift_text(c.outcome.drifted as nat, c.commits@.len()),
            },
            failure_receipts: true,
        }
    } else {
        match agreement_spec(p, bidders, selected, not_pinnable, c) {
            Err(end) => end,
            Ok((agreed, verified)) => match agreed {
                None => JudgementView::End {
                    result: AttemptView::Inconclusive { tried: c.tried() },
                    failure_receipts: false,
                },
                Some(h) => match fastest(c.commits@, Some(h)) {
                    None => JudgementView::End {
                        result: AttemptView::Inconclusive { tried: c.tried() },
                        failure_receipts: true,
                    },
                    Some(i) => JudgementView::Proceed {
                        agreed: h,
                        verified,
                        non_verifiable: c.non_verifiable(p, not_pinnable),
                        winner: i,
                    },
                },
            },
        }
    }
}

proof fn fastest_in_range(commits: Seq<Commit>, want: Option<Seq<char>>)
    ensures
        fastest(commits, want) is Some ==> 0 <= fastest(commits, want)->0 < commits.len(),
    decreases commits.len(),
{
    if commits.len() > 0 {
        fastest_in_range(commits.drop_last(), want);
    }
}

fn find_fastest(commits: &[Commit], want: Option<&String>) -> (r: Option<usize>)
    ensures
        match r {
            Some(i) => fastest(
                commits@,
                match want {
                    Some(w) => Some(w@),
                    None => None,
                },
            ) == Some(i as int) && i < commits@.len(),
            None => fastest(
                commits@,
                match want {
                    Some(w) => Some(w@),
                    None => None,
                },
            ) is None,
        },
{
    let ghost w: Option<Seq<char>> = match want {
        Some(t) => Some(t@),
        None => None,
    };
    let mut best: Option<usize> = None;
    let mut i: usize = 0;
    while i < commits.len()
        invariant
            i <= commits@.len(),
            w == (match want {
                Some(t) => Some(t@),
                None => None::<Seq<char>>,
            }),
            match best {
                Some(b) => fastest(commits@.take(i as int), w) == Some(b as int) && b < i,
                None => fastest(commits@.take(i as int), w) is None,
            },
        decreases commits@.len() - i,
    {
        proof {
            let next = commits@.take(i + 1);
            assert(next.drop_last() =~= commits@.take(i as int));
            assert(next.last() == commits@[i as int]);
        }
        let matches_want = match want {
            Some(t) => commits[i].hash == *t,
            None => true,
        };
        if matches_want {
            best = match best {
                Some(b) => if commits[i].latency_ms < commits[b].latency_ms {
                    Some(i)
                } else {
                    Some(b)
                },
                None => Some(i),
            };
        }
        i = i + 1;
    }
    assert(commits@.take(i as int) =~= commits@);
    best
}

/// The winner is the fastest provider whose hash is the agreed one: nobody that
/// carries it is faster, and an equally fast one comes later.
pub proof fn winner_is_fastest_agreeing(commits: Seq<Commit>, h: Seq<char>, j: int)
    requires
        fastest(commits, Some(h)) is Some,
        0 <= j < commits.len(),
        commits[j].hash@ == h,
    ensures
        ({
            let w = fastest(commits, Some(h))->0;
            &&& 0 <= w < commits.len()
            &&& commits[w].hash@ == h
            &&& commits[w].latency_ms <= commits[j].latency_ms
            &&& commits[w].latency_ms == commits[j].latency_ms ==> w <= j
        }),
    decreases commits.len(),
{
    fastest_in_range(commits, Some(h));
    fastest_in_range(commits.drop_last(), Some(h));
    let prefix = commits.drop_last();
    if j < prefix.len() {
        assert(prefix[j] == commits[j]);
        fastest_exists(prefix, h, j);
        winner_is_fastest_agreeing(prefix, h, j);
    } else if fastest(prefix, Some(h)) is Some {
        let b = fastest(prefix, Some(h))->0;
        fastest_carries(prefix, h);
    }
}

proof fn fastest_exists(commits: Seq<Commit>, h: Seq<char>, j: int)
    requires
        0 <= j < commits.len(),
        commits[j].hash@ == h,
    ensures
        fastest(commits, Some(h)) is Some,
    decreases commits.len(),
{
    if j < commits.len() - 1 {
        assert(commits.drop_last()[j] == commits[j]);
        fastest_exists(commits.drop_last(), h, j);
    }
}

proof fn fastest_carries(commits: Seq<Commit>, h: Seq<char>)
    requires
        fastest(commits, Some(h)) is Some,
    ensures
        commits[fastest(commits, Some(h))->0].hash@ == h,
    decreases commits.len(),
{
    if commits.len() > 0 {
        fastest_in_range(commits.drop_last(), Some(h));
        if fastest(commits.drop_last(), Some(h)) is Some {
            fastest_carries(commits.drop_last(), h);
        }
    }
}

pub(crate) fn tried_nodes(c: &Collection) -> (r: Vec<NodeId>)
    ensures
        ids(r@) == c.tried(),
{
    let mut r: Vec<NodeId> = Vec::new();
    let mut i: usize = 0;
    while i < c.failed.len()
        invariant
            i <= c.failed@.len(),
            ids(r@) == failed_nodes(c.failed@.take(i as int)),
        decreases c.failed@.len() - i,
    {
        let ghost before = r@;
        r.push(c.failed[i].node.duplicate());
        proof {
            assert(ids(r@) =~= ids(before).push(c.failed@[i as int].node@));
            assert(failed_nodes(c.failed@.take(i + 1)) =~= failed_nodes(c.failed@.take(i as int)).push(
                c.failed@[i as int].node@,
            ));
        }
        i = i + 1;
    }
    assert(c.failed@.take(i as int) =~= c.failed@);
    let ghost first = r@;
    let mut silent = copy_ids(&c.silent);
    r.append(&mut silent);
    assert(ids(r@) =~= ids(first) + ids(c.silent@));
    r
}

fn oomed(bidders: &[Bidder], failed: &[Failure]) -> (r: (Vec<NodeId>, u64))
    ensures
        ids(r.0@) == oomed_nodes(failed@),
        r.1 == max_tried(bidders@, failed@),
{
    let mut nodes: Vec<NodeId> = Vec::new();
    let mut most: u64 = 0;
    let mut i: usize = 0;
    assert(ids(nodes@) =~= Seq::<Seq<char>>::empty());
    while i < failed.len()
        invariant
            i <= failed@.len(),
            ids(nodes@) == oomed_nodes(failed@.take(i as int)),
            most == max_tried(bidders@, failed@.take(i as int)),
        decreases failed@.len() - i,
    {
        proof {
            let next = failed@.take(i + 1);
            assert(next.drop_last() =~= failed@.take(i as int));
            assert(next.last() == failed@[i as int]);
        }
        if failed[i].verdict == Verdict::ResourceExceeded {
            let ghost before = nodes@;
            nodes.push(failed[i].node.duplicate());
            assert(ids(nodes@) =~= ids(before).push(failed@[i as int].node@));
            most = max_u64(most, advertised_memory(bidders, &failed[i].node));
        }
        i = i + 1;
    }
    assert(failed@.take(i as int) =~= failed@);
    (nodes, most)
}

fn advertised_memory(bidders: &[Bidder], node: &NodeId) -> (r: u64)
    ensures
        r == free_mem_of(bidders@, node@),
{
    let mut n: usize = bidders.len();
    assert(bidders@.take(n as int) =~= bidders@);
    while n > 0
        invariant
            n <= bidders@.len(),
            free_mem_of(bidders@.take(n as int), node@) == free_mem_of(bidders@, node@),
        decreases n,
    {
        proof {
            let here = bidders@.take(n as int);
            assert(here.last() == bidders@[n - 1]);
            assert(here.drop_last() =~= bidders@.take(n - 1));
        }
        if bidders[n - 1].worker.same(node) {
            return bidders[n - 1].bid.free_mem_bytes;
        }
        n = n - 1;
    }
    0
}

proof fn count_bound(failed: Seq<Failure>)
    ensures
        count_verdict(failed, Verdict::ResourceExceeded) + count_verdict(
            failed,
            Verdict::Infeasible,
        ) <= failed.len(),
    decreases failed.len(),
{
    if failed.len() > 0 {
        count_bound(failed.drop_last());
    }
}

/// How the selected providers fared, counted by class.
pub fn tally(selected: usize, c: &Collection) -> (r: FaultTally)
    requires
        c.silent@.len() + c.failed@.len() <= usize::MAX,
    ensures
        r == tally_spec(selected, *c),
{
    let mut t = FaultTally::new(selected);
    let mut i: usize = 0;
    while i < c.commits.len()
        invariant
            i <= c.commits@.len(),
            t == (FaultTally { committed: i, ..FaultTally {
                selected,
                resource_exceeded: 0,
                infeasible: 0,
                silent: 0,
                committed: 0,
            } }),
        decreases c.commits@.len() - i,
    {
        t.record_committed();
        i = i + 1;
    }
    let ghost committed = i;
    let mut k: usize = 0;
    proof {
        count_bound(c.failed@.take(0));
    }
    while k < c.failed.len()
        invariant
            k <= c.failed@.len(),
            c.silent@.len() + c.failed@.len() <= usize::MAX,
            t.selected == selected,
            t.committed == committed,
            t.resource_exceeded == count_verdict(
                c.failed@.take(k as int),
                Verdict::ResourceExceeded,
            ),
            t.infeasible == count_verdict(c.failed@.take(k as int), Verdict::Infeasible),
            t.silent == k - t.resource_exceeded - t.infeasible,
        decreases c.failed@.len() - k,
    {
        proof {
            let next = c.failed@.take(k + 1);
            assert(next.drop_last() =~= c.failed@.take(k as int));
            assert(next.last() == c.failed@[k as int]);
            count_bound(c.failed@.take(k as int));
        }
        t.record(c.failed[k].verdict);
        k = k + 1;
    }
    assert(c.failed@.take(k as int) =~= c.failed@);
    let ghost before = t;
    let mut s: usize = 0;
    while s < c.silent.len()
        invariant
            s <= c.silent@.len(),
            c.silent@.len() + c.failed@.len() <= usize::MAX,
            before.silent <= c.failed@.len(),
            t == (FaultTally { silent: (before.silent + s) as usize, ..before }),
        decreases c.silent@.len() - s,
    {
        t.record_silent();
        s = s + 1;
    }
    t
}

fn full_reason(t: &FaultTally, rule: Consensus, failed: &[Failure]) -> (r: String)
    requires
        rule.infeasible || rule.resource_exceeded,
    ensures
        r@ == reason_with_detail(t.reason_spec(rule)->0, failed@),
{
    let mut reason = match t.consensus_reason(rule) {
        Some(s) => s,
        None => String::new(),
    };
    if let Some(d) = consensus_failure_detail(failed) {
        reason.append(": ");
        reason.append(d.as_str());
    }
    reason
}

fn inconclusive(c: &Collection, failure_receipts: bool) -> (r: Judgement)
    ensures
        r@ == (JudgementView::End {
            result: AttemptView::Inconclusive { tried: c.tried() },
            failure_receipts,
        }),
{
    Judgement::End {
        result: AttemptResult::Inconclusive { tried: tried_nodes(c) },
        failure_receipts,
    }
}

/// Judge one attempt once every selected provider has answered or gone silent.
pub fn judge(
    p: &JudgePolicy,
    bidders: &[Bidder],
    selected: usize,
    not_pinnable: bool,
    c: &Collection,
) -> (r: Judgement)
    requires
        c.silent@.len() + c.failed@.len() <= usize::MAX,
    ensures
        r@ == judge_spec(*p, bidders@, selected, not_pinnable, *c),
{
    if c.canary.is_none() && c.outcome.drifted > 0 {
        let mut reason = decimal(c.outcome.drifted as u64);
        reason.append(" of ");
        reason.append(decimal(c.commits.len() as u64).as_str());
        reason.append(
            " committed provider(s) read a different input snapshot than pinned (source data changed between executions)",
        );
        return Judgement::End {
            result: AttemptResult::InputDrift { reason },
            failure_receipts: true,
        };
    }
    let non_verifiable = not_pinnable || (p.nondeterminism_active && c.canary.is_none()
        && c.nondeterministic_sql);
    let disagreement = AttemptResult::QuorumDisagreement {
        agreement: c.outcome.agreement,
        quorum: c.outcome.quorum,
    };
    let quorum_mode = match p.verify_mode {
        VerifyMode::Quorum => true,
        VerifyMode::Fast => false,
    };
    let agreed: Option<String>;
    let verified: bool;
    if let Some(expected) = &c.canary {
        agreed = Some(expected.clone());
        verified = true;
    } else if non_verifiable || !quorum_mode {
        match find_fastest(&c.commits, None) {
            Some(i) => {
                agreed = Some(c.commits[i].hash.clone());
            },
            None => {
                assert(c.commits@.len() == 0);
                return inconclusive(c, false);
            },
        }
        verified = !non_verifiable && c.outcome.reached;
        proof {
            if c.commits@.len() == 0 {
                assert(fastest(c.commits@, None) is None);
            }
        }
    } else if c.outcome.split {
        return Judgement::End { result: disagreement, failure_receipts: true };
    } else if c.outcome.reached {
        agreed = crate::types::copy_opt_str(&c.outcome.agreed_hash);
        verified = true;
    } else if p.fault_attribution && c.consensus.infeasible {
        let t = tally(selected, c);
        return Judgement::End {
            result: AttemptResult::Infeasible { reason: full_reason(&t, c.consensus, &c.failed) },
            failure_receipts: true,
        };
    } else if p.fault_attribution && c.consensus.resource_exceeded {
        let t = tally(selected, c);
        let (nodes, most) = oomed(bidders, &c.failed);
        return Judgement::End {
            result: AttemptResult::ResourceExceeded {
                oomed: nodes,
                max_tried_capacity: most,
                reason: full_reason(&t, c.consensus, &c.failed),
            },
            failure_receipts: true,
        };
    } else if c.commits.len() >= p.quorum {
        return Judgement::End { result: disagreement, failure_receipts: true };
    } else {
        return inconclusive(c, false);
    }
    match agreed {
        None => inconclusive(c, false),
        Some(h) => match find_fastest(&c.commits, Some(&h)) {
            None => inconclusive(c, true),
            Some(i) => Judgement::Proceed {
                agreed: h,
                verified,
                non_verifiable,
                winner: i,
            },
        },
    }
}

/// A verdict to proceed names one of the commits, and it carries the agreed hash.
pub proof fn proceed_names_a_commit(
    p: JudgePolicy,
    bidders: Seq<Bidder>,
    selected: usize,
    not_pinnable: bool,
    c: Collection,
)
    ensures
        judge_spec(p, bidders, selected, not_pinnable, c) matches JudgementView::Proceed {
            agreed,
            verified,
            non_verifiable,
            winner,
        } ==> 0 <= winner < c.commits@.len() && c.commits@[winner].hash@ == agreed,
{
    if let JudgementView::Proceed { agreed, verified, non_verifiable, winner } = judge_spec(
        p,
        bidders,
        selected,
        not_pinnable,
        c,
    ) {
        fastest_in_range(c.commits@, Some(agreed));
        fastest_carries(c.commits@, agreed);
    }
}

/// Only failed and silent providers are routed around: a provider that committed
/// stays eligible for the next attempt.
pub proof fn inconclusive_excludes_only_non_deliverers(
    p: JudgePolicy,
    bidders: Seq<Bidder>,
    selected: usize,
    not_pinnable: bool,
    c: Collection,
)
    ensures
        judge_spec(p, bidders, selected, not_pinnable, c) matches JudgementView::End {
            result: AttemptView::Inconclusive { tried },
            failure_receipts,
        } ==> tried == failed_nodes(c.failed@) + ids(c.silent@),
{
}

/// Input drift is never turned into blame: with no canary, a drifted provider
/// ends the attempt in a re-pin, whatever else was collected.
pub proof fn drift_is_benign(
    p: JudgePolicy,
    bidders: Seq<Bidder>,
    selected: usize,
    not_pinnable: bool,
    c: Collection,
)
    requires
        c.canary is None,
        c.outcome.drifted > 0,
    ensures
        judge_spec(p, bidders, selected, not_pinnable, c) == (JudgementView::End {
            result: AttemptView::InputDrift {
                reason: drift_text(c.outcome.drifted as nat, c.commits@.len()),
            },
            failure_receipts: true,
        }),
{
}

/// A split quorum never yields a winner.
pub proof fn split_quorum_has_no_winner(
    p: JudgePolicy,
    bidders: Seq<Bidder>,
    selected: usize,
    not_pinnable: bool,
    c: Collection,
)
    requires
        p.verify_mode == VerifyMode::Quorum,
        c.canary is None,
        !c.non_verifiable(p, not_pinnable),
        c.outcome.split,
    ensures
        judge_spec(p, bidders, selected, not_pinnable, c) is End,
{
}

/// In quorum mode a result counts as verified only if the quorum was reached, or
/// a canary's known answer decided.
pub proof fn verified_means_quorum_or_canary(
    p: JudgePolicy,
    bidders: Seq<Bidder>,
    selected: usize,
    not_pinnable: bool,
    c: Collection,
)
    ensures
        judge_spec(p, bidders, selected, not_pinnable, c) matches JudgementView::Proceed {
            agreed,
            verified,
            non_verifiable,
            winner,
        } ==> verified ==> c.canary is Some || c.outcome.reached,
{
}

/// Whether the commit at `w` is the fastest of those that carry the hash `h`, the
/// earliest one among equals.
pub open spec fn first_fastest(commits: Seq<Commit>, h: Seq<char>, w: int) -> bool {
    &&& 0 <= w < commits.len()
    &&& commits[w].hash@ == h
    &&& forall|i: int|
        0 <= i < commits.len() && (#[trigger] commits[i]).hash@ == h ==> commits[w].latency_ms
            < commits[i].latency_ms || (commits[w].latency_ms == commits[i].latency_ms && w <= i)
}

/// Whether `tried` lists every provider that failed, then every one that was silent.
pub open spec fn lists_non_deliverers(tried: Seq<Seq<char>>, c: Collection) -> bool {
    &&& tried.len() == c.failed@.len() + c.silent@.len()
    &&& forall|i: int| 0 <= i < c.failed@.len() ==> #[trigger] tried[i] == c.failed@[i].node@
    &&& forall|i: int|
        0 <= i < c.silent@.len() ==> #[trigger] tried[c.failed@.len() + i] == c.silent@[i]@
}

proof fn tried_lists(c: Collection)
    ensures
        lists_non_deliverers(c.tried(), c),
{
}

proof fn fastest_is_first(commits: Seq<Commit>, h: Seq<char>)
    ensures
        fastest(commits, Some(h)) is Some ==> first_fastest(commits, h, fastest(commits, Some(h))->0),
        fastest(commits, Some(h)) is None ==> forall|i: int|
            0 <= i < commits.len() ==> (#[trigger] commits[i]).hash@ != h,
{
    if fastest(commits, Some(h)) is Some {
        fastest_in_range(commits, Some(h));
        fastest_carries(commits, h);
        assert forall|i: int|
            0 <= i < commits.len() && (#[trigger] commits[i]).hash@ == h implies ({
            let w = fastest(commits, Some(h))->0;
            commits[w].latency_ms < commits[i].latency_ms || (commits[w].latency_ms
                == commits[i].latency_ms && w <= i)
        }) by {
            winner_is_fastest_agreeing(commits, h, i);
        }
    } else {
        assert forall|i: int| 0 <= i < commits.len() implies (#[trigger] commits[i]).hash@ != h by {
            if commits[i].hash@ == h {
                fastest_exists(commits, h, i);
            }
        }
    }
}

proof fn fastest_of_all(commits: Seq<Commit>)
    ensures
        fastest(commits, None) is Some <==> commits.len() > 0,
        commits.len() > 0 ==> ({
            let w = fastest(commits, None)->0;
            &&& 0 <= w < commits.len()
            &&& forall|i: int|
                0 <= i < commits.len() ==> commits[w].latency_ms < (#[trigger] commits[i]).latency_ms
                    || (commits[w].latency_ms == commits[i].latency_ms && w <= i)
        }),
    decreases commits.len(),
{
    if commits.len() > 0 {
        let rest = commits.drop_last();
        fastest_of_all(rest);
        if rest.len() > 0 {
            let b = fastest(rest, None)->0;
            assert(rest[b] == commits[b]);
            assert forall|i: int| 0 <= i < commits.len() implies ({
                let w = fastest(commits, None)->0;
                commits[w].latency_ms < (#[trigger] commits[i]).latency_ms || (commits[w].latency_ms
                    == commits[i].latency_ms && w <= i)
            }) by {
                if i < rest.len() {
                    assert(rest[i] == commits[i]);
                }
            }
        }
    }
}

proof fn fastest_hash_wins(commits: Seq<Commit>)
    requires
        commits.len() > 0,
    ensures
        ({
            let w = fastest(commits, None)->0;
            fastest(commits, Some(commits[w].hash@)) == Some(w)
        }),
{
    fastest_of_all(commits);
    let w = fastest(commits, None)->0;
    let h = commits[w].hash@;
    fastest_exists(commits, h, w);
    fastest_is_first(commits, h);
    let v = fastest(commits, Some(h))->0;
    assert(commits[v].hash@ == h);
    assert(commits[w].hash@ == h);
}

/// A canary is judged by its known answer alone: the fastest provider that gave it wins,
/// and if nobody gave it the attempt is repeated without those that delivered nothing.
pub proof fn canaries_are_judged_by_their_answer(
    p: JudgePolicy,
    bidders: Seq<Bidder>,
    selected: usize,
    not_pinnable: bool,
    c: Collection,
)
    requires
        c.canary is Some,
    ensures
        match judge_spec(p, bidders, selected, not_pinnable, c) {
            JudgementView::Proceed { agreed, verified, non_verifiable, winner } => {
                &&& agreed == c.canary->0@
                &&& verified
                &&& non_verifiable == not_pinnable
                &&& first_fastest(c.commits@, c.canary->0@, winner)
            },
            JudgementView::End { result, failure_receipts } => {
                &&& forall|i: int|
                    0 <= i < c.commits@.len() ==> (#[trigger] c.commits@[i]).hash@ != c.canary->0@
                &&& result matches AttemptView::Inconclusive { tried } && lists_non_deliverers(tried, c)
                &&& failure_receipts
            },
        },
{
    fastest_is_first(c.commits@, c.canary->0@);
    tried_lists(c);
}

/// Without a canary, a provider that read other inputs than were pinned ends the attempt
/// in a re-pin.
pub proof fn drift_ends_in_a_re_pin(
    p: JudgePolicy,
    bidders: Seq<Bidder>,
    selected: usize,
    not_pinnable: bool,
    c: Collection,
)
    requires
        c.canary is None,
    ensures
        (c.outcome.drifted > 0) <==> (judge_spec(
            p,
            bidders,
            selected,
            not_pinnable,
            c,
        ) matches JudgementView::End { result: AttemptView::InputDrift { reason }, failure_receipts }),
        judge_spec(p, bidders, selected, not_pinnable, c) matches JudgementView::End {
            result: AttemptView::InputDrift { reason },
            failure_receipts,
        } ==> failure_receipts && reason == decimal_seq(c.outcome.drifted as nat) + " of "@
            + decimal_seq(c.commits@.len())
            + " committed provider(s) read a different input snapshot than pinned (source data changed between executions)"@,
{
}

/// A result that cannot be verified is taken from the fastest provider and never counts
/// as verified: neither where the inputs could not be pinned, nor where the query is not
/// deterministic and such queries are exempt.
pub proof fn unverifiable_results_are_the_fastest(
    p: JudgePolicy,
    bidders: Seq<Bidder>,
    selected: usize,
    not_pinnable: bool,
    c: Collection,
)
    requires
        c.canary is None,
        c.outcome.drifted == 0,
        not_pinnable || (p.nondeterminism_active && c.nondeterministic_sql),
    ensures
        match judge_spec(p, bidders, selected, not_pinnable, c) {
            JudgementView::Proceed { agreed, verified, non_verifiable, winner } => {
                &&& 0 <= winner < c.commits@.len()
                &&& agreed == c.commits@[winner].hash@
                &&& !verified
                &&& non_verifiable
                &&& forall|i: int|
                    0 <= i < c.commits@.len() ==> c.commits@[winner].latency_ms < (
                    #[trigger] c.commits@[i]).latency_ms || (c.commits@[winner].latency_ms
                        == c.commits@[i].latency_ms && winner <= i)
            },
            JudgementView::End { result, failure_receipts } => {
                &&& c.commits@.len() == 0
                &&& result matches AttemptView::Inconclusive { tried } && lists_non_deliverers(tried, c)
                &&& !failure_receipts
            },
        },
{
    fastest_of_all(c.commits@);
    tried_lists(c);
    if c.commits@.len() > 0 {
        fastest_hash_wins(c.commits@);
    }
}

/// In fast mode the fastest provider wins, and its result counts as verified where the
/// quorum happened to be reached.
pub proof fn fast_mode_takes_the_fastest(
    p: JudgePolicy,
    bidders: Seq<Bidder>,
    selected: usize,
    not_pinnable: bool,
    c: Collection,
)
    requires
        c.canary is None,
        c.outcome.drifted == 0,
        !not_pinnable,
        !p.nondeterminism_active || !c.nondeterministic_sql,
        p.verify_mode == VerifyMode::Fast,
    ensures
        match judge_spec(p, bidders, selected, not_pinnable, c) {
            JudgementView::Proceed { agreed, verified, non_verifiable, winner } => {
                &&& 0 <= winner < c.commits@.len()
                &&& agreed == c.commits@[winner].hash@
                &&& verified == c.outcome.reached
                &&& !non_verifiable
                &&& forall|i: int|
                    0 <= i < c.commits@.len() ==> c.commits@[winner].latency_ms < (
                    #[trigger] c.commits@[i]).latency_ms || (c.commits@[winner].latency_ms
                        == c.commits@[i].latency_ms && winner <= i)
            },
            JudgementView::End { result, failure_receipts } => {
                &&& c.commits@.len() == 0
                &&& result matches AttemptView::Inconclusive { tried } && lists_non_deliverers(tried, c)
                &&& !failure_receipts
            },
        },
{
    fastest_of_all(c.commits@);
    tried_lists(c);
    if c.commits@.len() > 0 {
        fastest_hash_wins(c.commits@);
    }
}

/// In quorum mode a reached quorum proceeds, verified, with the fastest provider of the
/// agreed hash; a split one is a disagreement.
pub proof fn a_reached_quorum_proceeds(
    p: JudgePolicy,
    bidders: Seq<Bidder>,
    selected: usize,
    not_pinnable: bool,
    c: Collection,
)
    requires
        c.canary is None,
        c.outcome.drifted == 0,
        !not_pinnable,
        !p.nondeterminism_active || !c.nondeterministic_sql,
        p.verify_mode == VerifyMode::Quorum,
        c.outcome.split || c.outcome.reached,
    ensures
        match judge_spec(p, bidders, selected, not_pinnable, c) {
            JudgementView::Proceed { agreed, verified, non_verifiable, winner } => {
                &&& !c.outcome.split
                &&& c.outcome.agreed_hash is Some
                &&& agreed == c.outcome.agreed_hash->0@
                &&& verified
                &&& !non_verifiable
                &&& first_fastest(c.commits@, agreed, winner)
            },
            JudgementView::End { result, failure_receipts } => if c.outcome.split {
                &&& result == AttemptView::QuorumDisagreement {
                    agreement: c.outcome.agreement,
                    quorum: c.outcome.quorum,
                }
                &&& failure_receipts
            } else {
                &&& result matches AttemptView::Inconclusive { tried } && lists_non_deliverers(tried, c)
                &&& failure_receipts == c.outcome.agreed_hash is Some
                &&& c.outcome.agreed_hash is Some ==> forall|i: int|
                    0 <= i < c.commits@.len() ==> (#[trigger] c.commits@[i]).hash@
                        != c.outcome.agreed_hash->0@
            },
        },
{
    tried_lists(c);
    if c.outcome.agreed_hash is Some {
        fastest_is_first(c.commits@, c.outcome.agreed_hash->0@);
    }
}

/// In quorum mode a quorum that was not reached ends the attempt: in a fault of the job
/// where a consensus of the providers failed alike, in a disagreement where enough of
/// them committed, and inconclusively only where too few did.
pub proof fn a_missed_quorum_ends_the_attempt(
    p: JudgePolicy,
    bidders: Seq<Bidder>,
    selected: usize,
    not_pinnable: bool,
    c: Collection,
)
    requires
        c.canary is None,
        c.outcome.drifted == 0,
        !not_pinnable,
        !p.nondeterminism_active || !c.nondeterministic_sql,
        p.verify_mode == VerifyMode::Quorum,
        !c.outcome.split,
        !c.outcome.reached,
    ensures
        match judge_spec(p, bidders, selected, not_pinnable, c) {
            JudgementView::Proceed { agreed, verified, non_verifiable, winner } => false,
            JudgementView::End { result, failure_receipts } => match result {
                AttemptView::Infeasible { reason } => {
                    &&& p.fault_attribution && c.consensus.infeasible
                    &&& failure_receipts
                },
                AttemptView::ResourceExceeded { oomed, max_tried_capacity, reason } => {
                    &&& p.fault_attribution && c.consensus.resource_exceeded
                    &&& !c.consensus.infeasible
                    &&& failure_receipts
                },
                AttemptView::QuorumDisagreement { agreement, quorum } => {
                    &&& !p.fault_attribution || !(c.consensus.infeasible
                        || c.consensus.resource_exceeded)
                    &&& c.commits@.len() >= p.quorum
                    &&& agreement == c.outcome.agreement
                    &&& quorum == c.outcome.quorum
                    &&& failure_receipts
                },
                AttemptView::Inconclusive { tried } => {
                    &&& !p.fault_attribution || !(c.consensus.infeasible
                        || c.consensus.resource_exceeded)
                    &&& c.commits@.len() < p.quorum
                    &&& lists_non_deliverers(tried, c)
                    &&& !failure_receipts
                },
                _ => false,
            },
        },
{
    tried_lists(c);
}

proof fn oomed_are_filtered(failed: Seq<Failure>)
    ensures
        oomed_nodes(failed) == failed.filter(|f: Failure| f.verdict == Verdict::ResourceExceeded).map_values(
            |f: Failure| f.node@,
        ),
    decreases failed.len(),
{
    reveal(Seq::filter);
    let out = |f: Failure| f.verdict == Verdict::ResourceExceeded;
    let node = |f: Failure| f.node@;
    if failed.len() == 0 {
        assert(failed.filter(out).map_values(node) =~= Seq::empty());
    } else {
        oomed_are_filtered(failed.drop_last());
        let rest = failed.drop_last().filter(out);
        assert(rest.push(failed.last()).map_values(node) =~= rest.map_values(node).push(
            failed.last().node@,
        ));
    }
}

/// The capacity that is not enough: no provider that ran out of resources advertised
/// more, and one of them advertised it.
pub proof fn tried_capacity_is_the_largest(bidders: Seq<Bidder>, failed: Seq<Failure>, i: int)
    requires
        0 <= i < failed.len(),
        failed[i].verdict == Verdict::ResourceExceeded,
    ensures
        max_tried(bidders, failed) >= free_mem_of(bidders, failed[i].node@),
        exists|k: int|
            0 <= k < failed.len() && (#[trigger] failed[k]).verdict == Verdict::ResourceExceeded
                && max_tried(bidders, failed) == free_mem_of(bidders, failed[k].node@),
    decreases failed.len(),
{
    let rest = failed.drop_last();
    let last = failed.len() - 1;
    if i < last {
        assert(rest[i] == failed[i]);
        tried_capacity_is_the_largest(bidders, rest, i);
        let k = choose|k: int|
            0 <= k < rest.len() && (#[trigger] rest[k]).verdict == Verdict::ResourceExceeded
                && max_tried(bidders, rest) == free_mem_of(bidders, rest[k].node@);
        assert(rest[k] == failed[k]);
        assert(failed[last] == failed.last());
    } else {
        assert(failed[last] == failed.last());
        if max_tried(bidders, rest) > free_mem_of(bidders, failed[i].node@) {
            some_ran_out(bidders, rest);
            let j = choose|j: int|
                0 <= j < rest.len() && (#[trigger] rest[j]).verdict == Verdict::ResourceExceeded;
            tried_capacity_is_the_largest(bidders, rest, j);
            let k = choose|k: int|
                0 <= k < rest.len() && (#[trigger] rest[k]).verdict == Verdict::ResourceExceeded
                    && max_tried(bidders, rest) == free_mem_of(bidders, rest[k].node@);
            assert(rest[k] == failed[k]);
        }
    }
}

proof fn some_ran_out(bidders: Seq<Bidder>, failed: Seq<Failure>)
    requires
        max_tried(bidders, failed) > 0,
    ensures
        exists|j: int|
            0 <= j < failed.len() && (#[trigger] failed[j]).verdict == Verdict::ResourceExceeded,
    decreases failed.len(),
{
    if failed.len() > 0 {
        assert(failed[failed.len() - 1] == failed.last());
        if failed.last().verdict != Verdict::ResourceExceeded {
            let rest = failed.drop_last();
            some_ran_out(bidders, rest);
            let j = choose|j: int|
                0 <= j < rest.len() && (#[trigger] rest[j]).verdict == Verdict::ResourceExceeded;
            assert(failed[j] == rest[j]);
        }
    }
}

/// A provider's memory is what it advertised in its last bid, and none where it made no
/// bid.
pub proof fn memory_is_that_of_the_last_bid(bidders: Seq<Bidder>, node: Seq<char>, i: int)
    requires
        -1 <= i < bidders.len(),
        i >= 0 ==> bidders[i].worker@ == node,
        forall|k: int| i < k < bidders.len() ==> (#[trigger] bidders[k]).worker@ != node,
    ensures
        free_mem_of(bidders, node) == (if i < 0 {
            0
        } else {
            bidders[i].bid.free_mem_bytes
        }),
    decreases bidders.len(),
{
    if bidders.len() > 0 {
        assert(bidders[bidders.len() - 1] == bidders.last());
        if i < bidders.len() - 1 {
            memory_is_that_of_the_last_bid(bidders.drop_last(), node, i);
        }
    }
}

proof fn counted_by_filter(failed: Seq<Failure>, v: Verdict)
    ensures
        count_verdict(failed, v) == failed.filter(|f: Failure| f.verdict == v).len(),
    decreases failed.len(),
{
    reveal(Seq::filter);
    if failed.len() > 0 {
        counted_by_filter(failed.drop_last(), v);
    }
}

/// Every provider is counted once: those that ran out of resources, those that called the
/// query infeasible, those that committed, and all others as silent.
pub proof fn every_provider_is_counted(selected: usize, c: Collection)
    requires
        c.silent@.len() + c.failed@.len() <= usize::MAX,
        c.commits@.len() <= usize::MAX,
    ensures
        ({
            let t = tally_spec(selected, c);
            &&& t.selected == selected
            &&& t.resource_exceeded == c.failed@.filter(
                |f: Failure| f.verdict == Verdict::ResourceExceeded,
            ).len()
            &&& t.infeasible == c.failed@.filter(
                |f: Failure| f.verdict == Verdict::Infeasible,
            ).len()
            &&& t.committed == c.commits@.len()
            &&& t.resource_exceeded + t.infeasible + t.silent == c.failed@.len() + c.silent@.len()
        }),
{
    count_bound(c.failed@);
    counted_by_filter(c.failed@, Verdict::ResourceExceeded);
    counted_by_filter(c.failed@, Verdict::Infeasible);
}

/// Where a consensus ran out of resources, those that did are routed around, in the order
/// in which they failed, and the capacity that was not enough is handed on.
pub proof fn resource_faults_name_who_ran_out(
    p: JudgePolicy,
    bidders: Seq<Bidder>,
    selected: usize,
    not_pinnable: bool,
    c: Collection,
)
    ensures
        judge_spec(p, bidders, selected, not_pinnable, c) matches JudgementView::End {
            result: AttemptView::ResourceExceeded { oomed, max_tried_capacity, reason },
            failure_receipts,
        } ==> {
            &&& oomed == c.failed@.filter(
                |f: Failure| f.verdict == Verdict::ResourceExceeded,
            ).map_values(|f: Failure| f.node@)
            &&& forall|i: int|
                0 <= i < c.failed@.len() && (#[trigger] c.failed@[i]).verdict
                    == Verdict::ResourceExceeded ==> max_tried_capacity >= free_mem_of(
                    bidders,
                    c.failed@[i].node@,
                )
            &&& max_tried_capacity > 0 ==> exists|i: int|
                0 <= i < c.failed@.len() && (#[trigger] c.failed@[i]).verdict
                    == Verdict::ResourceExceeded && max_tried_capacity == free_mem_of(
                    bidders,
                    c.failed@[i].node@,
                )
        },
{
    oomed_are_filtered(c.failed@);
    most_is_a_size(bidders, c.failed@);
    assert forall|i: int|
        0 <= i < c.failed@.len() && (#[trigger] c.failed@[i]).verdict
            == Verdict::ResourceExceeded implies max_tried(bidders, c.failed@) >= free_mem_of(
        bidders,
        c.failed@[i].node@,
    ) by {
        tried_capacity_is_the_largest(bidders, c.failed@, i);
    }
    if max_tried(bidders, c.failed@) > 0 {
        some_ran_out(bidders, c.failed@);
        let j = choose|j: int|
            0 <= j < c.failed@.len() && (#[trigger] c.failed@[j]).verdict
                == Verdict::ResourceExceeded;
        tried_capacity_is_the_largest(bidders, c.failed@, j);
    }
}

proof fn most_is_a_size(bidders: Seq<Bidder>, failed: Seq<Failure>)
    ensures
        0 <= max_tried(bidders, failed) <= u64::MAX,
    decreases failed.len(),
{
    if failed.len() > 0 {
        most_is_a_size(bidders, failed.drop_last());
    }
}

/// A consensus reason is told first, and the providers' own words behind it.
pub proof fn reasons_come_before_the_details(reason: Seq<char>, failed: Seq<Failure>)
    ensures
        detail_spec(failed) is None ==> reason_with_detail(reason, failed) == reason,
        detail_spec(failed) is Some ==> reason_with_detail(reason, failed) =~= reason + (": "@
            + detail_spec(failed)->0),
{
}

} // verus!
