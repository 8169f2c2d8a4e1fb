//! Receipts, penalties and broken commitments of an attempt that had a winner.

use vstd::prelude::*;
use crate::coordinator::failure::Failure;
use crate::coordinator::judge::Commit;
use crate::types::{ids, NodeId, Verdict};

verus! {

/// The measured magnitude of a job (`0` where unknown).
#[derive(Debug, Clone, Copy, PartialEq, Eq, Structural)]
pub struct ObservedSize {
    pub input_bytes: u64,
    pub result_rows: u64,
    pub result_bytes: u64,
}

impl ObservedSize {
    pub open spec fn unknown_spec() -> ObservedSize {
        ObservedSize { input_bytes: 0, result_rows: 0, result_bytes: 0 }
    }

    pub fn unknown() -> (r: ObservedSize)
        ensures
            r == ObservedSize::unknown_spec(),
    {
        ObservedSize { input_bytes: 0, result_rows: 0, result_bytes: 0 }
    }
}

/// A receipt before it is signed.
#[derive(Debug, Clone, PartialEq, Eq)]
pub struct ReceiptDraft {
    pub worker: NodeId,
    pub result_hash: String,
    pub verdict: Verdict,
    pub latency_ms: u64,
    pub observed: ObservedSize,
    pub input_fingerprint: String,
}

#[verifier::ext_equal]
pub struct ReceiptView {
    pub worker: Seq<char>,
    pub result_hash: Seq<char>,
    pub verdict: Verdict,
    pub latency_ms: u64,
    pub observed: ObservedSize,
    pub input_fingerprint: Seq<char>,
}

impl View for ReceiptDraft {
    type V = ReceiptView;

    open spec fn view(&self) -> ReceiptView {
        ReceiptView {
            worker: self.worker@,
            result_hash: self.result_hash@,
            verdict: self.verdict,
            latency_ms: self.latency_ms,
            observed: self.observed,
            input_fingerprint: self.input_fingerprint@,
        }
    }
}

pub open spec fn drafts(v: Seq<ReceiptDraft>) -> Seq<ReceiptView> {
    v.map_values(|r: ReceiptDraft| r@)
}

/// The commits with the winner first. The others keep their order, except that
/// the last one takes the winner's place.
pub open spec fn winner_first_seq(commits: Seq<Commit>, winner: int) -> Seq<Commit> {
    seq![commits[winner]] + commits.update(winner, commits.last()).drop_last()
}

/// Pull the winner to the front; everybody behind it lost the race.
pub fn winner_first(commits: Vec<Commit>, winner: usize) -> (r: Vec<Commit>)
    requires
        winner < commits@.len(),
    ensures
        r@ == winner_first_seq(commits@, winner as int),
{
    let ghost all = commits@;
    let mut rest = commits;
    let w = rest.swap_remove(winner);
    let mut r: Vec<Commit> = Vec::new();
    r.push(w);
    r.append(&mut rest);
    assert(r@ =~= winner_first_seq(all, winner as int));
    r
}

/// What the attempt concluded, and on which inputs.
#[derive(Debug, Clone, PartialEq, Eq)]
pub struct Conclusion {
    pub agreed: String,
    pub verified: bool,
    pub non_verifiable: bool,
    /// The pinned input fingerprint, if the inputs were pinned.
    pub pinned: Option<String>,
    /// The measured magnitude of the result, if the winner delivered it.
    pub delivered: Option<ObservedSize>,
    /// The estimated scanned bytes (`0` when unknown).
    pub input_bytes: u64,
}

impl Conclusion {
    /// The verdict on a commit: `first` marks the winner.
    pub open spec fn verdict_spec(&self, first: bool, c: Commit) -> Verdict {
        if self.non_verifiable {
            Verdict::Inconclusive
        } else if first && self.delivered is None {
            Verdict::Inconclusive
        } else if c.hash@ == self.agreed@ {
            Verdict::Correct
        } else if self.pinned is None || c.input_fingerprint@ == self.pinned->0@ {
            Verdict::Incorrect
        } else {
            Verdict::Inconclusive
        }
    }

    pub open spec fn observed_spec(&self, first: bool) -> ObservedSize {
        if first {
            match self.delivered {
                Some(d) => ObservedSize {
                    input_bytes: self.input_bytes,
                    result_rows: d.result_rows,
                    result_bytes: d.result_bytes,
                },
                None => ObservedSize { input_bytes: self.input_bytes, result_rows: 0, result_bytes: 0 },
            }
        } else {
            ObservedSize::unknown_spec()
        }
    }

    pub open spec fn commit_receipt(&self, first: bool, c: Commit) -> ReceiptView {
        ReceiptView {
            worker: c.worker@,
            result_hash: c.hash@,
            verdict: self.verdict_spec(first, c),
            latency_ms: c.latency_ms,
            observed: self.observed_spec(first),
            input_fingerprint: c.input_fingerprint@,
        }
    }

    /// The receipt of a provider that committed nothing.
    pub open spec fn empty_receipt(&self, node: Seq<char>, verdict: Verdict) -> ReceiptView {
        ReceiptView {
            worker: node,
            result_hash: Seq::empty(),
            verdict,
            latency_ms: 0,
            observed: ObservedSize::unknown_spec(),
            input_fingerprint: match self.pinned {
                Some(p) => p@,
                None => Seq::empty(),
            },
        }
    }

    fn verdict(&self, first: bool, c: &Commit) -> (r: Verdict)
        ensures
            r == self.verdict_spec(first, *c),
    {
        if self.non_verifiable {
            Verdict::Inconclusive
        } else if first && self.delivered.is_none() {
            Verdict::Inconclusive
        } else if c.hash == self.agreed {
            Verdict::Correct
        } else {
            match &self.pinned {
                Some(p) => if c.input_fingerprint == *p {
                    Verdict::Incorrect
                } else {
                    Verdict::Inconclusive
                },
                None => Verdict::Incorrect,
            }
        }
    }

    fn observed(&self, first: bool) -> (r: ObservedSize)
        ensures
            r == self.observed_spec(first),
    {
        if first {
            match self.delivered {
                Some(d) => ObservedSize {
                    input_bytes: self.input_bytes,
                    result_rows: d.result_rows,
                    result_bytes: d.result_bytes,
                },
                None => ObservedSize {
                    input_bytes: self.input_bytes,
                    result_rows: 0,
                    result_bytes: 0,
                },
            }
        } else {
            ObservedSize::unknown()
        }
    }

    fn empty_draft(&self, node: &NodeId, verdict: Verdict) -> (r: ReceiptDraft)
        ensures
            r@ == self.empty_receipt(node@, verdict),
    {
        let input_fingerprint = match &self.pinned {
            Some(p) => p.clone(),
            None => String::new(),
        };
        ReceiptDraft {
            worker: node.duplicate(),
            result_hash: String::new(),
            verdict,
            latency_ms: 0,
            observed: ObservedSize::unknown(),
            input_fingerprint,
        }
    }

    /// The receipts of the commits, the winner's first.
    pub open spec fn commit_receipts(&self, ordered: Seq<Commit>) -> Seq<ReceiptView> {
        Seq::new(ordered.len(), |i: int| self.commit_receipt(i == 0, ordered[i]))
    }

    /// The receipts of the providers that never committed, on a verified job.
    pub open spec fn other_receipts(&self, silent: Seq<NodeId>, failed: Seq<Failure>) -> Seq<
        ReceiptView,
    > {
        if self.verified {
            silent.map_values(|n: NodeId| self.empty_receipt(n@, Verdict::Timeout))
                + failed.map_values(|f: Failure| self.empty_receipt(f.node@, f.verdict))
        } else {
            Seq::empty()
        }
    }

    /// The committed providers at fault, in order.
    pub open spec fn wrong_workers(&self, ordered: Seq<Commit>) -> Seq<Seq<char>>
        decreases ordered.len(),
    {
        if ordered.len() == 0 {
            Seq::empty()
        } else {
            let rest = self.wrong_workers(ordered.drop_last());
            if self.verdict_spec(ordered.len() == 1, ordered.last()) == Verdict::Incorrect {
                rest.push(ordered.last().worker@)
            } else {
                rest
            }
        }
    }

    /// The providers that broke their commitment without committing a result, on a
    /// verified job: the silent ones, then those whose failure is their own fault.
    pub open spec fn absent_failers(&self, silent: Seq<NodeId>, failed: Seq<Failure>) -> Seq<Seq<char>> {
        if self.verified {
            ids(silent) + faulty_nodes(failed)
        } else {
            Seq::empty()
        }
    }

    /// The losers that agreed with the winner, in order.
    pub open spec fn agreeing(&self, losers: Seq<Commit>) -> Seq<Commit>
        decreases losers.len(),
    {
        if losers.len() == 0 {
            Seq::empty()
        } else {
            let rest = self.agreeing(losers.drop_last());
            if !self.non_verifiable && losers.last().hash@ == self.agreed@ {
                rest.push(losers.last())
            } else {
                rest
            }
        }
    }
}

/// The nodes whose classified failure is their own fault, in order.
pub open spec fn faulty_nodes(failed: Seq<Failure>) -> Seq<Seq<char>>
    decreases failed.len(),
{
    if failed.len() == 0 {
        Seq::empty()
    } else {
        let rest = faulty_nodes(failed.drop_last());
        if failed.last().verdict.provider_fault_spec() {
            rest.push(failed.last().node@)
        } else {
            rest
        }
    }
}

/// The books of an attempt.
#[derive(Debug, Clone, PartialEq, Eq)]
pub struct Accounting {
    pub receipts: Vec<ReceiptDraft>,
    /// Providers whose trust is reduced.
    pub penalized: Vec<NodeId>,
    /// Providers that accepted the job and broke that commitment.
    pub commitment_failers: Vec<NodeId>,
    /// Losers that agreed with the winner.
    pub agreeing_non_winners: Vec<NodeId>,
    /// The commit latencies of the winner and of the losers that agreed with it.
    pub agreeing_latencies: Vec<u64>,
}

/// Book an attempt: `ordered` holds the commits, the winner first.
pub fn account(
    k: &Conclusion,
    ordered: &[Commit],
    silent: &[NodeId],
    failed: &[Failure],
) -> (r: Accounting)
    requires
        ordered@.len() > 0,
    ensures
        drafts(r.receipts@) == k.commit_receipts(ordered@) + k.other_receipts(silent@, failed@),
        ids(r.penalized@) == k.wrong_workers(ordered@) + k.absent_failers(silent@, failed@),
        ids(r.commitment_failers@) == (if k.verified {
            k.wrong_workers(ordered@)
        } else {
            Seq::empty()
        }) + k.absent_failers(silent@, failed@),
        ids(r.agreeing_non_winners@) == k.agreeing(
            ordered@.subrange(1, ordered@.len() as int),
        ).map_values(|c: Commit| c.worker@),
        r.agreeing_latencies@ == seq![ordered@[0].latency_ms] + k.agreeing(
            ordered@.subrange(1, ordered@.len() as int),
        ).map_values(|c: Commit| c.latency_ms),
{
    let mut receipts: Vec<ReceiptDraft> = Vec::new();
    let mut penalized: Vec<NodeId> = Vec::new();
    let mut failers: Vec<NodeId> = Vec::new();
    let mut agreeing: Vec<NodeId> = Vec::new();
    let mut latencies: Vec<u64> = Vec::new();
    latencies.push(ordered[0].latency_ms);
    let ghost losers = ordered@.subrange(1, ordered@.len() as int);
    let mut i: usize = 0;
    proof {
        assert(drafts(receipts@) =~= k.commit_receipts(ordered@.take(0)));
        assert(ids(penalized@) =~= Seq::<Seq<char>>::empty());
        assert(ids(failers@) =~= Seq::<Seq<char>>::empty());
        assert(k.agreeing(losers.take(0)) =~= Seq::<Commit>::empty());
        assert(ids(agreeing@) =~= k.agreeing(losers.take(0)).map_values(|c: Commit| c.worker@));
        assert(latencies@ =~= seq![ordered@[0].latency_ms] + k.agreeing(losers.take(0)).map_values(
            |c: Commit| c.latency_ms,
        ));
    }
    while i < ordered.len()
        invariant
            ordered@.len() > 0,
            i <= ordered@.len(),
            losers == ordered@.subrange(1, ordered@.len() as int),
            drafts(receipts@) == k.commit_receipts(ordered@.take(i as int)),
            ids(penalized@) == k.wrong_workers(ordered@.take(i as int)),
            ids(failers@) == (if k.verified {
                k.wrong_workers(ordered@.take(i as int))
            } else {
                Seq::empty()
            }),
            ids(agreeing@) == k.agreeing(
                losers.take(if i == 0 { 0int } else { i - 1 }),
            ).map_values(|c: Commit| c.worker@),
            latencies@ == seq![ordered@[0].latency_ms] + k.agreeing(
                losers.take(if i == 0 { 0int } else { i - 1 }),
            ).map_values(|c: Commit| c.latency_ms),
        decreases ordered@.len() - i,
    {
        let first = i == 0;
        let c = &ordered[i];
        let verdict = k.verdict(first, c);
        let ghost next = ordered@.take(i + 1);
        proof {
            assert(next.drop_last() =~= ordered@.take(i as int));
            assert(next.last() == *c);
        }
        if !first {
            proof {
                let nl = losers.take(i as int);
                assert(nl.drop_last() =~= losers.take(i - 1));
                assert(nl.last() == *c);
            }
            if !k.non_verifiable && c.hash == k.agreed {
                let ghost ba = agreeing@;
                let ghost bl = latencies@;
                let ghost prior = k.agreeing(losers.take(i - 1));
                agreeing.push(c.worker.duplicate());
                latencies.push(c.latency_ms);
                proof {
                    assert(ids(agreeing@) =~= ids(ba).push(c.worker@));
                    assert(prior.push(*c).map_values(|c: Commit| c.worker@) =~= prior.map_values(
                        |c: Commit| c.worker@,
                    ).push(c.worker@));
                    assert(prior.push(*c).map_values(|c: Commit| c.latency_ms) =~= prior.map_values(
                        |c: Commit| c.latency_ms,
                    ).push(c.latency_ms));
                    assert(latencies@ =~= seq![ordered@[0].latency_ms] + prior.push(*c).map_values(
                        |c: Commit| c.latency_ms,
                    ));
                }
            }
        }
        if verdict == Verdict::Incorrect {
            let ghost bp = penalized@;
            penalized.push(c.worker.duplicate());
            assert(ids(penalized@) =~= ids(bp).push(c.worker@));
            if k.verified {
                let ghost bf = failers@;
                failers.push(c.worker.duplicate());
                assert(ids(failers@) =~= ids(bf).push(c.worker@));
            }
        }
        let ghost br = receipts@;
        receipts.push(
            ReceiptDraft {
                worker: c.worker.duplicate(),
                result_hash: c.hash.clone(),
                verdict,
                latency_ms: c.latency_ms,
                observed: k.observed(first),
                input_fingerprint: c.input_fingerprint.clone(),
            },
        );
        proof {
            assert(drafts(receipts@) =~= drafts(br).push(k.commit_receipt(first, *c)));
            assert(k.commit_receipts(next) =~= k.commit_receipts(ordered@.take(i as int)).push(
                k.commit_receipt(first, *c),
            ));
        }
        i = i + 1;
    }
    proof {
        assert(ordered@.take(i as int) =~= ordered@);
        assert(losers.take(losers.len() as int) =~= losers);
    }
    let ghost r0 = receipts@;
    let ghost p0 = penalized@;
    let ghost f0 = failers@;
    if k.verified {
        let mut s: usize = 0;
        let ghost timeouts = silent@.map_values(|n: NodeId| k.empty_receipt(n@, Verdict::Timeout));
        proof {
            assert(drafts(receipts@) =~= drafts(r0) + timeouts.take(0));
            assert(ids(penalized@) =~= ids(p0) + ids(silent@).take(0));
            assert(ids(failers@) =~= ids(f0) + ids(silent@).take(0));
        }
        while s < silent.len()
            invariant
                s <= silent@.len(),
                timeouts == silent@.map_values(
                    |n: NodeId| k.empty_receipt(n@, Verdict::Timeout),
                ),
                drafts(receipts@) == drafts(r0) + timeouts.take(s as int),
                ids(penalized@) == ids(p0) + ids(silent@).take(s as int),
                ids(failers@) == ids(f0) + ids(silent@).take(s as int),
            decreases silent@.len() - s,
        {
            let ghost br = receipts@;
            let ghost bp = penalized@;
            let ghost bf = failers@;
            receipts.push(k.empty_draft(&silent[s], Verdict::Timeout));
            penalized.push(silent[s].duplicate());
            failers.push(silent[s].duplicate());
            proof {
                let n = silent@[s as int];
                assert(drafts(receipts@) =~= drafts(br).push(
                    k.empty_receipt(n@, Verdict::Timeout),
                ));
                assert(timeouts.take(s + 1) =~= timeouts.take(s as int).push(timeouts[s as int]));
                assert(drafts(receipts@) =~= drafts(r0) + timeouts.take(s + 1));
                assert(ids(silent@).take(s + 1) =~= ids(silent@).take(s as int).push(n@));
                assert(ids(penalized@) =~= ids(bp).push(n@));
                assert(ids(penalized@) =~= ids(p0) + ids(silent@).take(s + 1));
                assert(ids(failers@) =~= ids(bf).push(n@));
                assert(ids(failers@) =~= ids(f0) + ids(silent@).take(s + 1));
            }
            s = s + 1;
        }
        let ghost r1 = receipts@;
        let ghost p1 = penalized@;
        let ghost f1 = failers@;
        let ghost declined = failed@.map_values(
            |f: Failure| k.empty_receipt(f.node@, f.verdict),
        );
        let mut j: usize = 0;
        proof {
            assert(timeouts.take(s as int) =~= timeouts);
            assert(ids(silent@).take(s as int) =~= ids(silent@));
            assert(drafts(receipts@) =~= drafts(r1) + declined.take(0));
            assert(faulty_nodes(failed@.take(0)) =~= Seq::<Seq<char>>::empty());
            assert(ids(penalized@) =~= ids(p1) + faulty_nodes(failed@.take(0)));
            assert(ids(failers@) =~= ids(f1) + faulty_nodes(failed@.take(0)));
        }
        while j < failed.len()
            invariant
                j <= failed@.len(),
                declined == failed@.map_values(|f: Failure| k.empty_receipt(f.node@, f.verdict)),
                drafts(receipts@) == drafts(r1) + declined.take(j as int),
                ids(penalized@) == ids(p1) + faulty_nodes(failed@.take(j as int)),
                ids(failers@) == ids(f1) + faulty_nodes(failed@.take(j as int)),
            decreases failed@.len() - j,
        {
            let ghost br = receipts@;
            let ghost bp = penalized@;
            let ghost bf = failers@;
            let ghost prior = faulty_nodes(failed@.take(j as int));
            proof {
                let next = failed@.take(j + 1);
                assert(next.drop_last() =~= failed@.take(j as int));
                assert(next.last() == failed@[j as int]);
            }
            receipts.push(k.empty_draft(&failed[j].node, failed[j].verdict));
            if failed[j].verdict.is_provider_fault() {
                penalized.push(failed[j].node.duplicate());
                failers.push(failed[j].node.duplicate());
                proof {
                    let n = failed@[j as int].node;
                    assert(ids(penalized@) =~= ids(bp).push(n@));
                    assert(ids(failers@) =~= ids(bf).push(n@));
                    assert(ids(p1) + prior.push(n@) =~= (ids(p1) + prior).push(n@));
                    assert(ids(f1) + prior.push(n@) =~= (ids(f1) + prior).push(n@));
                }
            }
            proof {
                assert(drafts(receipts@) =~= drafts(br).push(declined[j as int]));
                assert(declined.take(j + 1) =~= declined.take(j as int).push(declined[j as int]));
                assert(drafts(receipts@) =~= drafts(r1) + declined.take(j + 1));
            }
            j = j + 1;
        }
        proof {
            assert(failed@.take(j as int) =~= failed@);
            assert(declined.take(j as int) =~= declined);
            assert(drafts(receipts@) =~= drafts(r0) + k.other_receipts(silent@, failed@));
            assert(ids(penalized@) =~= ids(p0) + k.absent_failers(silent@, failed@));
            assert(ids(failers@) =~= ids(f0) + k.absent_failers(silent@, failed@));
        }
    } else {
        proof {
            assert(drafts(receipts@) =~= drafts(r0) + k.other_receipts(silent@, failed@));
            assert(ids(penalized@) =~= ids(p0) + k.absent_failers(silent@, failed@));
            assert(ids(failers@) =~= ids(f0) + k.absent_failers(silent@, failed@));
        }
    }
    Accounting {
        receipts,
        penalized,
        commitment_failers: failers,
        agreeing_non_winners: agreeing,
        agreeing_latencies: latencies,
    }
}

/// The neutral receipts of an attempt that ended without a winner: `Inconclusive`
/// where failures are attributed, `Malformed` where they are not.
pub open spec fn failure_receipt(c: Commit, fault_attribution: bool) -> ReceiptView {
    ReceiptView {
        worker: c.worker@,
        result_hash: c.hash@,
        verdict: if fault_attribution {
            Verdict::Inconclusive
        } else {
            Verdict::Malformed
        },
        latency_ms: c.latency_ms,
        observed: ObservedSize::unknown_spec(),
        input_fingerprint: c.input_fingerprint@,
    }
}

/// One receipt for each provider that committed to an attempt without a winner.
pub fn failure_receipts(commits: &[Commit], fault_attribution: bool) -> (r: Vec<ReceiptDraft>)
    ensures
        drafts(r@) == commits@.map_values(|c: Commit| failure_receipt(c, fault_attribution)),
{
    let mut r: Vec<ReceiptDraft> = Vec::new();
    let mut i: usize = 0;
    let ghost want = commits@.map_values(|c: Commit| failure_receipt(c, fault_attribution));
    assert(drafts(r@) =~= want.take(0));
    while i < commits.len()
        invariant
            i <= commits@.len(),
            want == commits@.map_values(|c: Commit| failure_receipt(c, fault_attribution)),
            drafts(r@) == want.take(i as int),
        decreases commits@.len() - i,
    {
        let ghost before = r@;
        r.push(
            ReceiptDraft {
                worker: commits[i].worker.duplicate(),
                result_hash: commits[i].hash.clone(),
                verdict: if fault_attribution {
                    Verdict::Inconclusive
                } else {
                    Verdict::Malformed
                },
                latency_ms: commits[i].latency_ms,
                observed: ObservedSize::unknown(),
                input_fingerprint: commits[i].input_fingerprint.clone(),
            },
        );
        proof {
            assert(drafts(r@) =~= drafts(before).push(want[i as int]));
            assert(want.take(i + 1) =~= want.take(i as int).push(want[i as int]));
        }
        i = i + 1;
    }
    assert(want.take(i as int) =~= want);
    r
}

/// A provider that delivered the agreed hash is never at fault.
pub proof fn agreeing_provider_is_never_blamed(k: Conclusion, first: bool, c: Commit)
    requires
        c.hash@ == k.agreed@,
    ensures
        !k.verdict_spec(first, c).provider_fault_spec(),
{
}

/// On a pinned job, a provider that did not prove to have read the pinned inputs
/// is never at fault.
pub proof fn unproven_inputs_are_never_blamed(k: Conclusion, first: bool, c: Commit)
    requires
        k.pinned is Some,
        c.input_fingerprint@ != k.pinned->0@,
    ensures
        !k.verdict_spec(first, c).provider_fault_spec(),
{
}

/// A winner that never delivered its result is not booked as correct.
pub proof fn undelivered_winner_is_not_correct(k: Conclusion, c: Commit)
    requires
        k.delivered is None,
        c.hash@ == k.agreed@,
    ensures
        k.verdict_spec(true, c) == Verdict::Inconclusive,
{
}

/// Nobody is blamed for a result that cannot be verified.
pub proof fn non_verifiable_blames_nobody(k: Conclusion, ordered: Seq<Commit>)
    requires
        k.non_verifiable,
    ensures
        k.wrong_workers(ordered) == Seq::<Seq<char>>::empty(),
    decreases ordered.len(),
{
    if ordered.len() > 0 {
        non_verifiable_blames_nobody(k, ordered.drop_last());
    }
}

/// Silence and failures count as broken commitments only on a verified job.
pub proof fn unverified_job_breaks_no_commitment(
    k: Conclusion,
    silent: Seq<NodeId>,
    failed: Seq<Failure>,
)
    requires
        !k.verified,
    ensures
        k.absent_failers(silent, failed) == Seq::<Seq<char>>::empty(),
        k.other_receipts(silent, failed) == Seq::<ReceiptView>::empty(),
{
}

/// A provider is judged by its result: right where it is the agreed one, wrong only where
/// it differs on the pinned inputs, and not at all otherwise.
pub proof fn providers_are_judged_by_their_result(k: Conclusion, first: bool, c: Commit)
    ensures
        ({
            let v = k.verdict_spec(first, c);
            let judged = !k.non_verifiable && !(first && k.delivered is None);
            let read_pinned = k.pinned is None || c.input_fingerprint@ == k.pinned->0@;
            &&& v == Verdict::Correct <==> judged && c.hash@ == k.agreed@
            &&& v == Verdict::Incorrect <==> judged && c.hash@ != k.agreed@ && read_pinned
            &&& v == Verdict::Inconclusive <==> !judged || (c.hash@ != k.agreed@ && !read_pinned)
        }),
{
}

/// A receipt says who answered what, how fast and on which inputs; the sizes are the
/// winner's, as far as they were delivered.
pub proof fn receipts_say_what_was_committed(k: Conclusion, ordered: Seq<Commit>, i: int)
    requires
        0 <= i < ordered.len(),
    ensures
        ({
            let r = k.commit_receipts(ordered)[i];
            let c = ordered[i];
            &&& k.commit_receipts(ordered).len() == ordered.len()
            &&& r.worker == c.worker@
            &&& r.result_hash == c.hash@
            &&& r.latency_ms == c.latency_ms
            &&& r.input_fingerprint == c.input_fingerprint@
            &&& r.verdict == k.verdict_spec(i == 0, c)
            &&& i == 0 ==> r.observed.input_bytes == k.input_bytes
            &&& i == 0 && k.delivered is Some ==> r.observed.result_rows
                == k.delivered->0.result_rows && r.observed.result_bytes
                == k.delivered->0.result_bytes
            &&& i == 0 && k.delivered is None ==> r.observed.result_rows == 0
                && r.observed.result_bytes == 0
            &&& i > 0 ==> r.observed.input_bytes == 0 && r.observed.result_rows == 0
                && r.observed.result_bytes == 0
        }),
{
}

/// On a verified job every silent provider has a receipt for its timeout and every failed
/// one for its failure; on any other none has.
pub proof fn silence_and_failures_have_receipts(
    k: Conclusion,
    silent: Seq<NodeId>,
    failed: Seq<Failure>,
    i: int,
)
    ensures
        ({
            let r = k.other_receipts(silent, failed);
            let inputs = match k.pinned {
                Some(p) => p@,
                None => Seq::empty(),
            };
            &&& !k.verified ==> r.len() == 0
            &&& k.verified ==> r.len() == silent.len() + failed.len()
            &&& k.verified && 0 <= i < silent.len() ==> r[i].worker == silent[i]@ && r[i].verdict
                == Verdict::Timeout && r[i].result_hash.len() == 0 && r[i].latency_ms == 0
                && r[i].input_fingerprint == inputs
            &&& k.verified && 0 <= i < failed.len() ==> r[silent.len() + i].worker
                == failed[i].node@ && r[silent.len() + i].verdict == failed[i].verdict
                && r[silent.len() + i].result_hash.len() == 0 && r[silent.len() + i].latency_ms == 0
                && r[silent.len() + i].input_fingerprint == inputs
        }),
{
}

/// Those that agree with the winner are the others with the agreed hash, in order; nobody
/// agrees on a result that cannot be verified.
pub proof fn agreeing_providers_have_the_agreed_hash(k: Conclusion, losers: Seq<Commit>)
    ensures
        k.agreeing(losers) == losers.filter(
            |c: Commit| !k.non_verifiable && c.hash@ == k.agreed@,
        ),
    decreases losers.len(),
{
    reveal(Seq::filter);
    if losers.len() > 0 {
        agreeing_providers_have_the_agreed_hash(k, losers.drop_last());
    } else {
        assert(k.agreeing(losers) =~= losers.filter(
            |c: Commit| !k.non_verifiable && c.hash@ == k.agreed@,
        ));
    }
}

/// Those that answered wrongly are exactly those that are judged so, in order.
pub proof fn wrong_answers_are_named(k: Conclusion, ordered: Seq<Commit>, node: Seq<char>)
    ensures
        k.wrong_workers(ordered).contains(node) <==> exists|i: int|
            0 <= i < ordered.len() && (#[trigger] ordered[i]).worker@ == node && k.verdict_spec(
                i == 0,
                ordered[i],
            ) == Verdict::Incorrect,
    decreases ordered.len(),
{
    if ordered.len() > 0 {
        let before = ordered.drop_last();
        let rest = k.wrong_workers(before);
        let last = ordered.len() - 1;
        wrong_answers_are_named(k, before, node);
        assert(ordered[last] == ordered.last());
        assert((ordered.len() == 1) == (last == 0));
        if rest.contains(node) {
            let i = choose|i: int|
                0 <= i < before.len() && (#[trigger] before[i]).worker@ == node && k.verdict_spec(
                    i == 0,
                    before[i],
                ) == Verdict::Incorrect;
            assert(before[i] == ordered[i]);
            let j = choose|j: int| 0 <= j < rest.len() && rest[j] == node;
            assert(rest.push(ordered.last().worker@)[j] == node);
        }
        assert(rest.push(ordered.last().worker@)[rest.len() as int] == ordered.last().worker@);
        if exists|i: int|
            0 <= i < ordered.len() && (#[trigger] ordered[i]).worker@ == node && k.verdict_spec(
                i == 0,
                ordered[i],
            ) == Verdict::Incorrect {
            let i = choose|i: int|
                0 <= i < ordered.len() && (#[trigger] ordered[i]).worker@ == node && k.verdict_spec(
                    i == 0,
                    ordered[i],
                ) == Verdict::Incorrect;
            if i < last {
                assert(before[i] == ordered[i]);
            }
        }
        let all = k.wrong_workers(ordered);
        if all.contains(node) && !rest.contains(node) {
            let j = choose|j: int| 0 <= j < all.len() && all[j] == node;
            if j < rest.len() {
                assert(rest[j] == node);
            }
        }
    } else {
        assert(!k.wrong_workers(ordered).contains(node));
    }
}

/// On a verified job the silent broke their commitment, and of the failed those that are
/// at fault themselves.
pub proof fn broken_commitments_are_the_providers_own(
    k: Conclusion,
    silent: Seq<NodeId>,
    failed: Seq<Failure>,
)
    ensures
        !k.verified ==> k.absent_failers(silent, failed).len() == 0,
        k.verified ==> k.absent_failers(silent, failed) == silent.map_values(|n: NodeId| n@)
            + failed.filter(
            |f: Failure|
                f.verdict == Verdict::Incorrect || f.verdict == Verdict::Timeout || f.verdict
                    == Verdict::Malformed,
        ).map_values(|f: Failure| f.node@),
{
    faults_are_filtered(failed);
    assert(ids(silent) =~= silent.map_values(|n: NodeId| n@));
}

proof fn faults_are_filtered(failed: Seq<Failure>)
    ensures
        faulty_nodes(failed) == failed.filter(
            |f: Failure|
                f.verdict == Verdict::Incorrect || f.verdict == Verdict::Timeout || f.verdict
                    == Verdict::Malformed,
        ).map_values(|f: Failure| f.node@),
    decreases failed.len(),
{
    reveal(Seq::filter);
    let fault = |f: Failure|
        f.verdict == Verdict::Incorrect || f.verdict == Verdict::Timeout || f.verdict
            == Verdict::Malformed;
    let node = |f: Failure| f.node@;
    if failed.len() > 0 {
        faults_are_filtered(failed.drop_last());
        let rest = failed.drop_last().filter(fault);
        assert(rest.push(failed.last()).map_values(node) =~= rest.map_values(node).push(
            failed.last().node@,
        ));
    } else {
        assert(failed.filter(fault).map_values(node) =~= Seq::empty());
    }
}

/// The winner is put first, and all others stay: nobody is lost or counted twice.
pub proof fn the_winner_is_put_first(commits: Seq<Commit>, winner: int)
    requires
        0 <= winner < commits.len(),
    ensures
        winner_first_seq(commits, winner).len() == commits.len(),
        winner_first_seq(commits, winner)[0] == commits[winner],
        winner_first_seq(commits, winner).to_multiset() == commits.to_multiset(),
{
    broadcast use vstd::seq_lib::group_to_multiset_ensures;

    let n = commits.len() - 1;
    let rest = commits.update(winner, commits.last()).drop_last();
    let w = commits[winner];
    assert(commits.remove(winner).to_multiset() =~= commits.to_multiset().remove(w));
    assert(commits.to_multiset().contains(w)) by {
        assert(commits.contains(w));
    }
    let all = winner_first_seq(commits, winner);
    assert(all =~= rest.insert(0, w));
    assert(rest.insert(0, w).to_multiset() =~= rest.to_multiset().insert(w));
    if winner == n {
        assert(rest =~= commits.remove(winner));
    } else {
        let others = commits.remove(winner);
        assert(others[n - 1] == commits.last());
        assert(others.remove(n - 1).insert(winner, commits.last()) =~= rest);
        assert(others.remove(n - 1).to_multiset() =~= others.to_multiset().remove(commits.last()));
        assert(others.to_multiset().contains(commits.last())) by {
            assert(others.contains(commits.last()));
        }
        assert(rest.to_multiset() =~= others.remove(n - 1).to_multiset().insert(commits.last()));
        assert(rest.to_multiset() =~= others.to_multiset());
    }
    assert(all.to_multiset() =~= commits.to_multiset());
}

/// A failed attempt blames nobody where faults are attributed, and calls the answers
/// malformed where they are not.
pub proof fn failed_attempts_blame_nobody(c: Commit, fault_attribution: bool)
    ensures
        ({
            let r = failure_receipt(c, fault_attribution);
            &&& fault_attribution ==> r.verdict == Verdict::Inconclusive
            &&& !fault_attribution ==> r.verdict == Verdict::Malformed
            &&& r.worker == c.worker@ && r.result_hash == c.hash@ && r.latency_ms == c.latency_ms
            &&& r.input_fingerprint == c.input_fingerprint@
            &&& r.observed.input_bytes == 0 && r.observed.result_rows == 0
                && r.observed.result_bytes == 0
        }),
{
}

/// Whether `worker` committed to `agreed` behind the winner.
pub open spec fn stands_behind(ordered: Seq<Commit>, agreed: Seq<char>, worker: Seq<char>) -> bool {
    exists|j: int|
        0 < j < ordered.len() && (#[trigger] ordered[j]).hash@ == agreed && ordered[j].worker@
            == worker
}

/// The books of a job: a receipt for every commit, and for everybody else only where the
/// job was verified; those are penalized that answered wrongly or broke their commitment;
/// and those that agree with the winner are paid with it.
pub proof fn the_books_hold_everybody(
    k: Conclusion,
    ordered: &[Commit],
    silent: &[NodeId],
    failed: &[Failure],
    r: Accounting,
)
    requires
        ordered@.len() > 0,
        call_ensures(account, (&k, ordered, silent, failed), r),
    ensures
        r.receipts@.len() == ordered@.len() + (if k.verified {
            silent@.len() + failed@.len()
        } else {
            0
        }),
        r.agreeing_latencies@.len() == r.agreeing_non_winners@.len() + 1,
        r.agreeing_latencies@[0] == ordered@[0].latency_ms,
        k.non_verifiable ==> r.agreeing_non_winners@.len() == 0,
        !k.verified ==> r.commitment_failers@.len() == 0,
        forall|i: int|
            0 <= i < r.agreeing_non_winners@.len() ==> stands_behind(
                ordered@,
                k.agreed@,
                (#[trigger] r.agreeing_non_winners@[i])@,
            ),
        forall|i: int|
            0 <= i < r.penalized@.len() ==> k.wrong_workers(ordered@).contains(
                (#[trigger] r.penalized@[i])@,
            ) || (k.verified && (ids(silent@).contains(r.penalized@[i]@) || faulty_nodes(
                failed@,
            ).contains(r.penalized@[i]@))),
{
    assert(drafts(r.receipts@).len() == r.receipts@.len());
    let rest = ordered@.subrange(1, ordered@.len() as int);
    let agree = k.agreeing(rest);
    agreeing_providers_have_the_agreed_hash(k, rest);
    assert(ids(r.agreeing_non_winners@).len() == agree.len());
    if k.non_verifiable {
        nobody_agrees(k, rest);
    }
    if !k.verified {
        assert(ids(r.commitment_failers@).len() == 0);
    }
    assert forall|i: int| 0 <= i < r.agreeing_non_winners@.len() implies stands_behind(
        ordered@,
        k.agreed@,
        (#[trigger] r.agreeing_non_winners@[i])@,
    ) by {
        assert(ids(r.agreeing_non_winners@)[i] == agree[i].worker@);
        agreeing_is_a_loser(k, rest, i);
        let j = choose|j: int| 0 <= j < rest.len() && #[trigger] rest[j] == agree[i];
        assert(ordered@[j + 1] == rest[j]);
    }
    let wrong = k.wrong_workers(ordered@);
    let absent = k.absent_failers(silent@, failed@);
    assert forall|i: int| 0 <= i < r.penalized@.len() implies wrong.contains(
        (#[trigger] r.penalized@[i])@,
    ) || (k.verified && (ids(silent@).contains(r.penalized@[i]@) || faulty_nodes(
        failed@,
    ).contains(r.penalized@[i]@))) by {
        let x = ids(r.penalized@)[i];
        assert(x == r.penalized@[i]@);
        if i < wrong.len() {
            assert(x == wrong[i]);
        } else {
            assert(x == absent[i - wrong.len()]);
            let m = i - wrong.len();
            if m < ids(silent@).len() {
                assert(ids(silent@)[m] == x);
            } else {
                assert(faulty_nodes(failed@)[m - ids(silent@).len()] == x);
            }
        }
    }
}

proof fn nobody_agrees(k: Conclusion, losers: Seq<Commit>)
    requires
        k.non_verifiable,
    ensures
        k.agreeing(losers).len() == 0,
    decreases losers.len(),
{
    if losers.len() > 0 {
        nobody_agrees(k, losers.drop_last());
    }
}

proof fn agreeing_is_a_loser(k: Conclusion, losers: Seq<Commit>, i: int)
    requires
        0 <= i < k.agreeing(losers).len(),
    ensures
        k.agreeing(losers)[i].hash@ == k.agreed@,
        exists|j: int| 0 <= j < losers.len() && #[trigger] losers[j] == k.agreeing(losers)[i],
    decreases losers.len(),
{
    let rest = losers.drop_last();
    assert(losers[losers.len() - 1] == losers.last());
    if i < k.agreeing(rest).len() {
        agreeing_is_a_loser(k, rest, i);
        let j = choose|j: int| 0 <= j < rest.len() && #[trigger] rest[j] == k.agreeing(rest)[i];
        assert(losers[j] == rest[j]);
    }
}

} // verus!
