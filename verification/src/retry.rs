//! Building blocks of the re-dispatch loop: backoff and fault attribution.

use vstd::prelude::*;
use vstd::arithmetic::power2::pow2;
use crate::math::min_int;
use crate::text::{decimal, decimal_seq};
use crate::types::Verdict;

verus! {

/// Bounded exponential backoff.
#[derive(Debug, Clone, Copy, PartialEq, Eq, Structural)]
pub struct Backoff {
    initial_ms: u64,
    max_ms: u64,
    attempt: u32,
}

/// `rand`'s `thread_rng().gen_range(lo..=hi)`: some value between `lo` and `hi`,
/// both included. Which one is left to chance.
#[verifier::external_body]
fn random_between(lo: u64, hi: u64) -> (r: u64)
    requires
        lo <= hi,
    ensures
        lo <= r <= hi,
{
    rand::Rng::gen_range(&mut rand::thread_rng(), lo..=hi)
}

impl Backoff {
    pub closed spec fn initial(self) -> u64 {
        self.initial_ms
    }

    pub closed spec fn cap(self) -> u64 {
        self.max_ms
    }

    /// How many delays have been produced.
    pub closed spec fn steps(self) -> u32 {
        self.attempt
    }

    /// `initial * 2^n`, capped.
    pub open spec fn base_spec(self) -> int {
        min_int(self.initial() * pow2(self.steps() as nat), self.cap() as int)
    }

    /// A schedule that starts at `initial_ms` and never exceeds `max_ms` (raised
    /// to `initial_ms` where it is less).
    pub fn new(initial_ms: u64, max_ms: u64) -> (r: Backoff)
        ensures
            r.initial() == initial_ms,
            r.cap() == (if max_ms >= initial_ms {
                max_ms
            } else {
                initial_ms
            }),
            r.steps() == 0,
    {
        Backoff {
            initial_ms,
            max_ms: if max_ms >= initial_ms {
                max_ms
            } else {
                initial_ms
            },
            attempt: 0,
        }
    }

    /// The delay of the current attempt before jitter: `initial * 2^n`, capped.
    pub fn base_delay_ms(&self) -> (r: u64)
        ensures
            r == self.base_spec(),
    {
        let mut scaled: u64 = if self.initial_ms <= self.max_ms {
            self.initial_ms
        } else {
            self.max_ms
        };
        let mut n: u32 = 0;
        proof {
            vstd::arithmetic::power2::lemma2_to64();
        }
        while n < self.attempt && scaled < self.max_ms && scaled > 0
            invariant
                n <= self.attempt,
                scaled == min_int(self.initial_ms * pow2(n as nat), self.max_ms as int),
            decreases self.attempt - n,
        {
            proof {
                vstd::arithmetic::power2::lemma_pow2_unfold((n + 1) as nat);
                assert(self.initial_ms * pow2((n + 1) as nat) == 2 * (self.initial_ms * pow2(n as nat)))
                    by (nonlinear_arith)
                    requires
                        pow2((n + 1) as nat) == 2 * pow2(n as nat),
                ;
            }
            if scaled <= self.max_ms / 2 {
                scaled = scaled * 2;
            } else {
                scaled = self.max_ms;
            }
            n = n + 1;
        }
        proof {
            if n < self.attempt {
                if self.attempt > n {
                    vstd::arithmetic::power2::lemma_pow2_strictly_increases(
                        n as nat,
                        self.attempt as nat,
                    );
                }
                assert(self.initial_ms * pow2(n as nat) <= self.initial_ms * pow2(
                    self.attempt as nat,
                )) by (nonlinear_arith)
                    requires
                        pow2(n as nat) <= pow2(self.attempt as nat),
                        0 <= self.initial_ms,
                ;
                if scaled == 0 && self.max_ms > 0 {
                    vstd::arithmetic::power2::lemma_pow2_pos(n as nat);
                    assert(self.initial_ms == 0) by (nonlinear_arith)
                        requires
                            self.initial_ms * pow2(n as nat) == 0,
                            pow2(n as nat) > 0,
                    ;
                    assert(self.initial_ms * pow2(self.attempt as nat) == 0) by (nonlinear_arith)
                        requires
                            self.initial_ms == 0,
                    ;
                }
            }
        }
        scaled
    }

    /// Produce the next delay and advance the schedule. `floor_ms` is the least
    /// delay the jitter allows; the delay lies between it and the base.
    pub fn next_delay(&mut self, floor_ms: u64) -> (r: u64)
        ensures
            final(self).initial() == old(self).initial(),
            final(self).cap() == old(self).cap(),
            final(self).steps() == (if old(self).steps() < u32::MAX {
                (old(self).steps() + 1) as u32
            } else {
                u32::MAX
            }),
            r <= old(self).base_spec(),
            floor_ms >= old(self).base_spec() ==> r == old(self).base_spec(),
            floor_ms <= old(self).base_spec() ==> floor_ms <= r,
    {
        let base = self.base_delay_ms();
        self.attempt = self.attempt.saturating_add(1);
        if base == 0 {
            return 0;
        }
        if floor_ms >= base {
            base
        } else {
            random_between(floor_ms, base)
        }
    }

    /// Start the schedule over.
    pub fn reset(&mut self)
        ensures
            final(self).initial() == old(self).initial(),
            final(self).cap() == old(self).cap(),
            final(self).steps() == 0,
    {
        self.attempt = 0;
    }
}

/// The base delay never shrinks as attempts go by, and never exceeds the cap.
pub proof fn backoff_grows_to_its_cap(a: Backoff, b: Backoff)
    requires
        a.initial() == b.initial(),
        a.cap() == b.cap(),
        a.steps() <= b.steps(),
    ensures
        a.base_spec() <= b.base_spec() <= b.cap(),
{
    if a.steps() < b.steps() {
        vstd::arithmetic::power2::lemma_pow2_strictly_increases(a.steps() as nat, b.steps() as nat);
    }
    assert(a.initial() * pow2(a.steps() as nat) <= b.initial() * pow2(b.steps() as nat))
        by (nonlinear_arith)
        requires
            a.initial() == b.initial(),
            pow2(a.steps() as nat) <= pow2(b.steps() as nat),
            0 <= a.initial(),
    ;
}

/// What the consensus rule says of each deterministic failure class.
#[derive(Debug, Clone, Copy, PartialEq, Eq, Structural)]
pub struct Consensus {
    /// A consensus of the selected providers reported the query infeasible.
    pub infeasible: bool,
    /// A consensus of the selected providers ran out of resources.
    pub resource_exceeded: bool,
}

/// How an attempt's selected providers fared.
#[derive(Debug, Clone, Copy, PartialEq, Eq, Structural)]
pub struct FaultTally {
    /// Providers dispatched to.
    pub selected: usize,
    pub resource_exceeded: usize,
    pub infeasible: usize,
    /// Providers that went silent, timed out or failed in a transient way.
    pub silent: usize,
    /// Providers that committed a result.
    pub committed: usize,
}

pub open spec fn infeasible_text(count: nat, selected: nat) -> Seq<char> {
    decimal_seq(count) + "/"@ + decimal_seq(selected)
        + " selected providers reported the query infeasible (missing data / unsatisfiable) — job fault, not a provider fault"@
}

pub open spec fn resource_text(count: nat, selected: nat) -> Seq<char> {
    decimal_seq(count) + "/"@ + decimal_seq(selected)
        + " selected providers exceeded resources running this query — the job is too expensive (job fault, not a provider fault)"@
}

fn counted(count: usize, selected: usize, tail: &str) -> (s: String)
    ensures
        s@ == decimal_seq(count as nat) + "/"@ + decimal_seq(selected as nat) + tail@,
{
    let mut s = decimal(count as u64);
    s.append("/");
    s.append(decimal(selected as u64).as_str());
    s.append(tail);
    s
}

impl FaultTally {
    pub fn new(selected: usize) -> (r: FaultTally)
        ensures
            r == (FaultTally {
                selected,
                resource_exceeded: 0,
                infeasible: 0,
                silent: 0,
                committed: 0,
            }),
    {
        FaultTally { selected, resource_exceeded: 0, infeasible: 0, silent: 0, committed: 0 }
    }

    /// Record one provider's classified failure.
    pub fn record(&mut self, verdict: Verdict)
        requires
            match verdict {
                Verdict::ResourceExceeded => old(self).resource_exceeded < usize::MAX,
                Verdict::Infeasible => old(self).infeasible < usize::MAX,
                _ => old(self).silent < usize::MAX,
            },
        ensures
            *final(self) == (match verdict {
                Verdict::ResourceExceeded => FaultTally {
                    resource_exceeded: (old(self).resource_exceeded + 1) as usize,
                    ..*old(self)
                },
                Verdict::Infeasible => FaultTally {
                    infeasible: (old(self).infeasible + 1) as usize,
                    ..*old(self)
                },
                _ => FaultTally { silent: (old(self).silent + 1) as usize, ..*old(self) },
            }),
    {
        match verdict {
            Verdict::ResourceExceeded => {
                self.resource_exceeded = self.resource_exceeded + 1;
            },
            Verdict::Infeasible => {
                self.infeasible = self.infeasible + 1;
            },
            _ => {
                self.silent = self.silent + 1;
            },
        }
    }

    pub fn record_committed(&mut self)
        requires
            old(self).committed < usize::MAX,
        ensures
            *final(self) == (FaultTally {
                committed: (old(self).committed + 1) as usize,
                ..*old(self)
            }),
    {
        self.committed = self.committed + 1;
    }

    pub fn record_silent(&mut self)
        requires
            old(self).silent < usize::MAX,
        ensures
            *final(self) == (FaultTally { silent: (old(self).silent + 1) as usize, ..*old(self) }),
    {
        self.silent = self.silent + 1;
    }

    /// What a rule says of this tally: it is asked of each deterministic failure class how
    /// many of the selected providers failed that way.
    pub open spec fn ruled(self, rule: spec_fn(usize, usize) -> bool) -> Consensus {
        Consensus {
            infeasible: rule(self.infeasible, self.selected),
            resource_exceeded: rule(self.resource_exceeded, self.selected),
        }
    }

    /// Asks the consensus rule, which takes a count and the number of the selected
    /// providers.
    pub fn consensus<F: Fn(usize, usize) -> bool>(&self, rule: F) -> (r: Consensus)
        requires
            forall|count: usize, selected: usize| #[trigger] rule.requires((count, selected)),
        ensures
            rule.ensures((self.infeasible, self.selected), r.infeasible),
            rule.ensures((self.resource_exceeded, self.selected), r.resource_exceeded),
    {
        Consensus {
            infeasible: rule(self.infeasible, self.selected),
            resource_exceeded: rule(self.resource_exceeded, self.selected),
        }
    }

    /// Whether a rule's answers attribute the failure to the job.
    pub open spec fn blames_job(rule: Consensus) -> bool {
        rule.infeasible || rule.resource_exceeded
    }

    /// Whether the providers failed the same deterministic way, so that the job
    /// rather than a provider is at fault.
    pub fn is_consensus_infeasible(&self, rule: Consensus) -> (r: bool)
        ensures
            r == FaultTally::blames_job(rule),
    {
        rule.infeasible || rule.resource_exceeded
    }

    pub open spec fn reason_spec(self, rule: Consensus) -> Option<Seq<char>> {
        if rule.infeasible {
            Some(infeasible_text(self.infeasible as nat, self.selected as nat))
        } else if rule.resource_exceeded {
            Some(resource_text(self.resource_exceeded as nat, self.selected as nat))
        } else {
            None
        }
    }

    /// Why the failure is attributed to the job, if it is.
    pub fn consensus_reason(&self, rule: Consensus) -> (r: Option<String>)
        ensures
            crate::types::opt_str(r) == self.reason_spec(rule),
    {
        if rule.infeasible {
            Some(
                counted(
                    self.infeasible,
                    self.selected,
                    " selected providers reported the query infeasible (missing data / unsatisfiable) — job fault, not a provider fault",
                ),
            )
        } else if rule.resource_exceeded {
            Some(
                counted(
                    self.resource_exceeded,
                    self.selected,
                    " selected providers exceeded resources running this query — the job is too expensive (job fault, not a provider fault)",
                ),
            )
        } else {
            None
        }
    }
}

/// Silence never makes a consensus, and never undoes one: whatever the rule, it says the
/// same of a tally before and after silence is recorded.
pub proof fn silence_is_no_consensus(
    before: FaultTally,
    after: FaultTally,
    rule: spec_fn(usize, usize) -> bool,
)
    requires
        before.silent < usize::MAX,
        after == (FaultTally { silent: (before.silent + 1) as usize, ..before }),
    ensures
        after.ruled(rule) == before.ruled(rule),
        FaultTally::blames_job(after.ruled(rule)) == FaultTally::blames_job(before.ruled(rule)),
{
}

/// Commits neither make nor undo a consensus.
pub proof fn commits_are_no_consensus(
    before: FaultTally,
    after: FaultTally,
    rule: spec_fn(usize, usize) -> bool,
)
    requires
        before.committed < usize::MAX,
        after == (FaultTally { committed: (before.committed + 1) as usize, ..before }),
    ensures
        after.ruled(rule) == before.ruled(rule),
{
}

/// A delay is the first one to begin with, and twice the one before for every step, until
/// it reaches the cap.
pub proof fn delays_double_up_to_the_cap(a: Backoff, b: Backoff)
    requires
        a.initial() == b.initial(),
        a.cap() == b.cap(),
        b.steps() == a.steps() + 1,
    ensures
        a.steps() == 0 && a.initial() <= a.cap() ==> a.base_spec() == a.initial(),
        2 * a.base_spec() <= a.cap() ==> b.base_spec() == 2 * a.base_spec(),
        2 * a.base_spec() > a.cap() ==> b.base_spec() == a.cap(),
{
    vstd::arithmetic::power2::lemma2_to64();
    vstd::arithmetic::power2::lemma_pow2_unfold(b.steps() as nat);
    vstd::arithmetic::power2::lemma_pow2_pos(a.steps() as nat);
    let i = a.initial() as int;
    let p = pow2(a.steps() as nat) as int;
    assert(i * (2 * p) == 2 * (i * p)) by (nonlinear_arith);
    assert(0 <= i * p) by (nonlinear_arith)
        requires
            0 <= i,
            0 < p,
    ;
    if a.steps() == 0 {
        assert(i * 1 == i);
    }
}

/// A consensus is put down to the query where it is called infeasible, and else to what it
/// needs; the reason counts those that failed so among those that were asked.
pub proof fn a_consensus_says_why(t: FaultTally, rule: Consensus)
    ensures
        t.reason_spec(rule) is Some <==> rule.infeasible || rule.resource_exceeded,
        rule.infeasible ==> t.reason_spec(rule)->0 == decimal_seq(t.infeasible as nat) + "/"@
            + decimal_seq(t.selected as nat)
            + " selected providers reported the query infeasible (missing data / unsatisfiable) — job fault, not a provider fault"@,
        !rule.infeasible && rule.resource_exceeded ==> t.reason_spec(rule)->0 == decimal_seq(
            t.resource_exceeded as nat,
        ) + "/"@ + decimal_seq(t.selected as nat)
            + " selected providers exceeded resources running this query — the job is too expensive (job fault, not a provider fault)"@,
{
}

/// The job is blamed exactly where there is a reason to give.
pub proof fn jobs_are_blamed_for_a_reason(t: FaultTally, rule: Consensus)
    ensures
        FaultTally::blames_job(rule) <==> t.reason_spec(rule) is Some,
        FaultTally::blames_job(rule) <==> !(!rule.infeasible && !rule.resource_exceeded),
{
}

} // verus!
