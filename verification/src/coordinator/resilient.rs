//! The re-dispatch loop: after each attempt, stop with an error or try again.

use vstd::prelude::*;
use crate::coordinator::error::{CoordinatorError, ErrorView};
use crate::coordinator::judge::{AttemptResult, AttemptView};
use crate::math::{max_int, max_u64};
use crate::retry::Backoff;
use crate::text::{decimal, decimal_seq};
use crate::types::{copy_ids, has_id, ids, NodeId};

verus! {

/// The bounds of the loop (`0` for unbounded).
#[derive(Debug, Clone, Copy, PartialEq, Eq, Structural)]
pub struct RetryPolicy {
    pub max_retries: u32,
    pub max_total_duration_ms: u64,
}

/// The state of the re-dispatch loop.
#[derive(Debug, Clone)]
pub struct Resilience {
    policy: RetryPolicy,
    backoff: Backoff,
    excluded: Vec<NodeId>,
    retries: u32,
    last_reason: String,
    capacity_floor: u64,
    saw_resource_exceeded: bool,
}

/// The state of the loop over mathematical values.
#[verifier::ext_equal]
pub struct LoopView {
    pub policy: RetryPolicy,
    pub backoff: Backoff,
    /// Providers that later attempts route around.
    pub excluded: Set<Seq<char>>,
    /// Re-dispatches so far.
    pub retries: u32,
    pub last_reason: Seq<char>,
    /// The largest capacity that already proved too small.
    pub capacity_floor: u64,
    pub saw_resource_exceeded: bool,
}

impl View for Resilience {
    type V = LoopView;

    closed spec fn view(&self) -> LoopView {
        LoopView {
            policy: self.policy,
            backoff: self.backoff,
            excluded: ids(self.excluded@).to_set(),
            retries: self.retries,
            last_reason: self.last_reason@,
            capacity_floor: self.capacity_floor,
            saw_resource_exceeded: self.saw_resource_exceeded,
        }
    }
}

/// What to do after an attempt.
#[derive(Debug, Clone, PartialEq, Eq)]
pub enum Next {
    /// Stop with this error.
    Stop(CoordinatorError),
    /// Try again if the retry budget grants it.
    AskBudget,
}

/// `Next` over mathematical values.
#[verifier::ext_equal]
pub enum NextView {
    Stop(ErrorView),
    AskBudget,
}

impl View for Next {
    type V = NextView;

    open spec fn view(&self) -> NextView {
        match self {
            Next::Stop(e) => NextView::Stop(e@),
            Next::AskBudget => NextView::AskBudget,
        }
    }
}

pub open spec fn inconclusive_text(attempt: nat, tried: nat) -> Seq<char> {
    "attempt "@ + decimal_seq(attempt) + " stalled/silent: "@ + decimal_seq(tried)
        + " selected provider(s) did not deliver"@
}

pub open spec fn resource_exceeded_text(attempt: nat, reason: Seq<char>) -> Seq<char> {
    "attempt "@ + decimal_seq(attempt) + " resource-exceeded: "@ + reason
}

pub open spec fn input_drift_text(attempt: nat, reason: Seq<char>) -> Seq<char> {
    "attempt "@ + decimal_seq(attempt) + " input drift: "@ + reason
}

impl LoopView {
    /// The loop's state after an attempt that ended with `a`.
    pub open spec fn after(self, a: AttemptView) -> LoopView {
        let n = (self.retries + 1) as nat;
        match a {
            AttemptView::Inconclusive { tried } => LoopView {
                last_reason: inconclusive_text(n, tried.len()),
                excluded: self.excluded.union(tried.to_set()),
                ..self
            },
            AttemptView::ResourceExceeded { oomed, max_tried_capacity, reason } => LoopView {
                last_reason: resource_exceeded_text(n, reason),
                excluded: self.excluded.union(oomed.to_set()),
                saw_resource_exceeded: true,
                capacity_floor: max_int(
                    self.capacity_floor as int,
                    max_tried_capacity as int,
                ) as u64,
                ..self
            },
            AttemptView::InputDrift { reason } => LoopView {
                last_reason: input_drift_text(n, reason),
                ..self
            },
            _ => self,
        }
    }

    /// The bound that stops the loop after an attempt, if one is reached: the
    /// retries first, then the wall clock. Gives the text to report.
    pub open spec fn bound_reached(self, elapsed_ms: u64) -> Option<Seq<char>> {
        if self.policy.max_retries != 0 && self.retries >= self.policy.max_retries {
            Some(self.last_reason)
        } else if self.policy.max_total_duration_ms != 0 && elapsed_ms
            >= self.policy.max_total_duration_ms {
            Some(self.last_reason + "; max_total_duration reached"@)
        } else {
            None
        }
    }

    /// How the loop ends when there is nobody left to try; `otherwise` is the error
    /// of a first attempt.
    pub open spec fn nobody_left(self, otherwise: ErrorView) -> ErrorView {
        if self.saw_resource_exceeded {
            ErrorView::ExceedsCapacity { reason: self.last_reason }
        } else if self.retries == 0 {
            otherwise
        } else {
            ErrorView::Exhausted {
                attempts: (self.retries + 1) as u32,
                reason: self.last_reason,
            }
        }
    }

    /// What follows an attempt that ended with `a`. `self` is the state after it.
    pub open spec fn next(self, a: AttemptView, elapsed_ms: u64) -> NextView {
        match a {
            AttemptView::Infeasible { reason } => NextView::Stop(ErrorView::Infeasible { reason }),
            AttemptView::QuorumDisagreement { agreement, quorum } => NextView::Stop(
                ErrorView::QuorumFailed { agreement, quorum },
            ),
            AttemptView::NoCandidates => NextView::Stop(
                self.nobody_left(ErrorView::NoCandidates),
            ),
            AttemptView::InsufficientWorkers { have, quorum } => NextView::Stop(
                self.nobody_left(ErrorView::InsufficientWorkers { have, quorum }),
            ),
            AttemptView::ResourceExceeded { oomed, max_tried_capacity, reason } =>
                match self.bound_reached(elapsed_ms) {
                Some(text) => NextView::Stop(ErrorView::ExceedsCapacity { reason: text }),
                None => NextView::AskBudget,
            },
            _ => match self.bound_reached(elapsed_ms) {
                Some(text) => NextView::Stop(
                    ErrorView::Exhausted { attempts: (self.retries + 1) as u32, reason: text },
                ),
                None => NextView::AskBudget,
            },
        }
    }
}

fn exclude(excluded: &mut Vec<NodeId>, nodes: Vec<NodeId>)
    ensures
        ids(final(excluded)@).to_set() == ids(old(excluded)@).to_set().union(ids(nodes@).to_set()),
{
    let ghost all = nodes@;
    let ghost start = ids(excluded@).to_set();
    assert(ids(all.take(0)).to_set() =~= Set::<Seq<char>>::empty());
    assert(start.union(Set::empty()) =~= start);
    for n in it: nodes
        invariant
            it.seq() == all,
            ids(excluded@).to_set() == start.union(ids(all.take(it.index() as int)).to_set()),
    {
        let ghost i = it.index();
        let ghost before = excluded@;
        proof {
            assert(ids(all.take(i + 1)) =~= ids(all.take(i as int)).push(n@));
            lemma_push_to_set(ids(all.take(i as int)), n@);
        }
        if !has_id(excluded, &n) {
            excluded.push(n);
            proof {
                assert(ids(excluded@) =~= ids(before).push(n@));
                lemma_push_to_set(ids(before), n@);
            }
        } else {
            assert(ids(before).to_set().contains(n@));
        }
        assert(ids(excluded@).to_set() =~= start.union(ids(all.take(i + 1)).to_set()));
    }
    assert(all.take(all.len() as int) =~= all);
}

proof fn lemma_push_to_set(s: Seq<Seq<char>>, x: Seq<char>)
    ensures
        s.push(x).to_set() == s.to_set().insert(x),
{
    assert forall|y: Seq<char>| s.push(x).to_set().contains(y) implies s.to_set().insert(x).contains(
        y,
    ) by {
        let k = choose|k: int| 0 <= k < s.push(x).len() && s.push(x)[k] == y;
        if k < s.len() {
            assert(s[k] == y);
        }
    }
    assert forall|y: Seq<char>| s.to_set().insert(x).contains(y) implies s.push(x).to_set().contains(
        y,
    ) by {
        if y == x {
            assert(s.push(x)[s.len() as int] == x);
        } else {
            let k = choose|k: int| 0 <= k < s.len() && s[k] == y;
            assert(s.push(x)[k] == y);
        }
    }
    assert(s.push(x).to_set() =~= s.to_set().insert(x));
}

fn attempt_text(attempt: u32, label: &str, tail: &str) -> (r: String)
    ensures
        r@ == "attempt "@ + decimal_seq(attempt as nat) + label@ + tail@,
{
    let mut r = "attempt ".to_owned();
    r.append(decimal(attempt as u64).as_str());
    r.append(label);
    r.append(tail);
    r
}

impl Resilience {
    pub fn new(policy: RetryPolicy, backoff: Backoff) -> (r: Resilience)
        ensures
            r@ == (LoopView {
                policy,
                backoff,
                excluded: Set::empty(),
                retries: 0,
                last_reason: "no attempt completed"@,
                capacity_floor: 0,
                saw_resource_exceeded: false,
            }),
    {
        let r = Resilience {
            policy,
            backoff,
            excluded: Vec::new(),
            retries: 0,
            last_reason: "no attempt completed".to_owned(),
            capacity_floor: 0,
            saw_resource_exceeded: false,
        };
        assert(ids(r.excluded@).to_set() =~= Set::<Seq<char>>::empty());
        r
    }

    /// The providers the next attempt routes around.
    pub fn excluded(&self) -> (r: Vec<NodeId>)
        ensures
            ids(r@).to_set() == self@.excluded,
    {
        copy_ids(&self.excluded)
    }

    /// The capacity that the next attempt's providers must exceed.
    pub fn capacity_floor(&self) -> (r: u64)
        ensures
            r == self@.capacity_floor,
    {
        self.capacity_floor
    }

    pub fn retries(&self) -> (r: u32)
        ensures
            r == self@.retries,
    {
        self.retries
    }

    /// The delay of the next re-dispatch before jitter.
    pub fn base_delay_ms(&self) -> (r: u64)
        ensures
            r == self@.backoff.base_spec(),
    {
        self.backoff.base_delay_ms()
    }

    fn bound(&self, elapsed_ms: u64) -> (r: Option<String>)
        ensures
            crate::types::opt_str(r) == self@.bound_reached(elapsed_ms),
    {
        if self.policy.max_retries != 0 && self.retries >= self.policy.max_retries {
            return Some(self.last_reason.clone());
        }
        if self.policy.max_total_duration_ms != 0 && elapsed_ms
            >= self.policy.max_total_duration_ms {
            let mut text = self.last_reason.clone();
            text.append("; max_total_duration reached");
            return Some(text);
        }
        None
    }

    fn nobody(&self, otherwise: CoordinatorError) -> (r: CoordinatorError)
        requires
            self@.retries < u32::MAX,
        ensures
            r@ == self@.nobody_left(otherwise@),
    {
        if self.saw_resource_exceeded {
            CoordinatorError::ExceedsCapacity { reason: self.last_reason.clone() }
        } else if self.retries == 0 {
            otherwise
        } else {
            CoordinatorError::Exhausted {
                attempts: self.retries + 1,
                reason: self.last_reason.clone(),
            }
        }
    }

    fn retry_or(&self, elapsed_ms: u64) -> (r: Next)
        requires
            self@.retries < u32::MAX,
        ensures
            r@ == (match self@.bound_reached(elapsed_ms) {
                Some(text) => NextView::Stop(
                    ErrorView::Exhausted { attempts: (self@.retries + 1) as u32, reason: text },
                ),
                None => NextView::AskBudget,
            }),
    {
        match self.bound(elapsed_ms) {
            Some(reason) => Next::Stop(
                CoordinatorError::Exhausted { attempts: self.retries + 1, reason },
            ),
            None => Next::AskBudget,
        }
    }

    /// Take in how an attempt ended, `elapsed_ms` after the loop started.
    pub fn on_attempt(&mut self, result: AttemptResult, elapsed_ms: u64) -> (r: Next)
        requires
            old(self)@.retries < u32::MAX,
        ensures
            final(self)@ == old(self)@.after(result@),
            r@ == final(self)@.next(result@, elapsed_ms),
    {
        let attempt: u32 = self.retries + 1;
        match result {
            AttemptResult::Infeasible { reason } => Next::Stop(
                CoordinatorError::Infeasible { reason },
            ),
            AttemptResult::QuorumDisagreement { agreement, quorum } => Next::Stop(
                CoordinatorError::QuorumFailed { agreement, quorum },
            ),
            AttemptResult::NoCandidates => Next::Stop(self.nobody(CoordinatorError::NoCandidates)),
            AttemptResult::InsufficientWorkers { have, quorum } => Next::Stop(
                self.nobody(CoordinatorError::InsufficientWorkers { have, quorum }),
            ),
            AttemptResult::Inconclusive { tried } => {
                let mut tail = decimal(tried.len() as u64);
                tail.append(" selected provider(s) did not deliver");
                self.last_reason = attempt_text(attempt, " stalled/silent: ", tail.as_str());
                proof {
                    let a = "attempt "@ + decimal_seq(attempt as nat) + " stalled/silent: "@;
                    assert(a + (decimal_seq(tried@.len()) + " selected provider(s) did not deliver"@)
                        =~= a + decimal_seq(tried@.len()) + " selected provider(s) did not deliver"@);
                    assert(ids(tried@).len() == tried@.len());
                }
                exclude(&mut self.excluded, tried);
                self.retry_or(elapsed_ms)
            },
            AttemptResult::ResourceExceeded { oomed, max_tried_capacity, reason } => {
                self.last_reason = attempt_text(attempt, " resource-exceeded: ", reason.as_str());
                self.saw_resource_exceeded = true;
                self.capacity_floor = max_u64(self.capacity_floor, max_tried_capacity);
                exclude(&mut self.excluded, oomed);
                match self.bound(elapsed_ms) {
                    Some(reason) => Next::Stop(CoordinatorError::ExceedsCapacity { reason }),
                    None => Next::AskBudget,
                }
            },
            AttemptResult::InputDrift { reason } => {
                self.last_reason = attempt_text(attempt, " input drift: ", reason.as_str());
                self.retry_or(elapsed_ms)
            },
        }
    }

    /// Take in whether the retry budget granted another attempt. Gives the delay
    /// before it, in milliseconds; `jitter_floor_ms` is the least delay the jitter
    /// allows.
    pub fn on_budget(&mut self, granted: bool, jitter_floor_ms: u64) -> (r: Result<
        u64,
        CoordinatorError,
    >)
        requires
            old(self)@.retries < u32::MAX,
        ensures
            granted <==> r is Ok,
            !granted ==> *final(self) == *old(self) && r->Err_0@ == (ErrorView::RetryBudgetExhausted {
                attempts: (old(self)@.retries + 1) as u32,
            }),
            granted ==> {
                &&& final(self)@ == (LoopView {
                    retries: (old(self)@.retries + 1) as u32,
                    backoff: final(self)@.backoff,
                    ..old(self)@
                })
                &&& final(self)@.backoff.initial() == old(self)@.backoff.initial()
                &&& final(self)@.backoff.cap() == old(self)@.backoff.cap()
                &&& final(self)@.backoff.steps() == (if old(self)@.backoff.steps() < u32::MAX {
                    (old(self)@.backoff.steps() + 1) as u32
                } else {
                    u32::MAX
                })
                &&& r->Ok_0 <= old(self)@.backoff.base_spec()
                &&& jitter_floor_ms >= old(self)@.backoff.base_spec() ==> r->Ok_0
                    == old(self)@.backoff.base_spec()
                &&& jitter_floor_ms <= old(self)@.backoff.base_spec() ==> jitter_floor_ms
                    <= r->Ok_0
            },
    {
        if !granted {
            return Err(
                CoordinatorError::RetryBudgetExhausted { attempts: self.retries + 1 },
            );
        }
        let delay = self.backoff.next_delay(jitter_floor_ms);
        self.retries = self.retries + 1;
        Ok(delay)
    }
}

/// Input drift excludes nobody and raises no capacity floor: the honest minority
/// that read newer bytes is not at fault.
pub proof fn drift_excludes_nobody(s: LoopView, reason: Seq<char>)
    ensures
        s.after(AttemptView::InputDrift { reason }).excluded == s.excluded,
        s.after(AttemptView::InputDrift { reason }).capacity_floor == s.capacity_floor,
        s.after(AttemptView::InputDrift { reason }).saw_resource_exceeded
            == s.saw_resource_exceeded,
{
}

/// Once excluded, a provider stays excluded, and the capacity floor never sinks.
pub proof fn exclusions_and_floor_only_grow(s: LoopView, a: AttemptView)
    ensures
        s.excluded.subset_of(s.after(a).excluded),
        s.capacity_floor <= s.after(a).capacity_floor,
        s.saw_resource_exceeded ==> s.after(a).saw_resource_exceeded,
{
}

/// With a bound on retries, another attempt is asked for only below the bound:
/// there are at most `max_retries + 1` attempts.
pub proof fn attempts_are_bounded(s: LoopView, a: AttemptView, elapsed_ms: u64)
    requires
        s.policy.max_retries != 0,
        s.after(a).next(a, elapsed_ms) is AskBudget,
    ensures
        s.retries + 1 <= s.policy.max_retries,
{
}

/// A job that ran every available node out of resources is reported as exceeding
/// capacity, not as exhausted.
pub proof fn capacity_failure_is_reported_as_such(s: LoopView, elapsed_ms: u64)
    requires
        s.saw_resource_exceeded,
    ensures
        s.after(AttemptView::NoCandidates).next(AttemptView::NoCandidates, elapsed_ms)
            == NextView::Stop(ErrorView::ExceedsCapacity { reason: s.last_reason }),
{
}

/// A loop goes on after an attempt that delivered nothing, ran out of resources or read
/// changed inputs, as long as neither the retries nor the time are used up.
pub proof fn the_loop_goes_on_within_its_bounds(s: LoopView, a: AttemptView, elapsed_ms: u64)
    requires
        a is Inconclusive || a is ResourceExceeded || a is InputDrift,
    ensures
        ({
            let spent = s.policy.max_retries > 0 && s.retries >= s.policy.max_retries;
            let late = s.policy.max_total_duration_ms > 0 && elapsed_ms
                >= s.policy.max_total_duration_ms;
            let reason = if spent {
                s.last_reason
            } else {
                s.last_reason + "; max_total_duration reached"@
            };
            &&& !spent && !late ==> s.next(a, elapsed_ms) == NextView::AskBudget
            &&& (spent || late) && a is ResourceExceeded ==> s.next(a, elapsed_ms)
                == NextView::Stop(ErrorView::ExceedsCapacity { reason })
            &&& (spent || late) && !(a is ResourceExceeded) && s.retries < u32::MAX ==> s.next(
                a,
                elapsed_ms,
            ) == NextView::Stop(
                ErrorView::Exhausted { attempts: (s.retries + 1) as u32, reason },
            )
        }),
{
}

/// A query that cannot succeed and a quorum that disagrees stop the loop at once, whatever
/// is left of its bounds.
pub proof fn final_verdicts_stop_the_loop(s: LoopView, a: AttemptView, elapsed_ms: u64)
    ensures
        a matches AttemptView::Infeasible { reason } ==> s.next(a, elapsed_ms) == NextView::Stop(
            ErrorView::Infeasible { reason },
        ),
        a matches AttemptView::QuorumDisagreement { agreement, quorum } ==> s.next(a, elapsed_ms)
            == NextView::Stop(ErrorView::QuorumFailed { agreement, quorum }),
{
}

/// Where nobody is left to ask, the reason is named: the job is too large if that was
/// found before; on the first attempt nobody was there; else the attempts are used up.
pub proof fn nobody_left_is_told_apart(s: LoopView, a: AttemptView, elapsed_ms: u64)
    requires
        a is NoCandidates || a is InsufficientWorkers,
        s.retries < u32::MAX,
    ensures
        s.saw_resource_exceeded ==> s.next(a, elapsed_ms) == NextView::Stop(
            ErrorView::ExceedsCapacity { reason: s.last_reason },
        ),
        !s.saw_resource_exceeded && s.retries > 0 ==> s.next(a, elapsed_ms) == NextView::Stop(
            ErrorView::Exhausted { attempts: (s.retries + 1) as u32, reason: s.last_reason },
        ),
        !s.saw_resource_exceeded && s.retries == 0 && a is NoCandidates ==> s.next(a, elapsed_ms)
            == NextView::Stop(ErrorView::NoCandidates),
        !s.saw_resource_exceeded && s.retries == 0 ==> (a matches AttemptView::InsufficientWorkers {
            have,
            quorum,
        } ==> s.next(a, elapsed_ms) == NextView::Stop(
            ErrorView::InsufficientWorkers { have, quorum },
        )),
{
}

/// What an attempt leaves behind: those that delivered nothing or ran out of resources are
/// routed around, and nobody else; the capacity that was not enough is remembered; and the
/// reason is kept.
pub proof fn attempts_leave_their_mark(s: LoopView, a: AttemptView, node: Seq<char>)
    ensures
        ({
            let t = s.after(a);
            &&& t.policy == s.policy && t.backoff == s.backoff && t.retries == s.retries
            &&& a matches AttemptView::Inconclusive { tried } ==> {
                &&& t.excluded.contains(node) == (s.excluded.contains(node) || tried.contains(node))
                &&& t.capacity_floor == s.capacity_floor
                &&& t.saw_resource_exceeded == s.saw_resource_exceeded
                &&& t.last_reason == "attempt "@ + decimal_seq((s.retries + 1) as nat)
                    + " stalled/silent: "@ + decimal_seq(tried.len())
                    + " selected provider(s) did not deliver"@
            }
            &&& a matches AttemptView::ResourceExceeded { oomed, max_tried_capacity, reason } ==> {
                &&& t.excluded.contains(node) == (s.excluded.contains(node) || oomed.contains(node))
                &&& t.capacity_floor >= s.capacity_floor && t.capacity_floor >= max_tried_capacity
                &&& t.capacity_floor == s.capacity_floor || t.capacity_floor == max_tried_capacity
                &&& t.saw_resource_exceeded
                &&& t.last_reason == "attempt "@ + decimal_seq((s.retries + 1) as nat)
                    + " resource-exceeded: "@ + reason
            }
            &&& a matches AttemptView::InputDrift { reason } ==> {
                &&& t.excluded == s.excluded
                &&& t.capacity_floor == s.capacity_floor
                &&& t.saw_resource_exceeded == s.saw_resource_exceeded
                &&& t.last_reason == "attempt "@ + decimal_seq((s.retries + 1) as nat)
                    + " input drift: "@ + reason
            }
        }),
{
}

} // verus!
