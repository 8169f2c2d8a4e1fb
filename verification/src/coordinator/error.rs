//! Why running a query on the grid failed.

use vstd::prelude::*;
use crate::input_resolver::sources::{has_head, has_tail};
use crate::text::{decimal, decimal_seq};

verus! {

/// Errors from running a query on the grid.
#[derive(Debug, Clone, PartialEq, Eq)]
pub enum CoordinatorError {
    Config(String),
    NoCandidates,
    InsufficientWorkers { have: usize, quorum: usize },
    QuorumFailed { agreement: usize, quorum: usize },
    Infeasible { reason: String },
    ExceedsCapacity { reason: String },
    Exhausted { attempts: u32, reason: String },
    RetryBudgetExhausted { attempts: u32 },
    NoResult,
    Settlement(String),
    /// The requester's ceiling cannot cover the worst-case metered settlement.
    InsufficientEscrow(String),
    LocalExecution(String),
    Transport(String),
}

/// `CoordinatorError` over mathematical values.
#[verifier::ext_equal]
pub enum ErrorView {
    Config(Seq<char>),
    NoCandidates,
    InsufficientWorkers { have: usize, quorum: usize },
    QuorumFailed { agreement: usize, quorum: usize },
    Infeasible { reason: Seq<char> },
    ExceedsCapacity { reason: Seq<char> },
    Exhausted { attempts: u32, reason: Seq<char> },
    RetryBudgetExhausted { attempts: u32 },
    NoResult,
    Settlement(Seq<char>),
    InsufficientEscrow(Seq<char>),
    LocalExecution(Seq<char>),
    Transport(Seq<char>),
}

impl View for CoordinatorError {
    type V = ErrorView;

    open spec fn view(&self) -> ErrorView {
        match self {
            CoordinatorError::Config(s) => ErrorView::Config(s@),
            CoordinatorError::NoCandidates => ErrorView::NoCandidates,
            CoordinatorError::InsufficientWorkers { have, quorum } =>
                ErrorView::InsufficientWorkers { have: *have, quorum: *quorum },
            CoordinatorError::QuorumFailed { agreement, quorum } => ErrorView::QuorumFailed {
                agreement: *agreement,
                quorum: *quorum,
            },
            CoordinatorError::Infeasible { reason } => ErrorView::Infeasible { reason: reason@ },
            CoordinatorError::ExceedsCapacity { reason } => ErrorView::ExceedsCapacity {
                reason: reason@,
            },
            CoordinatorError::Exhausted { attempts, reason } => ErrorView::Exhausted {
                attempts: *attempts,
                reason: reason@,
            },
            CoordinatorError::RetryBudgetExhausted { attempts } =>
                ErrorView::RetryBudgetExhausted { attempts: *attempts },
            CoordinatorError::NoResult => ErrorView::NoResult,
            CoordinatorError::Settlement(s) => ErrorView::Settlement(s@),
            CoordinatorError::InsufficientEscrow(s) => ErrorView::InsufficientEscrow(s@),
            CoordinatorError::LocalExecution(s) => ErrorView::LocalExecution(s@),
            CoordinatorError::Transport(s) => ErrorView::Transport(s@),
        }
    }
}

impl ErrorView {
    /// The text shown to the caller.
    pub open spec fn text(self) -> Seq<char> {
        match self {
            ErrorView::Config(s) => "config error: "@ + s,
            ErrorView::NoCandidates =>
                "no hosts available to run this query on the grid. Join a network with p2p_join(bootstrap => [...]) or add bootstrap seeds (discovery.bootstrap), and ensure reachable hosts have called p2p_share. (In remote-only mode the node will not fall back to running the query locally.)"@,
            ErrorView::InsufficientWorkers { have, quorum } =>
                "not enough trustworthy workers: have "@ + decimal_seq(have as nat)
                + ", need quorum "@ + decimal_seq(quorum as nat),
            ErrorView::QuorumFailed { agreement, quorum } =>
                "quorum not reached: best agreement "@ + decimal_seq(agreement as nat) + "/"@
                + decimal_seq(quorum as nat),
            ErrorView::Infeasible { reason } =>
                "query is infeasible — a consensus of selected providers failed it the same way (job fault, not a provider fault): "@
                + reason,
            ErrorView::ExceedsCapacity { reason } =>
                "query exceeds the capacity of all available nodes — a consensus of selected providers ran out of resources (OOM / too big) and no higher-capacity node is available to re-route to: "@
                + reason,
            ErrorView::Exhausted { attempts, reason } => "re-dispatch exhausted after "@
                + decimal_seq(attempts as nat)
                + " attempt(s) without a usable result (last reason: "@ + reason + ")"@,
            ErrorView::RetryBudgetExhausted { attempts } =>
                "retry/hedge budget exhausted after "@ + decimal_seq(attempts as nat)
                + " attempt(s) — stopping to avoid a retry storm"@,
            ErrorView::NoResult => "winner did not return a result"@,
            ErrorView::Settlement(s) => "settlement error: "@ + s,
            ErrorView::InsufficientEscrow(s) => s,
            ErrorView::LocalExecution(s) => "local execution failed: "@ + s,
            ErrorView::Transport(s) => "transport error: "@ + s,
        }
    }
}

fn prefixed(prefix: &str, s: &String) -> (r: String)
    ensures
        r@ == prefix@ + s@,
{
    let mut r = prefix.to_owned();
    r.append(s.as_str());
    r
}

fn two_counts(a: &str, x: u64, b: &str, y: u64) -> (r: String)
    ensures
        r@ == a@ + decimal_seq(x as nat) + b@ + decimal_seq(y as nat),
{
    let mut r = a.to_owned();
    r.append(decimal(x).as_str());
    r.append(b);
    r.append(decimal(y).as_str());
    r
}

impl CoordinatorError {
    /// The text shown to the caller.
    pub fn message(&self) -> (r: String)
        ensures
            r@ == self@.text(),
    {
        match self {
            CoordinatorError::Config(s) => prefixed("config error: ", s),
            CoordinatorError::NoCandidates =>
                "no hosts available to run this query on the grid. Join a network with p2p_join(bootstrap => [...]) or add bootstrap seeds (discovery.bootstrap), and ensure reachable hosts have called p2p_share. (In remote-only mode the node will not fall back to running the query locally.)".to_owned(),
            CoordinatorError::InsufficientWorkers { have, quorum } => two_counts(
                "not enough trustworthy workers: have ",
                *have as u64,
                ", need quorum ",
                *quorum as u64,
            ),
            CoordinatorError::QuorumFailed { agreement, quorum } => two_counts(
                "quorum not reached: best agreement ",
                *agreement as u64,
                "/",
                *quorum as u64,
            ),
            CoordinatorError::Infeasible { reason } => prefixed(
                "query is infeasible — a consensus of selected providers failed it the same way (job fault, not a provider fault): ",
                reason,
            ),
            CoordinatorError::ExceedsCapacity { reason } => prefixed(
                "query exceeds the capacity of all available nodes — a consensus of selected providers ran out of resources (OOM / too big) and no higher-capacity node is available to re-route to: ",
                reason,
            ),
            CoordinatorError::Exhausted { attempts, reason } => {
                let mut r = "re-dispatch exhausted after ".to_owned();
                r.append(decimal(*attempts as u64).as_str());
                r.append(" attempt(s) without a usable result (last reason: ");
                r.append(reason.as_str());
                r.append(")");
                r
            },
            CoordinatorError::RetryBudgetExhausted { attempts } => {
                let mut r = "retry/hedge budget exhausted after ".to_owned();
                r.append(decimal(*attempts as u64).as_str());
                r.append(" attempt(s) — stopping to avoid a retry storm");
                r
            },
            CoordinatorError::NoResult => "winner did not return a result".to_owned(),
            CoordinatorError::Settlement(s) => prefixed("settlement error: ", s),
            CoordinatorError::InsufficientEscrow(s) => s.clone(),
            CoordinatorError::LocalExecution(s) => prefixed("local execution failed: ", s),
            CoordinatorError::Transport(s) => prefixed("transport error: ", s),
        }
    }
}

/// An error tells its reason last, and a lack of escrow tells nothing else.
pub proof fn reasons_are_told(reason: Seq<char>)
    ensures
        has_tail(ErrorView::Config(reason).text(), reason),
        has_tail((ErrorView::Infeasible { reason }).text(), reason),
        has_tail((ErrorView::ExceedsCapacity { reason }).text(), reason),
        has_tail(ErrorView::Settlement(reason).text(), reason),
        has_tail(ErrorView::LocalExecution(reason).text(), reason),
        has_tail(ErrorView::Transport(reason).text(), reason),
        has_head(ErrorView::Config(reason).text(), "config error: "@),
        has_head((ErrorView::Infeasible { reason }).text(), "query is infeasible"@),
        has_head((ErrorView::ExceedsCapacity { reason }).text(), "query exceeds the capacity"@),
        has_head(ErrorView::Settlement(reason).text(), "settlement error: "@),
        has_head(ErrorView::LocalExecution(reason).text(), "local execution failed: "@),
        has_head(ErrorView::Transport(reason).text(), "transport error: "@),
        ErrorView::InsufficientEscrow(reason).text() == reason,
{
    reveal_strlit("query is infeasible");
    reveal_strlit("query exceeds the capacity");
    reveal_strlit(
        "query is infeasible — a consensus of selected providers failed it the same way (job fault, not a provider fault): ",
    );
    reveal_strlit(
        "query exceeds the capacity of all available nodes — a consensus of selected providers ran out of resources (OOM / too big) and no higher-capacity node is available to re-route to: ",
    );
    let infeasible = (ErrorView::Infeasible { reason }).text();
    let exceeds = (ErrorView::ExceedsCapacity { reason }).text();
    assert(infeasible.take("query is infeasible"@.len() as int) =~= "query is infeasible"@);
    assert(exceeds.take("query exceeds the capacity"@.len() as int)
        =~= "query exceeds the capacity"@);
    let heads = seq![
        "config error: "@,
        "settlement error: "@,
        "local execution failed: "@,
        "transport error: "@,
        "query is infeasible — a consensus of selected providers failed it the same way (job fault, not a provider fault): "@,
        "query exceeds the capacity of all available nodes — a consensus of selected providers ran out of resources (OOM / too big) and no higher-capacity node is available to re-route to: "@,
    ];
    assert forall|i: int| 0 <= i < heads.len() implies has_head(
        (#[trigger] heads[i]) + reason,
        heads[i],
    ) && has_tail(heads[i] + reason, reason) by {
        let all = heads[i] + reason;
        assert(all.take(heads[i].len() as int) =~= heads[i]);
        assert(all.skip(all.len() - reason.len()) =~= reason);
    }
    assert(heads[0] == "config error: "@ && heads[1] == "settlement error: "@ && heads[2]
        == "local execution failed: "@ && heads[3] == "transport error: "@);
    assert(infeasible == heads[4] + reason);
    assert(exceeds == heads[5] + reason);
}

/// A shortfall is told in decimals: how many there are before how many are needed.
pub proof fn shortfalls_are_told_in_decimals(a: usize, b: usize)
    ensures
        (ErrorView::InsufficientWorkers { have: a, quorum: b }).text() =~= (
        "not enough trustworthy workers: have "@ + decimal_seq(a as nat)) + (", need quorum "@
            + decimal_seq(b as nat)),
        (ErrorView::QuorumFailed { agreement: a, quorum: b }).text() =~= (
        "quorum not reached: best agreement "@ + decimal_seq(a as nat)) + ("/"@ + decimal_seq(
            b as nat,
        )),
{
}

} // verus!
