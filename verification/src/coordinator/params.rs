//! The cached on-chain policy, and who shares a wallet.

use vstd::prelude::*;
use crate::coordinator::error::{CoordinatorError, ErrorView};
use crate::coordinator::metering::Amount;
use crate::coordinator::settle::WalletAddress;
use crate::types::{ids, NodeId};

verus! {

/// The part of the on-chain policy that the requester acts on.
#[derive(Debug, Clone, PartialEq, Eq)]
pub struct OnchainPolicy {
    pub version: u32,
    pub fee_recipient: WalletAddress,
}

/// `OnchainPolicy` over mathematical values.
pub struct PolicyView {
    pub version: u32,
    pub fee_recipient: (i32, Seq<u8>),
}

impl View for OnchainPolicy {
    type V = PolicyView;

    open spec fn view(&self) -> PolicyView {
        PolicyView { version: self.version, fee_recipient: self.fee_recipient@ }
    }
}

impl OnchainPolicy {
    fn duplicate(&self) -> (r: OnchainPolicy)
        ensures
            r@ == self@,
    {
        OnchainPolicy { version: self.version, fee_recipient: self.fee_recipient.duplicate() }
    }
}

/// The cached policy: unbound (version zero) until one is read.
#[derive(Debug)]
pub struct SyncedParams {
    version: u32,
    policy: Option<OnchainPolicy>,
}

/// `SyncedParams` over mathematical values.
pub struct ParamsView {
    pub version: u32,
    pub policy: Option<PolicyView>,
}

impl View for SyncedParams {
    type V = ParamsView;

    closed spec fn view(&self) -> ParamsView {
        ParamsView {
            version: self.version,
            policy: match self.policy {
                Some(p) => Some(p@),
                None => None,
            },
        }
    }
}

/// What a read of the on-chain policy gave.
#[derive(Debug, Clone, PartialEq, Eq)]
pub enum PolicyRead {
    /// There is nothing to read from.
    NoSource,
    Failed(String),
    Read(OnchainPolicy),
}

impl SyncedParams {
    pub fn new() -> (r: SyncedParams)
        ensures
            r@ == (ParamsView { version: 0, policy: None }),
    {
        SyncedParams { version: 0, policy: None }
    }

    /// Binds a version without a policy of its own.
    pub fn with_params_version(self, version: u32) -> (r: SyncedParams)
        ensures
            r@ == (ParamsView { version, policy: self@.policy }),
    {
        SyncedParams { version, policy: self.policy }
    }

    /// The version that paid jobs run under (`0` for unbound).
    pub fn current_params_version(&self) -> (r: u32)
        ensures
            r == self@.version,
    {
        self.version
    }

    /// The fee recipient of the cached policy.
    pub fn current_fee_recipient(&self) -> (r: Option<WalletAddress>)
        ensures
            r is Some <==> self@.policy is Some,
            r is Some ==> r->0@ == self@.policy->0.fee_recipient,
    {
        match &self.policy {
            Some(p) => Some(p.fee_recipient.duplicate()),
            None => None,
        }
    }

    /// Takes what a read gave into the cache. A failed read leaves the cache alone.
    pub fn sync_params_once(&mut self, read: PolicyRead) -> (r: Result<
        OnchainPolicy,
        CoordinatorError,
    >)
        ensures
            match read {
                PolicyRead::Read(p) => r is Ok && r->Ok_0@ == p@ && final(self)@ == (ParamsView {
                    version: p.version,
                    policy: Some(p@),
                }),
                PolicyRead::NoSource => r is Err && r->Err_0@ == ErrorView::Settlement(
                    "no GlobalParams source wired"@,
                ) && final(self)@ == old(self)@,
                PolicyRead::Failed(why) => r is Err && r->Err_0@ == ErrorView::Settlement(why@)
                    && final(self)@ == old(self)@,
            },
    {
        match read {
            PolicyRead::Read(p) => {
                let kept = p.duplicate();
                self.version = p.version;
                self.policy = Some(kept);
                Ok(p)
            },
            PolicyRead::NoSource => Err(
                CoordinatorError::Settlement("no GlobalParams source wired".to_owned()),
            ),
            PolicyRead::Failed(why) => Err(CoordinatorError::Settlement(why)),
        }
    }

    /// The policy to lay over a job's configuration: the cached one, for a paid job
    /// under an enabled economy. A free job is never touched.
    pub fn overlay(&self, paid: bool, economics_enabled: bool) -> (r: Option<OnchainPolicy>)
        ensures
            r is Some <==> paid && economics_enabled && self@.policy is Some,
            r is Some ==> r->0@ == self@.policy->0,
    {
        if paid && economics_enabled {
            match &self.policy {
                Some(p) => Some(p.duplicate()),
                None => None,
            }
        } else {
            None
        }
    }
}

/// A node's recorded wallet.
#[derive(Debug, Clone, PartialEq, Eq)]
pub struct WalletEntry {
    pub node_id: NodeId,
    pub wallet: String,
}

/// The nodes of `entries` that share a wallet, in order.
pub open spec fn sharing(entries: Seq<WalletEntry>, wallet: Seq<char>) -> Seq<Seq<char>>
    decreases entries.len(),
{
    if entries.len() == 0 {
        Seq::empty()
    } else if entries.last().wallet@ == wallet {
        sharing(entries.drop_last(), wallet).push(entries.last().node_id@)
    } else {
        sharing(entries.drop_last(), wallet)
    }
}

/// The nodes that share a worker's wallet. There are none where the worker has no
/// recorded wallet (`own`), or the records cannot be listed.
pub fn wallet_siblings(own: Option<&WalletEntry>, listed: Option<&[WalletEntry]>) -> (r: Vec<
    NodeId,
>)
    ensures
        ids(r@) == (if own is Some && listed is Some {
            sharing(listed->0@, own->0.wallet@)
        } else {
            Seq::empty()
        }),
{
    let mut r: Vec<NodeId> = Vec::new();
    assert(ids(r@) =~= Seq::empty());
    let mine = match own {
        Some(e) => e,
        None => {
            return r;
        },
    };
    let all = match listed {
        Some(l) => l,
        None => {
            return r;
        },
    };
    let mut i: usize = 0;
    while i < all.len()
        invariant
            i <= all@.len(),
            ids(r@) == sharing(all@.take(i as int), mine.wallet@),
        decreases all@.len() - i,
    {
        let ghost before = ids(r@);
        proof {
            let next = all@.take(i + 1);
            assert(next.drop_last() =~= all@.take(i as int));
            assert(next.last() == all@[i as int]);
        }
        if all[i].wallet == mine.wallet {
            r.push(all[i].node_id.duplicate());
            assert(ids(r@) =~= before.push(all@[i as int].node_id@));
        }
        i = i + 1;
    }
    assert(all@.take(i as int) =~= all@);
    r
}

/// What is known of a node that shares a wallet.
#[derive(Debug, Clone, Copy, PartialEq, Eq, Structural)]
pub struct SiblingHistory {
    /// How many of its jobs were judged.
    pub observations: usize,
    /// Whether it has a reputation at all.
    pub rated: bool,
}

/// What a worker's reputation rests on.
#[derive(Debug, Clone, PartialEq, Eq)]
pub enum ReputationBasis {
    /// Its own history: nobody shares its wallet.
    OwnHistory,
    /// Nothing: no sibling has a history.
    Bootstrap,
    /// The mean over these siblings, weighted by their observations, of which there are
    /// `total`.
    Weighted { members: Vec<usize>, total: usize },
}

/// Whether a sibling's history counts.
pub open spec fn counts(h: SiblingHistory) -> bool {
    h.observations > 0 && h.rated
}

/// The observations that count, together.
pub open spec fn counted(siblings: Seq<SiblingHistory>) -> int
    decreases siblings.len(),
{
    if siblings.len() == 0 {
        0
    } else {
        counted(siblings.drop_last()) + (if counts(siblings.last()) {
            siblings.last().observations as int
        } else {
            0
        })
    }
}

/// The siblings that count, in order.
pub open spec fn counted_members(siblings: Seq<SiblingHistory>) -> Seq<usize>
    decreases siblings.len(),
{
    if siblings.len() == 0 {
        Seq::empty()
    } else if counts(siblings.last()) {
        counted_members(siblings.drop_last()).push((siblings.len() - 1) as usize)
    } else {
        counted_members(siblings.drop_last())
    }
}

proof fn counted_grows(siblings: Seq<SiblingHistory>, i: int)
    requires
        0 <= i <= siblings.len(),
    ensures
        0 <= counted(siblings.take(i)) <= counted(siblings),
    decreases siblings.len(),
{
    if i == siblings.len() {
        assert(siblings.take(i) =~= siblings);
        if siblings.len() > 0 {
            counted_grows(siblings.drop_last(), i - 1);
            assert(siblings.drop_last().take(i - 1) =~= siblings.drop_last());
        }
    } else {
        counted_grows(siblings.drop_last(), i);
        assert(siblings.drop_last().take(i) =~= siblings.take(i));
    }
}

/// What a worker's reputation rests on, given those who share its wallet. Histories
/// are pooled, so that a new key does not shed an old one.
pub fn reputation_basis(siblings: &[SiblingHistory]) -> (r: ReputationBasis)
    requires
        counted(siblings@) <= usize::MAX,
    ensures
        siblings@.len() <= 1 ==> r is OwnHistory,
        siblings@.len() > 1 && counted(siblings@) == 0 ==> r is Bootstrap,
        siblings@.len() > 1 && counted(siblings@) > 0 ==> r is Weighted && r->total == counted(
            siblings@,
        ) && r->members@ == counted_members(siblings@),
{
    if siblings.len() <= 1 {
        return ReputationBasis::OwnHistory;
    }
    let mut members: Vec<usize> = Vec::new();
    let mut total: usize = 0;
    let mut i: usize = 0;
    assert(members@ =~= Seq::empty());
    while i < siblings.len()
        invariant
            i <= siblings@.len(),
            counted(siblings@) <= usize::MAX,
            total == counted(siblings@.take(i as int)),
            members@ == counted_members(siblings@.take(i as int)),
        decreases siblings@.len() - i,
    {
        proof {
            let next = siblings@.take(i + 1);
            assert(next.drop_last() =~= siblings@.take(i as int));
            assert(next.last() == siblings@[i as int]);
            counted_grows(siblings@, i + 1);
        }
        if siblings[i].observations > 0 && siblings[i].rated {
            total = total + siblings[i].observations;
            members.push(i);
        }
        i = i + 1;
    }
    assert(siblings@.take(i as int) =~= siblings@);
    if total == 0 {
        ReputationBasis::Bootstrap
    } else {
        ReputationBasis::Weighted { members, total }
    }
}

/// What a provider is fined for a broken commitment, given its stake and the
/// configured share of it: nothing without a stake, and never a fine of zero.
pub fn commitment_fine(stake: Amount, share: Amount) -> (r: Option<Amount>)
    ensures
        r == (if stake == 0 || share == 0 {
            None
        } else {
            Some(share)
        }),
{
    if stake == 0 || share == 0 {
        None
    } else {
        Some(share)
    }
}

/// Those that share a wallet are the nodes that are recorded with it, in order.
pub proof fn sharers_have_the_same_wallet(entries: Seq<WalletEntry>, wallet: Seq<char>)
    ensures
        sharing(entries, wallet) == entries.filter(
            |e: WalletEntry| e.wallet@ == wallet,
        ).map_values(|e: WalletEntry| e.node_id@),
    decreases entries.len(),
{
    reveal(Seq::filter);
    let same = |e: WalletEntry| e.wallet@ == wallet;
    let node = |e: WalletEntry| e.node_id@;
    if entries.len() > 0 {
        sharers_have_the_same_wallet(entries.drop_last(), wallet);
        let rest = entries.drop_last().filter(same);
        assert(rest.push(entries.last()).map_values(node) =~= rest.map_values(node).push(
            entries.last().node_id@,
        ));
    } else {
        assert(entries.filter(same).map_values(node) =~= Seq::empty());
    }
}

/// A sibling counts with all its observations where it has any and is rated, and not at
/// all otherwise.
pub proof fn rated_siblings_count(siblings: Seq<SiblingHistory>, more: SiblingHistory)
    requires
        siblings.len() <= usize::MAX,
    ensures
        ({
            let all = siblings.push(more);
            if more.rated && more.observations > 0 {
                &&& counted(all) == counted(siblings) + more.observations
                &&& counted_members(all) == counted_members(siblings).push(siblings.len() as usize)
            } else {
                &&& counted(all) == counted(siblings)
                &&& counted_members(all) == counted_members(siblings)
            }
        }),
        counted(Seq::empty()) == 0,
        counted_members(Seq::empty()).len() == 0,
{
    assert(siblings.push(more).drop_last() =~= siblings);
}

/// Only a paid job of a node with economics goes by the policy of the chain.
pub proof fn free_jobs_have_no_overlay(
    p: SyncedParams,
    paid: bool,
    economics_enabled: bool,
    r: Option<OnchainPolicy>,
)
    requires
        call_ensures(SyncedParams::overlay, (&p, paid, economics_enabled), r),
    ensures
        !paid || !economics_enabled || p@.policy is None ==> r is None,
        paid && economics_enabled && p@.policy is Some ==> r is Some && r->0@ == p@.policy->0,
{
}

/// A node of one wallet goes by its own history, and so does one whose wallet it alone has;
/// others are weighed by the siblings that count, and start afresh where none does.
pub proof fn siblings_share_their_history(siblings: &[SiblingHistory], r: ReputationBasis)
    requires
        counted(siblings@) <= usize::MAX,
        call_ensures(reputation_basis, (siblings,), r),
    ensures
        r is OwnHistory <==> siblings@.len() <= 1,
        r is Weighted <==> siblings@.len() > 1 && counted(siblings@) > 0,
        r is Weighted ==> r->total == counted(siblings@),
{
    counted_grows(siblings@, siblings@.len() as int);
}

/// A fine is the stated share, of a node that has a stake.
pub proof fn fines_are_the_share_of_a_stake(stake: Amount, share: Amount, r: Option<Amount>)
    requires
        call_ensures(commitment_fine, (stake, share), r),
    ensures
        stake > 0 && share > 0 ==> r == Some(share),
        stake == 0 || share == 0 ==> r is None,
{
}

} // verus!
