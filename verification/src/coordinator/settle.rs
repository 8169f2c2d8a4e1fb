//! Paying for a job: the escrow to open, the split to settle, the record to anchor.
//! Each stage is left only through the step that the one before it prepared, so a job
//! is recorded only once it is settled, and settled only out of an escrow that covers it.

use vstd::prelude::*;
use vstd::string::StringSliceAdditionalSpecFns;
use crate::coordinator::metering::{Amount, MeteredTerms, TON_NANOTON};
use crate::digest::{blake3_digest, blake3_hash};
use crate::math::{min_int, sat_mul_u128};
use crate::text::{trim, trim_seq};
use crate::types::NodeId;

verus! {

/// One whole, in basis points.
pub const BPS_DENOM: u128 = 10_000;

/// A payout address: a workchain and a 32-byte account.
#[derive(Debug, Clone, PartialEq, Eq)]
pub struct WalletAddress {
    pub workchain: i32,
    pub account: Vec<u8>,
}

impl View for WalletAddress {
    type V = (i32, Seq<u8>);

    open spec fn view(&self) -> (i32, Seq<u8>) {
        (self.workchain, self.account@)
    }
}

pub open spec fn wallets(v: Seq<WalletAddress>) -> Seq<(i32, Seq<u8>)> {
    v.map_values(|w: WalletAddress| w@)
}

fn bytes_eq(a: &[u8], b: &[u8]) -> (r: bool)
    ensures
        r == (a@ == b@),
{
    if a.len() != b.len() {
        return false;
    }
    let mut i: usize = 0;
    while i < a.len()
        invariant
            i <= a@.len(),
            a@.len() == b@.len(),
            forall|k: int| 0 <= k < i ==> a@[k] == b@[k],
        decreases a@.len() - i,
    {
        if a[i] != b[i] {
            return false;
        }
        i = i + 1;
    }
    assert(a@ =~= b@);
    true
}

fn copy_bytes(a: &[u8]) -> (r: Vec<u8>)
    ensures
        r@ == a@,
{
    let mut r: Vec<u8> = Vec::new();
    let mut i: usize = 0;
    while i < a.len()
        invariant
            i <= a@.len(),
            r@ == a@.take(i as int),
        decreases a@.len() - i,
    {
        r.push(a[i]);
        i = i + 1;
        assert(r@ =~= a@.take(i as int));
    }
    assert(a@.take(i as int) =~= a@);
    r
}

impl WalletAddress {
    pub fn same(&self, other: &WalletAddress) -> (r: bool)
        ensures
            r == (self@ == other@),
    {
        self.workchain == other.workchain && bytes_eq(&self.account, &other.account)
    }

    pub fn duplicate(&self) -> (r: WalletAddress)
        ensures
            r@ == self@,
    {
        WalletAddress { workchain: self.workchain, account: copy_bytes(&self.account) }
    }
}

/// What the node-to-wallet binding says of a node.
#[derive(Debug, Clone, PartialEq, Eq)]
pub enum BindingLookup {
    /// No binding source is wired: every node is payable.
    NotWired,
    /// The node has no wallet.
    Free,
    /// The node is bound to this wallet.
    Bound(WalletAddress),
}

/// A node's settlement address, and whether it can be paid there.
#[derive(Debug, Clone, PartialEq, Eq)]
pub struct Payee {
    pub wallet: WalletAddress,
    pub payable: bool,
}

/// The address of a node: its bound wallet, else what the resolver says, else the
/// digest of its identity on the base workchain.
pub open spec fn wallet_of_spec(
    node: NodeId,
    binding: BindingLookup,
    resolved: Option<WalletAddress>,
) -> (i32, Seq<u8>) {
    match binding {
        BindingLookup::Bound(w) => w@,
        _ => match resolved {
            Some(w) => w@,
            None => (0, blake3_digest(vstd::utf8::encode_utf8(node@))),
        },
    }
}

/// The address used for the candidate set and the winner field. Every node has one.
pub fn wallet_of(
    node: &NodeId,
    binding: &BindingLookup,
    resolved: &Option<WalletAddress>,
) -> (r: WalletAddress)
    ensures
        r@ == wallet_of_spec(*node, *binding, *resolved),
{
    match binding {
        BindingLookup::Bound(w) => w.duplicate(),
        _ => match resolved {
            Some(w) => w.duplicate(),
            None => WalletAddress {
                workchain: 0,
                account: blake3_hash(node.as_str().as_bytes()),
            },
        },
    }
}

/// A node's settlement address and whether it is paid: a node that the binding
/// source knows to have no wallet is not.
pub fn payee_of(
    node: &NodeId,
    binding: &BindingLookup,
    resolved: &Option<WalletAddress>,
) -> (r: Payee)
    ensures
        r.wallet@ == wallet_of_spec(*node, *binding, *resolved),
        r.payable == !(binding is Free),
{
    Payee {
        wallet: wallet_of(node, binding, resolved),
        payable: match binding {
            BindingLookup::Free => false,
            _ => true,
        },
    }
}

/// The metered settlement inputs of the winner.
#[derive(Debug, Clone, Copy, PartialEq, Eq, Structural)]
pub struct MeteredSettle {
    pub terms: MeteredTerms,
    pub billed_seconds: u64,
    /// The estimated scanned bytes (the basis of the byte term).
    pub bytes: u64,
}

/// The escrow of a fixed-price job: the configured ceiling in whole TON, at least one.
pub open spec fn fixed_escrow_spec(max_bid_ton: u64) -> int {
    (if max_bid_ton == 0 {
        1
    } else {
        max_bid_ton as int
    }) * TON_NANOTON
}

pub fn escrow_bid_nanoton(max_bid_ton: u64) -> (r: Amount)
    ensures
        r == fixed_escrow_spec(max_bid_ton),
{
    let whole: u128 = if max_bid_ton == 0 {
        1
    } else {
        max_bid_ton as u128
    };
    assert(whole * TON_NANOTON <= u64::MAX * 1_000_000_000);
    whole * TON_NANOTON
}

/// What the local configuration says about the fee recipient.
#[derive(Debug, Clone, PartialEq, Eq)]
pub enum LocalRecipient {
    /// Nothing, or only white space.
    Unset,
    Wallet(WalletAddress),
    Unparseable,
}

/// What the configuration says about the fee recipient, given what its setting was parsed
/// into.
pub fn local_recipient(setting: &Option<String>, parsed: Option<WalletAddress>) -> (r:
    LocalRecipient)
    ensures
        r == (if setting is Some && trim_seq(setting->0@).len() > 0 {
            match parsed {
                Some(w) => LocalRecipient::Wallet(w),
                None => LocalRecipient::Unparseable,
            }
        } else {
            LocalRecipient::Unset
        }),
{
    match setting {
        Some(text) => {
            if trim(text.as_str()).as_str().is_empty() {
                return LocalRecipient::Unset;
            }
            match parsed {
                Some(w) => LocalRecipient::Wallet(w),
                None => LocalRecipient::Unparseable,
            }
        },
        None => LocalRecipient::Unset,
    }
}

/// Whether the fee recipient is acceptable: where the chain names one, a local
/// setting must parse and agree with it.
pub open spec fn recipient_ok(chain: Option<WalletAddress>, local: LocalRecipient) -> bool {
    match chain {
        Some(c) => match local {
            LocalRecipient::Unset => true,
            LocalRecipient::Wallet(w) => w@ == c@,
            LocalRecipient::Unparseable => false,
        },
        None => true,
    }
}

pub fn fee_recipient_ok(chain: &Option<WalletAddress>, local: &LocalRecipient) -> (r: bool)
    ensures
        r == recipient_ok(*chain, *local),
{
    match chain {
        Some(c) => match local {
            LocalRecipient::Unset => true,
            LocalRecipient::Wallet(w) => w.same(c),
            LocalRecipient::Unparseable => false,
        },
        None => true,
    }
}

/// The addresses in `v`, each once, in the order of their first occurrence.
pub open spec fn distinct(v: Seq<(i32, Seq<u8>)>) -> Seq<(i32, Seq<u8>)>
    decreases v.len(),
{
    if v.len() == 0 {
        Seq::empty()
    } else {
        let rest = distinct(v.drop_last());
        if rest.contains(v.last()) {
            rest
        } else {
            rest.push(v.last())
        }
    }
}

pub open spec fn payee_wallets(v: Seq<Payee>) -> Seq<(i32, Seq<u8>)> {
    v.map_values(|p: Payee| p.wallet@)
}

fn has_wallet(v: &[WalletAddress], w: &WalletAddress) -> (r: bool)
    ensures
        r == wallets(v@).contains(w@),
{
    let mut i: usize = 0;
    while i < v.len()
        invariant
            i <= v@.len(),
            forall|k: int| 0 <= k < i ==> v@[k]@ != w@,
        decreases v@.len() - i,
    {
        if v[i].same(w) {
            assert(wallets(v@)[i as int] == w@);
            return true;
        }
        i = i + 1;
    }
    assert forall|k: int| 0 <= k < wallets(v@).len() implies wallets(v@)[k] != w@ by {}
    false
}

/// The payout-eligible addresses that the escrow commits to: the winner's, then
/// those of the agreeing losers, each once.
pub fn candidate_wallets(winner: &Payee, agreeing: &[Payee]) -> (r: Vec<WalletAddress>)
    ensures
        wallets(r@) == distinct(seq![winner.wallet@] + payee_wallets(agreeing@)),
{
    let mut r: Vec<WalletAddress> = Vec::new();
    r.push(winner.wallet.duplicate());
    let ghost all = seq![winner.wallet@] + payee_wallets(agreeing@);
    let mut i: usize = 0;
    proof {
        assert(all.take(1) =~= seq![winner.wallet@]);
        assert(all.take(1).drop_last() =~= Seq::<(i32, Seq<u8>)>::empty());
        assert(distinct(all.take(1).drop_last()) =~= Seq::<(i32, Seq<u8>)>::empty());
        assert(wallets(r@) =~= distinct(all.take(1)));
    }
    while i < agreeing.len()
        invariant
            i <= agreeing@.len(),
            all == seq![winner.wallet@] + payee_wallets(agreeing@),
            wallets(r@) == distinct(all.take(i + 1)),
        decreases agreeing@.len() - i,
    {
        proof {
            let next = all.take(i + 2);
            assert(next.drop_last() =~= all.take(i + 1));
            assert(next.last() == agreeing@[i as int].wallet@);
        }
        if !has_wallet(&r, &agreeing[i].wallet) {
            let ghost before = r@;
            r.push(agreeing[i].wallet.duplicate());
            assert(wallets(r@) =~= wallets(before).push(agreeing@[i as int].wallet@));
        }
        i = i + 1;
    }
    assert(all.take(i + 1) =~= all);
    r
}

/// The escrow to open for a job.
#[derive(Debug, Clone, PartialEq, Eq)]
pub struct OpenEscrow {
    pub max_bid: Amount,
    /// The digest of the agreed result hash, which locks the escrow.
    pub result_hash: Vec<u8>,
    pub params_version: u32,
    pub candidates: Vec<WalletAddress>,
    pub fee_recipient: Option<WalletAddress>,
}

/// Whether a job is settled at all, and with which escrow. `escrow_total` is the
/// total that a metered job's worst case needs; a fixed-price job locks its
/// configured ceiling. Nothing is opened for a free job, without a rail, or
/// against a disagreeing fee recipient.
pub fn open_escrow(
    paid: bool,
    rail_wired: bool,
    escrow_total: Option<Amount>,
    max_bid_ton: u64,
    agreed_hash: &str,
    params_version: u32,
    winner: &Payee,
    agreeing: &[Payee],
    chain_recipient: &Option<WalletAddress>,
    local_recipient: &LocalRecipient,
) -> (r: Option<OpenEscrow>)
    ensures
        r is Some <==> paid && rail_wired && recipient_ok(*chain_recipient, *local_recipient),
        r is Some ==> {
            let o = r->0;
            &&& o.max_bid == (match escrow_total {
                Some(t) => t as int,
                None => fixed_escrow_spec(max_bid_ton),
            })
            &&& o.result_hash@ == blake3_digest(vstd::utf8::encode_utf8(agreed_hash@))
            &&& o.params_version == params_version
            &&& wallets(o.candidates@) == distinct(
                seq![winner.wallet@] + payee_wallets(agreeing@),
            )
            &&& (o.fee_recipient is Some <==> chain_recipient is Some)
            &&& (chain_recipient is Some ==> o.fee_recipient->0@ == chain_recipient->0@)
        },
{
    if !paid || !rail_wired {
        return None;
    }
    if !fee_recipient_ok(chain_recipient, local_recipient) {
        return None;
    }
    let max_bid: Amount = match escrow_total {
        Some(t) => t,
        None => escrow_bid_nanoton(max_bid_ton),
    };
    let fee_recipient = match chain_recipient {
        Some(w) => Some(w.duplicate()),
        None => None,
    };
    Some(
        OpenEscrow {
            max_bid,
            result_hash: blake3_hash(agreed_hash.as_bytes()),
            params_version,
            candidates: candidate_wallets(winner, agreeing),
            fee_recipient,
        },
    )
}

/// An amount sent to an address.
#[derive(Debug, Clone, PartialEq, Eq)]
pub struct Payout {
    pub to: WalletAddress,
    pub amount: Amount,
}

/// How an escrow is paid out.
#[derive(Debug, Clone, PartialEq, Eq)]
pub struct Split {
    /// The settled price, on which fee and commission are reckoned.
    pub base: Amount,
    pub winner: Payout,
    pub participants: Vec<Payout>,
    pub platform_fee: Amount,
}

/// `base * bps / 10000`, with a saturating product.
pub open spec fn share(base: int, bps: u16) -> int {
    min_int(base * bps, u128::MAX as int) / BPS_DENOM as int
}

/// The settled price: the metered cost, never more than the escrow; or the price
/// at which the full split of `n` commissions spends the escrow.
pub open spec fn base_spec(
    b: Amount,
    metered: Option<MeteredSettle>,
    fee_bps: u16,
    comm_bps: u16,
    n: nat,
) -> int {
    match metered {
        Some(m) => min_int(m.terms.base_for_spec(m.billed_seconds, m.bytes), b as int),
        None => min_int(b * BPS_DENOM, u128::MAX as int) / (BPS_DENOM + fee_bps + n * comm_bps),
    }
}

pub open spec fn payable_wallets(v: Seq<Payee>) -> Seq<(i32, Seq<u8>)>
    decreases v.len(),
{
    if v.len() == 0 {
        Seq::empty()
    } else {
        let rest = payable_wallets(v.drop_last());
        if v.last().payable {
            rest.push(v.last().wallet@)
        } else {
            rest
        }
    }
}

fn share_of(base: Amount, bps: u16) -> (r: Amount)
    ensures
        r == share(base as int, bps),
{
    sat_mul_u128(base, bps as u128) / BPS_DENOM
}

fn fixed_base(b: Amount, fee_bps: u16, comm_bps: u16, n: usize) -> (r: Amount)
    ensures
        r == base_spec(b, None, fee_bps, comm_bps, n as nat),
{
    assert(n * comm_bps <= 0x1_0000_0000_0000_0000 * 0x1_0000) by (nonlinear_arith)
        requires
            0 <= n <= usize::MAX,
            usize::MAX < 0x1_0000_0000_0000_0000,
            0 <= comm_bps <= u16::MAX,
    ;
    let denom: u128 = BPS_DENOM + fee_bps as u128 + n as u128 * comm_bps as u128;
    sat_mul_u128(b, BPS_DENOM) / denom
}

/// Whether a split pays an escrow of `b` out as it should: the winner's price, the
/// platform fee on it, and a commission for each agreeing loser that has a wallet. A
/// winner without one is paid nothing.
pub open spec fn splits(
    s: Split,
    b: Amount,
    metered: Option<MeteredSettle>,
    fee_bps: u16,
    comm_bps: u16,
    winner: Payee,
    agreeing: Seq<Payee>,
) -> bool {
    &&& s.base == base_spec(b, metered, fee_bps, comm_bps, agreeing.len())
    &&& s.winner.to@ == winner.wallet@
    &&& s.winner.amount == (if winner.payable {
        s.base
    } else {
        0
    })
    &&& s.participants@.len() == payable_wallets(agreeing).len()
    &&& forall|i: int|
        0 <= i < s.participants@.len() ==> (#[trigger] s.participants@[i]).to@
            == payable_wallets(agreeing)[i] && s.participants@[i].amount == share(
            s.base as int,
            comm_bps,
        )
    &&& s.platform_fee == share(s.base as int, fee_bps)
}

/// The payout split of an escrow of `b`: the winner's price, the platform fee on
/// it, and a commission for each agreeing loser. A node without a wallet takes part
/// but is paid nothing; what it would have earned stays in the escrow.
pub fn split_escrow(
    b: Amount,
    metered: Option<MeteredSettle>,
    fee_bps: u16,
    comm_bps: u16,
    winner: &Payee,
    agreeing: &[Payee],
) -> (r: Split)
    ensures
        splits(r, b, metered, fee_bps, comm_bps, *winner, agreeing@),
{
    let base: Amount = match metered {
        Some(m) => {
            let cost = m.terms.base_for(m.billed_seconds, m.bytes);
            if cost <= b {
                cost
            } else {
                b
            }
        },
        None => fixed_base(b, fee_bps, comm_bps, agreeing.len()),
    };
    let commission = share_of(base, comm_bps);
    let mut participants: Vec<Payout> = Vec::new();
    let mut i: usize = 0;
    while i < agreeing.len()
        invariant
            i <= agreeing@.len(),
            commission == share(base as int, comm_bps),
            participants@.len() == payable_wallets(agreeing@.take(i as int)).len(),
            forall|k: int|
                0 <= k < participants@.len() ==> (#[trigger] participants@[k]).to@
                    == payable_wallets(agreeing@.take(i as int))[k] && participants@[k].amount
                    == commission,
        decreases agreeing@.len() - i,
    {
        proof {
            let next = agreeing@.take(i + 1);
            assert(next.drop_last() =~= agreeing@.take(i as int));
            assert(next.last() == agreeing@[i as int]);
        }
        if agreeing[i].payable {
            participants.push(
                Payout { to: agreeing[i].wallet.duplicate(), amount: commission },
            );
        }
        i = i + 1;
    }
    assert(agreeing@.take(i as int) =~= agreeing@);
    Split {
        base,
        winner: Payout {
            to: winner.wallet.duplicate(),
            amount: if winner.payable {
                base
            } else {
                0
            },
        },
        participants,
        platform_fee: share_of(base, fee_bps),
    }
}

/// Everything a split pays out when `k` commissions are paid.
pub open spec fn spent(base: int, fee_bps: u16, comm_bps: u16, k: nat) -> int {
    base + share(base, fee_bps) + k * share(base, comm_bps)
}

proof fn share_bound(base: int, bps: u16)
    requires
        0 <= base,
    ensures
        0 <= share(base, bps),
        share(base, bps) * 10_000 <= base * bps,
{
    assert(0 <= base * bps) by (nonlinear_arith)
        requires
            0 <= base,
            0 <= bps,
    ;
}

/// A fixed-price split never spends more than the escrow, however many of the
/// agreeing losers are paid.
pub proof fn fixed_split_fits_escrow(b: Amount, fee_bps: u16, comm_bps: u16, n: nat, k: nat)
    requires
        k <= n,
    ensures
        spent(base_spec(b, None, fee_bps, comm_bps, n), fee_bps, comm_bps, k) <= b,
{
    let base = base_spec(b, None, fee_bps, comm_bps, n);
    let x = min_int(b * BPS_DENOM, u128::MAX as int);
    let f = fee_bps as int;
    let c = comm_bps as int;
    let d = 10_000 + f + n * c;
    assert(n * c >= 0) by (nonlinear_arith)
        requires
            0 <= n,
            0 <= c,
    ;
    assert(0 <= base && base * d <= x) by (nonlinear_arith)
        requires
            base == x / d,
            d > 0,
            x >= 0,
    ;
    share_bound(base, fee_bps);
    share_bound(base, comm_bps);
    let s = share(base, comm_bps);
    assert(k * s <= n * s) by (nonlinear_arith)
        requires
            k <= n,
            0 <= s,
    ;
    assert(n * s * 10_000 <= n * (base * c)) by (nonlinear_arith)
        requires
            s * 10_000 <= base * c,
            0 <= n,
    ;
    assert(base * d == base * 10_000 + base * f + n * (base * c)) by (nonlinear_arith)
        requires
            d == 10_000 + f + n * c,
    ;
}

proof fn share_monotone(a: int, b: int, bps: u16)
    requires
        0 <= a <= b,
    ensures
        share(a, bps) <= share(b, bps),
{
    assert(a * bps <= b * bps) by (nonlinear_arith)
        requires
            a <= b,
            0 <= bps,
    ;
}

/// A metered split fits any escrow that covers the worst case: what is not used
/// stays with the requester.
pub proof fn metered_split_fits_escrow(
    b: Amount,
    m: MeteredSettle,
    fee_bps: u16,
    comm_bps: u16,
    n: nat,
    k: nat,
)
    requires
        k <= n,
        spent(m.terms.cap_base_spec(m.bytes), fee_bps, comm_bps, n) <= b,
    ensures
        spent(base_spec(b, Some(m), fee_bps, comm_bps, n), fee_bps, comm_bps, k) <= b,
        base_spec(b, Some(m), fee_bps, comm_bps, n) == m.terms.base_for_spec(
            m.billed_seconds,
            m.bytes,
        ),
{
    let base = m.terms.base_for_spec(m.billed_seconds, m.bytes);
    let cap = m.terms.cap_base_spec(m.bytes);
    crate::coordinator::metering::base_never_exceeds_cap(m.terms, m.billed_seconds, m.bytes);
    cost_is_not_negative(m.terms, m.billed_seconds, m.bytes);
    share_monotone(base, cap, fee_bps);
    share_monotone(base, cap, comm_bps);
    share_bound(base, comm_bps);
    share_bound(cap, comm_bps);
    share_bound(cap, fee_bps);
    let s = share(base, comm_bps);
    let t = share(cap, comm_bps);
    assert(0 <= k * s && k * s <= n * t && 0 <= n * t) by (nonlinear_arith)
        requires
            k <= n,
            0 <= s <= t,
            0 <= k,
    ;
}

proof fn cost_is_not_negative(t: MeteredTerms, billed: u64, bytes: u64)
    ensures
        0 <= t.base_for_spec(billed, bytes),
        0 <= t.cap_base_spec(bytes),
{
    let s = if billed <= t.cap_seconds {
        billed
    } else {
        t.cap_seconds
    };
    assert(0 <= t.rate_per_second * s && 0 <= t.rate_per_second * t.cap_seconds && 0
        <= t.rate_per_gb * bytes) by (nonlinear_arith)
        requires
            0 <= t.rate_per_second,
            0 <= s,
            0 <= t.cap_seconds,
            0 <= t.rate_per_gb,
            0 <= bytes,
    ;
}

/// The record of a settled job.
#[derive(Debug, Clone, PartialEq, Eq)]
pub struct JobRecord {
    pub job_id: String,
    pub query_hash: String,
    pub requester_wallet: WalletAddress,
    pub max_bid: Amount,
    pub result_hash: String,
    pub epoch: u64,
    pub prev_root: Vec<u8>,
    pub params_version: u32,
    pub input_fingerprint: String,
}

/// The record to anchor once a job is settled. It opens no chain of its own: the
/// epoch and the previous root are zero.
pub fn job_record(
    job_id: &str,
    query_hash: &str,
    requester: &Payee,
    escrowed: Amount,
    agreed_hash: &str,
    params_version: u32,
    input_fingerprint: &Option<String>,
) -> (r: JobRecord)
    ensures
        r.job_id@ == job_id@,
        r.query_hash@ == query_hash@,
        r.requester_wallet@ == requester.wallet@,
        r.max_bid == escrowed,
        r.result_hash@ == agreed_hash@,
        r.epoch == 0,
        r.prev_root@ == Seq::new(32, |i: int| 0u8),
        r.params_version == params_version,
        r.input_fingerprint@ == (match input_fingerprint {
            Some(f) => f@,
            None => Seq::empty(),
        }),
{
    let mut prev_root: Vec<u8> = Vec::new();
    let mut i: usize = 0;
    while i < 32
        invariant
            i <= 32,
            prev_root@ == Seq::new(i as nat, |k: int| 0u8),
        decreases 32 - i,
    {
        prev_root.push(0);
        i = i + 1;
        assert(prev_root@ =~= Seq::new(i as nat, |k: int| 0u8));
    }
    let fingerprint = match input_fingerprint {
        Some(f) => f.clone(),
        None => String::new(),
    };
    JobRecord {
        job_id: job_id.to_owned(),
        query_hash: query_hash.to_owned(),
        requester_wallet: requester.wallet.duplicate(),
        max_bid: escrowed,
        result_hash: agreed_hash.to_owned(),
        epoch: 0,
        prev_root,
        params_version,
        input_fingerprint: fingerprint,
    }
}

/// A job to be settled: what was agreed, at which price, and who is to be paid.
#[derive(Debug, Clone, PartialEq, Eq)]
pub struct SettleJob {
    pub job_id: String,
    pub query_hash: String,
    pub agreed_hash: String,
    pub params_version: u32,
    pub input_fingerprint: Option<String>,
    pub metered: Option<MeteredSettle>,
    pub fee_bps: u16,
    pub comm_bps: u16,
    pub winner: Payee,
    pub agreeing: Vec<Payee>,
}

/// The dearest a metered job can become: its price, how many commissions go with it, and
/// the shares that fee and commission are reckoned by.
#[derive(Debug, Clone, Copy, PartialEq, Eq, Structural)]
pub struct WorstCase {
    pub base: Amount,
    pub verifiers: usize,
    pub fee_bps: u16,
    pub comm_bps: u16,
}

/// A job whose escrow is being opened.
#[derive(Debug)]
pub struct Opening {
    job: SettleJob,
}

impl Opening {
    pub closed spec fn job_spec(&self) -> SettleJob {
        self.job
    }
}

/// A job whose escrow is open.
#[derive(Debug)]
pub struct Splitting {
    job: SettleJob,
    escrowed: Amount,
    split: Split,
}

/// A job whose split the escrow covers.
#[derive(Debug)]
pub struct Payable {
    job: SettleJob,
    escrowed: Amount,
    split: Split,
}

/// Whether an escrow covers a price, the fee on it and the commissions.
#[derive(Debug, Clone, Copy, PartialEq, Eq, Structural)]
pub struct CoverQuestion {
    pub escrow: Amount,
    pub base: Amount,
    pub verifiers: usize,
    pub fee_bps: u16,
    pub comm_bps: u16,
}

impl SettleJob {
    /// The worst case that the escrow of a metered job is sized for.
    pub fn worst_case(&self) -> (r: Option<WorstCase>)
        ensures
            r is Some <==> self.metered is Some,
            r is Some ==> {
                &&& r->0.base == self.metered->0.terms.cap_base_spec(self.metered->0.bytes)
                &&& r->0.verifiers == self.agreeing@.len()
                &&& r->0.fee_bps == self.fee_bps
                &&& r->0.comm_bps == self.comm_bps
            },
    {
        match &self.metered {
            Some(m) => Some(
                WorstCase {
                    base: m.terms.cap_base(m.bytes),
                    verifiers: self.agreeing.len(),
                    fee_bps: self.fee_bps,
                    comm_bps: self.comm_bps,
                },
            ),
            None => None,
        }
    }

    /// Whether the job is settled at all, and with which escrow: that of a metered job is
    /// `escrow_total`, which is what [`SettleJob::worst_case`] needs in all, and that of
    /// any other job its fixed price.
    pub fn open(
        self,
        paid: bool,
        rail_wired: bool,
        escrow_total: Option<Amount>,
        max_bid_ton: u64,
        chain_recipient: &Option<WalletAddress>,
        local_recipient: &LocalRecipient,
    ) -> (r: Option<(Opening, OpenEscrow)>)
        requires
            escrow_total is Some <==> self.metered is Some,
        ensures
            r is Some <==> paid && rail_wired && recipient_ok(*chain_recipient, *local_recipient),
            r matches Some((opening, o)) ==> {
                &&& opening.job_spec() == self
                &&& o.max_bid == (match self.metered {
                    Some(_) => escrow_total->0 as int,
                    None => fixed_escrow_spec(max_bid_ton),
                })
                &&& o.result_hash@ == blake3_digest(vstd::utf8::encode_utf8(self.agreed_hash@))
                &&& o.params_version == self.params_version
                &&& wallets(o.candidates@) == distinct(
                    seq![self.winner.wallet@] + payee_wallets(self.agreeing@),
                )
                &&& (o.fee_recipient is Some <==> chain_recipient is Some)
                &&& (chain_recipient is Some ==> o.fee_recipient->0@ == chain_recipient->0@)
            },
    {
        match open_escrow(
            paid,
            rail_wired,
            escrow_total,
            max_bid_ton,
            self.agreed_hash.as_str(),
            self.params_version,
            &self.winner,
            &self.agreeing,
            chain_recipient,
            local_recipient,
        ) {
            Some(o) => Some((Opening { job: self }, o)),
            None => None,
        }
    }
}

impl Opening {
    /// Split the escrow, once it is open and holds `escrowed`.
    pub fn opened(self, escrowed: Amount) -> (r: Splitting)
        ensures
            r.job_spec() == self.job_spec(),
            r.escrowed_spec() == escrowed,
            r.well_split(),
    {
        let split = split_escrow(
            escrowed,
            self.job.metered,
            self.job.fee_bps,
            self.job.comm_bps,
            &self.job.winner,
            &self.job.agreeing,
        );
        Splitting { job: self.job, escrowed, split }
    }
}

impl Splitting {
    pub closed spec fn job_spec(&self) -> SettleJob {
        self.job
    }

    pub closed spec fn escrowed_spec(&self) -> Amount {
        self.escrowed
    }

    pub closed spec fn split_spec(&self) -> Split {
        self.split
    }

    pub open spec fn well_split(&self) -> bool {
        let j = self.job_spec();
        splits(
            self.split_spec(),
            self.escrowed_spec(),
            j.metered,
            j.fee_bps,
            j.comm_bps,
            j.winner,
            j.agreeing@,
        )
    }

    /// The question to have answered before anything is paid.
    pub fn question(&self) -> (r: CoverQuestion)
        ensures
            r.escrow == self.escrowed_spec(),
            r.base == self.split_spec().base,
            r.verifiers == self.split_spec().participants@.len(),
            r.fee_bps == self.job_spec().fee_bps,
            r.comm_bps == self.job_spec().comm_bps,
    {
        CoverQuestion {
            escrow: self.escrowed,
            base: self.split.base,
            verifiers: self.split.participants.len(),
            fee_bps: self.job.fee_bps,
            comm_bps: self.job.comm_bps,
        }
    }

    /// Go on to pay, unless the escrow does not cover the split: nobody is paid less
    /// than their share. `coverage` is the answer to [`Splitting::question`].
    pub fn covered(self, coverage: Result<(), String>) -> (r: Result<Payable, String>)
        ensures
            r is Ok <==> coverage is Ok,
            r is Err ==> r->Err_0 == coverage->Err_0,
            r is Ok ==> {
                &&& r->Ok_0.job_spec() == self.job_spec()
                &&& r->Ok_0.escrowed_spec() == self.escrowed_spec()
                &&& r->Ok_0.split_spec() == self.split_spec()
            },
    {
        match coverage {
            Ok(_) => Ok(
                Payable { job: self.job, escrowed: self.escrowed, split: self.split },
            ),
            Err(text) => Err(text),
        }
    }
}

impl Payable {
    pub closed spec fn job_spec(&self) -> SettleJob {
        self.job
    }

    pub closed spec fn escrowed_spec(&self) -> Amount {
        self.escrowed
    }

    pub closed spec fn split_spec(&self) -> Split {
        self.split
    }

    /// The split to settle.
    pub fn split(&self) -> (r: &Split)
        ensures
            *r == self.split_spec(),
    {
        &self.split
    }

    /// The record to anchor, once the split is settled.
    pub fn settled(self, requester: &Payee) -> (r: JobRecord)
        ensures
            r.records(self.job_spec(), self.escrowed_spec(), *requester),
    {
        job_record(
            self.job.job_id.as_str(),
            self.job.query_hash.as_str(),
            requester,
            self.escrowed,
            self.job.agreed_hash.as_str(),
            self.job.params_version,
            &self.job.input_fingerprint,
        )
    }
}

impl JobRecord {
    /// Whether this is the record of a job that was settled out of `escrowed`.
    pub open spec fn records(self, j: SettleJob, escrowed: Amount, requester: Payee) -> bool {
        &&& self.job_id@ == j.job_id@
        &&& self.query_hash@ == j.query_hash@
        &&& self.requester_wallet@ == requester.wallet@
        &&& self.max_bid == escrowed
        &&& self.result_hash@ == j.agreed_hash@
        &&& self.epoch == 0
        &&& self.prev_root@ == Seq::new(32, |i: int| 0u8)
        &&& self.params_version == j.params_version
        &&& self.input_fingerprint@ == (match j.input_fingerprint {
            Some(f) => f@,
            None => Seq::empty(),
        })
    }
}

/// Whether `part` is `bps` ten-thousandths of `whole`, rounded down.
pub open spec fn is_share(part: int, whole: int, bps: int) -> bool {
    part * 10_000 <= whole * bps && whole * bps < (part + 1) * 10_000
}

proof fn shares_are_rounded_down(base: int, bps: u16)
    requires
        0 <= base,
        base * bps <= u128::MAX,
    ensures
        is_share(share(base, bps), base, bps as int),
{
    assert(0 <= base * bps) by (nonlinear_arith)
        requires
            0 <= base,
            0 <= bps,
    ;
}

proof fn paid_wallets_are_filtered(v: Seq<Payee>)
    ensures
        payable_wallets(v) == v.filter(|p: Payee| p.payable).map_values(|p: Payee| p.wallet@),
    decreases v.len(),
{
    reveal(Seq::filter);
    let pays = |p: Payee| p.payable;
    let wallet = |p: Payee| p.wallet@;
    if v.len() == 0 {
        assert(v.filter(pays).map_values(wallet) =~= Seq::empty());
    } else {
        paid_wallets_are_filtered(v.drop_last());
        let rest = v.drop_last().filter(pays);
        assert(rest.push(v.last()).map_values(wallet) =~= rest.map_values(wallet).push(
            v.last().wallet@,
        ));
    }
}

/// A split pays the winner its price, the platform its share of that price, and every
/// agreeing loser with a wallet a share of the same price, however many there are.
pub proof fn everyone_gets_their_share(
    s: Split,
    b: Amount,
    metered: Option<MeteredSettle>,
    fee_bps: u16,
    comm_bps: u16,
    winner: Payee,
    agreeing: Seq<Payee>,
)
    requires
        splits(s, b, metered, fee_bps, comm_bps, winner, agreeing),
    ensures
        s.winner.to@ == winner.wallet@,
        s.winner.amount == (if winner.payable {
            s.base as int
        } else {
            0
        }),
        s.base * fee_bps <= u128::MAX ==> is_share(
            s.platform_fee as int,
            s.base as int,
            fee_bps as int,
        ),
        ({
            let paid = agreeing.filter(|p: Payee| p.payable);
            &&& s.participants@.len() == paid.len()
            &&& forall|i: int|
                0 <= i < paid.len() ==> (#[trigger] s.participants@[i]).to@ == paid[i].wallet@
            &&& s.base * comm_bps <= u128::MAX ==> forall|i: int|
                0 <= i < paid.len() ==> is_share(
                    (#[trigger] s.participants@[i]).amount as int,
                    s.base as int,
                    comm_bps as int,
                )
        }),
{
    paid_wallets_are_filtered(agreeing);
    if s.base * fee_bps <= u128::MAX {
        shares_are_rounded_down(s.base as int, fee_bps);
    }
    if s.base * comm_bps <= u128::MAX {
        shares_are_rounded_down(s.base as int, comm_bps);
    }
}

/// What stands in a list of payouts.
pub open spec fn paid_out(v: Seq<Payout>) -> int
    decreases v.len(),
{
    if v.len() == 0 {
        0
    } else {
        paid_out(v.drop_last()) + v.last().amount
    }
}

proof fn equal_payouts(v: Seq<Payout>, amount: int)
    requires
        forall|i: int| 0 <= i < v.len() ==> (#[trigger] v[i]).amount == amount,
    ensures
        paid_out(v) == v.len() * amount,
    decreases v.len(),
{
    if v.len() > 0 {
        assert(v[v.len() - 1].amount == amount);
        equal_payouts(v.drop_last(), amount);
        assert((v.len() - 1) * amount + amount == v.len() * amount) by (nonlinear_arith);
    }
}

proof fn fewer_are_paid(v: Seq<Payee>)
    ensures
        payable_wallets(v).len() <= v.len(),
    decreases v.len(),
{
    if v.len() > 0 {
        fewer_are_paid(v.drop_last());
    }
}

/// The payouts that stand in a fixed-price split never come to more than the escrow, and
/// they come to all but a remainder of it where everybody has a wallet: the price is the
/// highest that the escrow carries.
pub proof fn a_fixed_price_spends_the_escrow(
    s: Split,
    b: Amount,
    fee_bps: u16,
    comm_bps: u16,
    winner: Payee,
    agreeing: Seq<Payee>,
)
    requires
        splits(s, b, None, fee_bps, comm_bps, winner, agreeing),
    ensures
        s.winner.amount + s.platform_fee + paid_out(s.participants@) <= b,
        b * 10_000 <= u128::MAX ==> s.base * (10_000 + fee_bps + agreeing.len() * comm_bps) <= b
            * 10_000,
        b * 10_000 <= u128::MAX ==> b * 10_000 < (s.base + 1) * (10_000 + fee_bps + agreeing.len()
            * comm_bps),
{
    let n = agreeing.len();
    let k = payable_wallets(agreeing).len();
    fewer_are_paid(agreeing);
    fixed_split_fits_escrow(b, fee_bps, comm_bps, n, k);
    share_bound(s.base as int, fee_bps);
    equal_payouts(s.participants@, share(s.base as int, comm_bps));
    let d = 10_000 + fee_bps + n * comm_bps;
    assert(n * comm_bps >= 0) by (nonlinear_arith)
        requires
            0 <= n,
            0 <= comm_bps,
    ;
    if b * 10_000 <= u128::MAX {
        let x = b * 10_000;
        let base = s.base as int;
        assert(base * d <= x && x < (base + 1) * d) by (nonlinear_arith)
            requires
                base == x / d,
                d > 0,
                x >= 0,
        ;
    }
}

/// The price of a metered job is its metered cost, unless the escrow holds less; and the
/// payouts of its split come to no more than an escrow that covers the worst case.
pub proof fn a_metered_price_is_its_cost(
    s: Split,
    b: Amount,
    m: MeteredSettle,
    fee_bps: u16,
    comm_bps: u16,
    winner: Payee,
    agreeing: Seq<Payee>,
)
    requires
        splits(s, b, Some(m), fee_bps, comm_bps, winner, agreeing),
    ensures
        s.base <= b,
        s.base <= m.terms.base_for_spec(m.billed_seconds, m.bytes),
        s.base == b || s.base == m.terms.base_for_spec(m.billed_seconds, m.bytes),
        spent(m.terms.cap_base_spec(m.bytes), fee_bps, comm_bps, agreeing.len()) <= b
            ==> s.winner.amount + s.platform_fee + paid_out(s.participants@) <= b,
{
    let k = payable_wallets(agreeing).len();
    fewer_are_paid(agreeing);
    equal_payouts(s.participants@, share(s.base as int, comm_bps));
    share_bound(s.base as int, fee_bps);
    if spent(m.terms.cap_base_spec(m.bytes), fee_bps, comm_bps, agreeing.len()) <= b {
        metered_split_fits_escrow(b, m, fee_bps, comm_bps, agreeing.len(), k);
    }
}

/// The addresses that an escrow commits to are those of the winner and of every agreeing
/// loser, each once, and the winner's comes first.
pub proof fn candidates_are_all_named_once(v: Seq<(i32, Seq<u8>)>, w: (i32, Seq<u8>))
    ensures
        distinct(v).no_duplicates(),
        distinct(v).contains(w) == v.contains(w),
        v.len() > 0 ==> distinct(v).len() > 0 && distinct(v)[0] == v[0],
    decreases v.len(),
{
    if v.len() > 0 {
        let rest = v.drop_last();
        candidates_are_all_named_once(rest, w);
        candidates_are_all_named_once(rest, v.last());
        assert(v =~= rest.push(v.last()));
        if v.contains(w) {
            let i = choose|i: int| 0 <= i < v.len() && v[i] == w;
            if i < rest.len() {
                assert(rest[i] == w);
            }
        }
        if rest.contains(w) {
            let i = choose|i: int| 0 <= i < rest.len() && rest[i] == w;
            assert(v[i] == w);
        }
        assert(v[v.len() - 1] == v.last());
        let d = distinct(rest);
        if !d.contains(v.last()) {
            let e = d.push(v.last());
            if d.contains(w) {
                let i = choose|i: int| 0 <= i < d.len() && d[i] == w;
                assert(e[i] == w);
            }
            if e.contains(w) {
                let i = choose|i: int| 0 <= i < e.len() && e[i] == w;
                if i < d.len() {
                    assert(d[i] == w);
                }
            }
            assert(e[d.len() as int] == v.last());
            if v.last() == w {
                assert(e.contains(w));
            }
        }
        if rest.len() > 0 {
            assert(rest[0] == v[0]);
        }
    }
}

/// A fixed-price escrow holds the configured number of whole TON, and one where none is
/// configured.
pub proof fn fixed_escrow_is_in_whole_ton(ton: u64)
    ensures
        ton > 0 ==> fixed_escrow_spec(ton) == ton * 1_000_000_000,
        fixed_escrow_spec(0) == fixed_escrow_spec(1),
{
}

/// The chain's fee recipient is never overridden: where there is one, a local setting
/// stops the settlement unless it names the same wallet.
pub proof fn the_chain_names_the_recipient(chain: WalletAddress, local: LocalRecipient)
    ensures
        recipient_ok(None, local),
        recipient_ok(Some(chain), local) == (local is Unset || (local is Wallet
            && local->Wallet_0@ == chain@)),
{
}

/// A node is paid at the wallet that it is bound to, before any other; without one it has
/// the resolver's address, and else one of its own.
pub proof fn bound_wallets_come_first(
    node: NodeId,
    binding: BindingLookup,
    resolved: Option<WalletAddress>,
)
    ensures
        binding is Bound ==> wallet_of_spec(node, binding, resolved) == binding->Bound_0@,
        !(binding is Bound) && resolved is Some ==> wallet_of_spec(node, binding, resolved)
            == resolved->0@,
        !(binding is Bound) && resolved is None ==> wallet_of_spec(node, binding, resolved).0 == 0
            && wallet_of_spec(node, binding, resolved).1 == blake3_digest(
            vstd::utf8::encode_utf8(node@),
        ),
{
}

/// Only a node without any binding cannot be paid.
pub proof fn bound_nodes_are_payable(
    node: NodeId,
    binding: BindingLookup,
    resolved: Option<WalletAddress>,
    r: Payee,
)
    requires
        call_ensures(payee_of, (&node, &binding, &resolved), r),
    ensures
        !r.payable <==> binding is Free,
{
}

/// A configured recipient that is blank is no recipient; any other one is its wallet, or
/// unparseable.
pub proof fn a_blank_recipient_is_unset(
    setting: Option<String>,
    parsed: Option<WalletAddress>,
    r: LocalRecipient,
)
    requires
        call_ensures(local_recipient, (&setting, parsed), r),
    ensures
        setting is None ==> r is Unset,
        setting is Some && trim_seq(setting->0@).len() == 0 ==> r is Unset,
        setting is Some && trim_seq(setting->0@).len() > 0 && parsed is Some ==> r
            == LocalRecipient::Wallet(parsed->0),
        setting is Some && trim_seq(setting->0@).len() > 0 && parsed is None ==> r is Unparseable,
{
}

/// A job that is opened keeps its parties, and its escrow holds the worst case of a metered
/// job, and the fixed price of any other.
pub proof fn openings_escrow_the_job(
    job: SettleJob,
    paid: bool,
    rail_wired: bool,
    escrow_total: Option<Amount>,
    max_bid_ton: u64,
    chain: Option<WalletAddress>,
    local: LocalRecipient,
    r: Option<(Opening, OpenEscrow)>,
)
    requires
        escrow_total is Some <==> job.metered is Some,
        call_ensures(
            SettleJob::open,
            (job, paid, rail_wired, escrow_total, max_bid_ton, &chain, &local),
            r,
        ),
    ensures
        !paid || !rail_wired ==> r is None,
        paid && rail_wired && chain is None ==> r is Some,
        r matches Some((opening, o)) ==> {
            &&& opening.job_spec() == job
            &&& job.metered is Some ==> o.max_bid == escrow_total->0
            &&& job.metered is None && max_bid_ton > 0 ==> o.max_bid == max_bid_ton * 1_000_000_000
            &&& o.params_version == job.params_version
            &&& wallets(o.candidates@).contains(job.winner.wallet@)
            &&& chain is Some ==> o.fee_recipient is Some && o.fee_recipient->0@ == chain->0@
            &&& chain is None ==> o.fee_recipient is None
        },
{
    if r is Some {
        let all = seq![job.winner.wallet@] + payee_wallets(job.agreeing@);
        candidates_are_all_named_once(all, job.winner.wallet@);
        assert(all[0] == job.winner.wallet@);
        assert(all.contains(job.winner.wallet@));
    }
    fixed_escrow_is_in_whole_ton(max_bid_ton);
}

/// A payout that is not covered is not made, and one that is keeps the job and its split.
pub proof fn uncovered_payouts_are_not_made(
    s: Splitting,
    coverage: Result<(), String>,
    r: Result<Payable, String>,
)
    requires
        call_ensures(Splitting::covered, (s, coverage), r),
    ensures
        coverage is Err <==> r is Err,
        r is Err ==> r->Err_0 == coverage->Err_0,
        r is Ok ==> r->Ok_0.split_spec() == s.split_spec() && r->Ok_0.escrowed_spec()
            == s.escrowed_spec(),
{
}

/// The record of a settled job: what was asked, what was agreed, what was escrowed, by whom,
/// and at which version of the rules. It is the first of its chain.
pub proof fn settled_jobs_are_recorded(s: Payable, requester: Payee, r: JobRecord)
    requires
        call_ensures(Payable::settled, (s, &requester), r),
    ensures
        r.job_id@ == s.job_spec().job_id@ && r.query_hash@ == s.job_spec().query_hash@,
        r.result_hash@ == s.job_spec().agreed_hash@,
        r.max_bid == s.escrowed_spec(),
        r.requester_wallet@ == requester.wallet@,
        r.params_version == s.job_spec().params_version,
        r.epoch == 0,
        r.prev_root@.len() == 32,
        forall|i: int| 0 <= i < 32 ==> #[trigger] r.prev_root@[i] == 0,
        s.job_spec().input_fingerprint is None ==> r.input_fingerprint@.len() == 0,
        s.job_spec().input_fingerprint is Some ==> r.input_fingerprint@
            == s.job_spec().input_fingerprint->0@,
{
}

} // verus!
