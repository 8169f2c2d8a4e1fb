//! Time-based pricing: what a metered job costs and what it may cost at most.

use vstd::prelude::*;
use crate::math::{min_int, min_u64, sat_add_u128, sat_mul_u128};
use crate::ranking::{ascending, sort_u64};
use crate::types::Bid;

verus! {

/// An amount of money in nanoton.
pub type Amount = u128;

/// Bytes in one GiB.
pub const GIB_BYTES: u128 = 1_073_741_824;

/// Nanoton in one whole TON.
pub const TON_NANOTON: u128 = 1_000_000_000;

/// The time-based pricing terms of a bid that advertised a rate.
#[derive(Debug, Clone, Copy, PartialEq, Eq, Structural)]
pub struct MeteredTerms {
    /// Per-second rate in nanoton.
    pub rate_per_second: Amount,
    /// Per-GiB rate in nanoton.
    pub rate_per_gb: Amount,
    /// Billing ceiling and hard execution deadline, in seconds.
    pub cap_seconds: u64,
}

/// The metered terms a bid carries, if it advertises a rate.
pub open spec fn terms_of(bid: Bid) -> Option<MeteredTerms> {
    if bid.rate_per_second == 0 {
        None
    } else {
        Some(
            MeteredTerms {
                rate_per_second: bid.rate_per_second as u128,
                rate_per_gb: bid.rate_per_gb as u128,
                cap_seconds: if bid.cap_seconds == 0 {
                    1
                } else {
                    bid.cap_seconds
                },
            },
        )
    }
}

impl MeteredTerms {
    pub fn from_bid(bid: &Bid) -> (r: Option<MeteredTerms>)
        ensures
            r == terms_of(*bid),
    {
        if bid.rate_per_second == 0 {
            return None;
        }
        Some(
            MeteredTerms {
                rate_per_second: bid.rate_per_second as u128,
                rate_per_gb: bid.rate_per_gb as u128,
                cap_seconds: if bid.cap_seconds == 0 {
                    1
                } else {
                    bid.cap_seconds
                },
            },
        )
    }

    /// What `bytes` of input cost, in whole GiB steps of the rate.
    pub open spec fn bytes_term_spec(self, bytes: u64) -> int {
        min_int(self.rate_per_gb * bytes, u128::MAX as int) / GIB_BYTES as int
    }

    /// What `seconds` of processing and `bytes` of input cost together.
    pub open spec fn cost_spec(self, seconds: u64, bytes: u64) -> int {
        min_int(
            min_int(self.rate_per_second * seconds, u128::MAX as int) + self.bytes_term_spec(bytes),
            u128::MAX as int,
        )
    }

    /// The most the job can cost.
    pub open spec fn cap_base_spec(self, bytes: u64) -> int {
        self.cost_spec(self.cap_seconds, bytes)
    }

    /// The price of a job billed for `billed_seconds`, never past the cap.
    pub open spec fn base_for_spec(self, billed_seconds: u64, bytes: u64) -> int {
        self.cost_spec(
            if billed_seconds <= self.cap_seconds {
                billed_seconds
            } else {
                self.cap_seconds
            },
            bytes,
        )
    }

    pub fn bytes_term(&self, bytes: u64) -> (r: Amount)
        ensures
            r == self.bytes_term_spec(bytes),
    {
        sat_mul_u128(self.rate_per_gb, bytes as u128) / GIB_BYTES
    }

    pub fn cap_base(&self, bytes: u64) -> (r: Amount)
        ensures
            r == self.cap_base_spec(bytes),
    {
        sat_add_u128(
            sat_mul_u128(self.rate_per_second, self.cap_seconds as u128),
            self.bytes_term(bytes),
        )
    }

    pub fn base_for(&self, billed_seconds: u64, bytes: u64) -> (r: Amount)
        ensures
            r == self.base_for_spec(billed_seconds, bytes),
    {
        let secs: u64 = min_u64(billed_seconds, self.cap_seconds);
        sat_add_u128(sat_mul_u128(self.rate_per_second, secs as u128), self.bytes_term(bytes))
    }
}

/// A settled price never exceeds the worst case the escrow was sized for.
pub proof fn base_never_exceeds_cap(t: MeteredTerms, billed: u64, bytes: u64)
    ensures
        t.base_for_spec(billed, bytes) <= t.cap_base_spec(bytes),
{
    let s = if billed <= t.cap_seconds {
        billed
    } else {
        t.cap_seconds
    };
    assert(t.rate_per_second * s <= t.rate_per_second * t.cap_seconds) by (nonlinear_arith)
        requires
            s <= t.cap_seconds,
            0 <= t.rate_per_second,
    ;
}

/// More billed seconds never cost less.
pub proof fn base_is_monotone_in_seconds(t: MeteredTerms, a: u64, b: u64, bytes: u64)
    requires
        a <= b,
    ensures
        t.base_for_spec(a, bytes) <= t.base_for_spec(b, bytes),
{
    let x = if a <= t.cap_seconds {
        a
    } else {
        t.cap_seconds
    };
    let y = if b <= t.cap_seconds {
        b
    } else {
        t.cap_seconds
    };
    assert(t.rate_per_second * x <= t.rate_per_second * y) by (nonlinear_arith)
        requires
            x <= y,
            0 <= t.rate_per_second,
    ;
}

/// The price used to rank a bid: the per-second rate where there is one, else
/// the fixed price.
pub open spec fn price_signal(bid: Bid) -> u64 {
    if bid.rate_per_second > 0 {
        bid.rate_per_second
    } else {
        bid.price
    }
}

pub fn bid_price_signal(bid: &Bid) -> (r: u64)
    ensures
        r == price_signal(*bid),
{
    if bid.rate_per_second > 0 {
        bid.rate_per_second
    } else {
        bid.price
    }
}

/// The middle of an ascending sequence: the middle element, or the floored mean
/// of the two middle ones; `0` when there is none.
pub open spec fn middle(s: Seq<u64>) -> int {
    let n = s.len() as int;
    if n == 0 {
        0
    } else if n % 2 == 1 {
        s[n / 2] as int
    } else {
        (s[n / 2 - 1] + s[n / 2]) / 2
    }
}

/// `m` is the median of `s`: the middle of every ascending arrangement of `s`.
pub open spec fn is_median(s: Seq<u64>, m: u64) -> bool {
    &&& exists|w: Seq<u64>| #[trigger] ascending(w) && w.to_multiset() == s.to_multiset() && m == middle(w)
    &&& forall|w: Seq<u64>| #[trigger] ascending(w) && w.to_multiset() == s.to_multiset() ==> m == middle(w)
}

proof fn ascending_unique(a: Seq<u64>, b: Seq<u64>)
    requires
        ascending(a),
        ascending(b),
        a.to_multiset() == b.to_multiset(),
    ensures
        a == b,
{
    let leq = |x: u64, y: u64| x <= y;
    assert(vstd::relations::sorted_by(a, leq));
    assert(vstd::relations::sorted_by(b, leq));
    assert(vstd::relations::total_ordering(leq));
    vstd::seq_lib::lemma_sorted_unique(a, b, leq);
}

/// Median of a list of latencies in milliseconds; `0` for an empty list.
pub fn median_ms(latencies: &[u64]) -> (r: u64)
    ensures
        is_median(latencies@, r),
{
    let v = sort_u64(latencies);
    let n: usize = v.len();
    let r: u64 = if n == 0 {
        0
    } else if n % 2 == 1 {
        v[n / 2]
    } else {
        ((v[n / 2 - 1] as u128 + v[n / 2] as u128) / 2) as u64
    };
    proof {
        assert(r == middle(v@));
        assert(ascending(v@) && v@.to_multiset() == latencies@.to_multiset());
        assert forall|w: Seq<u64>| #[trigger] ascending(w) && w.to_multiset()
            == latencies@.to_multiset() implies r == middle(w) by {
            ascending_unique(w, v@);
        }
    }
    r
}

/// How many entries are no more than `x`.
pub open spec fn at_most(s: Seq<u64>, x: u64) -> nat
    decreases s.len(),
{
    if s.len() == 0 {
        0
    } else {
        at_most(s.drop_last(), x) + (if s.last() <= x {
            1nat
        } else {
            0nat
        })
    }
}

/// How many entries are no less than `x`.
pub open spec fn at_least(s: Seq<u64>, x: u64) -> nat
    decreases s.len(),
{
    if s.len() == 0 {
        0
    } else {
        at_least(s.drop_last(), x) + (if s.last() >= x {
            1nat
        } else {
            0nat
        })
    }
}

proof fn counted_in_multiset(s: Seq<u64>, x: u64)
    ensures
        at_most(s, x) == s.to_multiset().filter(|y: u64| y <= x).len(),
        at_least(s, x) == s.to_multiset().filter(|y: u64| y >= x).len(),
    decreases s.len(),
{
    broadcast use {vstd::seq_lib::group_to_multiset_ensures, vstd::multiset::group_multiset_axioms};

    let low = |y: u64| y <= x;
    let high = |y: u64| y >= x;
    if s.len() == 0 {
        assert(s.to_multiset().len() == 0);
        assert(s.to_multiset() =~= vstd::multiset::Multiset::empty());
        assert(s.to_multiset().filter(low) =~= vstd::multiset::Multiset::empty());
        assert(s.to_multiset().filter(high) =~= vstd::multiset::Multiset::empty());
    } else {
        let rest = s.drop_last();
        let m = rest.to_multiset();
        counted_in_multiset(rest, x);
        assert(s =~= rest.push(s.last()));
        assert(s.to_multiset() =~= m.insert(s.last()));
        assert(m.insert(s.last()).filter(low) =~= if s.last() <= x {
            m.filter(low).insert(s.last())
        } else {
            m.filter(low)
        });
        assert(m.insert(s.last()).filter(high) =~= if s.last() >= x {
            m.filter(high).insert(s.last())
        } else {
            m.filter(high)
        });
    }
}

proof fn low_prefix(s: Seq<u64>, x: u64, k: int)
    requires
        0 <= k <= s.len(),
        forall|i: int| 0 <= i < k ==> #[trigger] s[i] <= x,
    ensures
        at_most(s, x) >= k,
    decreases s.len(),
{
    if s.len() > 0 {
        if k == s.len() {
            assert(s[k - 1] <= x);
            low_prefix(s.drop_last(), x, k - 1);
        } else {
            low_prefix(s.drop_last(), x, k);
        }
    }
}

proof fn high_suffix(s: Seq<u64>, x: u64, k: int)
    requires
        0 <= k <= s.len(),
        forall|i: int| k <= i < s.len() ==> #[trigger] s[i] >= x,
    ensures
        at_least(s, x) >= s.len() - k,
    decreases s.len(),
{
    if k < s.len() {
        assert(s[s.len() - 1] >= x);
        high_suffix(s.drop_last(), x, k);
    }
}

/// At least half of the entries are no more than the median, and at least half are no
/// less.
pub proof fn median_halves(s: Seq<u64>, m: u64)
    requires
        is_median(s, m),
    ensures
        2 * at_most(s, m) >= s.len(),
        2 * at_least(s, m) >= s.len(),
{
    broadcast use vstd::seq_lib::group_to_multiset_ensures;

    let w = choose|w: Seq<u64>| #[trigger]
        ascending(w) && w.to_multiset() == s.to_multiset() && m == middle(w);
    assert(w.to_multiset().len() == w.len() && s.to_multiset().len() == s.len());
    let n = w.len() as int;
    counted_in_multiset(s, m);
    counted_in_multiset(w, m);
    if n > 0 && n % 2 == 1 {
        low_prefix(w, m, n / 2 + 1);
        high_suffix(w, m, n / 2);
    } else if n > 0 {
        assert(w[n / 2 - 1] <= w[n / 2]);
        low_prefix(w, m, n / 2);
        high_suffix(w, m, n / 2);
    }
}

/// The median does not depend on the order in which the entries come, and there is one
/// alone.
pub proof fn median_ignores_order(a: Seq<u64>, b: Seq<u64>, m: u64, k: u64)
    requires
        a.to_multiset() == b.to_multiset(),
        is_median(a, m),
        is_median(b, k),
    ensures
        m == k,
{
    let w = choose|w: Seq<u64>| #[trigger]
        ascending(w) && w.to_multiset() == a.to_multiset() && m == middle(w);
    assert(ascending(w) && w.to_multiset() == b.to_multiset());
}

/// The median of an odd number of entries is one of them.
pub proof fn odd_median_is_an_entry(s: Seq<u64>, m: u64)
    requires
        is_median(s, m),
        s.len() % 2 == 1,
    ensures
        s.contains(m),
{
    broadcast use vstd::seq_lib::group_to_multiset_ensures;

    let w = choose|w: Seq<u64>| #[trigger]
        ascending(w) && w.to_multiset() == s.to_multiset() && m == middle(w);
    assert(w.to_multiset().len() == w.len() && s.to_multiset().len() == s.len());
    assert(w.contains(w[w.len() as int / 2]));
    assert(w.to_multiset().contains(m));
}

/// The median of an even number of entries is the mean of the two in the middle, rounded
/// down: at least half of the entries are no more than the one, and at least half are no
/// less than the other.
pub proof fn even_median_is_a_mean(s: Seq<u64>, m: u64)
    requires
        is_median(s, m),
        s.len() % 2 == 0,
        s.len() > 0,
    ensures
        exists|a: u64, b: u64|
            #![trigger s.contains(a), s.contains(b)]
            s.contains(a) && s.contains(b) && a <= b && m == (a + b) / 2 && 2 * at_most(s, a)
                >= s.len() && 2 * at_least(s, b) >= s.len(),
{
    broadcast use vstd::seq_lib::group_to_multiset_ensures;

    let w = choose|w: Seq<u64>| #[trigger]
        ascending(w) && w.to_multiset() == s.to_multiset() && m == middle(w);
    assert(w.to_multiset().len() == w.len() && s.to_multiset().len() == s.len());
    let h = w.len() as int / 2;
    let a = w[h - 1];
    let b = w[h];
    assert(w.contains(a) && w.contains(b));
    assert(w.to_multiset().contains(a) && w.to_multiset().contains(b));
    assert(s.contains(a) && s.contains(b));
    counted_in_multiset(s, a);
    counted_in_multiset(w, a);
    counted_in_multiset(s, b);
    counted_in_multiset(w, b);
    low_prefix(w, a, h);
    high_suffix(w, b, h);
}

/// `ceil(ms / 1000)`.
pub open spec fn ceil_secs_spec(ms: u64) -> int {
    (ms + 999) / 1000
}

/// Whole processing seconds from a latency in milliseconds, rounded up.
pub fn ceil_secs(ms: u64) -> (r: u64)
    ensures
        r == ceil_secs_spec(ms),
{
    let whole: u64 = ms / 1000;
    if ms % 1000 == 0 {
        whole
    } else {
        whole + 1
    }
}

/// The billed seconds of a winner: its latency in whole seconds, capped at the
/// tolerated median. A median of `0` sets no cap.
pub open spec fn billed_spec(winner_ms: u64, median: u64, tolerated_median_ms: u64) -> int {
    if median == 0 {
        ceil_secs_spec(winner_ms)
    } else {
        min_int(ceil_secs_spec(winner_ms), ceil_secs_spec(tolerated_median_ms))
    }
}

/// The metered billed seconds: the winner's latency cross-checked against the
/// agreeing providers' median. `tolerated_median_ms` is that median scaled by the
/// metering tolerance and rounded up.
pub fn metered_billed_seconds(
    winner_ms: u64,
    agreeing_ms: &[u64],
    tolerated_median_ms: u64,
) -> (r: u64)
    ensures
        exists|m: u64| #[trigger]
            is_median(agreeing_ms@, m) && r == billed_spec(winner_ms, m, tolerated_median_ms),
{
    let winner_secs: u64 = ceil_secs(winner_ms);
    let median: u64 = median_ms(agreeing_ms);
    let r: u64 = if median == 0 {
        winner_secs
    } else {
        min_u64(winner_secs, ceil_secs(tolerated_median_ms))
    };
    assert(is_median(agreeing_ms@, median) && r == billed_spec(
        winner_ms,
        median,
        tolerated_median_ms,
    ));
    r
}

/// A winner is never billed past its own latency nor past the tolerated median.
pub proof fn billing_is_cross_checked(winner_ms: u64, median: u64, tolerated_ms: u64)
    ensures
        billed_spec(winner_ms, median, tolerated_ms) <= ceil_secs_spec(winner_ms),
        median > 0 ==> billed_spec(winner_ms, median, tolerated_ms) <= ceil_secs_spec(tolerated_ms),
{
}

/// Seconds are counted up: the time fits the counted seconds, and not one less.
pub proof fn seconds_are_counted_up(ms: u64)
    ensures
        ms <= ceil_secs_spec(ms) * 1000,
        ms > (ceil_secs_spec(ms) - 1) * 1000,
{
}

/// A job costs its rate for every second up to the cap, and the byte rate for its share
/// of GiB, rounded down.
pub proof fn a_job_costs_its_seconds_and_bytes(t: MeteredTerms, billed: u64, bytes: u64)
    requires
        t.rate_per_second * t.cap_seconds + t.rate_per_gb * bytes <= u128::MAX,
    ensures
        ({
            let seconds = if billed < t.cap_seconds {
                billed as int
            } else {
                t.cap_seconds as int
            };
            let data = t.base_for_spec(billed, bytes) - t.rate_per_second * seconds;
            &&& data * 0x4000_0000 <= t.rate_per_gb * bytes
            &&& t.rate_per_gb * bytes < (data + 1) * 0x4000_0000
        }),
{
    let seconds = if billed < t.cap_seconds {
        billed as int
    } else {
        t.cap_seconds as int
    };
    assert(0 <= t.rate_per_second * seconds && t.rate_per_second * seconds <= t.rate_per_second
        * t.cap_seconds && 0 <= t.rate_per_gb * bytes) by (nonlinear_arith)
        requires
            0 <= t.rate_per_second,
            0 <= seconds <= t.cap_seconds,
            0 <= t.rate_per_gb,
            0 <= bytes,
    ;
    let x = t.rate_per_gb * bytes;
    assert(x / 0x4000_0000 <= x);
}

/// The most that a job can cost is what it costs once it runs into the cap.
pub proof fn the_cap_is_the_dearest(t: MeteredTerms, billed: u64, bytes: u64)
    requires
        billed >= t.cap_seconds,
    ensures
        t.base_for_spec(billed, bytes) == t.cap_base_spec(bytes),
{
}

/// Only a bid with a rate is metered, by the rates that it names, for a second at least.
pub proof fn bids_with_a_rate_are_metered(bid: Bid)
    ensures
        terms_of(bid) is Some <==> bid.rate_per_second > 0,
        terms_of(bid) is Some ==> {
            &&& terms_of(bid)->0.rate_per_second == bid.rate_per_second
            &&& terms_of(bid)->0.rate_per_gb == bid.rate_per_gb
            &&& terms_of(bid)->0.cap_seconds >= 1
            &&& bid.cap_seconds > 0 ==> terms_of(bid)->0.cap_seconds == bid.cap_seconds
            &&& bid.cap_seconds == 0 ==> terms_of(bid)->0.cap_seconds == 1
        },
{
}

/// A bid is ranked by its rate where it has one, and else by its fixed price.
pub proof fn bids_are_ranked_by_rate_or_price(bid: Bid)
    ensures
        bid.rate_per_second > 0 ==> price_signal(bid) == bid.rate_per_second,
        bid.rate_per_second == 0 ==> price_signal(bid) == bid.price,
{
}

/// A winner is billed its own time, or the tolerated median's where that is less; without
/// a median, its own.
pub proof fn billed_is_the_lesser_time(winner_ms: u64, median: u64, tolerated_ms: u64)
    ensures
        median == 0 || winner_ms <= tolerated_ms ==> billed_spec(winner_ms, median, tolerated_ms)
            == ceil_secs_spec(winner_ms),
        median > 0 && tolerated_ms <= winner_ms ==> billed_spec(winner_ms, median, tolerated_ms)
            == ceil_secs_spec(tolerated_ms),
{
}

/// The middle of an ascending sequence is its middle entry, or half the sum of the two in
/// the middle, rounded down; nothing has the middle nothing.
pub proof fn the_middle_is_in_the_middle(s: Seq<u64>)
    ensures
        s.len() == 0 ==> middle(s) == 0,
        s.len() % 2 == 1 ==> middle(s) == s[(s.len() - 1) / 2],
        s.len() > 0 && s.len() % 2 == 0 ==> 2 * middle(s) <= s[s.len() / 2 - 1] + s[s.len() as int
            / 2] && s[s.len() / 2 - 1] + s[s.len() as int / 2] <= 2 * middle(s) + 1,
{
}

} // verus!
