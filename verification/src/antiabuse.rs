//! Keeping abuse out: the cost gate, the deny-list and the rate limiter.

use vstd::prelude::*;
use crate::scan::join;
use crate::text::{decimal, decimal_seq, trim, trim_seq};
use crate::types::{has_str, strs, NodeId};

verus! {

/// Why a job is declined before it runs, if it is. `peak_cap_bytes` is the most the
/// estimated peak may be (`0` for no bound).
pub open spec fn gate_reason(
    max_cost_hint_rows: u64,
    cost_hint_rows: Option<u64>,
    estimated_peak_bytes: Option<u64>,
    peak_cap_bytes: u64,
) -> Option<Seq<char>> {
    if max_cost_hint_rows > 0 && cost_hint_rows is Some && cost_hint_rows->0 > max_cost_hint_rows {
        Some(
            "over budget: estimated "@ + decimal_seq(cost_hint_rows->0 as nat)
                + " rows exceeds the worker's max_cost_hint_rows ("@ + decimal_seq(
                max_cost_hint_rows as nat,
            ) + ")"@,
        )
    } else if estimated_peak_bytes is Some && peak_cap_bytes > 0 && estimated_peak_bytes->0
        > peak_cap_bytes {
        Some(
            "over budget: estimated peak working set "@ + decimal_seq(
                estimated_peak_bytes->0 as nat,
            ) + " bytes exceeds budget "@ + decimal_seq(peak_cap_bytes as nat) + " bytes"@,
        )
    } else {
        None
    }
}

/// Why a job is declined before it runs, if it is: by the rows that the requester
/// expects, or by its estimated peak memory.
pub fn cost_gate_reason(
    max_cost_hint_rows: u64,
    cost_hint_rows: Option<u64>,
    estimated_peak_bytes: Option<u64>,
    peak_cap_bytes: u64,
) -> (r: Option<String>)
    ensures
        crate::types::opt_str(r) == gate_reason(
            max_cost_hint_rows,
            cost_hint_rows,
            estimated_peak_bytes,
            peak_cap_bytes,
        ),
{
    if max_cost_hint_rows > 0 {
        if let Some(rows) = cost_hint_rows {
            if rows > max_cost_hint_rows {
                let mut why = join("over budget: estimated ", decimal(rows).as_str());
                why.append(" rows exceeds the worker's max_cost_hint_rows (");
                why.append(decimal(max_cost_hint_rows).as_str());
                why.append(")");
                return Some(why);
            }
        }
    }
    if let Some(peak) = estimated_peak_bytes {
        if peak_cap_bytes > 0 && peak > peak_cap_bytes {
            let mut why = join("over budget: estimated peak working set ", decimal(peak).as_str());
            why.append(" bytes exceeds budget ");
            why.append(decimal(peak_cap_bytes).as_str());
            why.append(" bytes");
            return Some(why);
        }
    }
    None
}

/// What a blocked id stands for.
#[derive(Debug, Clone, Copy, PartialEq, Eq, Structural)]
pub enum BlockKind {
    NodeId,
    Wallet,
}

/// A new entry of the deny-list, to be kept across restarts.
#[derive(Debug, Clone, PartialEq, Eq)]
pub struct BlockEntry {
    pub id: String,
    pub kind: BlockKind,
    pub reason: String,
    pub source: String,
}

/// `BlockEntry` over mathematical values.
pub struct EntryView {
    pub id: Seq<char>,
    pub kind: BlockKind,
    pub reason: Seq<char>,
    pub source: Seq<char>,
}

impl View for BlockEntry {
    type V = EntryView;

    open spec fn view(&self) -> EntryView {
        EntryView { id: self.id@, kind: self.kind, reason: self.reason@, source: self.source@ }
    }
}

pub open spec fn entry_views(v: Seq<BlockEntry>) -> Seq<EntryView> {
    v.map_values(|e: BlockEntry| e@)
}

/// A report that somebody misbehaves.
#[derive(Debug, Clone, PartialEq, Eq)]
pub struct AbuseSignal {
    pub subject_id: NodeId,
    pub subject_wallet: Option<String>,
    pub reason: String,
    pub reporter_id: NodeId,
}

/// This node's own deny-list of node ids and wallets.
#[derive(Debug)]
pub struct Blocklist {
    ids: Vec<String>,
}

impl View for Blocklist {
    type V = Seq<Seq<char>>;

    closed spec fn view(&self) -> Seq<Seq<char>> {
        strs(self.ids@)
    }
}

/// Whether nothing occurs twice.
pub open spec fn no_repeats(s: Seq<Seq<char>>) -> bool {
    forall|i: int, j: int| 0 <= i < j < s.len() ==> #[trigger] s[i] != #[trigger] s[j]
}

/// The list after an id is blocked.
pub open spec fn with_block(list: Seq<Seq<char>>, id: Seq<char>) -> Seq<Seq<char>> {
    if trim_seq(id).len() == 0 || list.contains(trim_seq(id)) {
        list
    } else {
        list.push(trim_seq(id))
    }
}

/// Whether blocking an id adds to the list.
pub open spec fn adds_block(list: Seq<Seq<char>>, id: Seq<char>) -> bool {
    trim_seq(id).len() > 0 && !list.contains(trim_seq(id))
}

impl Blocklist {
    #[verifier::type_invariant]
    spec fn inv(self) -> bool {
        no_repeats(strs(self.ids@))
    }

    pub fn new() -> (r: Blocklist)
        ensures
            r@.len() == 0,
    {
        Blocklist { ids: Vec::new() }
    }

    /// A list that holds the stored ids, each once.
    pub fn with_store(stored: &[String]) -> (r: Blocklist)
        ensures
            forall|id: Seq<char>| #[trigger] r@.contains(id) == strs(stored@).contains(id),
            no_repeats(r@),
    {
        let mut ids: Vec<String> = Vec::new();
        let ghost all = strs(stored@);
        let mut i: usize = 0;
        while i < stored.len()
            invariant
                i <= stored@.len(),
                all == strs(stored@),
                no_repeats(strs(ids@)),
                forall|id: Seq<char>| #[trigger]
                    strs(ids@).contains(id) == all.take(i as int).contains(id),
            decreases stored@.len() - i,
        {
            let ghost before = strs(ids@);
            let ghost x = stored@[i as int]@;
            if !has_str(&ids, &stored[i]) {
                ids.push(stored[i].clone());
                assert(strs(ids@) =~= before.push(x));
            }
            proof {
                let now = strs(ids@);
                let seen = all.take(i as int);
                let next = all.take(i + 1);
                assert(next =~= seen.push(x));
                assert forall|id: Seq<char>| #[trigger] now.contains(id) == next.contains(id) by {
                    contains_after_push(seen, x, id);
                    if now != before {
                        contains_after_push(before, x, id);
                    }
                    assert(before.contains(id) == seen.contains(id));
                    assert(before.contains(x) == seen.contains(x));
                }
            }
            i = i + 1;
        }
        assert(all.take(i as int) =~= all);
        Blocklist { ids }
    }

    /// Whether an id is blocked.
    pub fn is_blocked(&self, id: &str) -> (r: bool)
        ensures
            r == self@.contains(id@),
    {
        has_str(&self.ids, &id.to_owned())
    }

    /// Blocks an id, without the space around it. An empty one is passed over. Returns
    /// the new entry, if the id was not blocked before.
    pub fn block(&mut self, id: &str, kind: BlockKind, reason: &str, source: &str) -> (r: Option<
        BlockEntry,
    >)
        ensures
            final(self)@ == with_block(old(self)@, id@),
            no_repeats(final(self)@),
            r is Some <==> adds_block(old(self)@, id@),
            r is Some ==> r->0@ == (EntryView {
                id: trim_seq(id@),
                kind,
                reason: reason@,
                source: source@,
            }),
    {
        proof {
            use_type_invariant(&*self);
        }
        let id = trim(id);
        if id.as_str().is_empty() || has_str(&self.ids, &id) {
            return None;
        }
        let ghost before = strs(self.ids@);
        let mut ids: Vec<String> = Vec::new();
        std::mem::swap(&mut ids, &mut self.ids);
        ids.push(id.clone());
        assert(strs(ids@) =~= before.push(id@));
        *self = Blocklist { ids };
        Some(
            BlockEntry { id, kind, reason: reason.to_owned(), source: source.to_owned() },
        )
    }

    /// Unblocks an id. Returns whether it was blocked.
    pub fn unblock(&mut self, id: &str) -> (r: bool)
        ensures
            r == old(self)@.contains(id@),
            !r ==> final(self)@ == old(self)@,
            forall|x: Seq<char>| #[trigger]
                final(self)@.contains(x) == (old(self)@.contains(x) && x != id@),
            no_repeats(final(self)@),
    {
        proof {
            use_type_invariant(&*self);
        }
        let id = id.to_owned();
        let n: usize = self.ids.len();
        let mut i: usize = 0;
        let ghost before = strs(self.ids@);
        while i < n && self.ids[i] != id
            invariant
                i <= n,
                n == self.ids@.len(),
                before == strs(self.ids@),
                forall|k: int| 0 <= k < i ==> before[k] != id@,
            decreases n - i,
        {
            i = i + 1;
        }
        if i >= n {
            return false;
        }
        let mut ids: Vec<String> = Vec::new();
        std::mem::swap(&mut ids, &mut self.ids);
        let ghost all = ids@;
        let _ = ids.remove(i);
        proof {
            let after = strs(ids@);
            assert(before[i as int] == id@);
            assert(after =~= before.remove(i as int));
            assert forall|x: Seq<char>| #[trigger]
                after.contains(x) == (before.contains(x) && x != id@) by {
                if after.contains(x) {
                    let k = choose|k: int| 0 <= k < after.len() && after[k] == x;
                    let q = if k < i { k } else { k + 1 };
                    assert(before[q] == x);
                    if q < i {
                        assert(before[q] != before[i as int]);
                    } else {
                        assert(before[i as int] != before[q]);
                    }
                }
                if before.contains(x) && x != id@ {
                    let q = choose|q: int| 0 <= q < before.len() && before[q] == x;
                    let k = if q < i { q } else { q - 1 };
                    assert(after[k] == x);
                }
            }
            assert forall|a: int, b: int| 0 <= a < b < after.len() implies #[trigger] after[a]
                != #[trigger] after[b] by {
                let x = if a < i { a } else { a + 1 };
                let y = if b < i { b } else { b + 1 };
                assert(after[a] == before[x] && after[b] == before[y]);
            }
        }
        *self = Blocklist { ids };
        true
    }

    pub fn len(&self) -> (r: usize)
        ensures
            r == self@.len(),
    {
        self.ids.len()
    }

    pub fn is_empty(&self) -> (r: bool)
        ensures
            r == (self@.len() == 0),
    {
        self.ids.len() == 0
    }

    /// Honours a report, if this node honours reports and the report was verified: its
    /// subject is blocked, and the subject's wallet if it names one. Returns the new
    /// entries, or `None` where the report is ignored.
    pub fn apply_signed_signal(&mut self, signal: &AbuseSignal, honor: bool, verified: bool) -> (r:
        Option<Vec<BlockEntry>>)
        ensures
            r is Some <==> honor && verified,
            r is None ==> final(self)@ == old(self)@,
            r is Some ==> {
                let first = with_block(old(self)@, signal.subject_id@);
                &&& final(self)@ == (match signal.subject_wallet {
                    Some(w) => with_block(first, w@),
                    None => first,
                })
                &&& entry_views(r->0@) == signal_entries(old(self)@, *signal)
            },
    {
        if !honor || !verified {
            return None;
        }
        let mut entries: Vec<BlockEntry> = Vec::new();
        let mut reason = join("abuse signal: ", signal.reason.as_str());
        reason.append(" (from ");
        reason.append(signal.reporter_id.as_str());
        reason.append(")");
        let ghost list = self@;
        assert(entry_views(entries@) =~= Seq::empty());
        if let Some(e) = self.block(
            signal.subject_id.as_str(),
            BlockKind::NodeId,
            reason.as_str(),
            "gossip",
        ) {
            entries.push(e);
            assert(entry_views(entries@) =~= seq![e@]);
        }
        if let Some(w) = &signal.subject_wallet {
            let ghost before = entry_views(entries@);
            if let Some(e) = self.block(
                w.as_str(),
                BlockKind::Wallet,
                signal.reason.as_str(),
                "gossip",
            ) {
                entries.push(e);
                assert(entry_views(entries@) =~= before.push(e@));
            }
        }
        assert(entry_views(entries@) =~= signal_entries(list, *signal));
        Some(entries)
    }
}

impl Default for Blocklist {
    fn default() -> (r: Blocklist)
        ensures
            r@.len() == 0,
    {
        Blocklist::new()
    }
}

/// The entries that a report adds.
pub open spec fn signal_entries(list: Seq<Seq<char>>, signal: AbuseSignal) -> Seq<EntryView> {
    let node = if adds_block(list, signal.subject_id@) {
        seq![
            EntryView {
                id: trim_seq(signal.subject_id@),
                kind: BlockKind::NodeId,
                reason: "abuse signal: "@ + signal.reason@ + " (from "@ + signal.reporter_id@
                    + ")"@,
                source: "gossip"@,
            },
        ]
    } else {
        Seq::empty()
    };
    match signal.subject_wallet {
        Some(w) => if adds_block(with_block(list, signal.subject_id@), w@) {
            node.push(
                EntryView {
                    id: trim_seq(w@),
                    kind: BlockKind::Wallet,
                    reason: signal.reason@,
                    source: "gossip"@,
                },
            )
        } else {
            node
        },
        None => node,
    }
}

proof fn contains_after_push(s: Seq<Seq<char>>, x: Seq<char>, y: Seq<char>)
    ensures
        s.push(x).contains(y) == (s.contains(y) || x == y),
{
    let t = s.push(x);
    if s.contains(y) {
        let k = choose|k: int| 0 <= k < s.len() && s[k] == y;
        assert(t[k] == y);
    }
    if x == y {
        assert(t[s.len() as int] == y);
    }
    if t.contains(y) {
        let k = choose|k: int| 0 <= k < t.len() && t[k] == y;
        if k < s.len() {
            assert(s[k] == y);
        }
    }
}

/// Blocking twice is blocking once, and what is blocked is on the list.
pub proof fn blocking_is_idempotent(list: Seq<Seq<char>>, id: Seq<char>)
    ensures
        with_block(with_block(list, id), id) == with_block(list, id),
        trim_seq(id).len() > 0 ==> with_block(list, id).contains(trim_seq(id)),
{
    contains_after_push(list, trim_seq(id), trim_seq(id));
}

/// The attempts of one requester within the window.
#[derive(Debug)]
pub struct Requester {
    pub id: NodeId,
    /// The times of its recorded attempts, oldest first.
    pub hits: Vec<u64>,
}

/// `Requester` over mathematical values.
pub struct RequesterView {
    pub id: Seq<char>,
    pub hits: Seq<u64>,
}

impl View for Requester {
    type V = RequesterView;

    open spec fn view(&self) -> RequesterView {
        RequesterView { id: self.id@, hits: self.hits@ }
    }
}

/// A sliding-window limit on how often each requester may ask. It tracks a bounded
/// number of requesters; the one that came first makes room.
#[derive(Debug)]
pub struct RateLimiter {
    max_per_window: u32,
    window_secs: u64,
    capacity: usize,
    requesters: Vec<Requester>,
}

/// `RateLimiter` over mathematical values.
pub struct LimiterView {
    pub max_per_window: u32,
    pub window_secs: u64,
    pub capacity: usize,
    pub requesters: Seq<RequesterView>,
}

pub open spec fn requester_views(v: Seq<Requester>) -> Seq<RequesterView> {
    v.map_values(|r: Requester| r@)
}

impl View for RateLimiter {
    type V = LimiterView;

    closed spec fn view(&self) -> LimiterView {
        LimiterView {
            max_per_window: self.max_per_window,
            window_secs: self.window_secs,
            capacity: self.capacity,
            requesters: requester_views(self.requesters@),
        }
    }
}

/// The place of a requester.
pub open spec fn requester_at(v: Seq<RequesterView>, id: Seq<char>, from: int) -> Option<int>
    decreases v.len() - from,
{
    if from >= v.len() {
        None
    } else if v[from].id == id {
        Some(from)
    } else {
        requester_at(v, id, from + 1)
    }
}

/// The requesters with `id` among them: a new one is last, and the first one leaves
/// where there is no room.
pub open spec fn admitted(v: Seq<RequesterView>, capacity: int, id: Seq<char>) -> Seq<RequesterView> {
    if requester_at(v, id, 0) is Some {
        v
    } else {
        let room = if v.len() >= capacity {
            v.subrange(1, v.len() as int)
        } else {
            v
        };
        room.push(RequesterView { id, hits: Seq::empty() })
    }
}

/// The attempts without those at the front that are out of the window.
pub open spec fn within_window(hits: Seq<u64>, now: u64, window: u64) -> Seq<u64>
    decreases hits.len(),
{
    if hits.len() > 0 && now - hits[0] >= window {
        within_window(hits.subrange(1, hits.len() as int), now, window)
    } else {
        hits
    }
}

/// The limiter after an attempt, and whether it was allowed. A refused attempt is not
/// recorded.
pub open spec fn attempt(l: LimiterView, id: Seq<char>, now: u64) -> (LimiterView, bool) {
    let known = admitted(l.requesters, l.capacity as int, id);
    let i = requester_at(known, id, 0)->0;
    let recent = within_window(known[i].hits, now, l.window_secs);
    let allowed = recent.len() < l.max_per_window;
    let hits = if allowed {
        recent.push(now)
    } else {
        recent
    };
    (
        LimiterView { requesters: known.update(i, RequesterView { id, hits }), ..l },
        allowed,
    )
}

proof fn requester_found(v: Seq<RequesterView>, id: Seq<char>, from: int)
    requires
        0 <= from <= v.len(),
    ensures
        match requester_at(v, id, from) {
            Some(i) => from <= i < v.len() && v[i].id == id && forall|k: int|
                from <= k < i ==> (#[trigger] v[k]).id != id,
            None => forall|k: int| from <= k < v.len() ==> (#[trigger] v[k]).id != id,
        },
    decreases v.len() - from,
{
    if from < v.len() && v[from].id != id {
        requester_found(v, id, from + 1);
    }
}

/// A requester that stands last and nowhere before is found there.
proof fn last_is_found(v: Seq<RequesterView>, id: Seq<char>)
    requires
        v.len() > 0,
        v.last().id == id,
        forall|k: int| 0 <= k < v.len() - 1 ==> (#[trigger] v[k]).id != id,
    ensures
        requester_at(v, id, 0) == Some(v.len() - 1),
{
    requester_found(v, id, 0);
    let r = requester_at(v, id, 0);
    assert(v[v.len() - 1].id == id);
}

impl RateLimiter {
    #[verifier::type_invariant]
    spec fn inv(self) -> bool {
        self.capacity > 0 && self.window_secs > 0 && self.requesters@.len() <= self.capacity
    }

    pub fn new(max_per_window: u32, window_secs: u64, capacity: usize) -> (r: RateLimiter)
        ensures
            r@.max_per_window == max_per_window,
            r@.window_secs == (if window_secs == 0 {
                1
            } else {
                window_secs
            }),
            r@.capacity == (if capacity == 0 {
                1
            } else {
                capacity
            }),
            r@.requesters.len() == 0,
    {
        RateLimiter {
            max_per_window,
            window_secs: if window_secs == 0 {
                1
            } else {
                window_secs
            },
            capacity: if capacity == 0 {
                1
            } else {
                capacity
            },
            requesters: Vec::new(),
        }
    }

    /// Whether an attempt is allowed now; it is recorded if it is.
    pub fn check_and_record(&mut self, id: &NodeId, now_secs: u64) -> (r: bool)
        ensures
            (final(self)@, r) == attempt(old(self)@, id@, now_secs),
            final(self)@.requesters.len() <= final(self)@.capacity,
    {
        proof {
            use_type_invariant(&*self);
        }
        let max: u32 = self.max_per_window;
        let window: u64 = self.window_secs;
        let capacity: usize = self.capacity;
        let ghost start = requester_views(self.requesters@);
        let mut requesters: Vec<Requester> = Vec::new();
        std::mem::swap(&mut requesters, &mut self.requesters);
        proof {
            requester_found(start, id@, 0);
        }
        let mut i: usize = 0;
        while i < requesters.len() && !requesters[i].id.same(id)
            invariant
                i <= requesters@.len(),
                start == requester_views(requesters@),
                requester_at(start, id@, i as int) == requester_at(start, id@, 0),
            decreases requesters@.len() - i,
        {
            assert(start[i as int] == requesters@[i as int]@);
            i = i + 1;
        }
        let ghost known = admitted(start, capacity as int, id@);
        if i >= requesters.len() {
            if requesters.len() >= capacity {
                let ghost before = requesters@;
                let _ = requesters.remove(0);
                assert(requesters@ =~= before.remove(0));
                assert(requester_views(requesters@) =~= start.subrange(1, start.len() as int));
            }
            let ghost room = requester_views(requesters@);
            i = requesters.len();
            let fresh = Requester { id: id.duplicate(), hits: Vec::new() };
            requesters.push(fresh);
            proof {
                assert(fresh@.hits =~= Seq::empty());
                assert(requester_views(requesters@) =~= room.push(fresh@));
                assert(requester_views(requesters@) =~= known);
                last_is_found(known, id@);
            }
        } else {
            assert(start[i as int] == requesters@[i as int]@);
            assert(known =~= start);
        }
        assert(requester_views(requesters@) == known);
        assert(requester_at(known, id@, 0) == Some(i as int));
        let ghost listed = requesters@;
        assert(known[i as int] == listed[i as int]@);
        let entry = requesters.remove(i);
        let ghost all = entry.hits@;
        let mut hits: Vec<u64> = Vec::new();
        let mut k: usize = 0;
        assert(all.subrange(0, all.len() as int) =~= all);
        while k < entry.hits.len() && entry.hits[k] <= now_secs && now_secs - entry.hits[k]
            >= window
            invariant
                k <= entry.hits@.len(),
                all == entry.hits@,
                window > 0,
                within_window(all.subrange(k as int, all.len() as int), now_secs, window)
                    == within_window(all, now_secs, window),
            decreases entry.hits@.len() - k,
        {
            let ghost here = all.subrange(k as int, all.len() as int);
            assert(here[0] == entry.hits@[k as int]);
            k = k + 1;
            assert(here.subrange(1, here.len() as int) =~= all.subrange(
                k as int,
                all.len() as int,
            ));
        }
        let ghost recent = all.subrange(k as int, all.len() as int);
        proof {
            if k < all.len() {
                assert(recent[0] == all[k as int]);
            }
            assert(recent == within_window(all, now_secs, window));
        }
        let first: usize = k;
        while k < entry.hits.len()
            invariant
                first <= k <= entry.hits@.len(),
                all == entry.hits@,
                hits@ == all.subrange(first as int, k as int),
            decreases entry.hits@.len() - k,
        {
            hits.push(entry.hits[k]);
            k = k + 1;
            assert(hits@ =~= all.subrange(first as int, k as int));
        }
        assert(hits@ == recent);
        let allowed = hits.len() < max as usize;
        if allowed {
            hits.push(now_secs);
        }
        let updated = Requester { id: entry.id, hits };
        requesters.insert(i, updated);
        proof {
            assert(requesters@ =~= listed.update(i as int, updated));
            assert(requester_views(requesters@) =~= known.update(i as int, updated@));
        }
        *self = RateLimiter { max_per_window: max, window_secs: window, capacity, requesters };
        allowed
    }
}

/// No requester is ever recorded more often than the limit allows.
pub proof fn limit_holds(l: LimiterView, id: Seq<char>, now: u64)
    requires
        l.capacity > 0,
        forall|i: int|
            0 <= i < l.requesters.len() ==> (#[trigger] l.requesters[i]).hits.len()
                <= l.max_per_window,
    ensures
        forall|i: int|
            0 <= i < attempt(l, id, now).0.requesters.len() ==> (#[trigger] attempt(
                l,
                id,
                now,
            ).0.requesters[i]).hits.len() <= l.max_per_window,
{
    let known = admitted(l.requesters, l.capacity as int, id);
    requester_found(l.requesters, id, 0);
    requester_found(known, id, 0);
    let at = requester_at(known, id, 0);
    if at is None {
        assert(known[known.len() - 1].id == id);
    }
    let i = at->0;
    window_only_shrinks(known[i].hits, now, l.window_secs);
    let after = attempt(l, id, now).0.requesters;
    assert forall|k: int| 0 <= k < after.len() implies (#[trigger] after[k]).hits.len()
        <= l.max_per_window by {
        if k != i {
            assert(after[k] == known[k]);
            assert(known[k].hits.len() <= l.max_per_window);
        }
    }
}

proof fn window_only_shrinks(hits: Seq<u64>, now: u64, window: u64)
    ensures
        within_window(hits, now, window).len() <= hits.len(),
    decreases hits.len(),
{
    if hits.len() > 0 && now - hits[0] >= window {
        window_only_shrinks(hits.subrange(1, hits.len() as int), now, window);
    }
}

/// A job is declined exactly where its rows or its peak exceed what is allowed; an unknown
/// figure, or no limit, declines nothing. The reason names the figure and the limit.
pub proof fn jobs_are_declined_over_a_limit(
    max_rows: u64,
    rows: Option<u64>,
    peak: Option<u64>,
    peak_cap: u64,
)
    ensures
        ({
            let r = gate_reason(max_rows, rows, peak, peak_cap);
            let many = max_rows > 0 && rows is Some && rows->0 > max_rows;
            let large = peak_cap > 0 && peak is Some && peak->0 > peak_cap;
            &&& r is Some <==> many || large
            &&& many ==> r->0 == "over budget: estimated "@ + decimal_seq(rows->0 as nat)
                + " rows exceeds the worker's max_cost_hint_rows ("@ + decimal_seq(max_rows as nat)
                + ")"@
            &&& !many && large ==> r->0 == "over budget: estimated peak working set "@
                + decimal_seq(peak->0 as nat) + " bytes exceeds budget "@ + decimal_seq(
                peak_cap as nat,
            ) + " bytes"@
        }),
{
}

/// Blocking puts an id on the list, without the space around it, and changes nothing else.
pub proof fn blocking_adds_one_id(list: Seq<Seq<char>>, id: Seq<char>, x: Seq<char>)
    ensures
        with_block(list, id).contains(x) == (list.contains(x) || (x == trim_seq(id) && x.len()
            > 0)),
        adds_block(list, id) <==> with_block(list, id).len() == list.len() + 1,
        !adds_block(list, id) <==> with_block(list, id) == list,
{
    let t = with_block(list, id);
    let y = trim_seq(id);
    if t != list {
        if list.contains(x) {
            let i = choose|i: int| 0 <= i < list.len() && list[i] == x;
            assert(t[i] == x);
        }
        assert(t[list.len() as int] == y);
        if t.contains(x) {
            let i = choose|i: int| 0 <= i < t.len() && t[i] == x;
            if i < list.len() {
                assert(list[i] == x);
            }
        }
    }
}

/// An honoured report blocks the node that it names, and the wallet where it names one; of
/// each it is told why, once.
pub proof fn reports_block_node_and_wallet(list: Seq<Seq<char>>, signal: AbuseSignal)
    ensures
        ({
            let e = signal_entries(list, signal);
            let node = trim_seq(signal.subject_id@);
            let fresh = node.len() > 0 && !list.contains(node);
            &&& fresh ==> e.len() > 0 && e[0].id == node && e[0].kind == BlockKind::NodeId
                && e[0].source == "gossip"@ && e[0].reason == "abuse signal: "@ + signal.reason@
                + " (from "@ + signal.reporter_id@ + ")"@
            &&& signal.subject_wallet is None ==> e.len() == (if fresh {
                1int
            } else {
                0
            })
            &&& signal.subject_wallet is Some ==> ({
                let wallet = trim_seq(signal.subject_wallet->0@);
                let new = wallet.len() > 0 && !list.contains(wallet) && !(fresh && wallet == node);
                &&& e.len() == (if fresh {
                    1int
                } else {
                    0
                }) + (if new {
                    1int
                } else {
                    0
                })
                &&& new ==> e.last().id == wallet && e.last().kind == BlockKind::Wallet
                    && e.last().source == "gossip"@ && e.last().reason == signal.reason@
            })
        }),
{
    if signal.subject_wallet is Some {
        blocking_adds_one_id(
            list,
            signal.subject_id@,
            trim_seq(signal.subject_wallet->0@),
        );
    }
}

/// The hits that no longer count are the leading ones that are a window old: `k` of them.
pub proof fn old_hits_no_longer_count(hits: Seq<u64>, now: u64, window: u64, k: int)
    requires
        0 <= k <= hits.len(),
        forall|i: int| 0 <= i < k ==> now - #[trigger] hits[i] >= window,
        k < hits.len() ==> now - hits[k] < window,
    ensures
        within_window(hits, now, window) == hits.subrange(k, hits.len() as int),
    decreases k,
{
    if k > 0 {
        let rest = hits.subrange(1, hits.len() as int);
        assert(now - hits[0] >= window);
        assert forall|i: int| 0 <= i < k - 1 implies now - #[trigger] rest[i] >= window by {
            assert(rest[i] == hits[i + 1]);
        }
        old_hits_no_longer_count(rest, now, window, k - 1);
        assert(rest.subrange(k - 1, rest.len() as int) =~= hits.subrange(k, hits.len() as int));
    } else {
        assert(hits.subrange(0, hits.len() as int) =~= hits);
    }
}

proof fn requester_stands(v: Seq<RequesterView>, id: Seq<char>, from: int, i: int)
    requires
        0 <= from <= i < v.len(),
        v[i].id == id,
        forall|k: int| from <= k < i ==> (#[trigger] v[k]).id != id,
    ensures
        requester_at(v, id, from) == Some(i),
    decreases i - from,
{
    if from < i {
        assert(v[from].id != id);
        requester_stands(v, id, from + 1, i);
    }
}

proof fn requester_missing(v: Seq<RequesterView>, id: Seq<char>, from: int)
    requires
        0 <= from <= v.len(),
        forall|k: int| from <= k < v.len() ==> (#[trigger] v[k]).id != id,
    ensures
        requester_at(v, id, from) is None,
    decreases v.len() - from,
{
    if from < v.len() {
        assert(v[from].id != id);
        requester_missing(v, id, from + 1);
    }
}

/// A known requester is allowed as long as fewer of its hits lie within the window than
/// the limit, and an allowed attempt counts as a hit of now; nobody else is touched. `k` of
/// its hits are a window old.
pub proof fn attempts_are_counted_within_the_window(
    l: LimiterView,
    id: Seq<char>,
    now: u64,
    i: int,
    k: int,
)
    requires
        0 <= i < l.requesters.len(),
        l.requesters[i].id == id,
        forall|q: int| 0 <= q < i ==> (#[trigger] l.requesters[q]).id != id,
        0 <= k <= l.requesters[i].hits.len(),
        forall|q: int| 0 <= q < k ==> now - #[trigger] l.requesters[i].hits[q] >= l.window_secs,
        k < l.requesters[i].hits.len() ==> now - l.requesters[i].hits[k] < l.window_secs,
    ensures
        ({
            let (after, allowed) = attempt(l, id, now);
            let hits = l.requesters[i].hits;
            let recent = hits.subrange(k, hits.len() as int);
            &&& allowed <==> hits.len() - k < l.max_per_window
            &&& after.requesters.len() == l.requesters.len()
            &&& after.requesters[i].hits == (if allowed {
                recent.push(now)
            } else {
                recent
            })
            &&& forall|q: int|
                0 <= q < l.requesters.len() && q != i ==> #[trigger] after.requesters[q]
                    == l.requesters[q]
        }),
{
    requester_stands(l.requesters, id, 0, i);
    old_hits_no_longer_count(l.requesters[i].hits, now, l.window_secs, k);
}

/// A new requester is allowed wherever anybody is, and displaces the one that has been
/// known longest where there is no room.
pub proof fn new_requesters_are_taken_in(l: LimiterView, id: Seq<char>, now: u64)
    requires
        forall|q: int| 0 <= q < l.requesters.len() ==> (#[trigger] l.requesters[q]).id != id,
        l.capacity > 0,
    ensures
        ({
            let (after, allowed) = attempt(l, id, now);
            let room = l.requesters.len() < l.capacity;
            &&& allowed <==> l.max_per_window > 0
            &&& after.requesters.last().id == id
            &&& after.requesters.last().hits.len() == (if allowed {
                1int
            } else {
                0
            })
            &&& room ==> after.requesters.drop_last() == l.requesters
            &&& !room ==> after.requesters.drop_last() == l.requesters.subrange(
                1,
                l.requesters.len() as int,
            )
        }),
{
    requester_missing(l.requesters, id, 0);
    let known = admitted(l.requesters, l.capacity as int, id);
    let last = known.len() - 1;
    assert(known[last].id == id);
    assert forall|q: int| 0 <= q < last implies (#[trigger] known[q]).id != id by {
        if l.requesters.len() >= l.capacity {
            assert(known[q] == l.requesters[q + 1]);
        } else {
            assert(known[q] == l.requesters[q]);
        }
    }
    requester_stands(known, id, 0, last);
    let (after, allowed) = attempt(l, id, now);
    assert(after.requesters.drop_last() =~= known.drop_last());
    if l.requesters.len() >= l.capacity {
        assert(known.drop_last() =~= l.requesters.subrange(1, l.requesters.len() as int));
    } else {
        assert(known.drop_last() =~= l.requesters);
    }
}

} // verus!
