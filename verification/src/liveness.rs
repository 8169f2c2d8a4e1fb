//! Which peers count as dead: suspicion, confirmation by other peers, and the filter
//! over discovered candidates.

use vstd::prelude::*;
use crate::discovery::{candidate_views, Candidate, CandidateView};
use crate::math::{max_int, min_int};
use crate::sampling::{is_permutation, random_order};
use crate::types::{ids, NodeId};

verus! {

/// Whether a suspected peer is reachable after all.
#[derive(Debug, Clone, Copy, PartialEq, Eq, Structural)]
pub enum SwimVerdict {
    /// Reachable, directly or through another peer.
    Alive,
    /// Reachable neither directly nor through any peer that was asked.
    Dead,
}

/// How a suspected peer is confirmed dead.
#[derive(Debug, Clone, Copy, PartialEq, Eq, Structural)]
pub struct SwimConfig {
    pub enabled: bool,
    pub probe_timeout_ms: u64,
    /// How many other peers are asked.
    pub indirect_probe_count: usize,
    pub indirect_probe_timeout_ms: u64,
}

fn positive(ms: u64) -> (r: u64)
    ensures
        r == max_int(ms as int, 1),
{
    if ms == 0 {
        1
    } else {
        ms
    }
}

/// What follows a direct probe.
#[derive(Debug)]
pub enum SwimStep {
    Done(SwimVerdict),
    /// Ask these peers, all at once, each within the time.
    Ask { relays: Vec<NodeId>, timeout_ms: u64 },
}

/// The peers that may be asked about `target`, in order.
pub open spec fn askable(relays: Seq<Seq<char>>, target: Seq<char>) -> Seq<Seq<char>>
    decreases relays.len(),
{
    if relays.len() == 0 {
        Seq::empty()
    } else if relays.last() == target {
        askable(relays.drop_last(), target)
    } else {
        askable(relays.drop_last(), target).push(relays.last())
    }
}

/// The first `k` of `from` in an order.
pub open spec fn first_of(from: Seq<Seq<char>>, order: Seq<usize>, k: int) -> Seq<Seq<char>> {
    Seq::new(min_int(k, order.len() as int) as nat, |i: int| from[order[i] as int])
}

impl SwimConfig {
    /// The time a direct probe may take.
    pub fn direct_timeout_ms(&self) -> (r: u64)
        ensures
            r == max_int(self.probe_timeout_ms as int, 1),
    {
        positive(self.probe_timeout_ms)
    }

    /// What follows a direct probe of `target`: done if it is alive or nobody else is to
    /// be asked; else up to the configured number of other peers, drawn at random.
    pub fn on_direct(&self, alive: bool, target: &NodeId, relays: &[NodeId]) -> (r: SwimStep)
        ensures
            alive ==> r == SwimStep::Done(SwimVerdict::Alive),
            !alive && (!self.enabled || self.indirect_probe_count == 0 || askable(
                ids(relays@),
                target@,
            ).len() == 0) ==> r == SwimStep::Done(SwimVerdict::Dead),
            !alive && self.enabled && self.indirect_probe_count > 0 && askable(
                ids(relays@),
                target@,
            ).len() > 0 ==> {
                &&& r is Ask
                &&& r->timeout_ms == max_int(self.indirect_probe_timeout_ms as int, 1)
                &&& exists|order: Seq<usize>| #[trigger]
                    is_permutation(order, askable(ids(relays@), target@).len() as int) && ids(
                        r->relays@,
                    ) == first_of(
                        askable(ids(relays@), target@),
                        order,
                        self.indirect_probe_count as int,
                    )
            },
    {
        if alive {
            return SwimStep::Done(SwimVerdict::Alive);
        }
        if !self.enabled || self.indirect_probe_count == 0 {
            return SwimStep::Done(SwimVerdict::Dead);
        }
        let ghost all = ids(relays@);
        let mut pool: Vec<NodeId> = Vec::new();
        let mut i: usize = 0;
        assert(ids(pool@) =~= Seq::empty());
        while i < relays.len()
            invariant
                i <= relays@.len(),
                all == ids(relays@),
                ids(pool@) == askable(all.take(i as int), target@),
            decreases relays@.len() - i,
        {
            let ghost before = ids(pool@);
            proof {
                let next = all.take(i + 1);
                assert(next.drop_last() =~= all.take(i as int));
                assert(next.last() == relays@[i as int]@);
            }
            if !relays[i].same(target) {
                pool.push(relays[i].duplicate());
                assert(ids(pool@) =~= before.push(relays@[i as int]@));
            }
            i = i + 1;
        }
        assert(all.take(i as int) =~= all);
        assert(ids(pool@).len() == pool@.len());
        if pool.len() == 0 {
            return SwimStep::Done(SwimVerdict::Dead);
        }
        let order = random_order(pool.len());
        let mut chosen: Vec<NodeId> = Vec::new();
        let mut k: usize = 0;
        while k < order.len() && k < self.indirect_probe_count
            invariant
                k <= order@.len(),
                k <= self.indirect_probe_count,
                is_permutation(order@, pool@.len() as int),
                chosen@.len() == k,
                forall|q: int| 0 <= q < k ==> (#[trigger] chosen@[q])@ == pool@[order@[q] as int]@,
            decreases order@.len() - k,
        {
            chosen.push(pool[order[k]].duplicate());
            k = k + 1;
        }
        proof {
            assert(is_permutation(order@, askable(ids(relays@), target@).len() as int));
            assert(ids(chosen@) =~= first_of(
                ids(pool@),
                order@,
                self.indirect_probe_count as int,
            ));
        }
        SwimStep::Ask {
            relays: chosen,
            timeout_ms: positive(self.indirect_probe_timeout_ms),
        }
    }
}

/// The verdict after other peers were asked: one that reaches the peer is enough.
pub fn on_indirect(reached: &[bool]) -> (r: SwimVerdict)
    ensures
        r == (if reached@.contains(true) {
            SwimVerdict::Alive
        } else {
            SwimVerdict::Dead
        }),
{
    let mut i: usize = 0;
    while i < reached.len()
        invariant
            i <= reached@.len(),
            forall|k: int| 0 <= k < i ==> !(#[trigger] reached@[k]),
        decreases reached@.len() - i,
    {
        if reached[i] {
            assert(reached@[i as int]);
            return SwimVerdict::Alive;
        }
        i = i + 1;
    }
    SwimVerdict::Dead
}

/// What confirmation has decided about a peer.
#[derive(Debug, Clone, Copy, PartialEq, Eq, Structural)]
pub enum Forced {
    /// Nothing: suspicion alone decides.
    Unset,
    Alive,
    Dead,
}

#[derive(Debug)]
struct PeerState {
    node: NodeId,
    forced: Forced,
}

/// What is known of each peer's liveness. Suspicion itself is computed from the intervals
/// of a peer's heartbeats; where it convicts a peer, the callers say so.
#[derive(Debug)]
pub struct LivenessView {
    phi_enabled: bool,
    swim: SwimConfig,
    peers: Vec<PeerState>,
}

/// `LivenessView` over mathematical values.
pub struct LivenessState {
    pub phi_enabled: bool,
    pub swim: SwimConfig,
    /// The peers that were heard of or confirmed.
    pub peers: Map<Seq<char>, Forced>,
}

spec fn as_map(v: Seq<PeerState>) -> Map<Seq<char>, Forced>
    decreases v.len(),
{
    if v.len() == 0 {
        Map::empty()
    } else {
        as_map(v.drop_last()).insert(v.last().node@, v.last().forced)
    }
}

impl View for LivenessView {
    type V = LivenessState;

    closed spec fn view(&self) -> LivenessState {
        LivenessState {
            phi_enabled: self.phi_enabled,
            swim: self.swim,
            peers: as_map(self.peers@),
        }
    }
}

impl LivenessState {
    /// Whether suspicion alone condemns a peer.
    pub open spec fn suspect(self, node: Seq<char>, convicted: bool) -> bool {
        self.phi_enabled && self.peers.contains_key(node) && convicted
    }

    /// Whether a peer is left out: confirmed dead, or suspected and not confirmed alive.
    pub open spec fn excluded(self, node: Seq<char>, convicted: bool) -> bool {
        self.peers.contains_key(node) && match self.peers[node] {
            Forced::Dead => true,
            Forced::Alive => false,
            Forced::Unset => self.suspect(node, convicted),
        }
    }
}

/// Whether no peer occurs twice.
spec fn one_per_peer(v: Seq<PeerState>) -> bool {
    forall|i: int, j: int|
        0 <= i < j < v.len() ==> (#[trigger] v[i]).node@ != (#[trigger] v[j]).node@
}

impl LivenessView {
    #[verifier::type_invariant]
    spec fn inv(self) -> bool {
        one_per_peer(self.peers@)
    }

    pub fn new(phi_enabled: bool, swim: SwimConfig) -> (r: LivenessView)
        ensures
            r@ == (LivenessState { phi_enabled, swim, peers: Map::empty() }),
    {
        LivenessView { phi_enabled, swim, peers: Vec::new() }
    }

    pub fn config(&self) -> (r: &SwimConfig)
        ensures
            *r == self@.swim,
    {
        &self.swim
    }

    fn set(&mut self, node: &NodeId, forced: Forced)
        ensures
            final(self)@ == (LivenessState {
                peers: old(self)@.peers.insert(node@, forced),
                ..old(self)@
            }),
    {
        self.forget_older(node);
        proof {
            use_type_invariant(&*self);
            entry_is_known(self.peers@, node@);
        }
        let ghost before = self.peers@;
        let phi_enabled = self.phi_enabled;
        let swim = self.swim;
        let mut peers: Vec<PeerState> = Vec::new();
        std::mem::swap(&mut peers, &mut self.peers);
        peers.push(PeerState { node: node.duplicate(), forced });
        assert(peers@.drop_last() =~= before);
        *self = LivenessView { phi_enabled, swim, peers };
        assert(self@.peers =~= old(self)@.peers.insert(node@, forced));
    }

    /// Drops what is known of a peer, so that a newer entry can take its place.
    fn forget_older(&mut self, node: &NodeId)
        ensures
            final(self)@ == (LivenessState {
                peers: old(self)@.peers.remove(node@),
                ..old(self)@
            }),
    {
        proof {
            use_type_invariant(&*self);
        }
        let n: usize = self.peers.len();
        let mut i: usize = 0;
        let ghost before = self.peers@;
        while i < n && !self.peers[i].node.same(node)
            invariant
                i <= n,
                n == self.peers@.len(),
                before == self.peers@,
                forall|k: int| 0 <= k < i ==> (#[trigger] before[k]).node@ != node@,
            decreases n - i,
        {
            i = i + 1;
        }
        if i >= n {
            proof {
                entry_is_known(before, node@);
                assert(as_map(before).remove(node@) =~= as_map(before));
            }
            return;
        }
        let phi_enabled = self.phi_enabled;
        let swim = self.swim;
        let mut peers: Vec<PeerState> = Vec::new();
        std::mem::swap(&mut peers, &mut self.peers);
        let _ = peers.remove(i);
        proof {
            assert(peers@ =~= before.remove(i as int));
            forgotten(before, i as int);
            entry_is_known(peers@, node@);
            assert(as_map(peers@).remove(node@) =~= as_map(peers@));
        }
        *self = LivenessView { phi_enabled, swim, peers };
    }

    fn find(&self, node: &NodeId) -> (r: Option<Forced>)
        ensures
            r is Some <==> self@.peers.contains_key(node@),
            r is Some ==> r->0 == self@.peers[node@],
    {
        let mut n: usize = self.peers.len();
        assert(self.peers@.take(n as int) =~= self.peers@);
        while n > 0
            invariant
                n <= self.peers@.len(),
                as_map(self.peers@.take(n as int)).contains_key(node@) == as_map(
                    self.peers@,
                ).contains_key(node@),
                as_map(self.peers@.take(n as int))[node@] == as_map(self.peers@)[node@],
            decreases n,
        {
            proof {
                let here = self.peers@.take(n as int);
                assert(here.last() == self.peers@[n - 1]);
                assert(here.drop_last() =~= self.peers@.take(n - 1));
            }
            if self.peers[n - 1].node.same(node) {
                return Some(self.peers[n - 1].forced);
            }
            n = n - 1;
        }
        None
    }

    /// Notes a sign of life. It is the ground truth: what was confirmed before is void.
    pub fn heartbeat(&mut self, node: &NodeId)
        ensures
            final(self)@ == (LivenessState {
                peers: old(self)@.peers.insert(node@, Forced::Unset),
                ..old(self)@
            }),
    {
        self.set(node, Forced::Unset);
    }

    /// Whether suspicion alone condemns a peer. One that was never heard of is never
    /// suspected.
    pub fn is_suspect(&self, node: &NodeId, convicted: bool) -> (r: bool)
        ensures
            r == self@.suspect(node@, convicted),
    {
        self.phi_enabled && convicted && self.find(node).is_some()
    }

    /// Whether a peer is left out of the selection.
    pub fn is_excluded(&self, node: &NodeId, convicted: bool) -> (r: bool)
        ensures
            r == self@.excluded(node@, convicted),
    {
        match self.find(node) {
            Some(forced) => match forced {
                Forced::Dead => true,
                Forced::Alive => false,
                Forced::Unset => self.phi_enabled && convicted,
            },
            None => false,
        }
    }

    /// Notes what confirmation decided, until the next sign of life.
    pub fn apply_swim(&mut self, node: &NodeId, verdict: SwimVerdict)
        ensures
            final(self)@ == (LivenessState {
                peers: old(self)@.peers.insert(
                    node@,
                    match verdict {
                        SwimVerdict::Alive => Forced::Alive,
                        SwimVerdict::Dead => Forced::Dead,
                    },
                ),
                ..old(self)@
            }),
    {
        let forced = match verdict {
            SwimVerdict::Alive => Forced::Alive,
            SwimVerdict::Dead => Forced::Dead,
        };
        self.set(node, forced);
    }

    /// Whether a peer is to be confirmed now: only a suspected one. Where it is not, the
    /// answer is whether it counts as alive.
    pub fn confirm_with_swim(&self, node: &NodeId, convicted: bool) -> (r: Option<bool>)
        ensures
            r == (if self@.swim.enabled && self@.suspect(node@, convicted) {
                None
            } else {
                Some(!self@.excluded(node@, convicted))
            }),
    {
        if self.swim.enabled && self.is_suspect(node, convicted) {
            None
        } else {
            Some(!self.is_excluded(node, convicted))
        }
    }
}

/// A peer is known exactly where it has an entry.
proof fn entry_is_known(v: Seq<PeerState>, node: Seq<char>)
    ensures
        as_map(v).contains_key(node) <==> exists|i: int|
            0 <= i < v.len() && (#[trigger] v[i]).node@ == node,
    decreases v.len(),
{
    if v.len() > 0 {
        let rest = v.drop_last();
        entry_is_known(rest, node);
        if as_map(rest).contains_key(node) {
            let i = choose|i: int| 0 <= i < rest.len() && (#[trigger] rest[i]).node@ == node;
            assert(v[i].node@ == node);
        }
        if exists|i: int| 0 <= i < v.len() && (#[trigger] v[i]).node@ == node {
            let i = choose|i: int| 0 <= i < v.len() && (#[trigger] v[i]).node@ == node;
            if i < rest.len() {
                assert(rest[i].node@ == node);
            }
        }
        assert(v[v.len() - 1] == v.last());
    }
}

/// Removing an entry changes at most what is known of its peer.
proof fn forgotten(v: Seq<PeerState>, i: int)
    requires
        0 <= i < v.len(),
    ensures
        as_map(v.remove(i)).remove(v[i].node@) == as_map(v).remove(v[i].node@),
    decreases v.len(),
{
    let w = v.remove(i);
    let x = v[i].node@;
    if i == v.len() - 1 {
        assert(w =~= v.drop_last());
        assert(as_map(w).remove(x) =~= as_map(v).remove(x));
    } else {
        forgotten(v.drop_last(), i);
        assert(w.drop_last() =~= v.drop_last().remove(i));
        assert(w.last() == v.last());
        same_but_for(as_map(w.drop_last()), as_map(v.drop_last()), x, v.last().node@, v.last().forced);
    }
}

/// Maps that agree but for one key still do after the same insertion.
proof fn same_but_for(
    a: Map<Seq<char>, Forced>,
    b: Map<Seq<char>, Forced>,
    x: Seq<char>,
    k: Seq<char>,
    f: Forced,
)
    requires
        a.remove(x) == b.remove(x),
    ensures
        a.insert(k, f).remove(x) == b.insert(k, f).remove(x),
{
    assert forall|q: Seq<char>| q != x implies (#[trigger] a.contains_key(q)) == b.contains_key(q)
        && (a.contains_key(q) ==> a[q] == b[q]) by {
        assert(a.remove(x).contains_key(q) == a.contains_key(q));
        assert(b.remove(x).contains_key(q) == b.contains_key(q));
        if a.contains_key(q) {
            assert(a.remove(x)[q] == a[q]);
            assert(b.remove(x)[q] == b[q]);
        }
    }
    assert(a.insert(k, f).remove(x) =~= b.insert(k, f).remove(x));
}

/// A sign of life always brings a peer back, unless suspicion condemns it anew.
pub proof fn heartbeat_voids_confirmation(s: LivenessState, node: Seq<char>)
    ensures
        !(LivenessState { peers: s.peers.insert(node, Forced::Unset), ..s }).excluded(node, false),
{
}

/// A peer that others still reach is kept, however strong the suspicion.
pub proof fn rescued_peers_are_kept(s: LivenessState, node: Seq<char>, convicted: bool)
    ensures
        !(LivenessState { peers: s.peers.insert(node, Forced::Alive), ..s }).excluded(
            node,
            convicted,
        ),
{
}

/// How many candidates to ask for, so that enough are left without the dead ones.
pub fn over_fetch(want: usize) -> (r: usize)
    ensures
        r == min_int(want * 2, usize::MAX as int),
{
    match want.checked_mul(2) {
        Some(n) => n,
        None => usize::MAX,
    }
}

/// Whether a candidate stays: one without an id cannot be tracked and is kept.
pub open spec fn stays(s: LivenessState, c: CandidateView, convicted: bool) -> bool {
    c.node_id is None || !s.excluded(c.node_id->0, convicted)
}

/// The candidates that stay, in order.
pub open spec fn living(s: LivenessState, raw: Seq<CandidateView>, convicted: Seq<bool>) -> Seq<
    CandidateView,
>
    decreases raw.len(),
{
    if raw.len() == 0 {
        Seq::empty()
    } else {
        let rest = living(s, raw.drop_last(), convicted);
        if stays(s, raw.last(), convicted[raw.len() - 1]) {
            rest.push(raw.last())
        } else {
            rest
        }
    }
}

/// Up to `want` of the candidates that are not excluded, in order. `convicted[i]` says
/// whether suspicion convicts the i-th.
pub fn keep_living(view: &LivenessView, raw: &[Candidate], convicted: &[bool], want: usize) -> (r:
    Vec<Candidate>)
    requires
        convicted@.len() == raw@.len(),
    ensures
        ({
            let all = living(view@, candidate_views(raw@), convicted@);
            candidate_views(r@) == all.take(min_int(want as int, all.len() as int))
        }),
{
    let ghost views = candidate_views(raw@);
    let mut kept: Vec<Candidate> = Vec::new();
    let mut i: usize = 0;
    assert(candidate_views(kept@) =~= Seq::empty());
    while i < raw.len()
        invariant
            i <= raw@.len(),
            convicted@.len() == raw@.len(),
            views == candidate_views(raw@),
            candidate_views(kept@) == living(view@, views.take(i as int), convicted@),
        decreases raw@.len() - i,
    {
        let ghost before = candidate_views(kept@);
        proof {
            let next = views.take(i + 1);
            assert(next.drop_last() =~= views.take(i as int));
            assert(next.last() == raw@[i as int]@);
        }
        let keep = match &raw[i].node_id {
            Some(id) => !view.is_excluded(id, convicted[i]),
            None => true,
        };
        if keep {
            let c = raw[i].duplicate();
            kept.push(c);
            assert(candidate_views(kept@) =~= before.push(c@));
        }
        i = i + 1;
    }
    assert(views.take(i as int) =~= views);
    let ghost all = candidate_views(kept@);
    let ghost before = kept@;
    if kept.len() > want {
        kept.truncate(want);
        assert(kept@ =~= before.take(want as int));
    }
    assert(candidate_views(kept@) =~= all.take(min_int(want as int, all.len() as int)));
    kept
}

/// `SystemTime::elapsed` of `UNIX_EPOCH`, in milliseconds; `None` for a clock that stands
/// before it. Nothing is claimed of what the clock says.
#[verifier::external_body]
fn unix_millis() -> (r: Option<u128>)
{
    std::time::UNIX_EPOCH.elapsed().ok().map(|d| d.as_millis())
}

/// A clock reading as the time base of liveness.
pub fn clock_ms(since_epoch: Option<u128>) -> (r: u64)
    ensures
        r == (match since_epoch {
            Some(ms) => ms % 0x1_0000_0000_0000_0000,
            None => 0,
        }),
{
    match since_epoch {
        Some(ms) => (ms % 0x1_0000_0000_0000_0000) as u64,
        None => 0,
    }
}

/// The wall clock in milliseconds.
pub fn now_ms() -> (r: u64) {
    clock_ms(unix_millis())
}

/// Those that can be asked about a peer are the others.
pub proof fn others_are_asked(relays: Seq<Seq<char>>, target: Seq<char>)
    ensures
        askable(relays, target) == relays.filter(|r: Seq<char>| r != target),
    decreases relays.len(),
{
    reveal(Seq::filter);
    if relays.len() > 0 {
        others_are_asked(relays.drop_last(), target);
    } else {
        assert(askable(relays, target) =~= relays.filter(|r: Seq<char>| r != target));
    }
}

/// A peer is left out where it was found dead, or where it is convicted by its silence,
/// that counts, and nobody found it alive; a peer that was never heard of is not.
pub proof fn the_dead_and_the_convicted_are_left_out(
    s: LivenessState,
    node: Seq<char>,
    convicted: bool,
)
    ensures
        s.excluded(node, convicted) <==> s.peers.contains_key(node) && (s.peers[node]
            == Forced::Dead || (s.peers[node] == Forced::Unset && s.phi_enabled && convicted)),
        s.suspect(node, convicted) <==> s.phi_enabled && s.peers.contains_key(node) && convicted,
{
}

/// The candidates that are kept are those that are not left out, in order; one without a
/// known id cannot be.
pub proof fn the_living_are_kept(
    s: LivenessState,
    raw: Seq<CandidateView>,
    more: CandidateView,
    convicted: Seq<bool>,
)
    requires
        raw.len() < convicted.len(),
    ensures
        ({
            let kept = more.node_id is None || !s.excluded(
                more.node_id->0,
                convicted[raw.len() as int],
            );
            &&& kept ==> living(s, raw.push(more), convicted) == living(s, raw, convicted).push(
                more,
            )
            &&& !kept ==> living(s, raw.push(more), convicted) == living(s, raw, convicted)
        }),
        living(s, Seq::empty(), convicted).len() == 0,
{
    assert(raw.push(more).drop_last() =~= raw);
}

} // verus!
