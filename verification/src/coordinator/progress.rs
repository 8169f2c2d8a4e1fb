//! Following a dispatched job: heartbeats, and when a provider counts as silent.

use vstd::prelude::*;
use crate::coordinator::judge::Commit;
use crate::types::NodeId;

verus! {

/// A heartbeat of a running job.
#[derive(Debug, Clone, PartialEq, Eq)]
pub struct Progress {
    pub job_id: String,
    pub seq: u64,
    /// What the provider reports, as it encoded it.
    pub body: Vec<u8>,
}

impl Progress {
    fn duplicate(&self) -> (r: Progress)
        ensures
            r.same_as(*self),
    {
        let mut body: Vec<u8> = Vec::new();
        let mut i: usize = 0;
        while i < self.body.len()
            invariant
                i <= self.body@.len(),
                body@ == self.body@.take(i as int),
            decreases self.body@.len() - i,
        {
            body.push(self.body[i]);
            i = i + 1;
            assert(body@ =~= self.body@.take(i as int));
        }
        assert(self.body@.take(i as int) =~= self.body@);
        Progress { job_id: self.job_id.clone(), seq: self.seq, body }
    }

    /// Whether two heartbeats say the same.
    pub open spec fn same_as(self, other: Progress) -> bool {
        self.job_id@ == other.job_id@ && self.seq == other.seq && self.body@ == other.body@
    }
}

/// The newest heartbeat of each job.
#[derive(Debug)]
pub struct ProgressTracker {
    entries: Vec<Progress>,
}

/// The heartbeats of `v` by their jobs.
pub open spec fn by_job(v: Seq<Progress>) -> Map<Seq<char>, Progress>
    decreases v.len(),
{
    if v.len() == 0 {
        Map::empty()
    } else {
        by_job(v.drop_last()).insert(v.last().job_id@, v.last())
    }
}

/// Whether no job occurs twice.
pub open spec fn one_per_job(v: Seq<Progress>) -> bool {
    forall|i: int, j: int|
        0 <= i < j < v.len() ==> (#[trigger] v[i]).job_id@ != (#[trigger] v[j]).job_id@
}

proof fn by_job_finds(v: Seq<Progress>, i: int)
    requires
        one_per_job(v),
        0 <= i < v.len(),
    ensures
        by_job(v).contains_key(v[i].job_id@),
        by_job(v)[v[i].job_id@] == v[i],
    decreases v.len(),
{
    if i < v.len() - 1 {
        assert(v.drop_last()[i] == v[i]);
        by_job_finds(v.drop_last(), i);
        assert(v[i].job_id@ != v[v.len() - 1].job_id@);
    }
}

proof fn by_job_has(v: Seq<Progress>, job: Seq<char>)
    ensures
        by_job(v).contains_key(job) ==> exists|i: int|
            0 <= i < v.len() && (#[trigger] v[i]).job_id@ == job,
    decreases v.len(),
{
    if v.len() > 0 {
        by_job_has(v.drop_last(), job);
        if by_job(v.drop_last()).contains_key(job) {
            let i = choose|i: int|
                0 <= i < v.drop_last().len() && (#[trigger] v.drop_last()[i]).job_id@ == job;
            assert(v[i].job_id@ == job);
        }
        if v.last().job_id@ == job {
            assert(v[v.len() - 1].job_id@ == job);
        }
    }
}

/// Two listings of the same jobs and heartbeats are the same map.
proof fn by_job_is(v: Seq<Progress>, m: Map<Seq<char>, Progress>)
    requires
        one_per_job(v),
        forall|i: int|
            0 <= i < v.len() ==> m.contains_key((#[trigger] v[i]).job_id@) && m[v[i].job_id@]
                == v[i],
        forall|job: Seq<char>| #[trigger]
            m.contains_key(job) ==> exists|i: int|
                0 <= i < v.len() && (#[trigger] v[i]).job_id@ == job,
    ensures
        by_job(v) == m,
{
    assert forall|job: Seq<char>| #[trigger] by_job(v).contains_key(job) == m.contains_key(job) by {
        by_job_has(v, job);
        if m.contains_key(job) {
            let i = choose|i: int| 0 <= i < v.len() && (#[trigger] v[i]).job_id@ == job;
            by_job_finds(v, i);
        }
    }
    assert forall|job: Seq<char>| by_job(v).contains_key(job) implies by_job(v)[job] == m[job] by {
        by_job_has(v, job);
        let i = choose|i: int| 0 <= i < v.len() && (#[trigger] v[i]).job_id@ == job;
        by_job_finds(v, i);
    }
    assert(by_job(v) =~= m);
}

impl View for ProgressTracker {
    type V = Map<Seq<char>, Progress>;

    closed spec fn view(&self) -> Map<Seq<char>, Progress> {
        by_job(self.entries@)
    }
}

impl ProgressTracker {
    #[verifier::type_invariant]
    spec fn inv(self) -> bool {
        one_per_job(self.entries@)
    }

    pub fn new() -> (r: ProgressTracker)
        ensures
            r@ == Map::<Seq<char>, Progress>::empty(),
    {
        ProgressTracker { entries: Vec::new() }
    }

    fn find(&self, job: &String) -> (r: Option<usize>)
        ensures
            match r {
                Some(i) => i < self.entries@.len() && self.entries@[i as int].job_id@ == job@
                    && self@.contains_key(job@) && self@[job@] == self.entries@[i as int],
                None => !self@.contains_key(job@) && forall|k: int|
                    0 <= k < self.entries@.len() ==> (#[trigger] self.entries@[k]).job_id@ != job@,
            },
    {
        proof {
            use_type_invariant(self);
        }
        let mut i: usize = 0;
        while i < self.entries.len()
            invariant
                i <= self.entries@.len(),
                one_per_job(self.entries@),
                forall|k: int| 0 <= k < i ==> (#[trigger] self.entries@[k]).job_id@ != job@,
            decreases self.entries@.len() - i,
        {
            if self.entries[i].job_id == *job {
                proof {
                    by_job_finds(self.entries@, i as int);
                }
                return Some(i);
            }
            i = i + 1;
        }
        proof {
            by_job_has(self.entries@, job@);
        }
        None
    }

    /// Records a heartbeat, unless a newer one of its job is known.
    pub fn update(&mut self, p: Progress)
        ensures
            final(self)@ == (if old(self)@.contains_key(p.job_id@) && old(self)@[p.job_id@].seq
                > p.seq {
                old(self)@
            } else {
                old(self)@.insert(p.job_id@, p)
            }),
    {
        let found = self.find(&p.job_id);
        let ghost before = self.entries@;
        let ghost map = self@;
        proof {
            use_type_invariant(&*self);
        }
        match found {
            Some(i) => {
                if self.entries[i].seq > p.seq {
                    return;
                }
                let mut entries: Vec<Progress> = Vec::new();
                std::mem::swap(&mut entries, &mut self.entries);
                entries.set(i, p);
                proof {
                    let next = map.insert(p.job_id@, p);
                    assert(entries@ =~= before.update(i as int, p));
                    assert forall|k: int| 0 <= k < entries@.len() implies next.contains_key(
                        (#[trigger] entries@[k]).job_id@,
                    ) && next[entries@[k].job_id@] == entries@[k] by {
                        by_job_finds(before, k);
                        if k < i {
                            assert(before[k].job_id@ != before[i as int].job_id@);
                        } else if k > i {
                            assert(before[i as int].job_id@ != before[k].job_id@);
                        }
                    }
                    assert forall|job: Seq<char>| #[trigger] next.contains_key(
                        job,
                    ) implies exists|k: int|
                        0 <= k < entries@.len() && (#[trigger] entries@[k]).job_id@ == job by {
                        if job == p.job_id@ {
                            assert(entries@[i as int].job_id@ == job);
                        } else {
                            by_job_has(before, job);
                            let k = choose|k: int|
                                0 <= k < before.len() && (#[trigger] before[k]).job_id@ == job;
                            assert(entries@[k].job_id@ == job);
                        }
                    }
                    assert(one_per_job(entries@)) by {
                        assert forall|a: int, b: int| 0 <= a < b < entries@.len() implies (
                        #[trigger] entries@[a]).job_id@ != (#[trigger] entries@[b]).job_id@ by {
                            assert(before[a].job_id@ != before[b].job_id@);
                        }
                    }
                    by_job_is(entries@, next);
                }
                *self = ProgressTracker { entries };
            },
            None => {
                let mut entries: Vec<Progress> = Vec::new();
                std::mem::swap(&mut entries, &mut self.entries);
                entries.push(p);
                proof {
                    assert(entries@.drop_last() =~= before);
                    assert(entries@.last() == p);
                }
                *self = ProgressTracker { entries };
            },
        }
    }

    /// The newest heartbeat of a job.
    pub fn latest(&self, job: &String) -> (r: Option<Progress>)
        ensures
            r is Some <==> self@.contains_key(job@),
            r is Some ==> r->0.same_as(self@[job@]),
    {
        match self.find(job) {
            Some(i) => Some(self.entries[i].duplicate()),
            None => None,
        }
    }

    /// The newest heartbeats of all jobs.
    pub fn snapshot(&self) -> (r: Vec<Progress>)
        ensures
            one_per_job(r@),
            forall|i: int|
                0 <= i < r@.len() ==> self@.contains_key((#[trigger] r@[i]).job_id@)
                    && r@[i].same_as(self@[r@[i].job_id@]),
            forall|job: Seq<char>| #[trigger]
                self@.contains_key(job) ==> exists|i: int|
                    0 <= i < r@.len() && (#[trigger] r@[i]).job_id@ == job,
    {
        proof {
            use_type_invariant(self);
        }
        let mut r: Vec<Progress> = Vec::new();
        let mut i: usize = 0;
        while i < self.entries.len()
            invariant
                i <= self.entries@.len(),
                r@.len() == i,
                forall|k: int| 0 <= k < i ==> (#[trigger] r@[k]).same_as(self.entries@[k]),
            decreases self.entries@.len() - i,
        {
            r.push(self.entries[i].duplicate());
            i = i + 1;
        }
        proof {
            assert forall|a: int, b: int| 0 <= a < b < r@.len() implies (#[trigger] r@[a]).job_id@
                != (#[trigger] r@[b]).job_id@ by {
                assert(self.entries@[a].job_id@ != self.entries@[b].job_id@);
            }
            assert forall|k: int| 0 <= k < r@.len() implies self@.contains_key(
                (#[trigger] r@[k]).job_id@,
            ) && r@[k].same_as(self@[r@[k].job_id@]) by {
                by_job_finds(self.entries@, k);
            }
            assert forall|job: Seq<char>| #[trigger] self@.contains_key(job) implies exists|k: int|
                0 <= k < r@.len() && (#[trigger] r@[k]).job_id@ == job by {
                by_job_has(self.entries@, job);
                let k = choose|k: int|
                    0 <= k < self.entries@.len() && (#[trigger] self.entries@[k]).job_id@ == job;
                assert(r@[k].job_id@ == job);
            }
        }
        r
    }

    /// Forgets a finished job.
    pub fn clear(&mut self, job: &String)
        ensures
            final(self)@ == old(self)@.remove(job@),
    {
        let found = self.find(job);
        let ghost before = self.entries@;
        let ghost map = self@;
        proof {
            use_type_invariant(&*self);
        }
        match found {
            Some(i) => {
                let mut entries: Vec<Progress> = Vec::new();
                std::mem::swap(&mut entries, &mut self.entries);
                let _ = entries.remove(i);
                proof {
                    let next = map.remove(job@);
                    assert(entries@ =~= before.remove(i as int));
                    assert forall|a: int, b: int| 0 <= a < b < entries@.len() implies (
                    #[trigger] entries@[a]).job_id@ != (#[trigger] entries@[b]).job_id@ by {
                        let x = if a < i { a } else { a + 1 };
                        let y = if b < i { b } else { b + 1 };
                        assert(entries@[a] == before[x] && entries@[b] == before[y]);
                    }
                    assert forall|k: int| 0 <= k < entries@.len() implies next.contains_key(
                        (#[trigger] entries@[k]).job_id@,
                    ) && next[entries@[k].job_id@] == entries@[k] by {
                        let x = if k < i { k } else { k + 1 };
                        assert(entries@[k] == before[x]);
                        by_job_finds(before, x);
                        if x < i {
                            assert(before[x].job_id@ != before[i as int].job_id@);
                        } else {
                            assert(before[i as int].job_id@ != before[x].job_id@);
                        }
                    }
                    assert forall|j: Seq<char>| #[trigger] next.contains_key(j) implies exists|
                        k: int,
                    | 0 <= k < entries@.len() && (#[trigger] entries@[k]).job_id@ == j by {
                        by_job_has(before, j);
                        let x = choose|x: int|
                            0 <= x < before.len() && (#[trigger] before[x]).job_id@ == j;
                        let k = if x < i { x } else { x - 1 };
                        assert(entries@[k] == before[x]);
                    }
                    by_job_is(entries@, next);
                }
                *self = ProgressTracker { entries };
            },
            None => {
                assert(map.remove(job@) =~= map);
            },
        }
    }
}

/// What happened on the stream of a dispatched job.
#[derive(Debug)]
pub enum StreamEvent {
    Progress(Progress),
    Commit { result_hash: String, latency_ms: u64, input_fingerprint: String },
    /// An acknowledgement, and what the provider says about a failure.
    Ack { ok: bool, detail: String },
    /// Any other frame.
    Unexpected,
    /// The stream could not be opened or written, failed or was closed.
    Broken,
    /// Nothing came within the stall window.
    Stalled,
    /// The attempt's deadline passed.
    DeadlinePassed,
}

/// What to do next about a dispatched job.
#[derive(Debug)]
pub enum Collected {
    /// Keep reading, with a fresh stall window.
    Reading,
    /// The provider committed a result.
    Committed(Commit),
    /// The provider failed and says why.
    Failed(NodeId, String),
    /// The provider went silent.
    Silent(NodeId),
}

/// Handle one event on a dispatched job's stream. A heartbeat is recorded and keeps the
/// job alive; everything but a heartbeat ends the collection.
pub fn collect_one(tracker: &mut ProgressTracker, worker: &NodeId, event: StreamEvent) -> (r:
    Collected)
    ensures
        match event {
            StreamEvent::Progress(p) => r is Reading && final(tracker)@ == (if old(
                tracker,
            )@.contains_key(p.job_id@) && old(tracker)@[p.job_id@].seq > p.seq {
                old(tracker)@
            } else {
                old(tracker)@.insert(p.job_id@, p)
            }),
            StreamEvent::Commit { result_hash, latency_ms, input_fingerprint } => {
                &&& r is Committed
                &&& r->Committed_0.worker@ == worker@
                &&& r->Committed_0.hash == result_hash
                &&& r->Committed_0.latency_ms == latency_ms
                &&& r->Committed_0.input_fingerprint == input_fingerprint
                &&& final(tracker)@ == old(tracker)@
            },
            StreamEvent::Ack { ok, detail } => {
                &&& final(tracker)@ == old(tracker)@
                &&& !ok ==> r is Failed && r->Failed_0@ == worker@ && r->Failed_1 == detail
                &&& ok ==> r is Silent && r->Silent_0@ == worker@
            },
            _ => r is Silent && r->Silent_0@ == worker@ && final(tracker)@ == old(tracker)@,
        },
{
    match event {
        StreamEvent::Progress(p) => {
            tracker.update(p);
            Collected::Reading
        },
        StreamEvent::Commit { result_hash, latency_ms, input_fingerprint } => Collected::Committed(
            Commit { worker: worker.duplicate(), hash: result_hash, latency_ms, input_fingerprint },
        ),
        StreamEvent::Ack { ok, detail } => if ok {
            Collected::Silent(worker.duplicate())
        } else {
            Collected::Failed(worker.duplicate(), detail)
        },
        _ => Collected::Silent(worker.duplicate()),
    }
}

/// A tracker holds the last heartbeat of every job that sent one.
pub proof fn the_last_heartbeat_is_held(v: Seq<Progress>, more: Progress, job: Seq<char>)
    ensures
        by_job(v.push(more)).dom().contains(job) == (job == more.job_id@ || by_job(
            v,
        ).dom().contains(job)),
        by_job(v.push(more)).dom().contains(more.job_id@) && by_job(v.push(more))[more.job_id@]
            == more,
        job != more.job_id@ && by_job(v).dom().contains(job) ==> by_job(v.push(more))[job]
            == by_job(v)[job],
{
    assert(v.push(more).drop_last() =~= v);
}

} // verus!
