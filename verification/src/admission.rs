//! Worker-side admission control: the donated budget, the job slots and the data
//! classes a host serves.

use vstd::prelude::*;
use crate::coordinator::request::{class_to_cfg_spec, data_class_to_cfg};
use crate::governor::{BudgetConfig, CapacityGovernor, GovernorLease, Held, PoolView, Role};
use crate::types::{DataClass, DataClassCfg};

verus! {

/// Free resources, as advertised in a bid.
#[derive(Debug, Clone, Copy, PartialEq, Eq, Structural)]
pub struct FreeResources {
    pub memory_bytes: u64,
    pub threads: u32,
    pub free_jobs: u32,
}

/// What one admitted job holds of the donated budget.
#[verifier::ext_equal]
pub struct Grant {
    pub memory: u64,
    pub threads: u32,
}

pub open spec fn grant_memory(g: Seq<Grant>) -> int
    decreases g.len(),
{
    if g.len() == 0 {
        0
    } else {
        grant_memory(g.drop_last()) + g.last().memory
    }
}

pub open spec fn grant_threads(g: Seq<Grant>) -> int
    decreases g.len(),
{
    if g.len() == 0 {
        0
    } else {
        grant_threads(g.drop_last()) + g.last().threads
    }
}

proof fn grants_after_push(g: Seq<Grant>, x: Grant)
    ensures
        grant_memory(g.push(x)) == grant_memory(g) + x.memory,
        grant_threads(g.push(x)) == grant_threads(g) + x.threads,
{
    assert(g.push(x).drop_last() =~= g);
}

proof fn grants_after_remove(g: Seq<Grant>, i: int)
    requires
        0 <= i < g.len(),
    ensures
        grant_memory(g.remove(i)) == grant_memory(g) - g[i].memory,
        grant_threads(g.remove(i)) == grant_threads(g) - g[i].threads,
    decreases g.len(),
{
    if i == g.len() - 1 {
        assert(g.remove(i) =~= g.drop_last());
    } else {
        grants_after_remove(g.drop_last(), i);
        assert(g.remove(i).drop_last() =~= g.drop_last().remove(i));
        assert(g.remove(i).last() == g.last());
    }
}

proof fn grants_are_not_negative(g: Seq<Grant>)
    ensures
        0 <= grant_memory(g),
        0 <= grant_threads(g),
    decreases g.len(),
{
    if g.len() > 0 {
        grants_are_not_negative(g.drop_last());
    }
}

/// Current usage against the donated budget. The ghost field lists the grants that
/// are out.
struct Ledger {
    memory_bytes: u64,
    threads: u32,
    used_memory: u64,
    used_threads: u32,
    slots_used: u32,
    max_jobs: u32,
    out: Ghost<Seq<Grant>>,
}

impl Ledger {
    #[verifier::type_invariant]
    spec fn inv(self) -> bool {
        &&& self.used_memory == grant_memory(self.out@)
        &&& self.used_threads == grant_threads(self.out@)
        &&& self.slots_used == self.out@.len()
        &&& self.used_memory <= self.memory_bytes
        &&& self.used_threads <= self.threads
        &&& self.slots_used <= self.max_jobs
    }
}

/// Tracks current usage against the donated budget, and the data classes served.
pub struct AdmissionController {
    ledger: Ledger,
    data_classes: Vec<DataClassCfg>,
}

/// The controller over mathematical values.
#[verifier::ext_equal]
pub struct AdmissionView {
    pub memory_bytes: u64,
    pub threads: u32,
    pub max_jobs: u32,
    pub data_classes: Seq<DataClassCfg>,
    /// The grants that are out.
    pub out: Seq<Grant>,
}

impl AdmissionView {
    /// Whether a job fits: a slot, the memory and the threads.
    pub open spec fn fits(self, x: Grant) -> bool {
        &&& self.out.len() < self.max_jobs
        &&& grant_memory(self.out) + x.memory <= self.memory_bytes
        &&& grant_threads(self.out) + x.threads <= self.threads
    }

    /// The donated budget: it holds of every controller.
    pub open spec fn within_budget(self) -> bool {
        &&& self.out.len() <= self.max_jobs
        &&& grant_memory(self.out) <= self.memory_bytes
        &&& grant_threads(self.out) <= self.threads
    }
}

impl View for AdmissionController {
    type V = AdmissionView;

    closed spec fn view(&self) -> AdmissionView {
        AdmissionView {
            memory_bytes: self.ledger.memory_bytes,
            threads: self.ledger.threads,
            max_jobs: self.ledger.max_jobs,
            data_classes: self.data_classes@,
            out: self.ledger.out@,
        }
    }
}

/// An admitted job's grant, given back with [`AdmissionController::release`].
#[derive(Debug, PartialEq, Eq)]
pub struct Lease {
    memory_bytes: u64,
    threads: u32,
    governor_lease: Option<GovernorLease>,
}

impl Lease {
    pub closed spec fn grant(&self) -> Grant {
        Grant { memory: self.memory_bytes, threads: self.threads }
    }

    /// The reservation held from the shared pool, if the host is governed.
    pub closed spec fn governed(&self) -> Option<GovernorLease> {
        self.governor_lease
    }

    pub fn memory_bytes(&self) -> (r: u64)
        ensures
            r == self.grant().memory,
    {
        self.memory_bytes
    }

    pub fn threads(&self) -> (r: u32)
        ensures
            r == self.grant().threads,
    {
        self.threads
    }
}

fn has_class(v: &[DataClassCfg], c: DataClassCfg) -> (r: bool)
    ensures
        r == v@.contains(c),
{
    let mut i: usize = 0;
    while i < v.len()
        invariant
            i <= v@.len(),
            forall|k: int| 0 <= k < i ==> v@[k] != c,
        decreases v@.len() - i,
    {
        if v[i] == c {
            return true;
        }
        i = i + 1;
    }
    false
}

fn copy_classes(v: &[DataClassCfg]) -> (r: Vec<DataClassCfg>)
    ensures
        r@ == v@,
{
    let mut r: Vec<DataClassCfg> = Vec::new();
    let mut i: usize = 0;
    while i < v.len()
        invariant
            i <= v@.len(),
            r@ == v@.take(i as int),
        decreases v@.len() - i,
    {
        r.push(v[i]);
        i = i + 1;
        assert(r@ =~= v@.take(i as int));
    }
    assert(v@.take(i as int) =~= v@);
    r
}

impl AdmissionController {
    /// A controller over the donated budget, with nothing admitted.
    pub fn new(budget: &BudgetConfig) -> (r: AdmissionController)
        ensures
            r@ == (AdmissionView {
                memory_bytes: budget.memory_bytes,
                threads: budget.threads,
                max_jobs: budget.max_jobs,
                data_classes: budget.data_classes@,
                out: Seq::empty(),
            }),
    {
        AdmissionController {
            ledger: Ledger {
                memory_bytes: budget.memory_bytes,
                threads: budget.threads,
                used_memory: 0,
                used_threads: 0,
                slots_used: 0,
                max_jobs: budget.max_jobs,
                out: Ghost(Seq::empty()),
            },
            data_classes: copy_classes(&budget.data_classes),
        }
    }

    /// Whether this host serves the data class.
    pub fn serves_data_class(&self, dc: DataClass) -> (r: bool)
        ensures
            r == self@.data_classes.contains(class_to_cfg_spec(dc)),
    {
        has_class(&self.data_classes, data_class_to_cfg(dc))
    }

    /// What is free right now.
    pub fn free(&self) -> (r: FreeResources)
        ensures
            r.memory_bytes == self@.memory_bytes - grant_memory(self@.out),
            r.threads == self@.threads - grant_threads(self@.out),
            r.free_jobs == self@.max_jobs - self@.out.len(),
            self@.within_budget(),
    {
        proof {
            use_type_invariant(&self.ledger);
        }
        FreeResources {
            memory_bytes: self.ledger.memory_bytes - self.ledger.used_memory,
            threads: self.ledger.threads - self.ledger.used_threads,
            free_jobs: self.ledger.max_jobs - self.ledger.slots_used,
        }
    }

    pub fn max_jobs(&self) -> (r: u32)
        ensures
            r == self@.max_jobs,
    {
        self.ledger.max_jobs
    }

    fn fits(&self, memory_bytes: u64, threads: u32) -> (r: bool)
        ensures
            r == self@.fits(Grant { memory: memory_bytes, threads }),
    {
        proof {
            use_type_invariant(&self.ledger);
        }
        self.ledger.slots_used < self.ledger.max_jobs && memory_bytes <= self.ledger.memory_bytes - self.ledger.used_memory
            && threads <= self.ledger.threads - self.ledger.used_threads
    }

    fn grant(&mut self, memory_bytes: u64, threads: u32)
        requires
            old(self)@.fits(Grant { memory: memory_bytes, threads }),
        ensures
            final(self)@.within_budget(),
            final(self)@ == (AdmissionView {
                out: old(self)@.out.push(Grant { memory: memory_bytes, threads }),
                ..old(self)@
            }),
    {
        proof {
            use_type_invariant(&self.ledger);
            grants_after_push(self.ledger.out@, Grant { memory: memory_bytes, threads });
        }
        let ghost before = self.ledger.out@;
        self.ledger = Ledger {
            memory_bytes: self.ledger.memory_bytes,
            threads: self.ledger.threads,
            used_memory: self.ledger.used_memory + memory_bytes,
            used_threads: self.ledger.used_threads + threads,
            slots_used: self.ledger.slots_used + 1,
            max_jobs: self.ledger.max_jobs,
            out: Ghost(before.push(Grant { memory: memory_bytes, threads })),
        };
    }

    /// Reserve resources for one job on a host with no shared pool. Succeeds exactly
    /// when the job fits; otherwise nothing changes.
    pub fn try_admit(&mut self, memory_bytes: u64, threads: u32) -> (r: Option<Lease>)
        ensures
            r is Some <==> old(self)@.fits(Grant { memory: memory_bytes, threads }),
            r is None ==> final(self)@ == old(self)@,
            r is Some ==> {
                &&& r->0.grant() == (Grant { memory: memory_bytes, threads })
                &&& r->0.governed() is None
                &&& final(self)@.within_budget()
                &&& final(self)@ == (AdmissionView {
                    out: old(self)@.out.push(Grant { memory: memory_bytes, threads }),
                    ..old(self)@
                })
            },
    {
        if !self.fits(memory_bytes, threads) {
            return None;
        }
        self.grant(memory_bytes, threads);
        Some(Lease { memory_bytes, threads, governor_lease: None })
    }

    /// Reserve resources for one job on a host that shares a pool with its own
    /// queries. Succeeds exactly when the job fits both the donated budget and the
    /// pool; otherwise neither changes.
    pub fn try_admit_governed(
        &mut self,
        governor: &mut CapacityGovernor,
        memory_bytes: u64,
        threads: u32,
    ) -> (r: Option<Lease>)
        ensures
            ({
                let x = Grant { memory: memory_bytes, threads };
                let h = Held { role: Role::Served, memory: memory_bytes, threads };
                &&& r is Some <==> old(self)@.fits(x) && old(governor)@.fits(h)
                &&& r is None ==> final(self)@ == old(self)@ && final(governor)@ == old(governor)@
                &&& r is Some ==> {
                    &&& r->0.grant() == x
                    &&& r->0.governed() is Some
                    &&& r->0.governed()->0@ == h
                    &&& final(self)@.within_budget()
                    &&& final(governor)@.within_caps()
                    &&& final(self)@ == (AdmissionView {
                        out: old(self)@.out.push(x),
                        ..old(self)@
                    })
                    &&& final(governor)@ == (PoolView {
                        out: old(governor)@.out.push(h),
                        ..old(governor)@
                    })
                }
            }),
    {
        if !self.fits(memory_bytes, threads) {
            return None;
        }
        match governor.try_reserve(Role::Served, memory_bytes, threads) {
            Some(lease) => {
                self.grant(memory_bytes, threads);
                Some(Lease { memory_bytes, threads, governor_lease: Some(lease) })
            },
            None => None,
        }
    }

    /// Give a lease back. What it held from the shared pool, if anything, is handed
    /// on to be given back there.
    pub fn release(&mut self, lease: Lease) -> (r: Option<GovernorLease>)
        requires
            old(self)@.out.contains(lease.grant()),
        ensures
            final(self)@.within_budget(),
            final(self)@ == (AdmissionView {
                out: old(self)@.out.remove(old(self)@.out.index_of(lease.grant())),
                ..old(self)@
            }),
            r == lease.governed(),
    {
        proof {
            use_type_invariant(&self.ledger);
            let i = self.ledger.out@.index_of(lease.grant());
            grants_after_remove(self.ledger.out@, i);
            grants_are_not_negative(self.ledger.out@.remove(i));
        }
        let ghost before = self.ledger.out@;
        self.ledger = Ledger {
            memory_bytes: self.ledger.memory_bytes,
            threads: self.ledger.threads,
            used_memory: self.ledger.used_memory - lease.memory_bytes,
            used_threads: self.ledger.used_threads - lease.threads,
            slots_used: self.ledger.slots_used - 1,
            max_jobs: self.ledger.max_jobs,
            out: Ghost(before.remove(before.index_of(lease.grant()))),
        };
        lease.governor_lease
    }
}

/// Giving a lease back restores the budget: the same grants are out as before the
/// job was admitted.
pub proof fn release_undoes_admission(a: AdmissionView, x: Grant)
    ensures
        ({
            let q = a.out.push(x);
            q.remove(q.index_of(x)).to_multiset() == a.out.to_multiset()
        }),
{
    let q = a.out.push(x);
    assert(q[a.out.len() as int] == x);
    assert(q.contains(x));
    vstd::seq_lib::to_multiset_remove(q, q.index_of(x));
    vstd::seq_lib::to_multiset_build(a.out, x);
    assert(a.out.to_multiset().insert(x).remove(x) =~= a.out.to_multiset());
}

/// What is granted adds up.
pub proof fn grants_add_up(g: Seq<Grant>, x: Grant)
    ensures
        grant_memory(Seq::empty()) == 0 && grant_threads(Seq::empty()) == 0,
        grant_memory(g.push(x)) == grant_memory(g) + x.memory,
        grant_threads(g.push(x)) == grant_threads(g) + x.threads,
{
    assert(g.push(x).drop_last() =~= g);
}

/// A job is admitted exactly where the donated budget holds it: a slot, the memory and the
/// threads.
pub proof fn jobs_are_admitted_within_the_budget(a: AdmissionView, x: Grant)
    ensures
        a.fits(x) <==> {
            let out = a.out.push(x);
            &&& out.len() <= a.max_jobs
            &&& grant_memory(out) <= a.memory_bytes
            &&& grant_threads(out) <= a.threads
        },
{
    grants_add_up(a.out, x);
}

} // verus!
