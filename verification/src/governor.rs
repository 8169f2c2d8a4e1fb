//! The process-wide resource pool that a node's own queries and the jobs it serves
//! both reserve from, so that the two roles never oversubscribe the machine together.

use vstd::prelude::*;
use crate::types::DataClassCfg;

verus! {

/// Which role a reservation is made for.
#[derive(Debug, Clone, Copy, PartialEq, Eq, Structural)]
pub enum Role {
    /// The node runs its own query.
    Local,
    /// The node serves another requester's job.
    Served,
}

/// The resources a node donates.
#[derive(Debug, Clone, PartialEq, Eq)]
pub struct BudgetConfig {
    pub memory_bytes: u64,
    pub threads: u32,
    pub max_jobs: u32,
    pub per_job_memory_bytes: u64,
    pub per_job_threads: u32,
    pub data_classes: Vec<DataClassCfg>,
}

/// What one reservation holds.
#[verifier::ext_equal]
pub struct Held {
    pub role: Role,
    pub memory: u64,
    pub threads: u32,
}

/// The memory that the reservations `h` hold together.
pub open spec fn memory_sum(h: Seq<Held>) -> int
    decreases h.len(),
{
    if h.len() == 0 {
        0
    } else {
        memory_sum(h.drop_last()) + h.last().memory
    }
}

/// The memory that the served reservations among `h` hold together.
pub open spec fn served_sum(h: Seq<Held>) -> int
    decreases h.len(),
{
    if h.len() == 0 {
        0
    } else {
        served_sum(h.drop_last()) + (if h.last().role == Role::Served {
            h.last().memory as int
        } else {
            0
        })
    }
}

/// The threads that the reservations `h` hold together.
pub open spec fn thread_sum(h: Seq<Held>) -> int
    decreases h.len(),
{
    if h.len() == 0 {
        0
    } else {
        thread_sum(h.drop_last()) + h.last().threads
    }
}

proof fn sums_after_push(h: Seq<Held>, x: Held)
    ensures
        memory_sum(h.push(x)) == memory_sum(h) + x.memory,
        served_sum(h.push(x)) == served_sum(h) + (if x.role == Role::Served {
            x.memory as int
        } else {
            0
        }),
        thread_sum(h.push(x)) == thread_sum(h) + x.threads,
{
    assert(h.push(x).drop_last() =~= h);
}

proof fn sums_after_remove(h: Seq<Held>, i: int)
    requires
        0 <= i < h.len(),
    ensures
        memory_sum(h.remove(i)) == memory_sum(h) - h[i].memory,
        served_sum(h.remove(i)) == served_sum(h) - (if h[i].role == Role::Served {
            h[i].memory as int
        } else {
            0
        }),
        thread_sum(h.remove(i)) == thread_sum(h) - h[i].threads,
    decreases h.len(),
{
    if i == h.len() - 1 {
        assert(h.remove(i) =~= h.drop_last());
    } else {
        sums_after_remove(h.drop_last(), i);
        assert(h.remove(i).drop_last() =~= h.drop_last().remove(i));
        assert(h.remove(i).last() == h.last());
    }
}

proof fn sums_are_not_negative(h: Seq<Held>)
    ensures
        0 <= served_sum(h) <= memory_sum(h),
        0 <= thread_sum(h),
    decreases h.len(),
{
    if h.len() > 0 {
        sums_are_not_negative(h.drop_last());
    }
}

/// The shared pool. The ghost field lists the reservations that are out.
pub struct CapacityGovernor {
    memory_total: u64,
    threads_total: u32,
    served_memory_ceiling: u64,
    used_memory: u64,
    used_threads: u32,
    served_memory: u64,
    slots_used: usize,
    max_jobs: usize,
    out: Ghost<Seq<Held>>,
}

/// A reservation from the shared pool, given back with [`CapacityGovernor::release`].
#[derive(Debug, PartialEq, Eq)]
pub struct GovernorLease {
    role: Role,
    memory: u64,
    threads: u32,
}

impl View for GovernorLease {
    type V = Held;

    closed spec fn view(&self) -> Held {
        Held { role: self.role, memory: self.memory, threads: self.threads }
    }
}

impl GovernorLease {
    pub fn role(&self) -> (r: Role)
        ensures
            r == self@.role,
    {
        self.role
    }

    pub fn memory_bytes(&self) -> (r: u64)
        ensures
            r == self@.memory,
    {
        self.memory
    }

    pub fn threads(&self) -> (r: u32)
        ensures
            r == self@.threads,
    {
        self.threads
    }
}

/// The pool over mathematical values.
#[verifier::ext_equal]
pub struct PoolView {
    pub memory_total: u64,
    pub threads_total: u32,
    /// The most memory that served jobs may hold together.
    pub served_ceiling: u64,
    pub max_jobs: usize,
    /// The reservations that are out.
    pub out: Seq<Held>,
}

impl PoolView {
    /// Whether a reservation fits: a slot, the memory, the served ceiling and the threads.
    pub open spec fn fits(self, x: Held) -> bool {
        &&& self.out.len() < self.max_jobs
        &&& memory_sum(self.out) + x.memory <= self.memory_total
        &&& x.role == Role::Served ==> served_sum(self.out) + x.memory <= self.served_ceiling
        &&& thread_sum(self.out) + x.threads <= self.threads_total
    }

    /// The hard caps: they hold of every pool.
    pub open spec fn within_caps(self) -> bool {
        &&& self.out.len() <= self.max_jobs
        &&& memory_sum(self.out) <= self.memory_total
        &&& served_sum(self.out) <= self.served_ceiling
        &&& thread_sum(self.out) <= self.threads_total
    }
}

impl View for CapacityGovernor {
    type V = PoolView;

    closed spec fn view(&self) -> PoolView {
        PoolView {
            memory_total: self.memory_total,
            threads_total: self.threads_total,
            served_ceiling: self.served_memory_ceiling,
            max_jobs: self.max_jobs,
            out: self.out@,
        }
    }
}

impl CapacityGovernor {
    #[verifier::type_invariant]
    spec fn inv(self) -> bool {
        &&& self.used_memory == memory_sum(self.out@)
        &&& self.used_threads == thread_sum(self.out@)
        &&& self.served_memory == served_sum(self.out@)
        &&& self.slots_used == self.out@.len()
        &&& self.used_memory <= self.memory_total
        &&& self.used_threads <= self.threads_total
        &&& self.served_memory <= self.served_memory_ceiling
        &&& self.slots_used <= self.max_jobs
    }

    /// An empty pool over the donated budget. `reserved_ceiling` is the memory that
    /// served jobs may hold while the node also runs its own queries; a node that
    /// does not (`local_active` is false) serves with its whole budget.
    pub fn new(
        budget: &BudgetConfig,
        max_concurrent_jobs: usize,
        reserved_ceiling: u64,
        local_active: bool,
    ) -> (r: CapacityGovernor)
        ensures
            r@ == (PoolView {
                memory_total: budget.memory_bytes,
                threads_total: budget.threads,
                served_ceiling: if local_active {
                    reserved_ceiling
                } else {
                    budget.memory_bytes
                },
                max_jobs: if max_concurrent_jobs == 0 {
                    1
                } else {
                    max_concurrent_jobs
                },
                out: Seq::empty(),
            }),
    {
        CapacityGovernor {
            memory_total: budget.memory_bytes,
            threads_total: budget.threads,
            served_memory_ceiling: if local_active {
                reserved_ceiling
            } else {
                budget.memory_bytes
            },
            used_memory: 0,
            used_threads: 0,
            served_memory: 0,
            slots_used: 0,
            max_jobs: if max_concurrent_jobs == 0 {
                1
            } else {
                max_concurrent_jobs
            },
            out: Ghost(Seq::empty()),
        }
    }

    /// Total memory the pool manages.
    pub fn memory_total(&self) -> (r: u64)
        ensures
            r == self@.memory_total,
    {
        self.memory_total
    }

    /// The most memory that served jobs may hold together.
    pub fn served_memory_ceiling(&self) -> (r: u64)
        ensures
            r == self@.served_ceiling,
    {
        self.served_memory_ceiling
    }

    /// The most jobs that may run at once, over both roles.
    pub fn max_jobs(&self) -> (r: usize)
        ensures
            r == self@.max_jobs,
    {
        self.max_jobs
    }

    /// Memory free in the pool.
    pub fn free_memory(&self) -> (r: u64)
        ensures
            r == self@.memory_total - memory_sum(self@.out),
            self@.within_caps(),
    {
        proof {
            use_type_invariant(self);
        }
        self.memory_total - self.used_memory
    }

    /// Threads free in the pool.
    pub fn free_threads(&self) -> (r: u32)
        ensures
            r == self@.threads_total - thread_sum(self@.out),
    {
        proof {
            use_type_invariant(self);
        }
        self.threads_total - self.used_threads
    }

    /// Job slots free in the pool.
    pub fn available_slots(&self) -> (r: usize)
        ensures
            r == self@.max_jobs - self@.out.len(),
    {
        proof {
            use_type_invariant(self);
        }
        self.max_jobs - self.slots_used
    }

    /// Reserve a job slot, `memory` and `threads` for `role`. Succeeds exactly when
    /// everything fits; otherwise the pool is left as it was.
    pub fn try_reserve(&mut self, role: Role, memory: u64, threads: u32) -> (r: Option<
        GovernorLease,
    >)
        ensures
            final(self)@.within_caps(),
            r is Some <==> old(self)@.fits(Held { role, memory, threads }),
            r is None ==> final(self)@ == old(self)@,
            r is Some ==> {
                &&& r->0@ == (Held { role, memory, threads })
                &&& final(self)@ == (PoolView {
                    out: old(self)@.out.push(Held { role, memory, threads }),
                    ..old(self)@
                })
            },
    {
        proof {
            use_type_invariant(&*self);
        }
        let ghost x = Held { role, memory, threads };
        let ghost before = self.out@;
        if self.slots_used >= self.max_jobs {
            return None;
        }
        if memory > self.memory_total - self.used_memory {
            return None;
        }
        let mut served: u64 = self.served_memory;
        if role == Role::Served {
            if memory > self.served_memory_ceiling - self.served_memory {
                return None;
            }
            served = self.served_memory + memory;
        }
        if threads > self.threads_total - self.used_threads {
            return None;
        }
        proof {
            sums_after_push(before, x);
        }
        *self = CapacityGovernor {
            memory_total: self.memory_total,
            threads_total: self.threads_total,
            served_memory_ceiling: self.served_memory_ceiling,
            used_memory: self.used_memory + memory,
            used_threads: self.used_threads + threads,
            served_memory: served,
            slots_used: self.slots_used + 1,
            max_jobs: self.max_jobs,
            out: Ghost(before.push(x)),
        };
        Some(GovernorLease { role, memory, threads })
    }

    /// Give a reservation back to the pool it came from.
    pub fn release(&mut self, lease: GovernorLease)
        requires
            old(self)@.out.contains(lease@),
        ensures
            final(self)@.within_caps(),
            final(self)@ == (PoolView {
                out: old(self)@.out.remove(old(self)@.out.index_of(lease@)),
                ..old(self)@
            }),
    {
        proof {
            use_type_invariant(&*self);
            let i = self.out@.index_of(lease@);
            sums_after_remove(self.out@, i);
            sums_are_not_negative(self.out@.remove(i));
        }
        let ghost before = self.out@;
        *self = CapacityGovernor {
            memory_total: self.memory_total,
            threads_total: self.threads_total,
            served_memory_ceiling: self.served_memory_ceiling,
            used_memory: self.used_memory - lease.memory,
            used_threads: self.used_threads - lease.threads,
            served_memory: if lease.role == Role::Served {
                self.served_memory - lease.memory
            } else {
                self.served_memory
            },
            slots_used: self.slots_used - 1,
            max_jobs: self.max_jobs,
            out: Ghost(before.remove(before.index_of(lease@))),
        };
    }
}

/// Giving back what was just reserved restores the pool: the same reservations are
/// out as before.
pub proof fn release_undoes_reserve(p: PoolView, x: Held)
    ensures
        ({
            let q = p.out.push(x);
            q.remove(q.index_of(x)).to_multiset() == p.out.to_multiset()
        }),
{
    let q = p.out.push(x);
    assert(q[p.out.len() as int] == x);
    assert(q.contains(x));
    let i = q.index_of(x);
    vstd::seq_lib::to_multiset_remove(q, i);
    vstd::seq_lib::to_multiset_build(p.out, x);
    assert(p.out.to_multiset().insert(x).remove(x) =~= p.out.to_multiset());
}

/// Whichever of several equal reservations is given back, the totals come out the
/// same: giving one back frees exactly what it held.
pub proof fn release_frees_what_was_held(p: PoolView, x: Held)
    requires
        p.out.contains(x),
    ensures
        ({
            let h = p.out.remove(p.out.index_of(x));
            &&& memory_sum(h) == memory_sum(p.out) - x.memory
            &&& thread_sum(h) == thread_sum(p.out) - x.threads
            &&& served_sum(h) == served_sum(p.out) - (if x.role == Role::Served {
                x.memory as int
            } else {
                0
            })
            &&& h.len() == p.out.len() - 1
        }),
{
    sums_after_remove(p.out, p.out.index_of(x));
}

/// Serving never locks the node out of its own work: while nothing local is out,
/// the memory above the served ceiling is free.
pub proof fn served_work_leaves_headroom_for_local(p: PoolView)
    requires
        p.within_caps(),
        forall|i: int| 0 <= i < p.out.len() ==> (#[trigger] p.out[i]).role == Role::Served,
    ensures
        p.memory_total - memory_sum(p.out) >= p.memory_total - p.served_ceiling,
{
    all_served_sum(p.out);
}

proof fn all_served_sum(h: Seq<Held>)
    requires
        forall|i: int| 0 <= i < h.len() ==> (#[trigger] h[i]).role == Role::Served,
    ensures
        served_sum(h) == memory_sum(h),
    decreases h.len(),
{
    if h.len() > 0 {
        assert(h[h.len() - 1].role == Role::Served);
        assert forall|i: int| 0 <= i < h.drop_last().len() implies (#[trigger] h.drop_last()[i]).role
            == Role::Served by {
            assert(h[i].role == Role::Served);
        }
        all_served_sum(h.drop_last());
    }
}

/// What is held adds up, and what is served of it.
pub proof fn holdings_add_up(h: Seq<Held>, x: Held)
    ensures
        memory_sum(Seq::empty()) == 0 && served_sum(Seq::empty()) == 0 && thread_sum(Seq::empty())
            == 0,
        memory_sum(h.push(x)) == memory_sum(h) + x.memory,
        thread_sum(h.push(x)) == thread_sum(h) + x.threads,
        x.role == Role::Served ==> served_sum(h.push(x)) == served_sum(h) + x.memory,
        x.role == Role::Local ==> served_sum(h.push(x)) == served_sum(h),
{
    assert(h.push(x).drop_last() =~= h);
}

/// A reservation is granted exactly where the pool stays within every cap with it: the
/// jobs, the memory of both roles together, the memory that is served, and the threads.
pub proof fn reservations_are_granted_within_every_cap(p: PoolView, x: Held)
    requires
        p.within_caps(),
    ensures
        p.fits(x) <==> {
            let out = p.out.push(x);
            &&& out.len() <= p.max_jobs
            &&& memory_sum(out) <= p.memory_total
            &&& served_sum(out) <= p.served_ceiling
            &&& thread_sum(out) <= p.threads_total
        },
{
    holdings_add_up(p.out, x);
}

} // verus!
