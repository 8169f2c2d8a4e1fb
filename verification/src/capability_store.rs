//! The node's own record of the largest workloads it has completed.

use vstd::prelude::*;
use crate::math::{max_int, max_u64, min_int, sat_add_u64};
use crate::types::{CapabilityProfile, NodeId};

verus! {

/// What one successful local execution measured.
#[derive(Debug, Clone, Copy, PartialEq, Eq, Structural)]
pub struct MeasuredExecution {
    pub input_bytes: u64,
    pub result_rows: u64,
    pub result_bytes: u64,
    /// The most memory the execution held.
    pub peak_memory_bytes: u64,
    /// The most it spilled to disk.
    pub temp_dir_bytes: u64,
}

impl Default for MeasuredExecution {
    fn default() -> (r: MeasuredExecution)
        ensures
            r == (MeasuredExecution {
                input_bytes: 0,
                result_rows: 0,
                result_bytes: 0,
                peak_memory_bytes: 0,
                temp_dir_bytes: 0,
            }),
    {
        MeasuredExecution {
            input_bytes: 0,
            result_rows: 0,
            result_bytes: 0,
            peak_memory_bytes: 0,
            temp_dir_bytes: 0,
        }
    }
}

/// A profile before it is signed.
#[derive(Debug, Clone, Copy, PartialEq, Eq, Structural)]
pub struct ProfileDraft {
    pub max_input_bytes: u64,
    pub max_result_rows: u64,
    pub max_result_bytes: u64,
    pub max_peak_memory_bytes: u64,
    pub max_temp_dir_bytes: u64,
    pub successes: u64,
    /// Grows with every update.
    pub seq: u64,
    pub ts: u64,
}

/// The draft that a profile was signed from.
pub open spec fn draft_of(p: CapabilityProfile) -> ProfileDraft {
    ProfileDraft {
        max_input_bytes: p.max_input_bytes,
        max_result_rows: p.max_result_rows,
        max_result_bytes: p.max_result_bytes,
        max_peak_memory_bytes: p.max_peak_memory_bytes,
        max_temp_dir_bytes: p.max_temp_dir_bytes,
        successes: p.successes,
        seq: p.seq,
        ts: p.ts,
    }
}

/// The draft of a node that has completed nothing.
pub open spec fn cold_start() -> ProfileDraft {
    ProfileDraft {
        max_input_bytes: 0,
        max_result_rows: 0,
        max_result_bytes: 0,
        max_peak_memory_bytes: 0,
        max_temp_dir_bytes: 0,
        successes: 0,
        seq: 0,
        ts: 0,
    }
}

/// A draft with one more execution taken in: every maximum moves up or stays.
pub open spec fn observed(base: ProfileDraft, m: MeasuredExecution, now: u64) -> ProfileDraft {
    ProfileDraft {
        max_input_bytes: max_int(base.max_input_bytes as int, m.input_bytes as int) as u64,
        max_result_rows: max_int(base.max_result_rows as int, m.result_rows as int) as u64,
        max_result_bytes: max_int(base.max_result_bytes as int, m.result_bytes as int) as u64,
        max_peak_memory_bytes: max_int(
            base.max_peak_memory_bytes as int,
            m.peak_memory_bytes as int,
        ) as u64,
        max_temp_dir_bytes: max_int(base.max_temp_dir_bytes as int, m.temp_dir_bytes as int) as u64,
        successes: min_int(base.successes + 1, u64::MAX as int) as u64,
        seq: min_int(base.seq + 1, u64::MAX as int) as u64,
        ts: now,
    }
}

/// The stored profile, if it is there, belongs to the expected node, and was verified.
pub open spec fn trusted_profile(
    stored: Option<CapabilityProfile>,
    verified: bool,
    expected: Seq<char>,
) -> Option<CapabilityProfile> {
    if stored is Some && stored->0.node_id@ == expected && verified {
        stored
    } else {
        None
    }
}

/// The record that the next execution is taken into.
pub open spec fn base_of(previous: Option<CapabilityProfile>) -> ProfileDraft {
    match previous {
        Some(p) => draft_of(p),
        None => cold_start(),
    }
}

/// Where the node's profile is kept.
#[derive(Debug, Clone, PartialEq, Eq)]
pub struct CapabilityStore {
    path: String,
}

impl CapabilityStore {
    /// Where the profile is kept.
    pub closed spec fn location(&self) -> Seq<char> {
        self.path@
    }

    /// The store at an overriding path, where one is set, else at the default one.
    pub fn open(overriding: Option<String>, default_path: String) -> (r: CapabilityStore)
        ensures
            r.location() == (match overriding {
                Some(p) => p@,
                None => default_path@,
            }),
    {
        CapabilityStore {
            path: match overriding {
                Some(p) => p,
                None => default_path,
            },
        }
    }

    pub fn with_path(path: String) -> (r: CapabilityStore)
        ensures
            r.location() == path@,
    {
        CapabilityStore { path }
    }

    pub fn path(&self) -> (r: &str)
        ensures
            r@ == self.location(),
    {
        self.path.as_str()
    }

    /// The stored profile, if it can be trusted: it is there, belongs to this node, and
    /// was verified.
    pub fn load_verified(stored: Option<CapabilityProfile>, verified: bool, expected: &NodeId) -> (r:
        Option<CapabilityProfile>)
        ensures
            r == trusted_profile(stored, verified, expected@),
    {
        match stored {
            Some(p) => if p.node_id.same(expected) && verified {
                Some(p)
            } else {
                None
            },
            None => None,
        }
    }

    /// The next draft after a successful execution. Without a profile that can be
    /// trusted the record starts anew.
    pub fn observe(previous: Option<&CapabilityProfile>, m: &MeasuredExecution, now: u64) -> (r:
        ProfileDraft)
        ensures
            r == observed(
                base_of(
                    match previous {
                        Some(p) => Some(*p),
                        None => None,
                    },
                ),
                *m,
                now,
            ),
    {
        let base = match previous {
            Some(p) => ProfileDraft {
                max_input_bytes: p.max_input_bytes,
                max_result_rows: p.max_result_rows,
                max_result_bytes: p.max_result_bytes,
                max_peak_memory_bytes: p.max_peak_memory_bytes,
                max_temp_dir_bytes: p.max_temp_dir_bytes,
                successes: p.successes,
                seq: p.seq,
                ts: p.ts,
            },
            None => ProfileDraft {
                max_input_bytes: 0,
                max_result_rows: 0,
                max_result_bytes: 0,
                max_peak_memory_bytes: 0,
                max_temp_dir_bytes: 0,
                successes: 0,
                seq: 0,
                ts: 0,
            },
        };
        ProfileDraft {
            max_input_bytes: max_u64(base.max_input_bytes, m.input_bytes),
            max_result_rows: max_u64(base.max_result_rows, m.result_rows),
            max_result_bytes: max_u64(base.max_result_bytes, m.result_bytes),
            max_peak_memory_bytes: max_u64(base.max_peak_memory_bytes, m.peak_memory_bytes),
            max_temp_dir_bytes: max_u64(base.max_temp_dir_bytes, m.temp_dir_bytes),
            successes: sat_add_u64(base.successes, 1),
            seq: sat_add_u64(base.seq, 1),
            ts: now,
        }
    }
}

/// A profile is a ratchet: no maximum ever goes down, and the sequence number goes up
/// for as long as there is a higher one.
pub proof fn profile_never_goes_back(base: ProfileDraft, m: MeasuredExecution, now: u64)
    ensures
        ({
            let next = observed(base, m, now);
            &&& next.max_input_bytes >= base.max_input_bytes
            &&& next.max_result_rows >= base.max_result_rows
            &&& next.max_result_bytes >= base.max_result_bytes
            &&& next.max_peak_memory_bytes >= base.max_peak_memory_bytes
            &&& next.max_temp_dir_bytes >= base.max_temp_dir_bytes
            &&& base.seq < u64::MAX ==> next.seq > base.seq
            &&& base.successes < u64::MAX ==> next.successes == base.successes + 1
        }),
{
}

/// A draft with executions taken in one after the other, each with its time.
pub open spec fn observed_all(base: ProfileDraft, runs: Seq<(MeasuredExecution, u64)>) -> ProfileDraft
    decreases runs.len(),
{
    if runs.len() == 0 {
        base
    } else {
        observed(observed_all(base, runs.drop_last()), runs.last().0, runs.last().1)
    }
}

/// A record covers every execution that it took in, and counts them.
pub proof fn record_covers_every_execution(
    base: ProfileDraft,
    runs: Seq<(MeasuredExecution, u64)>,
    k: int,
)
    requires
        0 <= k < runs.len(),
    ensures
        ({
            let record = observed_all(base, runs);
            let m = runs[k].0;
            &&& record.max_input_bytes >= m.input_bytes
            &&& record.max_result_rows >= m.result_rows
            &&& record.max_result_bytes >= m.result_bytes
            &&& record.max_peak_memory_bytes >= m.peak_memory_bytes
            &&& record.max_temp_dir_bytes >= m.temp_dir_bytes
            &&& record.successes == min_int(base.successes + runs.len(), u64::MAX as int)
            &&& record.seq == min_int(base.seq + runs.len(), u64::MAX as int)
        }),
    decreases runs.len(),
{
    let rest = runs.drop_last();
    if rest.len() == 0 {
        assert(observed_all(base, rest) == base);
    } else if k < rest.len() {
        record_covers_every_execution(base, rest, k);
    } else {
        record_covers_every_execution(base, rest, 0);
    }
}

/// A verified profile of this node carries its record over to the next one; any other
/// profile counts for nothing.
pub proof fn only_verified_profiles_carry_over(
    stored: Option<CapabilityProfile>,
    verified: bool,
    expected: Seq<char>,
    m: MeasuredExecution,
    now: u64,
)
    ensures
        ({
            let next = observed(base_of(trusted_profile(stored, verified, expected)), m, now);
            if stored is Some && stored->0.node_id@ == expected && verified {
                next == observed(draft_of(stored->0), m, now)
            } else {
                next == observed(cold_start(), m, now)
            }
        }),
{
}

/// An execution moves a maximum up to what it measured, where that is more; it counts as a
/// success, and the record moves on to now.
pub proof fn executions_move_the_record(base: ProfileDraft, m: MeasuredExecution, now: u64)
    ensures
        ({
            let r = observed(base, m, now);
            let larger = |r: u64, a: u64, b: u64| r >= a && r >= b && (r == a || r == b);
            &&& larger(r.max_input_bytes, base.max_input_bytes, m.input_bytes)
            &&& larger(r.max_result_rows, base.max_result_rows, m.result_rows)
            &&& larger(r.max_result_bytes, base.max_result_bytes, m.result_bytes)
            &&& larger(r.max_peak_memory_bytes, base.max_peak_memory_bytes, m.peak_memory_bytes)
            &&& larger(r.max_temp_dir_bytes, base.max_temp_dir_bytes, m.temp_dir_bytes)
            &&& base.successes < u64::MAX ==> r.successes == base.successes + 1
            &&& base.successes == u64::MAX ==> r.successes == u64::MAX
            &&& base.seq < u64::MAX ==> r.seq == base.seq + 1
            &&& base.seq == u64::MAX ==> r.seq == u64::MAX
            &&& r.ts == now
        }),
{
}

/// A record starts from nothing, and a profile carries all of it.
pub proof fn records_start_from_nothing(p: CapabilityProfile)
    ensures
        ({
            let c = cold_start();
            &&& c.max_input_bytes == 0 && c.max_result_rows == 0 && c.max_result_bytes == 0
            &&& c.max_peak_memory_bytes == 0 && c.max_temp_dir_bytes == 0
            &&& c.successes == 0 && c.seq == 0
        }),
        ({
            let d = draft_of(p);
            &&& d.max_input_bytes == p.max_input_bytes && d.max_result_rows == p.max_result_rows
            &&& d.max_result_bytes == p.max_result_bytes && d.max_peak_memory_bytes
                == p.max_peak_memory_bytes
            &&& d.max_temp_dir_bytes == p.max_temp_dir_bytes && d.successes == p.successes
            &&& d.seq == p.seq && d.ts == p.ts
        }),
{
}

} // verus!
