//! Size-based routing gates.

use vstd::prelude::*;
use crate::math::{max_int, max_u64, min_int, sat_add_u64};
use crate::types::CapabilityProfile;

verus! {

/// Measured successes below which a proven maximum is not trusted as a ceiling.
pub const PROVEN_GATE_MIN_SUCCESSES: u64 = 4;

/// The bytes a confident profile proves a node can take in: its largest input
/// plus its largest spill.
pub open spec fn proven_ceiling(p: CapabilityProfile) -> int {
    min_int(p.max_input_bytes + p.max_temp_dir_bytes, u64::MAX as int)
}

/// The proven gate: only a confident profile whose ceiling the job exceeds
/// excludes a node.
pub open spec fn proven_admits(profile: Option<CapabilityProfile>, scanned: u64) -> bool {
    scanned > 0 && profile is Some && profile->0.successes >= PROVEN_GATE_MIN_SUCCESSES ==> scanned
        <= proven_ceiling(profile->0)
}

/// May a job that scans `scanned_bytes` go to a node with this proven profile?
/// An unknown size, an unknown node and a thin history are always admitted.
pub fn proven_capacity_admits(profile: Option<&CapabilityProfile>, scanned_bytes: u64) -> (r: bool)
    ensures
        r == proven_admits(
            match profile {
                Some(p) => Some(*p),
                None => None,
            },
            scanned_bytes,
        ),
{
    if scanned_bytes == 0 {
        return true;
    }
    match profile {
        Some(p) => {
            if p.successes >= PROVEN_GATE_MIN_SUCCESSES {
                scanned_bytes <= sat_add_u64(p.max_input_bytes, p.max_temp_dir_bytes)
            } else {
                true
            }
        },
        None => true,
    }
}

/// What a bidder can hold: its free memory plus the tolerated spill, raised to
/// any peak it has proved to sustain.
pub open spec fn advertised_capacity(
    free_mem: u64,
    profile: Option<CapabilityProfile>,
    spill_tolerance: u64,
) -> int {
    let advertised = min_int(free_mem + spill_tolerance, u64::MAX as int);
    match profile {
        Some(p) => max_int(
            advertised,
            min_int(p.max_peak_memory_bytes + p.max_temp_dir_bytes, u64::MAX as int),
        ),
        None => advertised,
    }
}

/// The advertised-memory gate: only a known size against a known capacity excludes.
pub open spec fn advertised_admits(
    free_mem: u64,
    profile: Option<CapabilityProfile>,
    peak: u64,
    spill_tolerance: u64,
) -> bool {
    peak > 0 && free_mem > 0 ==> peak <= advertised_capacity(free_mem, profile, spill_tolerance)
}

/// May a job with this estimated peak go to a bidder that advertised
/// `free_mem_bytes`? Unknown sizes and unknown memory are always admitted.
pub fn advertised_capacity_admits(
    free_mem_bytes: u64,
    profile: Option<&CapabilityProfile>,
    peak_bytes: u64,
    spill_tolerance: u64,
) -> (r: bool)
    ensures
        r == advertised_admits(
            free_mem_bytes,
            match profile {
                Some(p) => Some(*p),
                None => None,
            },
            peak_bytes,
            spill_tolerance,
        ),
{
    if peak_bytes == 0 || free_mem_bytes == 0 {
        return true;
    }
    let mut capacity: u64 = sat_add_u64(free_mem_bytes, spill_tolerance);
    if let Some(p) = profile {
        capacity = max_u64(
            capacity,
            sat_add_u64(p.max_peak_memory_bytes, p.max_temp_dir_bytes),
        );
    }
    peak_bytes <= capacity
}

/// Cold-start safety: a node without a confident history is never excluded by
/// the proven gate, whatever the job's size.
pub proof fn proven_gate_is_cold_start_safe(profile: Option<CapabilityProfile>, scanned: u64)
    requires
        profile is None || profile->0.successes < PROVEN_GATE_MIN_SUCCESSES,
    ensures
        proven_admits(profile, scanned),
{
}

/// A proven history never makes the advertised gate stricter.
pub proof fn proven_history_only_widens(free_mem: u64, p: CapabilityProfile, peak: u64, spill: u64)
    ensures
        advertised_admits(free_mem, None, peak, spill) ==> advertised_admits(
            free_mem,
            Some(p),
            peak,
            spill,
        ),
{
}

/// A job is held against what a node has proved only where its size is known and the node
/// has four successes; it is then within the node's largest input and spill together.
pub proof fn proof_is_held_against_the_size(profile: Option<CapabilityProfile>, scanned: u64)
    ensures
        proven_admits(profile, scanned) <==> scanned == 0 || profile is None
            || profile->0.successes < 4 || scanned <= profile->0.max_input_bytes
            + profile->0.max_temp_dir_bytes,
{
}

/// A job's peak is held against the memory that a node advertises and the spill that is
/// tolerated, or against the peak and the spill that the node has proved, whichever is
/// more; an unknown peak or memory excludes nobody.
pub proof fn peaks_are_held_against_the_larger_capacity(
    free_mem: u64,
    profile: Option<CapabilityProfile>,
    peak: u64,
    spill: u64,
)
    ensures
        advertised_admits(free_mem, profile, peak, spill) <==> peak == 0 || free_mem == 0 || peak
            <= free_mem + spill || (profile is Some && peak <= profile->0.max_peak_memory_bytes
            + profile->0.max_temp_dir_bytes),
{
}

} // verus!
