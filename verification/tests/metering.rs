use p2p_node::coordinator::capacity::{
    advertised_capacity_admits, proven_capacity_admits, PROVEN_GATE_MIN_SUCCESSES,
};
use p2p_node::coordinator::metering::{
    bid_price_signal, ceil_secs, median_ms, metered_billed_seconds, Amount, MeteredTerms, GIB_BYTES,
};
use p2p_node::types::{AttestationLevel, Bid, BidDecision, CapabilityProfile, NodeId};

fn profile(max_input: u64, max_temp: u64, max_peak: u64, successes: u64) -> CapabilityProfile {
    CapabilityProfile {
        schema_version: 1,
        node_id: NodeId("b3:w".into()),
        pubkey: "00".repeat(32),
        max_input_bytes: max_input,
        max_result_rows: 0,
        max_result_bytes: 0,
        max_peak_memory_bytes: max_peak,
        max_temp_dir_bytes: max_temp,
        successes,
        seq: 1,
        ts: 0,
        sig: String::new(),
    }
}

#[test]
fn proven_gate_is_cold_start_safe() {
    // No estimate: always admit.
    assert!(proven_capacity_admits(None, 0));
    assert!(proven_capacity_admits(Some(&profile(10, 0, 0, 100)), 0));
    // Newcomer (no proven profile) is never excluded, even by a huge job.
    assert!(proven_capacity_admits(None, u64::MAX));
    // Thin proven history is not trusted as a hard ceiling.
    assert!(proven_capacity_admits(
        Some(&profile(1_000, 0, 0, PROVEN_GATE_MIN_SUCCESSES - 1)),
        1_000_000_000
    ));
}

#[test]
fn proven_gate_excludes_only_a_confident_over_ceiling_node() {
    let p = profile(1_000_000, 500_000, 0, PROVEN_GATE_MIN_SUCCESSES);
    assert!(proven_capacity_admits(Some(&p), 1_400_000)); // within max+temp
    assert!(!proven_capacity_admits(Some(&p), 5_000_000)); // clearly beyond
}

#[test]
fn advertised_gate_is_cold_start_safe_and_spill_aware() {
    let spill = 512 * 1024 * 1024;
    // No estimate: admit; unknown (0) free_mem: admit, even with a huge peak.
    assert!(advertised_capacity_admits(0, None, 0, spill));
    assert!(advertised_capacity_admits(0, None, u64::MAX, spill));
    // Fits within free_mem + spill: admit; clearly beyond: exclude.
    let free = 1024 * 1024; // 1 MiB advertised
    assert!(advertised_capacity_admits(free, None, free + spill, spill));
    assert!(!advertised_capacity_admits(free, None, free + spill + 1, spill));
    // A proven sustained peak (+ proven spill) extends the effective capacity.
    let p = profile(0, 256 * 1024 * 1024, 4 * 1024 * 1024 * 1024, 10);
    assert!(advertised_capacity_admits(free, Some(&p), 4 * 1024 * 1024 * 1024, spill));
}

fn bid_metered(rate: u64, rate_gb: u64, cap_seconds: u64) -> Bid {
    Bid {
        worker_id: NodeId("b3:w".into()),
        decision: BidDecision::Accept,
        eta_ms: 10,
        price: 0,
        attestation_level: AttestationLevel::L0,
        free_mem_bytes: 0,
        free_threads: 0,
        region_proof: None,
        rate_per_second: rate,
        rate_per_gb: rate_gb,
        estimated_seconds: cap_seconds / 5,
        cap_seconds,
    }
}

#[test]
fn metered_terms_only_present_with_a_rate() {
    // A fixed/free bid (rate 0) carries no metered terms.
    let mut fixed = bid_metered(0, 0, 0);
    fixed.estimated_seconds = 0;
    assert!(MeteredTerms::from_bid(&fixed).is_none());
    // A metered bid (rate > 0) yields terms.
    assert!(MeteredTerms::from_bid(&bid_metered(1000, 0, 50)).is_some());
}

#[test]
fn base_is_rate_times_actual_capped_at_cap_seconds() {
    // rate = 1000 nanoton/s, cap = 50 s (no byte term).
    let t = MeteredTerms::from_bid(&bid_metered(1000, 0, 50)).unwrap();
    // Bill the actual seconds when under the cap.
    assert_eq!(t.base_for(10, 0), 10_000);
    assert_eq!(t.base_for(50, 0), 50_000);
    // Past the cap, billing is clamped to cap_seconds.
    assert_eq!(t.base_for(9_999, 0), 50_000);
    // cap_base is the worst case = rate x cap_seconds.
    assert_eq!(t.cap_base(0), 50_000);
    // The settled base for any actual <= cap_base, so the remainder refunds.
    assert!(t.base_for(10, 0) < t.cap_base(0));
}

#[test]
fn optional_per_gb_byte_term_adds_to_base() {
    let t = MeteredTerms::from_bid(&bid_metered(1, 2000, 1)).unwrap();
    // 2 GiB scanned: + 2 x 2000 byte term.
    let two_gib = 2 * GIB_BYTES as u64;
    assert_eq!(t.base_for(1, two_gib), 1 /* rate x 1s */ + 4000);
    // Sub-GiB floors to 0 byte term (integer GiB granularity).
    assert_eq!(t.base_for(1, 100), 1);
}

/// The median scaled by the tolerance, rounded up.
fn tolerated(agreeing: &[u64], tolerance: f64) -> u64 {
    (median_ms(agreeing) as f64 * tolerance.max(1.0)).ceil() as u64
}

#[test]
fn billed_seconds_cross_check_caps_an_overreporting_winner() {
    let ms = [8_000, 2_000, 2_000];
    let billed = metered_billed_seconds(8_000, &ms, tolerated(&ms, 1.5));
    assert_eq!(billed, 3, "over-reporting winner capped at median x tolerance");
    // When the winner is in line with the median, its own (smaller) seconds win.
    let ms = [2_000, 2_100, 1_900];
    let billed = metered_billed_seconds(2_000, &ms, tolerated(&ms, 1.5));
    assert_eq!(billed, 2);
    // ceil(ms/1000) semantics: 1ms is 1 second; 0ms is 0.
    assert_eq!(ceil_secs(1), 1);
    assert_eq!(ceil_secs(0), 0);
    assert_eq!(ceil_secs(1001), 2);
}

#[test]
fn medians_of_latencies() {
    assert_eq!(median_ms(&[]), 0);
    assert_eq!(median_ms(&[5]), 5);
    assert_eq!(median_ms(&[1, 3]), 2);
    assert_eq!(median_ms(&[5, 1, 3]), 3);
    assert_eq!(median_ms(&[u64::MAX, u64::MAX]), u64::MAX);
    assert_eq!(median_ms(&[9, 2, 4, 7]), 5);
    assert_eq!(median_ms(&[7, 4, 9, 2]), 5);
}

/// The least ceiling that covers a base, its fee and the commissions.
fn required_escrow_total(base: Amount, verifiers: u128, fee_bps: u128, comm_bps: u128) -> Amount {
    base + base * fee_bps / 10_000 + verifiers * (base * comm_bps / 10_000)
}

#[test]
fn full_metered_split_fits_escrow_and_refunds_the_remainder() {
    // rate = 1 TON/s, cap = 5000 s: cap_base = 5000 TON. Bill 2 actual seconds:
    // base = 2 TON. Fee 15%, commission 5%, one verifier.
    const TON: Amount = 1_000_000_000;
    let t = MeteredTerms::from_bid(&bid_metered(TON as u64, 0, 5000)).unwrap();
    let cap_base = t.cap_base(0);
    let b = required_escrow_total(cap_base, 1, 1500, 500); // sized to cap_base
    let base = t.base_for(2, 0);
    let fee = base * 1500 / 10_000;
    let comm = base * 500 / 10_000;
    let total = base + fee + comm;
    assert_eq!(base, 2 * TON);
    assert_eq!(fee, base * 15 / 100);
    assert_eq!(comm, base * 5 / 100);
    assert!(total <= b, "metered split must fit the cap-sized escrow");
    // The unused over-reservation (cap minus actual) refunds to the requester.
    assert!(b - total > 0, "unused escrow refunds (cap >> actual)");
}

#[test]
fn a_metered_bid_is_priced_by_its_rate() {
    let mut b = bid_metered(7, 0, 50);
    b.price = 3;
    assert_eq!(bid_price_signal(&b), 7);
    b.rate_per_second = 0;
    assert_eq!(bid_price_signal(&b), 3);
}
