//! The fixed-point cycle-counter clock: conversion, calibration and the
//! seqlock sequence discipline.

use hftlog::tscns::{select_sync_pair, TscParams, CALIBRATE_INTERVAL_NANOS, RATE_ONE};

#[test]
fn conversion_at_three_tenths() {
    // a rate of about 0.3 nanoseconds per cycle: exactly round(0.3 * 2^32)
    let rate = 1_288_490_189u64;
    let base_tsc = 1_000i64;
    let base_ns = 5_000_000_000i64;
    let p = TscParams::from_raw(base_tsc, base_ns, rate, CALIBRATE_INTERVAL_NANOS);
    let ns = p.tsc2ns(base_tsc + 1_000_000_000);
    assert_eq!(ns, base_ns + 300_000_000);
}

#[test]
fn conversion_identity_rate() {
    // one nanosecond per cycle maps cycle distance to nanosecond distance
    let p = TscParams::from_raw(100, 42, RATE_ONE, CALIBRATE_INTERVAL_NANOS);
    assert_eq!(p.tsc2ns(100), 42);
    assert_eq!(p.tsc2ns(1100), 1042);
    // before the base point the clock walks backward, clamped at zero
    assert_eq!(p.tsc2ns(90), 32);
    assert_eq!(p.tsc2ns(0), 0);
}

#[test]
fn conversion_monotone() {
    let p = TscParams::from_raw(500, 1_000, 3 * RATE_ONE / 10, CALIBRATE_INTERVAL_NANOS);
    let mut last = 0i64;
    for t in 0..2000i64 {
        let ns = p.tsc2ns(t * 7);
        assert!(ns >= last);
        last = ns;
    }
}

#[test]
fn init_measures_rate() {
    // 300 ms wall time over 900 million cycles: 1/3 nanosecond per cycle
    let p = TscParams::init(1_000, 2_000, 900_000_001_000, 300_002_000,
        CALIBRATE_INTERVAL_NANOS);
    let expected = ((300_000_000u128 << 32) / 900_000_000_000u128) as u64;
    assert_eq!(p.get_ns_per_tsc(), expected);
    assert_eq!(p.base_tsc(), 1_000);
    assert_eq!(p.base_ns(), 2_000);
    assert_eq!(p.param_seq(), 0);
}

#[test]
fn calibrate_respects_deadline_and_seq() {
    let p0 = TscParams::init(0, 0, 1_000_000_000, 1_000_000_000, CALIBRATE_INTERVAL_NANOS);
    let deadline = p0.next_calibrate_tsc();
    assert!(deadline > 0);
    let mut p = p0;
    // before the deadline a calibration call is a no-op
    p.calibrate(deadline - 1, 123);
    assert_eq!(p.param_seq(), 0);
    assert_eq!(p.base_tsc(), 0);
    // at the deadline the parameters are re-based and the sequence number
    // advances by two, staying even
    let sys_ns = deadline + 10;
    p.calibrate(deadline, sys_ns);
    assert_eq!(p.param_seq(), 2);
    assert_eq!(p.base_tsc(), deadline);
    assert!(p.get_ns_per_tsc() >= 1);
    assert_eq!(p.param_seq() % 2, 0);
}

#[test]
fn sync_pair_picks_tightest_bracket() {
    let tsc = vec![0i64, 100, 110, 300, 304, 500];
    let ns = vec![5i64, 15, 25, 35, 45, 55];
    let (mid, picked_ns) = select_sync_pair(&tsc, &ns);
    // the bracket 300..304 is the tightest; its midpoint is 302
    assert_eq!(mid, 302);
    assert_eq!(picked_ns, 45);
}
