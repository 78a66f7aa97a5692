use clocksync::{consensus_from_probes, marzullo, Interval, ProbeResponse, Sample};
use nulid::Nulid;

fn make_nulid(nanos: u128) -> u128 {
    Nulid::from_nanos(nanos, 1).as_u128()
}

fn make_sample(lower: u128, upper: u128, source: &str) -> Sample {
    let mid = lower + (upper - lower) / 2;
    Sample::new(lower, upper, make_nulid(mid), source)
}

/// Overlapping sources over total sources, as a ratio.
fn confidence(i: &Interval) -> f64 {
    if i.total_sources() == 0 {
        return 0.0;
    }
    f64::from(i.overlapping_sources()) / f64::from(i.total_sources())
}

#[test]
fn test_marzullo_basic() {
    let samples = vec![
        make_sample(100, 110, "peer1"),
        make_sample(105, 115, "peer2"),
        make_sample(108, 118, "peer3"),
    ];

    let result = marzullo(&samples);
    assert!(result.is_some());
    let result = result.unwrap_or_else(|| Interval::new(0, 0, 0, 0));
    assert_eq!(result.lower(), 108);
    assert_eq!(result.upper(), 110);
    assert!((confidence(&result) - 1.0).abs() < 0.01);
}

#[test]
fn test_marzullo_partial_overlap() {
    let samples = vec![
        make_sample(100, 105, "peer1"),
        make_sample(104, 110, "peer2"),
        make_sample(200, 210, "peer3"),
    ];

    let result = marzullo(&samples);
    assert!(result.is_some());
    let result = result.unwrap_or_else(|| Interval::new(0, 0, 0, 0));
    assert_eq!(result.lower(), 104);
    assert_eq!(result.upper(), 105);
    assert!((confidence(&result) - (2.0 / 3.0)).abs() < 0.01);
}

#[test]
fn test_marzullo_no_overlap() {
    let samples = vec![
        make_sample(100, 110, "peer1"),
        make_sample(200, 210, "peer2"),
        make_sample(300, 310, "peer3"),
    ];

    let result = marzullo(&samples);
    assert!(result.is_some());
    let result = result.unwrap_or_else(|| Interval::new(0, 0, 0, 0));
    assert_eq!(result.overlapping_sources(), 1);
}

#[test]
fn test_marzullo_empty() {
    let samples: Vec<Sample> = vec![];
    assert!(marzullo(&samples).is_none());
}

#[test]
fn test_marzullo_single_sample() {
    let samples = vec![make_sample(100, 200, "peer1")];

    let result = marzullo(&samples);
    assert!(result.is_some());
    let result = result.unwrap_or_else(|| Interval::new(0, 0, 0, 0));
    assert_eq!(result.lower(), 100);
    assert_eq!(result.upper(), 200);
    assert!((confidence(&result) - 1.0).abs() < 0.01);
}

#[test]
fn test_marzullo_full_overlap() {
    let samples = vec![
        make_sample(100, 120, "peer1"),
        make_sample(100, 120, "peer2"),
        make_sample(100, 120, "peer3"),
    ];

    let result = marzullo(&samples);
    assert!(result.is_some());
    let result = result.unwrap_or_else(|| Interval::new(0, 0, 0, 0));
    assert_eq!(result.lower(), 100);
    assert_eq!(result.upper(), 120);
    assert!((confidence(&result) - 1.0).abs() < 0.01);
}

#[test]
fn test_marzullo_nanosecond_precision() {
    // Realistic nanosecond values
    let base: u128 = 1_700_000_000_000_000_000; // ~2023 in nanos
    let samples = vec![
        make_sample(base, base + 10_000_000, "peer1"), // 10ms window
        make_sample(base + 5_000_000, base + 15_000_000, "peer2"), // 10ms window, offset 5ms
        make_sample(base + 8_000_000, base + 18_000_000, "peer3"), // 10ms window, offset 8ms
    ];

    let result = marzullo(&samples);
    assert!(result.is_some());
    let result = result.unwrap_or_else(|| Interval::new(0, 0, 0, 0));
    assert_eq!(result.lower(), base + 8_000_000);
    assert_eq!(result.upper(), base + 10_000_000);
    assert!((confidence(&result) - 1.0).abs() < 0.01);
}

/// A fake clock source: what a probe of each address answers.
fn fake_probe(address: &str) -> Option<ProbeResponse> {
    let base: u128 = 1_700_000_000_000_000_000;
    match address {
        // margin = 5_000_000, bounds = [100M, 110M] offset from base
        "peer1" => Some(ProbeResponse::new(make_nulid(base + 105_000_000), 10_000_000, 0)),
        // margin = 5_000_000, bounds = [105M, 115M] offset from base
        "peer2" => Some(ProbeResponse::new(make_nulid(base + 110_000_000), 10_000_000, 0)),
        // margin = 5_000_000, bounds = [108M, 118M] offset from base
        "peer3" => Some(ProbeResponse::new(make_nulid(base + 113_000_000), 10_000_000, 0)),
        "bad" => None,
        _ => Some(ProbeResponse::new(make_nulid(base), 0, 0)),
    }
}

fn probe_all(addrs: &[&str]) -> Vec<Option<ProbeResponse>> {
    addrs.iter().map(|a| fake_probe(a)).collect()
}

#[test]
fn test_consensus_all_succeed() {
    let base: u128 = 1_700_000_000_000_000_000;
    let addrs = vec!["peer1", "peer2", "peer3"];

    let result = consensus_from_probes(&addrs, &probe_all(&addrs));
    assert!(result.is_some());
    let result = result.unwrap_or_else(|| Interval::new(0, 0, 0, 0));
    // overlap: [base+108M, base+110M]
    assert_eq!(result.lower(), base + 108_000_000);
    assert_eq!(result.upper(), base + 110_000_000);
    assert!((confidence(&result) - 1.0).abs() < 0.01);
}

#[test]
fn test_consensus_with_failures() {
    let base: u128 = 1_700_000_000_000_000_000;
    let addrs = vec!["peer1", "bad", "peer2"];

    let result = consensus_from_probes(&addrs, &probe_all(&addrs));
    assert!(result.is_some());
    let result = result.unwrap_or_else(|| Interval::new(0, 0, 0, 0));
    // peer1: [base+100M, base+110M], peer2: [base+105M, base+115M]
    // overlap: [base+105M, base+110M]
    assert_eq!(result.lower(), base + 105_000_000);
    assert_eq!(result.upper(), base + 110_000_000);
    assert_eq!(result.overlapping_sources(), 2);
    assert_eq!(result.total_sources(), 2);
}

#[test]
fn test_consensus_all_fail() {
    let addrs = vec!["bad", "bad"];
    assert!(consensus_from_probes(&addrs, &probe_all(&addrs)).is_none());
}

#[test]
fn test_consensus_empty_addresses() {
    let addrs: Vec<&str> = vec![];
    assert!(consensus_from_probes(&addrs, &probe_all(&addrs)).is_none());
}

#[test]
fn marzullo_disjoint_ties_pick_first_region() {
    // with three disjoint samples every region counts one source: the result
    // is the first such region, which one sample covers throughout
    let samples = vec![
        make_sample(300, 310, "peer3"),
        make_sample(100, 110, "peer1"),
        make_sample(200, 210, "peer2"),
    ];
    let result = marzullo(&samples).unwrap();
    assert_eq!(result.lower(), 100);
    assert_eq!(result.upper(), 110);
    assert_eq!(result.overlapping_sources(), 1);
    assert_eq!(result.total_sources(), 3);
}

#[test]
fn marzullo_touching_intervals_overlap() {
    // intervals are closed: sharing an endpoint counts as overlap
    let samples = vec![make_sample(100, 200, "a"), make_sample(200, 300, "b")];
    let result = marzullo(&samples).unwrap();
    assert_eq!(result.lower(), 200);
    assert_eq!(result.upper(), 200);
    assert_eq!(result.overlapping_sources(), 2);
}

#[test]
fn marzullo_order_does_not_matter() {
    let a = vec![
        make_sample(100, 150, "a"),
        make_sample(120, 180, "b"),
        make_sample(140, 145, "c"),
        make_sample(400, 500, "d"),
    ];
    let b = vec![a[3].clone(), a[1].clone(), a[2].clone(), a[0].clone()];
    let ra = marzullo(&a).unwrap();
    let rb = marzullo(&b).unwrap();
    assert_eq!(ra, rb);
    assert_eq!(ra.lower(), 140);
    assert_eq!(ra.upper(), 145);
    assert_eq!(ra.overlapping_sources(), 3);
}

#[test]
fn marzullo_common_instant_gives_intersection() {
    let samples = vec![
        make_sample(10, 90, "a"),
        make_sample(30, 60, "b"),
        make_sample(20, 70, "c"),
    ];
    let r = marzullo(&samples).unwrap();
    assert_eq!((r.lower(), r.upper()), (30, 60));
    assert_eq!(r.overlapping_sources(), 3);
}

#[test]
fn marzullo_majority_beats_outlier() {
    let samples = vec![
        make_sample(0, 10, "outlier"),
        make_sample(50, 60, "a"),
        make_sample(55, 65, "b"),
    ];
    let r = marzullo(&samples).unwrap();
    assert_eq!((r.lower(), r.upper()), (55, 60));
    assert_eq!(r.overlapping_sources(), 2);
    assert_eq!(r.total_sources(), 3);
}

#[test]
fn marzullo_two_equal_best_regions() {
    // two disjoint pairs, each overlapping by two: the first region is chosen
    let samples = vec![
        make_sample(100, 110, "c"),
        make_sample(0, 10, "a"),
        make_sample(105, 115, "d"),
        make_sample(5, 15, "b"),
    ];
    let r = marzullo(&samples).unwrap();
    assert_eq!(r.lower(), 5);
    assert_eq!(r.upper(), 10);
    assert_eq!(r.overlapping_sources(), 2);
}

#[test]
fn consensus_skips_failures_without_changing_result() {
    let with = vec!["bad", "peer1", "bad", "peer2", "peer3", "bad"];
    let without = vec!["peer1", "peer2", "peer3"];
    let a = consensus_from_probes(&with, &probe_all(&with)).unwrap();
    let b = consensus_from_probes(&without, &probe_all(&without)).unwrap();
    assert_eq!(a, b);
    assert_eq!(a.total_sources(), 3);
}

#[test]
fn marzullo_region_ends_at_first_upper_bound_after_start() {
    // two sources agree on [20, 30]; a third starts inside and ends later
    let samples = vec![
        make_sample(10, 30, "a"),
        make_sample(20, 40, "b"),
        make_sample(35, 50, "c"),
    ];
    let r = marzullo(&samples).unwrap();
    assert_eq!((r.lower(), r.upper()), (20, 30));
    assert_eq!(r.overlapping_sources(), 2);
}

#[test]
fn consensus_with_saturating_margin() {
    // an uncertainty so large that the margin saturates still yields a result
    let addrs = vec!["wide", "peer1"];
    let outcomes = vec![
        Some(ProbeResponse::new(make_nulid(1_000), u128::MAX, u128::MAX)),
        fake_probe("peer1"),
    ];
    let r = consensus_from_probes(&addrs, &outcomes).unwrap();
    assert_eq!(r.overlapping_sources(), 2);
    assert_eq!(r.total_sources(), 2);
}
