use clocksync::Interval;
use nulid::Nulid;

#[test]
fn test_interval_creation() {
    let i = Interval::new(100, 200, 3, 5);
    assert_eq!(i.lower(), 100);
    assert_eq!(i.upper(), 200);
}

#[test]
fn test_interval_width() {
    let i = Interval::new(100, 200, 3, 5);
    assert_eq!(i.width(), 100);
}

#[test]
fn test_interval_midpoint() {
    let i = Interval::new(100, 200, 3, 5);
    assert_eq!(i.midpoint(), 150);
}

#[test]
fn test_interval_nulid() {
    let lower: u128 = 1_234_567_880_000_000_000;
    let upper: u128 = 1_234_567_900_000_000_000;
    let i = Interval::new(lower, upper, 3, 3);
    let id = Nulid::from_u128(i.nulid());
    assert_eq!(id.nanos(), i.midpoint());
}

#[test]
fn test_interval_nulid_uniqueness() {
    let i = Interval::new(1_000_000_000_000_000, 2_000_000_000_000_000, 3, 3);
    let a = Nulid::from_u128(i.nulid());
    let b = Nulid::from_u128(i.nulid());
    // Same timestamp, different random bits
    assert_eq!(a.nanos(), b.nanos());
    assert_ne!(a, b);
}

#[test]
fn test_interval_bounds_normalization() {
    let i = Interval::new(200, 100, 1, 1);
    assert_eq!(i.lower(), 200);
    assert_eq!(i.upper(), 200);
}

#[test]
fn interval_counts_are_kept() {
    let i = Interval::new(10, 20, 2, 7);
    assert_eq!(i.overlapping_sources(), 2);
    assert_eq!(i.total_sources(), 7);
}

#[test]
fn interval_midpoint_rounds_down() {
    let i = Interval::new(100, 201, 1, 1);
    assert_eq!(i.width(), 101);
    assert_eq!(i.midpoint(), 150);
}

#[test]
fn interval_extreme_bounds() {
    let i = Interval::new(0, u128::MAX, 1, 1);
    assert_eq!(i.width(), u128::MAX);
    assert_eq!(i.midpoint(), u128::MAX / 2);
    let j = Interval::new(u128::MAX, u128::MAX, 1, 1);
    assert_eq!(j.width(), 0);
    assert_eq!(j.midpoint(), u128::MAX);
}

#[test]
fn interval_nulid_keeps_random_bits_apart() {
    let i = Interval::new(5_000, 5_000, 1, 1);
    let id = i.nulid();
    assert_eq!(id >> 60, 5_000);
    assert_eq!(Nulid::from_u128(id).nanos(), 5_000);
}

#[test]
fn interval_nulid_timestamp_is_masked_to_68_bits() {
    // a midpoint beyond 68 bits keeps only its low 68 bits in the NULID
    let mid: u128 = (1u128 << 68) + 42;
    let i = Interval::new(mid, mid, 1, 1);
    assert_eq!(Nulid::from_u128(i.nulid()).nanos(), 42);
}

#[test]
fn interval_nulid_from_random_carries_the_word() {
    let i = Interval::new(1_000, 3_000, 2, 2);
    let id = i.nulid_from_random(0xABCD);
    assert_eq!(id, Nulid::from_nanos(2_000, 0xABCD).as_u128());
    assert_eq!(id & ((1u128 << 60) - 1), 0xABCD);
    // only the low 60 bits of the word are kept
    let high = i.nulid_from_random(u64::MAX);
    assert_eq!(high & ((1u128 << 60) - 1), (1u128 << 60) - 1);
    assert_eq!(high >> 60, 2_000);
}
