use clocksync::{ProbeResponse, Sample};
use nulid::Nulid;

fn make_nulid(nanos: u128) -> u128 {
    Nulid::from_nanos(nanos, 1).as_u128()
}

#[test]
fn test_sample_from_response() {
    let nanos: u128 = 1_700_000_000_000_000_000;
    let id = make_nulid(nanos);
    let resp = ProbeResponse::new(id, 10_000_000, 1_000_000);
    let s = Sample::from_response(resp, "peer1");

    // margin = 10_000_000 / 2 + 1_000_000 = 6_000_000
    assert_eq!(s.lower_bound(), nanos - 6_000_000);
    assert_eq!(s.upper_bound(), nanos + 6_000_000);
    assert_eq!(s.remote_id(), id);
    assert_eq!(s.source(), "peer1");
}

#[test]
fn test_sample_from_response_zero_rtt() {
    let nanos: u128 = 1_000_000_000_000_000_000;
    let id = make_nulid(nanos);
    let resp = ProbeResponse::new(id, 0, 0);
    let s = Sample::from_response(resp, "peer1");

    assert_eq!(s.lower_bound(), nanos);
    assert_eq!(s.upper_bound(), nanos);
    assert_eq!(s.width(), 0);
}

#[test]
fn test_sample_new_explicit() {
    let id = make_nulid(500);
    let s = Sample::new(100, 200, id, "peer1");
    assert_eq!(s.lower_bound(), 100);
    assert_eq!(s.upper_bound(), 200);
}

#[test]
fn test_sample_bounds_normalization() {
    let id = make_nulid(500);
    let s = Sample::new(200, 100, id, "peer1");
    assert_eq!(s.lower_bound(), 200);
    assert_eq!(s.upper_bound(), 200);
}

#[test]
fn test_sample_width() {
    let id = make_nulid(500);
    let s = Sample::new(100, 150, id, "peer1");
    assert_eq!(s.width(), 50);
}

#[test]
fn test_sample_midpoint() {
    let id = make_nulid(500);
    let s = Sample::new(100, 200, id, "peer1");
    assert_eq!(s.midpoint(), 150);
}

#[test]
fn test_sample_saturating_lower_bound() {
    let id = make_nulid(1000);
    let resp = ProbeResponse::new(id, 10_000, 0);
    let s = Sample::from_response(resp, "peer1");
    // peer_nanos = 1000, margin = 5000
    // lower would be negative without saturation
    assert_eq!(s.lower_bound(), 0);
    assert_eq!(s.upper_bound(), 6000);
}

#[test]
fn sample_saturating_upper_bound() {
    // a timestamp near the top of the 68-bit range plus a huge margin saturates at u128::MAX
    let nanos: u128 = (1u128 << 68) - 1;
    let resp = ProbeResponse::new(make_nulid(nanos), 0, u128::MAX - 5);
    let s = Sample::from_response(resp, "far");
    assert_eq!(s.lower_bound(), 0);
    assert_eq!(s.upper_bound(), u128::MAX);
}

#[test]
fn sample_clone_keeps_everything() {
    let s = Sample::new(3, 9, 77, "origin");
    let c = s.clone();
    assert_eq!(c.lower_bound(), 3);
    assert_eq!(c.upper_bound(), 9);
    assert_eq!(c.remote_id(), 77);
    assert_eq!(c.source(), "origin");
    assert_eq!(c, s);
}

#[test]
fn sample_midpoint_of_odd_width() {
    let s = Sample::new(10, 13, 0, "p");
    assert_eq!(s.width(), 3);
    assert_eq!(s.midpoint(), 11);
}

#[test]
fn sample_from_response_with_saturated_margin() {
    let resp = ProbeResponse::new(make_nulid(500), u128::MAX, u128::MAX);
    let s = Sample::from_response(resp, "wide");
    assert_eq!(s.lower_bound(), 0);
    assert_eq!(s.upper_bound(), u128::MAX);
}
