use daw_engine::sample::{
    apply_gain, clamp_sample, sanitize_sample, sat_add, FINITE_LIMIT, OUTPUT_LIMIT, UNIT,
};

#[test]
fn sat_add_plain() {
    assert_eq!(sat_add(3, 4), 7);
    assert_eq!(sat_add(-10, 4), -6);
}

#[test]
fn sat_add_saturates_high() {
    assert_eq!(sat_add(i64::MAX, 1), i64::MAX);
    assert_eq!(sat_add(i64::MAX, i64::MAX), i64::MAX);
}

#[test]
fn sat_add_saturates_low() {
    assert_eq!(sat_add(i64::MIN, -1), i64::MIN);
}

#[test]
fn apply_gain_unity() {
    assert_eq!(apply_gain(12345, UNIT), 12345);
    assert_eq!(apply_gain(-12345, UNIT), -12345);
}

#[test]
fn apply_gain_half_truncates_toward_zero() {
    assert_eq!(apply_gain(1000, 16384), 500);
    assert_eq!(apply_gain(1001, 16384), 500);
    assert_eq!(apply_gain(-1001, 16384), -500);
    assert_eq!(apply_gain(0, 16384), 0);
}

#[test]
fn apply_gain_double() {
    assert_eq!(apply_gain(1000, 2 * UNIT), 2000);
}

#[test]
fn clamp_sample_limits() {
    assert_eq!(clamp_sample(40000), OUTPUT_LIMIT);
    assert_eq!(clamp_sample(-40000), -OUTPUT_LIMIT);
    assert_eq!(clamp_sample(123), 123);
}

#[test]
fn sanitize_sample_replaces_non_finite() {
    assert_eq!(sanitize_sample(FINITE_LIMIT + 1), 0);
    assert_eq!(sanitize_sample(-(FINITE_LIMIT + 1)), 0);
    assert_eq!(sanitize_sample(FINITE_LIMIT), FINITE_LIMIT);
    assert_eq!(sanitize_sample(-42), -42);
}
