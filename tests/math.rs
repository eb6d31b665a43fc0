use particle_life::math::{clipped_interpolation, interpolation, isqrt, wrap};

fn fx(v: f64) -> i64 {
    (v * 65536.0).round() as i64
}

#[test]
fn test_interpolation() {
    // test positive ranges
    assert_eq!(interpolation(fx(0.5), fx(0.0), fx(1.0), fx(0.0), fx(10.0)), fx(5.0));
    assert_eq!(interpolation(fx(0.25), fx(0.0), fx(1.0), fx(0.0), fx(10.0)), fx(2.5));
    assert_eq!(interpolation(fx(0.75), fx(0.0), fx(1.0), fx(0.0), fx(10.0)), fx(7.5));

    // test negative ranges
    assert_eq!(interpolation(fx(0.5), fx(1.0), fx(0.0), fx(0.0), fx(1.0)), fx(0.5));
    assert_eq!(interpolation(fx(-0.5), fx(1.0), fx(0.0), fx(0.0), fx(1.0)), fx(1.5));
    assert_eq!(interpolation(fx(1.5), fx(1.0), fx(0.0), fx(0.0), fx(1.0)), fx(-0.5));
}

#[test]
fn test_clipped_interpolation() {
    assert_eq!(clipped_interpolation(fx(2.0), fx(0.0), fx(1.0), fx(0.0), fx(10.0)), fx(10.0));
    assert_eq!(clipped_interpolation(fx(-1.0), fx(0.0), fx(1.0), fx(0.0), fx(10.0)), fx(0.0));
    assert_eq!(clipped_interpolation(fx(0.5), fx(1.0), fx(0.0), fx(0.0), fx(1.0)), fx(0.5));
}

#[test]
fn interpolation_hits_endpoints_and_midpoint() {
    assert_eq!(interpolation(3, 3, 11, -20, 40), -20);
    assert_eq!(interpolation(11, 3, 11, -20, 40), 40);
    assert_eq!(interpolation(7, 3, 11, -20, 40), 10);
    assert_eq!(interpolation(7, 11, 3, 40, -20), 10);
}

#[test]
fn interpolation_rounds_toward_zero() {
    // 1 * 10 / 3 rounds down, -1 * 10 / 3 rounds up.
    assert_eq!(interpolation(1, 0, 3, 0, 10), 3);
    assert_eq!(interpolation(-1, 0, 3, 0, 10), -3);
}

#[test]
fn clipped_interpolation_stays_in_range_far_outside() {
    assert_eq!(clipped_interpolation(i64::MAX, 0, 1, -5, 5), 5);
    assert_eq!(clipped_interpolation(i64::MIN, 0, 1, -5, 5), -5);
    assert_eq!(clipped_interpolation(i64::MAX, 1, 0, -5, 5), -5);
    assert_eq!(clipped_interpolation(i64::MIN, i64::MAX, i64::MIN, i64::MIN, i64::MAX), i64::MAX);
}

#[test]
fn isqrt_floors() {
    assert_eq!(isqrt(0), 0);
    assert_eq!(isqrt(1), 1);
    assert_eq!(isqrt(15), 3);
    assert_eq!(isqrt(16), 4);
    assert_eq!(isqrt(u64::MAX), 0xffff_ffff);
}

#[test]
fn wrap_brings_coordinates_back() {
    assert_eq!(wrap(-3, 10), 7);
    assert_eq!(wrap(-10, 10), 0);
    assert_eq!(wrap(4, 10), 4);
    assert_eq!(wrap(10, 10), 0);
    assert_eq!(wrap(19, 10), 9);
    assert_eq!(wrap(-25, 10), 5);
}
