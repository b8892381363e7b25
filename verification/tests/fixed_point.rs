use tikus::fixed::{fx_mul_e, fx_div_e, sqrt_fx_e, tdiv_e, isqrt_e, FX_ONE, FX_HALF};
use tikus::interval::Interval;
use tikus::utility::clamp;
use tikus::math::{deg2rad, sin_fx, cos_fx};
use tikus::constants::{INFINITY, PI};

#[test]
fn fx_one_is_sixteen_bit_scale() {
    assert_eq!(FX_ONE, 65536);
    assert_eq!(FX_HALF, 32768);
}

#[test]
fn fx_mul_exact_products() {
    // 1.5 * 2.0 == 3.0
    assert_eq!(fx_mul_e(98304, 131072), 196608);
    // 1 * x == x
    assert_eq!(fx_mul_e(FX_ONE, 12345), 12345);
    // sign handling: (-1.5) * 2.0 == -3.0
    assert_eq!(fx_mul_e(-98304, 131072), -196608);
    // truncation toward zero
    assert_eq!(fx_mul_e(1, 1), 0);
    assert_eq!(fx_mul_e(-1, 1), 0);
}

#[test]
fn fx_div_exact_quotients() {
    // 3 / 2 == 1.5
    assert_eq!(fx_div_e(196608, 131072), 98304);
    // x / 1 == x
    assert_eq!(fx_div_e(424242, FX_ONE), 424242);
    // truncation toward zero on negatives
    assert_eq!(fx_div_e(-196608, 131072), -98304);
}

#[test]
fn tdiv_truncates_toward_zero() {
    assert_eq!(tdiv_e(7, 2), 3);
    assert_eq!(tdiv_e(-7, 2), -3);
    assert_eq!(tdiv_e(0, 5), 0);
}

#[test]
fn isqrt_exact_roots() {
    assert_eq!(isqrt_e(0), 0);
    assert_eq!(isqrt_e(1), 1);
    assert_eq!(isqrt_e(15), 3);
    assert_eq!(isqrt_e(16), 4);
    assert_eq!(isqrt_e(1 << 60), 1 << 30);
}

#[test]
fn sqrt_fx_matches_real_square_root() {
    // sqrt(1) == 1
    assert_eq!(sqrt_fx_e(FX_ONE), FX_ONE);
    // sqrt(4) == 2
    assert_eq!(sqrt_fx_e(4 * FX_ONE), 2 * FX_ONE);
    // sqrt(2) truncated: floor(sqrt(2) * 65536) == 92681
    assert_eq!(sqrt_fx_e(2 * FX_ONE), 92681);
    // sqrt(0.25) == 0.5
    assert_eq!(sqrt_fx_e(FX_ONE / 4), FX_HALF);
}

#[test]
fn clamp_matches_range_semantics() {
    assert_eq!(clamp(0, 10, -5), 0);
    assert_eq!(clamp(0, 10, 15), 10);
    assert_eq!(clamp(0, 10, 7), 7);
    assert_eq!(clamp(0, 10, 0), 0);
    assert_eq!(clamp(0, 10, 10), 10);
}

#[test]
fn interval_contains_is_inclusive_surrounds_exclusive() {
    let iv = Interval::new(2, 5);
    assert!(iv.contains(2));
    assert!(iv.contains(5));
    assert!(!iv.contains(6));
    assert!(!iv.surrounds(2));
    assert!(!iv.surrounds(5));
    assert!(iv.surrounds(3));
    assert_eq!(iv.size(), 3);
}

#[test]
fn interval_default_is_empty() {
    let iv = Interval::default();
    assert_eq!(iv.min, INFINITY);
    assert_eq!(iv.max, -INFINITY);
    assert!(!iv.contains(0));
}

#[test]
fn deg2rad_of_straight_angle_is_pi() {
    assert_eq!(deg2rad(180 * FX_ONE), PI);
    assert_eq!(deg2rad(0), 0);
    // 90 degrees: pi/2, off by at most the truncation of pi itself
    let quarter = deg2rad(90 * FX_ONE);
    assert!((quarter - PI / 2).abs() <= 1);
}

#[test]
fn trig_series_near_reference_values() {
    // sin(0) == 0, cos(0) == 1
    assert_eq!(sin_fx(0), 0);
    assert_eq!(cos_fx(0), FX_ONE);
    // sin and cos of pi/4 are both close to sqrt(1/2)
    let eighth = PI / 4;
    let s = sin_fx(eighth) as f64 / 65536.0;
    let c = cos_fx(eighth) as f64 / 65536.0;
    let r = (0.5_f64).sqrt();
    assert!((s - r).abs() < 1e-3, "sin(pi/4) = {}", s);
    assert!((c - r).abs() < 1e-3, "cos(pi/4) = {}", c);
}
