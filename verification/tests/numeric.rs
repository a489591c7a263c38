use flock::arith::{div_i64, isqrt};
use flock::config::Config;
use flock::movement::renormalize;
use flock::vec3::{dist_sq_exec, Vec3i};

#[test]
fn isqrt_small_values() {
    assert_eq!(isqrt(0), 0);
    assert_eq!(isqrt(1), 1);
    assert_eq!(isqrt(24), 4);
    assert_eq!(isqrt(25), 5);
    assert_eq!(isqrt(26), 5);
}

#[test]
fn isqrt_large_value() {
    assert_eq!(isqrt(1_000_000_000_000_000_000_000_000), 1_000_000_000_000);
    assert_eq!(isqrt(u64::MAX as u128 * u64::MAX as u128), u64::MAX);
}

#[test]
fn division_truncates_toward_zero() {
    assert_eq!(div_i64(7, 2), 3);
    assert_eq!(div_i64(-7, 2), -3);
    assert_eq!(div_i64(0, 5), 0);
    assert_eq!(div_i64(-1, 20), 0);
}

#[test]
fn distance_squared_is_exact() {
    let a = Vec3i::new(0, 0, 0);
    let b = Vec3i::new(3000, 0, 4000);
    assert_eq!(dist_sq_exec(&a, &b), 25_000_000);
    assert_eq!(dist_sq_exec(&b, &a), 25_000_000);
    assert_eq!(dist_sq_exec(&a, &a), 0);
}

#[test]
fn renormalize_three_four_five() {
    let v = Vec3i::new(3000, 0, 4000);
    let r = renormalize(&v, 25_000);
    assert_eq!(r, Vec3i::new(15_000, 0, 20_000));
    let m = r.x * r.x + r.y * r.y + r.z * r.z;
    assert_eq!(m, 25_000i64 * 25_000);
}

#[test]
fn renormalize_zero_stays_zero() {
    let r = renormalize(&Vec3i::new(0, 0, 0), 25_000);
    assert_eq!(r, Vec3i::new(0, 0, 0));
}

#[test]
fn renormalize_negative_components() {
    let v = Vec3i::new(-3000, 0, -4000);
    let r = renormalize(&v, 25_000);
    assert_eq!(r, Vec3i::new(-15_000, 0, -20_000));
}

#[test]
fn config_accepts_the_default_constants() {
    let c = Config::new(1250, -350_000, 350_000, -200_000, 200_000, 10_000, 9_500, 20_000, 25_000);
    assert!(c.is_some());
    let c = c.unwrap();
    assert_eq!(c.population, 1250);
    assert_eq!(c.vision_radius, 10_000);
    assert_eq!(c.separation_threshold, 9_500);
}

#[test]
fn config_rejects_zero_vision_radius() {
    let c = Config::new(10, -1000, 1000, -1000, 1000, 0, 0, 0, 25_000);
    assert!(c.is_none());
}

#[test]
fn config_rejects_threshold_above_vision() {
    let c = Config::new(10, -1000, 1000, -1000, 1000, 10_000, 10_001, 0, 25_000);
    assert!(c.is_none());
}

#[test]
fn config_rejects_empty_spawn_range() {
    let c = Config::new(10, 1000, 1000, -1000, 1000, 10_000, 9_500, 0, 25_000);
    assert!(c.is_none());
}

#[test]
fn config_rejects_zero_speed() {
    let c = Config::new(10, -1000, 1000, -1000, 1000, 10_000, 9_500, 0, 0);
    assert!(c.is_none());
}

#[test]
fn config_rejects_oversized_population() {
    let c = Config::new(1_000_001, -1000, 1000, -1000, 1000, 10_000, 9_500, 0, 25_000);
    assert!(c.is_none());
}
