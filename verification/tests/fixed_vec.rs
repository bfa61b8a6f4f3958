use pathtracer::fixed::{fx_clamp, fx_div, fx_mul, fx_sqrt, SCALE};
use pathtracer::rng::SmRng;
use pathtracer::vec3::Vec3;

#[test]
fn mul_exact_positive() {
    // 3.5 * 2.0 == 7.0
    assert_eq!(fx_mul(229376, 131072), 458752);
}

#[test]
fn mul_truncates_toward_zero() {
    // -1.5 * 0.5 == -0.75
    assert_eq!(fx_mul(-98304, 32768), -49152);
    // Rounding of inexact products is toward zero on both sides.
    assert_eq!(fx_mul(3, 3), 0);
    assert_eq!(fx_mul(-3, 3), 0);
}

#[test]
fn div_exact() {
    // 7.0 / 2.0 == 3.5
    assert_eq!(fx_div(458752, 131072), 229376);
    // -1.0 / 3.0 truncates toward zero.
    assert_eq!(fx_div(-SCALE, 3 * SCALE), -21845);
}

#[test]
fn sqrt_exact_squares() {
    assert_eq!(fx_sqrt(4 * SCALE), 2 * SCALE);
    assert_eq!(fx_sqrt(SCALE), SCALE);
    assert_eq!(fx_sqrt(0), 0);
}

#[test]
fn sqrt_irrational_floor() {
    // sqrt(2) == 1.41421356...; floor(sqrt(2) * 65536) == 92681
    assert_eq!(fx_sqrt(2 * SCALE), 92681);
}

#[test]
fn clamp_ends() {
    assert_eq!(fx_clamp(70000, 0, 65470), 65470);
    assert_eq!(fx_clamp(-3, 0, 65470), 0);
    assert_eq!(fx_clamp(123, 0, 65470), 123);
}

#[test]
fn dot_and_length() {
    // (3, 4, 0) has length 5.
    let v = Vec3 { x: 3 * SCALE, y: 4 * SCALE, z: 0 };
    assert_eq!(v.len_sq(), 25 * SCALE);
    assert_eq!(v.len(), 5 * SCALE);
    let w = Vec3 { x: SCALE, y: -SCALE, z: 2 * SCALE };
    // dot = 3 - 4 + 0 = -1
    assert_eq!(Vec3::dot(&v, &w), -SCALE);
}

#[test]
fn unit_of_axis_vector() {
    let v = Vec3 { x: 0, y: 0, z: -2 * SCALE };
    let u = Vec3::unit_checked(&v).unwrap();
    assert_eq!(u, Vec3 { x: 0, y: 0, z: -SCALE });
}

#[test]
fn unit_rejects_zero() {
    let v = Vec3 { x: 0, y: 0, z: 0 };
    assert!(Vec3::unit_checked(&v).is_none());
}

#[test]
fn reflect_about_vertical_normal() {
    // A ray going straight down reflects straight up.
    let d = Vec3 { x: 0, y: -SCALE, z: 0 };
    let n = Vec3 { x: 0, y: SCALE, z: 0 };
    let r = Vec3::reflect(&d, &n);
    assert_eq!(r, Vec3 { x: 0, y: SCALE, z: 0 });
}

#[test]
fn rng_is_deterministic() {
    let mut a = SmRng::new(42);
    let mut b = SmRng::new(42);
    for _ in 0..16 {
        assert_eq!(a.next_u64(), b.next_u64());
    }
    let mut c = SmRng::new(43);
    assert_ne!(a.next_u64(), c.next_u64());
}

#[test]
fn rng_range_bounds() {
    let mut r = SmRng::new(7);
    for _ in 0..100 {
        let v = r.next_range(-65536, 65536);
        assert!((-65536..=65536).contains(&v));
    }
}
