//! Vector algebra, in fixed-point steps (65536 per world unit).

use raytrace::fixed::{clamp, SCALE};
use raytrace::ray::Ray;
use raytrace::rng::Rng;
use raytrace::vec3::{cross, dot, unit_vector, Vec3};

#[test]
fn x_test() {
    let v = Vec3::new(-72745, 0, 0);
    assert_eq!(v.x(), -72745);
}

#[test]
fn y_test() {
    let v = Vec3::new(0, 6547046, 0);
    assert_eq!(v.y(), 6547046);
}

#[test]
fn z_test() {
    let v = Vec3::new(0, 0, 7);
    assert_eq!(v.z(), 7);
}

#[test]
fn length_test() {
    // (0, 3, 4) has length 5.
    let v = Vec3::new(0, 3 * SCALE, 4 * SCALE);
    assert_eq!(v.length(), 5 * SCALE);
}

#[test]
fn length_squared_test() {
    // (0, 3, 4) has squared length 25.
    let v = Vec3::new(0, 3 * SCALE, 4 * SCALE);
    assert_eq!(v.length_squared(), 25 * SCALE);
}

#[test]
fn add_test() {
    let lhs = Vec3::new(SCALE, -SCALE, 7);
    let rhs = Vec3::new(2 * SCALE, SCALE, 7);
    assert_eq!(lhs.add(rhs), Vec3::new(3 * SCALE, 0, 14));
}

#[test]
fn sub_test() {
    let lhs = Vec3::new(SCALE, -SCALE, 7);
    let rhs = Vec3::new(2 * SCALE, SCALE, 7);
    assert_eq!(lhs.sub(rhs), Vec3::new(-SCALE, -2 * SCALE, 0));
}

#[test]
fn mul_test() {
    let v = Vec3::new(SCALE, -SCALE, 7);
    let f = 10 * SCALE;
    assert_eq!(v.scale(f), Vec3::new(10 * SCALE, -10 * SCALE, 70));
}

#[test]
fn mul_vector_test() {
    let v = Vec3::new(SCALE, -SCALE, 6554);
    let u = Vec3::new(2 * SCALE, 3 * SCALE, -SCALE);
    assert_eq!(v.mul(u), Vec3::new(2 * SCALE, -3 * SCALE, -6554));
}

#[test]
fn mul_test_reverse() {
    // Scaling commutes: the scalar factor may stand on either side.
    let v = Vec3::new(SCALE, -SCALE, 7);
    let f = 10 * SCALE;
    assert_eq!(v.scale(f), Vec3::new(f, f, f).mul(v));
}

#[test]
fn div_test() {
    let v = Vec3::new(SCALE, -SCALE, 7);
    let f = 10 * SCALE;
    // 1/10 rounds toward zero to 6553 steps; 7/10 of a step truncates to 0.
    assert_eq!(v.div(f), Vec3::new(6553, -6553, 0));
}

#[test]
fn unit_vector_test() {
    // (3, 4, 0) normalizes to (0.6, 0.8, 0), truncated to steps.
    let v = Vec3::new(3 * SCALE, 4 * SCALE, 0);
    assert_eq!(unit_vector(v), Vec3::new(39321, 52428, 0));
}

#[test]
fn dot_test() {
    let u = Vec3::new(SCALE, SCALE, SCALE);
    let v = Vec3::new(2 * SCALE, 2 * SCALE, 2 * SCALE);
    assert_eq!(dot(&u, &v), 6 * SCALE);
}

#[test]
fn cross_test() {
    let u = Vec3::new(SCALE, 0, 0);
    let v = Vec3::new(0, SCALE, 0);
    assert_eq!(cross(&u, &v), Vec3::new(0, 0, SCALE));
}

#[test]
fn add_assign_test() {
    let mut u = Vec3::new(SCALE, SCALE, SCALE);
    let v = Vec3::new(2 * SCALE, 2 * SCALE, 2 * SCALE);
    u.add_assign(v);
    assert_eq!(u, Vec3::new(3 * SCALE, 3 * SCALE, 3 * SCALE));
}

#[test]
fn near_zero_test() {
    let v1 = Vec3::new(0, 0, 0);
    let v2 = Vec3::new(512, 512, 512);
    assert_eq!(v1.near_zero(), true);
    assert_eq!(v2.near_zero(), false);
}

#[test]
fn origin_test() {
    let orig = Vec3::new(SCALE, 2 * SCALE, 3 * SCALE);
    let dir = Vec3::new(4 * SCALE, 5 * SCALE, 6 * SCALE);
    let r = Ray::new(orig, dir);
    assert_eq!(r.origin(), orig);
}

#[test]
fn dir_test() {
    let orig = Vec3::new(SCALE, 2 * SCALE, 3 * SCALE);
    let dir = Vec3::new(4 * SCALE, 5 * SCALE, 6 * SCALE);
    let r = Ray::new(orig, dir);
    assert_eq!(r.direction(), dir);
}

#[test]
fn at_test() {
    let orig = Vec3::new(SCALE, 2 * SCALE, 3 * SCALE);
    let dir = Vec3::new(4 * SCALE, 5 * SCALE, 6 * SCALE);
    let t = 2 * SCALE;
    let r = Ray::new(orig, dir);
    assert_eq!(r.at(t), Vec3::new(9 * SCALE, 12 * SCALE, 15 * SCALE));
}

#[test]
fn clamp_test() {
    assert_eq!(clamp(5, 0, 3), 3);
    assert_eq!(clamp(-5, 0, 3), 0);
    assert_eq!(clamp(2, 0, 3), 2);
}

// Reflection must negate the normal component exactly:
// reflect((1, -1, 0), (0, 1, 0)) == (1, 1, 0).
#[test]
fn reflect_concrete_test() {
    let v = Vec3::new(SCALE, -SCALE, 0);
    let n = Vec3::new(0, SCALE, 0);
    assert_eq!(Vec3::reflect(&v, &n), Vec3::new(SCALE, SCALE, 0));
}

// dot(reflect(v, n), n) == -dot(v, n) on exactly representable inputs.
#[test]
fn reflect_flips_normal_component_test() {
    let v = Vec3::new(SCALE, -SCALE, 0);
    let n = Vec3::new(0, SCALE, 0);
    let r = Vec3::reflect(&v, &n);
    assert_eq!(dot(&r, &n), -dot(&v, &n));
    let v2 = Vec3::new(3 * SCALE, -2 * SCALE, 5 * SCALE);
    let n2 = Vec3::new(0, 0, SCALE);
    let r2 = Vec3::reflect(&v2, &n2);
    assert_eq!(dot(&r2, &n2), -dot(&v2, &n2));
}

// On inputs where fixed-point truncation does occur, the reflected
// normal component still flips within a few steps of resolution.
#[test]
fn reflect_flips_normal_component_approx_test() {
    let samples = vec![
        (Vec3::new(98765, -43210, 12345), Vec3::new(0, SCALE, 0)),
        (Vec3::new(SCALE, -SCALE, 777), Vec3::new(37837, 37837, 37838)),
        (Vec3::new(-50000, 120000, -7), Vec3::new(0, 0, SCALE)),
    ];
    for (v, n) in samples {
        let r = Vec3::reflect(&v, &n);
        assert!((dot(&r, &n) + dot(&v, &n)).abs() <= 8);
    }
}

// Normalizing an already normalized vector changes nothing beyond the
// fixed-point resolution, and its length is one within tolerance.
#[test]
fn unit_vector_idempotent_test() {
    let samples = vec![
        Vec3::new(3 * SCALE, 4 * SCALE, 0),
        Vec3::new(123456, 987654, 424242),
        Vec3::new(-700000, 33333, 500000),
    ];
    for v in samples {
        let u = unit_vector(v);
        let len = u.length();
        assert!((len - SCALE).abs() <= 16);
        let u2 = unit_vector(u);
        assert!((u2.x() - u.x()).abs() <= 16);
        assert!((u2.y() - u.y()).abs() <= 16);
        assert!((u2.z() - u.z()).abs() <= 16);
    }
}

#[test]
fn rng_deterministic_test() {
    let mut a = Rng::new(42);
    let mut b = Rng::new(42);
    for _ in 0..5 {
        assert_eq!(a.next_u64(), b.next_u64());
    }
    let mut c = Rng::new(43);
    assert_ne!(a.next_u64(), c.next_u64());
}

#[test]
fn rng_range_test() {
    let mut rng = Rng::new(7);
    for _ in 0..100 {
        let x = rng.gen_range(-SCALE, SCALE);
        assert!(-SCALE <= x && x < SCALE);
    }
}

#[test]
fn random_in_unit_sphere_test() {
    let mut rng = Rng::new(11);
    for _ in 0..50 {
        let p = Vec3::random_in_unit_sphere(&mut rng);
        assert!(p.length_squared() < SCALE);
        assert!(!p.near_zero());
    }
}

#[test]
fn random_unit_vector_length_test() {
    let mut rng = Rng::new(13);
    for _ in 0..50 {
        let u = Vec3::random_unit_vector(&mut rng);
        assert!((u.length() - SCALE).abs() <= 600);
    }
}
