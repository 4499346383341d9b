use ray_tracer::fixed::{SCALE, div_trunc, fix_div, fix_mul, isqrt};
use ray_tracer::vec3::Vec3;

#[test]
fn isqrt_small_values() {
    assert_eq!(isqrt(0), 0);
    assert_eq!(isqrt(1), 1);
    assert_eq!(isqrt(3), 1);
    assert_eq!(isqrt(4), 2);
    assert_eq!(isqrt(15), 3);
    assert_eq!(isqrt(16), 4);
    assert_eq!(isqrt((1u128 << 64) - 1), 0xFFFF_FFFF);
}

#[test]
fn division_truncates_toward_zero() {
    assert_eq!(div_trunc(7, 2), 3);
    assert_eq!(div_trunc(-7, 2), -3);
    assert_eq!(div_trunc(0, 5), 0);
    assert_eq!(fix_mul(SCALE / 2, SCALE / 2), SCALE / 4);
    assert_eq!(fix_mul(-SCALE, 3 * SCALE), -3 * SCALE);
    assert_eq!(fix_div(SCALE, 2 * SCALE), SCALE / 2);
}

#[test]
fn vector_componentwise_ops() {
    let a = Vec3::new_filled(SCALE, 2 * SCALE, -SCALE);
    let b = Vec3::new_filled(SCALE / 2, SCALE, SCALE);
    let s = a.add(&b);
    assert_eq!((s.x, s.y, s.z), (3 * SCALE / 2, 3 * SCALE, 0));
    let d = a.sub(&b);
    assert_eq!((d.x, d.y, d.z), (SCALE / 2, SCALE, -2 * SCALE));
    let n = a.neg();
    assert_eq!((n.x, n.y, n.z), (-SCALE, -2 * SCALE, SCALE));
    let m = a.mul(&b);
    assert_eq!((m.x, m.y, m.z), (SCALE / 2, 2 * SCALE, -SCALE));
    let k = a.scale(SCALE / 2);
    assert_eq!((k.x, k.y, k.z), (SCALE / 2, SCALE, -SCALE / 2));
}

#[test]
fn dot_cross_and_length() {
    let a = Vec3::new_filled(3 * SCALE, 4 * SCALE, 0);
    assert_eq!(a.dot(&a), 25 * SCALE);
    assert_eq!(a.length_squared(), 25 * SCALE);
    assert_eq!(a.length(), 5 * SCALE);
    let x = Vec3::new_filled(SCALE, 0, 0);
    let y = Vec3::new_filled(0, SCALE, 0);
    let z = x.cross(&y);
    assert_eq!((z.x, z.y, z.z), (0, 0, SCALE));
}

#[test]
fn normalize_three_four_five() {
    let a = Vec3::new_filled(3 * SCALE, 4 * SCALE, 0);
    let u = a.normalize();
    assert_eq!((u.x, u.y, u.z), (39321, 52428, 0));
}

#[test]
fn reflect_head_on_and_oblique() {
    let n = Vec3::new_filled(0, 0, SCALE);
    let incoming = Vec3::new_filled(0, 0, -SCALE);
    let r = Vec3::reflect(&incoming, &n);
    assert_eq!((r.x, r.y, r.z), (0, 0, SCALE));
    // An oblique unit vector keeps its tangential part and flips the
    // normal part: reflect((1,0,-1)/sqrt2, z) == (1,0,1)/sqrt2.
    let oblique = Vec3::new_filled(46341, 0, -46341);
    let r2 = Vec3::reflect(&oblique, &n);
    assert_eq!((r2.x, r2.y, r2.z), (46341, 0, 46341));
}

#[test]
fn reflect_preserves_normal_component_magnitude() {
    // The executable counterpart of the reflection law: for a unit normal,
    // the dot product with the normal changes sign up to rounding.
    let n = Vec3::new_filled(0, 0, SCALE);
    let v = Vec3::new_filled(12345, -54321, -40000);
    let r = Vec3::reflect(&v, &n);
    assert_eq!(r.dot(&n), -v.dot(&n));
}

#[test]
fn refract_straight_through_at_normal_incidence() {
    let n = Vec3::new_filled(0, 0, SCALE);
    let incoming = Vec3::new_filled(0, 0, -SCALE);
    let r = Vec3::refract(&incoming, &n, SCALE);
    assert_eq!((r.x, r.y, r.z), (0, 0, -SCALE));
}

#[test]
fn near_zero_is_exact_zero() {
    assert!(Vec3::new().near_zero());
    assert!(!Vec3::new_filled(1, 0, 0).near_zero());
    assert!(!Vec3::new_filled(0, 0, -1).near_zero());
}

#[test]
fn random_vectors_stay_in_range() {
    for _ in 0..200 {
        let v = Vec3::random();
        assert!(0 <= v.x && v.x < SCALE);
        assert!(0 <= v.y && v.y < SCALE);
        assert!(0 <= v.z && v.z < SCALE);
        let w = Vec3::random_min_max(-2 * SCALE, 3 * SCALE);
        assert!(-2 * SCALE <= w.x && w.x < 3 * SCALE);
        assert!(-2 * SCALE <= w.y && w.y < 3 * SCALE);
        assert!(-2 * SCALE <= w.z && w.z < 3 * SCALE);
    }
}
