//! Tests of the scalar, vector, ray and matrix layers.

use raycore::fixed::{Scalar, EPSILON, SCALE};
use raycore::linalg::{dot, Matrix4, Point3, Ray3, Vec3};

fn s(raw: i64) -> Scalar {
    Scalar::from_raw(raw)
}

fn v(x: i64, y: i64, z: i64) -> Vec3 {
    Vec3::new(s(x), s(y), s(z))
}

fn raws(v: &Vec3) -> (i64, i64, i64) {
    (v.x().raw, v.y().raw, v.z().raw)
}

#[test]
fn scalar_constructors() {
    assert_eq!(Scalar::from_raw(42).raw, 42);
    assert_eq!(Scalar::from_int(3).raw, 3 * SCALE);
    assert_eq!(Scalar::zero().raw, 0);
    assert_eq!(Scalar::one().raw, SCALE);
    assert_eq!(Scalar::infinity().raw, i64::MAX);
}

#[test]
fn scalar_arithmetic() {
    assert_eq!(s(300).add(s(500)).raw, 800);
    assert_eq!(s(300).sub(s(500)).raw, -200);
    assert_eq!(s(300).neg().raw, -300);
    assert!(s(1).lt(s(2)));
    assert!(!s(2).lt(s(2)));
}

#[test]
fn scalar_is_zero_tolerance() {
    assert!(Scalar::from_raw(0).is_zero());
    assert!(Scalar::from_raw(EPSILON - 1).is_zero());
    assert!(Scalar::from_raw(1 - EPSILON).is_zero());
    assert!(!Scalar::from_raw(EPSILON).is_zero());
    assert!(!Scalar::from_raw(-EPSILON).is_zero());
}

#[test]
fn vector_accessors_and_setters() {
    let mut a = v(1, 2, 3);
    assert_eq!(a.x().raw, 1);
    assert_eq!(a.y().raw, 2);
    assert_eq!(a.z().raw, 3);
    a.set_x(s(7));
    a.set_y(s(8));
    a.set_z(s(9));
    assert_eq!(raws(&a), (7, 8, 9));
}

#[test]
fn vector_add_commutes() {
    let a = v(1_000_000, -2_000_000, 3_500_000);
    let b = v(4_250_000, 5_000_000, -6_000_000);
    assert_eq!(raws(&a.add(&b)), raws(&b.add(&a)));
    assert_eq!(raws(&a.add(&b)), (5_250_000, 3_000_000, -2_500_000));
}

#[test]
fn vector_add_associates() {
    let a = v(1_000_000, 2_000_000, 3_000_000);
    let b = v(-4_000_000, 5_500_000, 6_000_000);
    let c = v(7_000_000, -8_000_000, 9_250_000);
    assert_eq!(raws(&a.add(&b).add(&c)), raws(&a.add(&b.add(&c))));
}

#[test]
fn vector_sub() {
    let a = v(5_000_000, 3_000_000, 1_000_000);
    let b = v(1_000_000, 1_000_000, 4_000_000);
    assert_eq!(raws(&a.sub(&b)), (4_000_000, 2_000_000, -3_000_000));
}

#[test]
fn scalar_times_vector_scales_components() {
    // 2.5 * (1, 2, 3) == (2.5, 5, 7.5)
    let r = s(2_500_000).mul(&v(1_000_000, 2_000_000, 3_000_000));
    assert_eq!(raws(&r), (2_500_000, 5_000_000, 7_500_000));
}

#[test]
fn dot_product() {
    // (1,2,3) . (4,5,6) == 32
    let r = dot(&v(1_000_000, 2_000_000, 3_000_000), &v(4_000_000, 5_000_000, 6_000_000));
    assert_eq!(r.raw, 32_000_000);
}

#[test]
fn normalize_axis_vector_is_exact_unit() {
    let n = v(3_000_000, 0, 0).normalize();
    assert_eq!(raws(&n), (1_000_000, 0, 0));
    let m = v(0, 0, -4_000_000).normalize();
    assert_eq!(raws(&m), (0, 0, -1_000_000));
}

#[test]
fn normalize_pythagorean_vector_has_unit_magnitude() {
    // (3,4,0) normalizes to (0.6, 0.8, 0) exactly.
    let n = v(3_000_000, 4_000_000, 0).normalize();
    assert_eq!(raws(&n), (600_000, 800_000, 0));
    let d = dot(&n, &n);
    assert_eq!(d.raw, SCALE);
}

#[test]
fn normalize_magnitude_within_tolerance() {
    // (1,2,2) has magnitude 3; truncation leaves the unit magnitude
    // four millionths short, well within the tolerance.
    let n = v(1_000_000, 2_000_000, 2_000_000).normalize();
    assert_eq!(raws(&n), (333_333, 666_666, 666_666));
    assert_eq!(dot(&n, &n).raw, 999_996);
    assert!((dot(&n, &n).raw - SCALE).abs() < EPSILON);
    // (1,1,1) has an irrational magnitude.
    let m = v(1_000_000, 1_000_000, 1_000_000).normalize();
    assert_eq!(raws(&m), (577_350, 577_350, 577_350));
    assert!((dot(&m, &m).raw - SCALE).abs() < EPSILON);
}

#[test]
fn normalize_to_given_magnitude() {
    // (3,4,0) scaled to magnitude 2 is (1.2, 1.6, 0).
    let n = v(3_000_000, 4_000_000, 0).normalize_to(Scalar::from_int(2));
    assert_eq!(raws(&n), (1_200_000, 1_600_000, 0));
}

#[test]
fn dot_with_self_zero_only_below_quantum() {
    // Components below a thousandth of a unit square to zero...
    assert_eq!(dot(&v(999, 0, 0), &v(999, 0, 0)).raw, 0);
    assert_eq!(dot(&v(-999, 999, 0), &v(-999, 999, 0)).raw, 0);
    // ...and anything at the quantum or above does not.
    assert_eq!(dot(&v(1000, 0, 0), &v(1000, 0, 0)).raw, 1);
    assert!(dot(&v(-2_000_000, 3_000_000, 0), &v(-2_000_000, 3_000_000, 0)).raw > 0);
}

#[test]
fn dot_is_symmetric() {
    let a = v(1_234_567, -2_000_000, 3_000_000);
    let b = v(-4_000_000, 5_500_000, 6_000_000);
    assert_eq!(dot(&a, &b).raw, dot(&b, &a).raw);
}

#[test]
fn scalar_mul_composes_within_tolerance() {
    // s = u = 0.000999, a = (3, 0, 0): the two associations differ by
    // two millionths, inside the tolerance.
    let a = v(3_000_000, 0, 0);
    let su = raycore::fixed::fx_mul(999, 999);
    assert_eq!(su, 0);
    let left = s(su).mul(&a);
    let right = s(999).mul(&s(999).mul(&a));
    assert_eq!(left.x().raw, 0);
    assert_eq!(right.x().raw, 2);
    assert!((left.x().raw - right.x().raw).abs() < EPSILON);
}

#[test]
fn scalar_mul_distributes_within_tolerance() {
    // 0.75 * (a + b) and 0.75 * a + 0.75 * b differ by one raw unit.
    let a = v(1, 0, 0);
    let b = v(1, 0, 0);
    let left = s(750_000).mul(&a.add(&b));
    let right = s(750_000).mul(&a).add(&s(750_000).mul(&b));
    assert_eq!(left.x().raw, 1);
    assert_eq!(right.x().raw, 0);
    assert!((left.x().raw - right.x().raw).abs() < EPSILON);
}

#[test]
fn transform_vector_additive_within_tolerance() {
    let m = Matrix4::scaling(s(500_000));
    let a = v(3, 0, 0);
    let b = v(5, 0, 0);
    let left = m.transform_vector(&a.add(&b));
    let right = m.transform_vector(&a).add(&m.transform_vector(&b));
    assert_eq!(left.x().raw, 4);
    assert_eq!(right.x().raw, 3);
    assert!((left.x().raw - right.x().raw).abs() < EPSILON);
}

#[test]
fn transform_vector_homogeneous_within_tolerance() {
    let m = Matrix4::scaling(s(1_500_000));
    let sc = s(999);
    let u = v(3_000_000, 0, 0);
    let left = m.transform_vector(&sc.mul(&u));
    let right = sc.mul(&m.transform_vector(&u));
    assert_eq!(left.x().raw, 4_495);
    assert!((left.x().raw - right.x().raw).abs() < EPSILON);
}

#[test]
fn normalize_is_idempotent_within_tolerance() {
    let n = v(1_000_000, 2_000_000, 2_000_000).normalize();
    let n2 = n.normalize();
    assert!((n2.x().raw - n.x().raw).abs() <= 5);
    assert!((n2.y().raw - n.y().raw).abs() <= 5);
    assert!((n2.z().raw - n.z().raw).abs() <= 5);
    assert_eq!(raws(&n2), raws(&n));
}

#[test]
fn normalize_to_magnitude_within_tolerance() {
    // (1,1,1) rescaled to magnitude 2: the squared magnitude comes out
    // two millionths over four.
    let r = v(1_000_000, 1_000_000, 1_000_000).normalize_to(Scalar::from_int(2));
    assert_eq!(raws(&r), (1_154_701, 1_154_701, 1_154_701));
    assert_eq!(dot(&r, &r).raw, 4_000_002);
    assert!((dot(&r, &r).raw - 4_000_000).abs() < EPSILON);
}

#[test]
fn are_equal_is_reflexive_and_tolerant() {
    let a = v(1_000_000, 2_000_000, 3_000_000);
    assert!(Vec3::are_equal(&a, &a));
    let close = v(1_000_000 + EPSILON - 1, 2_000_000, 3_000_000);
    assert!(Vec3::are_equal(&a, &close));
}

#[test]
fn are_equal_rejects_larger_differences() {
    let a = v(1_000_000, 2_000_000, 3_000_000);
    let off_x = v(1_000_000 + EPSILON, 2_000_000, 3_000_000);
    assert!(!Vec3::are_equal(&a, &off_x));
    let off_z = v(1_000_000, 2_000_000, 3_000_000 - 2 * EPSILON);
    assert!(!Vec3::are_equal(&a, &off_z));
}

#[test]
fn origin_and_default_are_zero() {
    assert_eq!(raws(&Point3::origin()), (0, 0, 0));
    assert_eq!(raws(&Vec3::default()), (0, 0, 0));
}

#[test]
fn ray_new_sets_bounds() {
    let r = Ray3::new(v(0, 0, 0), v(0, 0, 1_000_000));
    assert_eq!(r.min_t.raw, EPSILON);
    assert_eq!(r.max_t.raw, i64::MAX);
}

#[test]
fn ray_range_bounds_are_exclusive() {
    // min_t = 0.001, max_t = 100.
    let r = Ray3 {
        origin: Point3::origin(),
        direction: v(0, 0, 1_000_000),
        min_t: s(1_000),
        max_t: s(100_000_000),
    };
    assert!(!r.is_in_range(s(1_000)));
    assert!(r.is_in_range(Scalar::from_int(50)));
    assert!(!r.is_in_range(s(100_000_000)));
}

#[test]
fn ray_eval_at_zero_is_origin() {
    let r = Ray3::new(v(1_000_000, 2_000_000, 3_000_000), v(250_000, -500_000, 1_000_000));
    assert_eq!(raws(&r.eval(Scalar::zero())), (1_000_000, 2_000_000, 3_000_000));
}

#[test]
fn ray_eval_is_linear_in_t() {
    // origin (1,2,3), direction (1,0,-2): eval(2) == (3, 2, -1).
    let r = Ray3::new(v(1_000_000, 2_000_000, 3_000_000), v(1_000_000, 0, -2_000_000));
    assert_eq!(raws(&r.eval(Scalar::from_int(2))), (3_000_000, 2_000_000, -1_000_000));
    // eval(1) + one more direction step equals eval(2).
    let one = r.eval(Scalar::from_int(1));
    assert_eq!(raws(&one.add(&r.direction)), raws(&r.eval(Scalar::from_int(2))));
}

#[test]
fn identity_matrix_fixes_points_and_vectors() {
    let m = Matrix4::identity();
    let p = v(1_000_000, -2_000_000, 3_141_592);
    assert_eq!(raws(&m.transform_point(&p)), raws(&p));
    assert_eq!(raws(&m.transform_vector(&p)), raws(&p));
    assert_eq!(raws(&Matrix4::default().transform_point(&p)), raws(&p));
}

#[test]
fn translation_matrix_moves_points_only() {
    let t = Matrix4::translation(&v(10_000_000, 20_000_000, 30_000_000));
    let p = v(1_000_000, 2_000_000, 3_000_000);
    assert_eq!(raws(&t.transform_point(&p)), (11_000_000, 22_000_000, 33_000_000));
    assert_eq!(raws(&t.transform_vector(&p)), raws(&p));
}

#[test]
fn scaling_matrix_scales_both() {
    let m = Matrix4::scaling(Scalar::from_int(3));
    let p = v(1_000_000, -2_000_000, 500_000);
    assert_eq!(raws(&m.transform_point(&p)), (3_000_000, -6_000_000, 1_500_000));
    assert_eq!(raws(&m.transform_vector(&p)), (3_000_000, -6_000_000, 1_500_000));
}
