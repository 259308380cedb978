//! End-to-end tests of transforms and the ray-sphere intersection.

use raycore::fixed::Scalar;
use raycore::linalg::{Ray3, Vec3};
use raycore::shapes::{Intersectable, IntersectionInfo, Transformable};
use raycore::sphere::Sphere;
use raycore::transform::Transform;

fn s(raw: i64) -> Scalar {
    Scalar::from_raw(raw)
}

fn v(x: i64, y: i64, z: i64) -> Vec3 {
    Vec3::new(s(x), s(y), s(z))
}

fn raws(v: &Vec3) -> (i64, i64, i64) {
    (v.x().raw, v.y().raw, v.z().raw)
}

#[test]
fn no_intersection_sentinel() {
    let none = IntersectionInfo::no_intersection();
    assert!(!none.did_hit);
    assert_eq!(raws(&none.point), (0, 0, 0));
    assert_eq!(none.t.raw, i64::MAX);
    let def = IntersectionInfo::default();
    assert!(!def.did_hit);
    assert_eq!(def.t.raw, i64::MAX);
}

#[test]
fn transform_round_trip_for_points() {
    let t = Transform::translation(&v(10_000_000, 20_000_000, 30_000_000));
    let p = v(1_000_000, 2_000_000, 3_000_000);
    let there = t.forward.transform_point(&p);
    assert_eq!(raws(&there), (11_000_000, 22_000_000, 33_000_000));
    let back = t.inverse.transform_point(&there);
    assert_eq!(raws(&back), raws(&p));
}

#[test]
fn transform_translation_ignores_vectors() {
    let t = Transform::translation(&v(10_000_000, 20_000_000, 30_000_000));
    let u = v(1_000_000, -2_000_000, 3_000_000);
    assert_eq!(raws(&t.forward.transform_vector(&u)), raws(&u));
    assert_eq!(raws(&t.inverse.transform_vector(&u)), raws(&u));
}

#[test]
fn sphere_hit_head_on() {
    // Unit sphere at the world origin; ray from (0,0,-5) along +z.
    let sphere = Sphere::new(Transform::identity());
    let ray = Ray3::new(v(0, 0, -5_000_000), v(0, 0, 1_000_000));
    let info = sphere.intersect(&ray);
    assert!(info.did_hit);
    assert_eq!(info.t.raw, 4_000_000);
    assert_eq!(raws(&info.point), (0, 0, -1_000_000));
}

#[test]
fn sphere_miss() {
    // Same sphere; ray from (5,5,-5) along +z passes well clear of it.
    let sphere = Sphere::new(Transform::identity());
    let ray = Ray3::new(v(5_000_000, 5_000_000, -5_000_000), v(0, 0, 1_000_000));
    let info = sphere.intersect(&ray);
    assert!(!info.did_hit);
    assert_eq!(info.t.raw, i64::MAX);
    assert_eq!(raws(&info.point), (0, 0, 0));
}

#[test]
fn sphere_tangent_is_a_hit() {
    // Ray offset by exactly the radius along x, parallel to z: the
    // discriminant is exactly zero and the single graze is reported.
    let sphere = Sphere::new(Transform::identity());
    let ray = Ray3::new(v(1_000_000, 0, -5_000_000), v(0, 0, 1_000_000));
    let info = sphere.intersect(&ray);
    assert!(info.did_hit);
    assert_eq!(info.t.raw, 5_000_000);
    assert_eq!(raws(&info.point), (1_000_000, 0, 0));
}

#[test]
fn sphere_hit_from_inside() {
    // Ray starting at the center: the near root is negative and must be
    // rejected; the far, positive root is returned.
    let sphere = Sphere::new(Transform::identity());
    let ray = Ray3::new(v(0, 0, 0), v(0, 0, 1_000_000));
    let info = sphere.intersect(&ray);
    assert!(info.did_hit);
    assert_eq!(info.t.raw, 1_000_000);
    assert_eq!(raws(&info.point), (0, 0, 1_000_000));
}

#[test]
fn sphere_roots_beyond_max_t_are_missed() {
    // Both roots (4 and 6) lie beyond max_t = 2: report a miss.
    let sphere = Sphere::new(Transform::identity());
    let mut ray = Ray3::new(v(0, 0, -5_000_000), v(0, 0, 1_000_000));
    ray.max_t = Scalar::from_int(2);
    let info = sphere.intersect(&ray);
    assert!(!info.did_hit);
    assert_eq!(info.t.raw, i64::MAX);
}

#[test]
fn translated_sphere_hit_in_world_space() {
    // Sphere moved to (0,0,2); ray from (0,0,-5) along +z hits its near
    // side at world (0,0,1), at parameter 6.
    let sphere = Sphere::new(Transform::translation(&v(0, 0, 2_000_000)));
    let ray = Ray3::new(v(0, 0, -5_000_000), v(0, 0, 1_000_000));
    let info = sphere.intersect(&ray);
    assert!(info.did_hit);
    assert_eq!(info.t.raw, 6_000_000);
    assert_eq!(raws(&info.point), (0, 0, 1_000_000));
}

#[test]
fn intersect_through_the_trait() {
    let sphere = Sphere::new(Transform::identity());
    let ray = Ray3::new(v(0, 0, -5_000_000), v(0, 0, 1_000_000));
    let info = <Sphere as Intersectable>::intersect(&sphere, &ray);
    assert!(info.did_hit);
    assert_eq!(info.t.raw, 4_000_000);
}

#[test]
fn get_transform_returns_the_placement() {
    let t = Transform::translation(&v(1_000_000, 2_000_000, 3_000_000));
    let sphere = Sphere::new(t);
    let got = sphere.get_transform();
    assert_eq!(got.forward.m03.raw, 1_000_000);
    assert_eq!(got.inverse.m03.raw, -1_000_000);
    assert_eq!(got.forward.m13.raw, 2_000_000);
    assert_eq!(got.inverse.m23.raw, -3_000_000);
}
