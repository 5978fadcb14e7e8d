//! Exact-arithmetic geometry: scalars, vectors, boxes, spheres.

use raytracer::aabb::AABB;
use raytracer::ray::Ray;
use raytracer::scalar::Scalar;
use raytracer::sphere::{MaterialHandle, Sphere};
use raytracer::vec3::Vec3;

#[test]
fn scalar_ordering_is_exact() {
    let half = Scalar::new(1, 2);
    let two_thirds = Scalar::new(2, 3);
    assert!(half.lt(&two_thirds));
    assert!(half.le(&two_thirds));
    assert!(!two_thirds.le(&half));
    // equal values in different representations compare equal both ways
    let three_sixths = Scalar::new(3, 6);
    assert!(half.le(&three_sixths) && three_sixths.le(&half));
    assert!(!half.lt(&three_sixths));
}

#[test]
fn scalar_negative_denominator_is_normalized() {
    let s = Scalar::new(3, -4);
    assert_eq!(s.num, -3);
    assert_eq!(s.den, 4);
    assert!(s.lt(&Scalar::from_int(0)));
}

#[test]
fn scalar_min_max_pick_the_right_value() {
    let a = Scalar::new(7, 2);
    let b = Scalar::from_int(3);
    let mx = a.max(b);
    let mn = a.min(b);
    assert!(b.le(&mx) && a.le(&mx));
    assert!(mn.le(&a) && mn.le(&b));
    assert_eq!(mx.num, 7);
    assert_eq!(mn.num, 3);
}

#[test]
fn vector_products_are_exact() {
    let a = Vec3::new(1, 2, 3);
    let b = Vec3::new(-4, 5, 6);
    assert_eq!(Vec3::dot(a, b), -4 + 10 + 18);
    let c = Vec3::cross(a, b);
    assert_eq!(c.x, 2 * 6 - 3 * 5);
    assert_eq!(c.y, 3 * (-4) - 1 * 6);
    assert_eq!(c.z, 1 * 5 - 2 * (-4));
    assert_eq!(a.length_sqr(), 14);
    let s = a.add(b);
    assert_eq!((s.x, s.y, s.z), (-3, 7, 9));
    let d = a.sub(b);
    assert_eq!((d.x, d.y, d.z), (5, -3, -3));
}

#[test]
fn enclosing_box_takes_componentwise_extremes() {
    let a = AABB::new(Vec3::new(-1, 0, 2), Vec3::new(3, 4, 5));
    let b = AABB::new(Vec3::new(0, -2, 3), Vec3::new(2, 6, 4));
    let e = AABB::enclosing_box(&a, &b);
    assert_eq!((e.min.x, e.min.y, e.min.z), (-1, -2, 2));
    assert_eq!((e.max.x, e.max.y, e.max.z), (3, 6, 5));
    // commutative (box merge law)
    let e2 = AABB::enclosing_box(&b, &a);
    assert_eq!(e, e2);
}

#[test]
fn box_volume_center_extent_formulas() {
    let b = AABB::new(Vec3::new(-1, -1, -1), Vec3::new(3, 1, 2));
    let ext = b.extent();
    assert_eq!((ext.x, ext.y, ext.z), (4, 2, 3));
    assert_eq!(b.volume(), 24);
    let c = b.center();
    // midpoints over denominator two: (1, 0, 1/2)
    assert_eq!((c.x.num, c.x.den), (2, 2));
    assert_eq!((c.y.num, c.y.den), (0, 2));
    assert_eq!((c.z.num, c.z.den), (1, 2));
}

#[test]
fn slab_test_hits_a_box_ahead_of_the_ray() {
    let b = AABB::new(Vec3::new(-1, -1, 4), Vec3::new(1, 1, 6));
    let ray = Ray::new(Vec3::new(0, 0, 0), Vec3::new(0, 0, 1));
    assert!(b.intersect(&ray, Scalar::from_int(0), Scalar::from_int(100)));
    // the box sits between t = 4 and t = 6: a window past it misses
    assert!(!b.intersect(&ray, Scalar::from_int(7), Scalar::from_int(100)));
    // and a window in front of it misses too
    assert!(!b.intersect(&ray, Scalar::from_int(0), Scalar::from_int(3)));
}

#[test]
fn slab_test_handles_axis_parallel_rays() {
    let b = AABB::new(Vec3::new(-1, -1, 4), Vec3::new(1, 1, 6));
    // parallel to the box's x/y planes, starting inside them
    let inside = Ray::new(Vec3::new(0, 0, 0), Vec3::new(0, 0, 1));
    assert!(b.intersect(&inside, Scalar::from_int(0), Scalar::from_int(100)));
    // parallel, but starting outside the x slab: never hits
    let outside = Ray::new(Vec3::new(2, 0, 0), Vec3::new(0, 0, 1));
    assert!(!b.intersect(&outside, Scalar::from_int(0), Scalar::from_int(100)));
}

#[test]
fn slab_test_rejects_an_empty_window() {
    let b = AABB::new(Vec3::new(-1, -1, -1), Vec3::new(1, 1, 1));
    let ray = Ray::new(Vec3::new(0, 0, -5), Vec3::new(0, 0, 1));
    // t_max <= t_min going in: no intersection, though the ray crosses
    assert!(!b.intersect(&ray, Scalar::from_int(10), Scalar::from_int(10)));
    assert!(!b.intersect(&ray, Scalar::from_int(10), Scalar::from_int(3)));
}

#[test]
fn slab_test_rejects_a_point_box() {
    // a degenerate box meets the ray at the single parameter where the
    // ray crosses its point; the open-window test reports nothing
    let b = AABB::new(Vec3::new(0, 0, 5), Vec3::new(0, 0, 5));
    let through = Ray::new(Vec3::new(0, 0, 0), Vec3::new(0, 0, 1));
    assert!(!b.intersect(&through, Scalar::from_int(0), Scalar::from_int(100)));
    let past = Ray::new(Vec3::new(1, 0, 0), Vec3::new(0, 0, 1));
    assert!(!b.intersect(&past, Scalar::from_int(0), Scalar::from_int(100)));
}

#[test]
fn sphere_trace_reports_the_near_surface() {
    let s = Sphere::new(Vec3::new(0, 0, 0), 1, MaterialHandle(7));
    let ray = Ray::new(Vec3::new(0, 0, -20), Vec3::new(0, 0, 1));
    let hit = s
        .trace(&ray, Scalar::from_int(0), Scalar::from_int(1000))
        .expect("head-on ray must hit");
    // quadratic: a=1, b=-20, c=399, disc=1 -> t = 19 exactly
    assert_eq!((hit.t.num, hit.t.den), (19, 1));
    assert_eq!(hit.material, MaterialHandle(7));
    // the hit point is the front surface (0, 0, -1)
    assert_eq!(hit.point.x.num, 0);
    assert_eq!(hit.point.y.num, 0);
    assert_eq!((hit.point.z.num, hit.point.z.den), (-1, 1));
    // the normal points back toward the ray origin
    assert_eq!((hit.normal.z.num, hit.normal.z.den), (-1, 1));
}

#[test]
fn sphere_trace_reports_the_far_surface_from_inside() {
    let s = Sphere::new(Vec3::new(0, 0, 0), 2, MaterialHandle(0));
    let ray = Ray::new(Vec3::new(0, 0, 0), Vec3::new(0, 0, 1));
    let hit = s
        .trace(&ray, Scalar::from_int(0), Scalar::from_int(1000))
        .expect("a ray from the center must exit through the far surface");
    // near root is t = -2 (behind), far root t = 2
    assert_eq!((hit.t.num, hit.t.den), (2, 1));
}

#[test]
fn sphere_trace_misses_offset_and_backward_rays() {
    let s = Sphere::new(Vec3::new(0, 0, 0), 1, MaterialHandle(0));
    let miss = Ray::new(Vec3::new(0, 5, -20), Vec3::new(0, 0, 1));
    assert!(s.trace(&miss, Scalar::from_int(0), Scalar::from_int(1000)).is_none());
    let backward = Ray::new(Vec3::new(0, 0, -20), Vec3::new(0, 0, -1));
    assert!(s.trace(&backward, Scalar::from_int(0), Scalar::from_int(1000)).is_none());
}

#[test]
fn sphere_bounding_box_is_tight() {
    let s = Sphere::new(Vec3::new(3, -2, 5), 4, MaterialHandle(0));
    let b = s.bounding_box();
    assert_eq!((b.min.x, b.min.y, b.min.z), (-1, -6, 1));
    assert_eq!((b.max.x, b.max.y, b.max.z), (7, 2, 9));
}
