//! Scenario tests for the fixed-point math, boxes and primitives.

use tracer::aabb::AABB;
use tracer::fixed::{fp_div, fp_mul, fp_sqrt, FP_ONE};
use tracer::hittable::{sphere_hit, sphere_uv, Shape};
use tracer::material::Material;
use tracer::ray::Ray;
use tracer::vec3::Vec3;

const S: i64 = 65536;

fn v(x: i64, y: i64, z: i64) -> Vec3 {
    Vec3::new(x, y, z)
}

fn ray(o: Vec3, d: Vec3) -> Ray {
    Ray::new(o, d, 0)
}

#[test]
fn fixed_point_basics() {
    assert_eq!(FP_ONE, S);
    assert_eq!(fp_mul(2 * S, 3 * S), 6 * S);
    assert_eq!(fp_mul(-3 * S, S / 2), -3 * S / 2);
    assert_eq!(fp_div(S, 2 * S), S / 2);
    // floor rounding on the negative side
    assert_eq!(fp_mul(-1, 1), -1);
    assert_eq!(fp_sqrt(4 * S), 2 * S);
    assert_eq!(fp_sqrt(2 * S), 92681); // sqrt(2) in Q47.16, floor
    assert_eq!(fp_sqrt(0), 0);
}

#[test]
fn vector_products() {
    let a = v(S, 2 * S, 3 * S);
    let b = v(4 * S, 5 * S, 6 * S);
    assert_eq!(a.dot(&b), 32 * S);
    let c = a.cross(&b);
    assert_eq!(c, v(-3 * S, 6 * S, -3 * S));
    assert_eq!(v(3 * S, 4 * S, 0).length(), 5 * S);
    let u = v(0, 0, 7 * S).unit();
    assert_eq!(u, v(0, 0, S));
}

#[test]
fn union_contains_both() {
    let a = AABB::new(v(-S, -S, -S), v(S, S, S));
    let b = AABB::new(v(0, 0, 0), v(3 * S, 2 * S, S / 2));
    let u = a.surrounding_box(&b);
    assert_eq!(*u.min(), v(-S, -S, -S));
    assert_eq!(*u.max(), v(3 * S, 2 * S, S));
    assert!(u.min().x() <= a.min().x() && a.max().x() <= u.max().x());
    assert!(u.min().x() <= b.min().x() && b.max().x() <= u.max().x());
    assert!(u.min().y() <= b.min().y() && b.max().y() <= u.max().y());
    assert!(u.min().z() <= b.min().z() && b.max().z() <= u.max().z());
}

#[test]
fn union_commutative_and_associative() {
    let a = AABB::new(v(-S, -2 * S, 0), v(S, 0, S));
    let b = AABB::new(v(0, -S, -S), v(2 * S, S, 0));
    let c = AABB::new(v(-3 * S, 0, 0), v(0, 3 * S, 3 * S));
    let ab = a.surrounding_box(&b);
    let ba = b.surrounding_box(&a);
    assert_eq!(*ab.min(), *ba.min());
    assert_eq!(*ab.max(), *ba.max());
    let left = a.surrounding_box(&b).surrounding_box(&c);
    let right = a.surrounding_box(&b.surrounding_box(&c));
    assert_eq!(*left.min(), *right.min());
    assert_eq!(*left.max(), *right.max());
}

#[test]
fn slab_test_center_and_parallel() {
    let bx = AABB::new(v(-S, -S, -S), v(S, S, S));
    // A ray straight through the box center.
    let through = ray(v(0, 0, 3 * S), v(0, 0, -S));
    assert!(bx.hit(&through, 66, tracer::ray::T_LIMIT));
    // A ray parallel to the x axis, offset outside the y slab.
    let offside = ray(v(0, 2 * S, 3 * S), v(S, 0, 0));
    assert!(!bx.hit(&offside, 66, tracer::ray::T_LIMIT));
    // Parallel to x inside the slabs still hits.
    let inside = ray(v(-3 * S, 0, 0), v(S, 0, 0));
    assert!(bx.hit(&inside, 66, tracer::ray::T_LIMIT));
}

#[test]
fn sphere_near_root_from_outside() {
    // Unit sphere at z = -3, ray from the origin aimed at its center.
    let center = v(0, 0, -3 * S);
    let r = ray(v(0, 0, 0), v(0, 0, -S));
    let hit = sphere_hit(&center, S, &r, 66, tracer::ray::T_LIMIT).unwrap();
    assert_eq!(hit.t(), 2 * S); // the nearer surface, not the exit at t = 4
    assert_eq!(*hit.p(), v(0, 0, -2 * S));
    assert_eq!(*hit.normal(), v(0, 0, S));
    assert!(hit.is_front_facing());
}

#[test]
fn sphere_miss_returns_absence() {
    let center = v(0, 0, -3 * S);
    let away = ray(v(0, 0, 0), v(0, 0, S));
    assert!(sphere_hit(&center, S, &away, 66, tracer::ray::T_LIMIT).is_none());
    let offside = ray(v(3 * S, 0, 0), v(0, 0, -S));
    assert!(sphere_hit(&center, S, &offside, 66, tracer::ray::T_LIMIT).is_none());
}

#[test]
fn sphere_inside_returns_exit_root() {
    // Ray starting at the center: the nearer root is behind, the exit is
    // one radius ahead.
    let center = v(0, 0, -3 * S);
    let r = Ray::new(v(0, 0, -3 * S), v(0, 0, -S), 0);
    let hit = sphere_hit(&center, S, &r, 66, tracer::ray::T_LIMIT).unwrap();
    assert_eq!(hit.t(), S);
    assert!(!hit.is_front_facing()); // outward normal faces back at us
}

#[test]
fn sphere_surface_coordinates_are_unit_interval() {
    let (u, b) = sphere_uv(&v(S, 0, 0));
    assert_eq!(u, S / 2);
    assert_eq!(b, S / 2);
    let (u2, v2) = sphere_uv(&v(0, S, 0));
    assert_eq!(v2, S);
    assert!(u2 >= 0 && u2 <= S);
}

#[test]
fn rect_hit_and_surface_coords() {
    let rect = Shape::xy_rect(-S, S, -S, S, -2 * S, Material::lambertian(S / 2, S / 2, S / 2));
    let r = ray(v(0, 0, 0), v(0, 0, -S));
    let hit = rect.hit(&r, 66, tracer::ray::T_LIMIT).unwrap();
    assert_eq!(hit.t(), 2 * S);
    assert_eq!(hit.u(), S / 2);
    assert_eq!(hit.v(), S / 2);
    assert_eq!(*hit.normal(), v(0, 0, S));
    // Outside the extents: a miss.
    let wide = ray(v(3 * S, 0, 0), v(0, 0, -S));
    assert!(rect.hit(&wide, 66, tracer::ray::T_LIMIT).is_none());
    // Parallel to the plane: a miss.
    let par = ray(v(0, 0, 0), v(S, 0, 0));
    assert!(rect.hit(&par, 66, tracer::ray::T_LIMIT).is_none());
}

#[test]
fn cube_nearest_face() {
    let cube = Shape::cube(-S, -S, -S, S, S, S, Material::lambertian(S / 2, S / 2, S / 2));
    let r = ray(v(0, 0, 3 * S), v(0, 0, -S));
    let hit = cube.hit(&r, 66, tracer::ray::T_LIMIT).unwrap();
    assert_eq!(hit.t(), 2 * S);
    assert_eq!(*hit.normal(), v(0, 0, S));
    let bx = cube.bounding_box(0, S).unwrap();
    assert_eq!(bx.min().x(), -S - 4096);
    assert_eq!(bx.max().z(), S + 4096);
}

#[test]
fn scene_validation_rejects_degenerate_shapes() {
    let good = vec![Shape::sphere(0, 0, -3 * S, S, Material::lambertian(S / 2, 0, 0))];
    assert!(tracer::hittable::scene_is_wf(&good));
    // A sphere of zero radius is no surface at all.
    let flat = vec![tracer::hittable::Shape::Sphere(tracer::hittable::Sphere {
        center: v(0, 0, 0),
        radius: 0,
        material: Material::lambertian(S / 2, 0, 0),
    })];
    assert!(!tracer::hittable::scene_is_wf(&flat));
    // A rectangle with reversed extents is rejected too.
    let folded = vec![tracer::hittable::Shape::XyRect(tracer::hittable::XyRect {
        x0: S,
        x1: -S,
        y0: -S,
        y1: S,
        k: 0,
        material: Material::lambertian(S / 2, 0, 0),
    })];
    assert!(!tracer::hittable::scene_is_wf(&folded));
}

#[test]
fn moving_sphere_follows_its_centers() {
    let m = Shape::moving_sphere(0, 0, -3 * S, 0, 2 * S, -3 * S, S, Material::lambertian(S / 2, 0, 0), 0, S);
    // At the start of the shutter the sphere is at its first center.
    let early = Ray::new(v(0, 0, 0), v(0, 0, -S), 0);
    let hit = m.hit(&early, 66, tracer::ray::T_LIMIT).unwrap();
    assert_eq!(hit.t(), 2 * S);
    // At the end it has moved up two units and the same ray misses.
    let late = Ray::new(v(0, 0, 0), v(0, 0, -S), S);
    assert!(m.hit(&late, 66, tracer::ray::T_LIMIT).is_none());
    // Its box over the window covers both end positions.
    let bx = m.bounding_box(0, S).unwrap();
    assert!(bx.min().y() <= -S && bx.max().y() >= 3 * S);
}
