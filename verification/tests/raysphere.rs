//! Exercises the vector algebra, ray-sphere intersection, and color
//! resolution on concrete values.

use raysphere::camera::Camera;
use raysphere::color::{channel_level, ray_color};
use raysphere::hit::{HitRecord, Hittable, Sphere, PARAM_LIMIT};
use raysphere::ray::Ray;
use raysphere::scalar::{div_fx, floor_div_i128, isqrt_u128, mul_fx, tz_div_i128, SCALE};
use raysphere::vec3::Vec3;

fn v(x: i64, y: i64, z: i64) -> Vec3 {
    Vec3::new(x * SCALE, y * SCALE, z * SCALE)
}

#[test]
fn scalar_fixed_point_ops() {
    assert_eq!(mul_fx(1_500_000, 2_000_000), 3_000_000);
    assert_eq!(mul_fx(-1_500_000, 2_000_000), -3_000_000);
    assert_eq!(div_fx(3_000_000, 1_500_000), 2_000_000);
    assert_eq!(div_fx(1_000_000, 3_000_000), 333_333);
    assert_eq!(tz_div_i128(-7, 2), -3);
    assert_eq!(tz_div_i128(7, -2), -3);
    assert_eq!(floor_div_i128(-7, 2), -4);
    assert_eq!(floor_div_i128(7, 2), 3);
    assert_eq!(isqrt_u128(0), 0);
    assert_eq!(isqrt_u128(24), 4);
    assert_eq!(isqrt_u128(25), 5);
    assert_eq!(isqrt_u128(2_500_000_000_000_000_000_000_000), 1_581_138_830_084);
}

#[test]
fn vector_componentwise_ops() {
    let a = Vec3::newi(1, 2, 3);
    let b = Vec3::newi(4, 5, 6);
    assert_eq!(a.add(b), v(5, 7, 9));
    assert_eq!(b.sub(a), v(3, 3, 3));
    assert_eq!(a.neg(), v(-1, -2, -3));
    assert_eq!(Vec3::newi(2, 3, 4).mul(Vec3::newi(5, 6, 7)), v(10, 18, 28));
    assert_eq!(v(10, 18, 28).div(Vec3::newi(5, 6, 7)), v(2, 3, 4));
    assert_eq!(a.scale(500_000), Vec3::new(500_000, 1_000_000, 1_500_000));
    assert_eq!(v(2, 4, 6).div_s(2_000_000), v(1, 2, 3));
    assert_eq!(a.x(), SCALE);
    assert_eq!(a.y(), 2 * SCALE);
    assert_eq!(a.z(), 3 * SCALE);
}

#[test]
fn vector_assign_ops() {
    let mut a = Vec3::newi(1, 2, 3);
    a.add_assign(Vec3::newi(4, 5, 6));
    assert_eq!(a, v(5, 7, 9));
    a.mul_assign(Vec3::newi(2, 2, 2));
    assert_eq!(a, v(10, 14, 18));
    a.div_assign(Vec3::newi(5, 7, 9));
    assert_eq!(a, v(2, 2, 2));
}

#[test]
fn dot_commutes() {
    let a = Vec3::newi(1, 2, 3);
    let b = Vec3::newi(4, -5, 6);
    assert_eq!(a.dot(&b), 12 * SCALE);
    assert_eq!(a.dot(&b), b.dot(&a));
    let c = Vec3::new(123_457, -987_653, 314_159);
    let d = Vec3::new(-271_828, 141_421, 173_205);
    assert_eq!(c.dot(&d), d.dot(&c));
}

#[test]
fn cross_anticommutes() {
    let a = Vec3::newi(1, 2, 3);
    let b = Vec3::newi(4, 5, 6);
    assert_eq!(a.cross(&b), v(-3, 6, -3));
    assert_eq!(b.cross(&a), v(3, -6, 3));
    let c = Vec3::new(123_457, -987_653, 314_159);
    let d = Vec3::new(-271_828, 141_421, 173_205);
    assert_eq!(c.cross(&d), d.cross(&c).neg());
}

#[test]
fn length_squares_back_to_dot() {
    let a = Vec3::newi(3, 4, 0);
    assert_eq!(a.length_squared(), 25 * SCALE);
    assert_eq!(a.length(), 5 * SCALE);
    assert_eq!(mul_fx(a.length(), a.length()), a.length_squared());
    let b = Vec3::new(123_457, -987_653, 314_159);
    let lsq = mul_fx(b.length(), b.length());
    assert!(lsq <= b.length_squared());
    assert!(b.length_squared() - lsq <= 2 * b.length() / SCALE + 1);
}

#[test]
fn unit_vector_has_unit_length() {
    let a = Vec3::newi(3, 4, 0);
    assert_eq!(a.unit_vector(), Vec3::new(600_000, 800_000, 0));
    assert_eq!(a.unit_vector().length(), SCALE);
    // Vectors at least one unit long normalize to within a few millionths
    // of unit length.
    let b = Vec3::newi(1, 1, 1);
    let l = b.unit_vector().length();
    assert!(SCALE - 3 <= l && l <= SCALE + 1);
    let c = Vec3::new(123_457, -987_653, 314_159);
    let l = c.unit_vector().length();
    assert!(SCALE - 3 <= l && l <= SCALE + 1);
}

#[test]
fn ray_evaluates_at_parameter() {
    let r = Ray::new(Vec3::newi(1, 0, 0), Vec3::newi(1, 0, 0));
    assert_eq!(r.at(2_500_000), Vec3::new(3_500_000, 0, 0));
    assert_eq!(r.at(-1_000_000), Vec3::new(0, 0, 0));
}

#[test]
fn face_normal_orientation() {
    let mut rec = HitRecord { p: v(0, 0, 0), normal: v(0, 0, 0), t: 0, front_face: false };
    let r = Ray::new(v(0, 0, 0), Vec3::new(0, 0, -SCALE));
    let outward = Vec3::new(0, 0, SCALE);
    rec.set_face_normal(&r, outward);
    assert!(rec.front_face);
    assert_eq!(rec.normal, outward);
    let inward = Vec3::new(0, 0, -SCALE);
    rec.set_face_normal(&r, inward);
    assert!(!rec.front_face);
    assert_eq!(rec.normal, Vec3::new(0, 0, SCALE));
}

#[test]
fn head_on_hit_reports_distance_minus_radius() {
    let sphere = Sphere { center: v(0, 0, -2), radius: 500_000 };
    let r = Ray::new(v(0, 0, 0), Vec3::new(0, 0, -SCALE));
    let rec = sphere.hit(&r, 0, PARAM_LIMIT).unwrap();
    assert_eq!(rec.t, 1_500_000);
    assert_eq!(rec.p, Vec3::new(0, 0, -1_500_000));
    assert_eq!(rec.normal, Vec3::new(0, 0, SCALE));
    assert!(rec.front_face);
    let far_sphere = Sphere { center: v(0, 0, -5), radius: 700_000 };
    let rec = far_sphere.hit(&r, 0, PARAM_LIMIT).unwrap();
    assert_eq!(rec.t, 5 * SCALE - 700_000);
}

#[test]
fn aimed_at_center_hits_near_distance_minus_radius() {
    // An oblique unit direction aimed straight at the center, two and a
    // half units away: the near root is the distance minus the radius.
    let sphere = Sphere { center: Vec3::new(1_500_000, 2_000_000, 0), radius: 700_000 };
    let r = Ray::new(v(0, 0, 0), Vec3::new(600_000, 800_000, 0));
    let rec = sphere.hit(&r, 0, PARAM_LIMIT).unwrap();
    let dist = sphere.center.sub(r.origin).length();
    assert_eq!(dist, 2_500_000);
    assert!(dist - sphere.radius <= rec.t && rec.t <= dist - sphere.radius + 1);
    assert_eq!(rec.t, 1_800_000);
    assert!(rec.front_face);
}

#[test]
fn hit_from_inside_flips_normal() {
    let sphere = Sphere { center: v(0, 0, -2), radius: 500_000 };
    let r = Ray::new(v(0, 0, -2), Vec3::new(0, 0, -SCALE));
    let rec = sphere.hit(&r, 0, PARAM_LIMIT).unwrap();
    assert_eq!(rec.t, 500_000);
    assert!(!rec.front_face);
    assert_eq!(rec.normal, Vec3::new(0, 0, SCALE));
}

#[test]
fn distant_line_misses() {
    let sphere = Sphere { center: v(0, 3, 0), radius: SCALE };
    let r = Ray::new(v(0, 0, 0), Vec3::new(SCALE, 0, 0));
    assert!(sphere.hit(&r, 0, PARAM_LIMIT).is_none());
}

#[test]
fn interval_boundaries() {
    let sphere = Sphere { center: v(0, 0, -2), radius: 500_000 };
    let r = Ray::new(v(0, 0, 0), Vec3::new(0, 0, -SCALE));
    // An empty interval admits nothing.
    assert!(sphere.hit(&r, 1_500_000, 1_500_000).is_none());
    // The lower bound is inclusive: the near root lies exactly on it.
    let rec = sphere.hit(&r, 1_500_000, 2_000_000).unwrap();
    assert_eq!(rec.t, 1_500_000);
    // The upper bound is exclusive: the near root lies exactly on it and
    // the far root lies beyond it.
    assert!(sphere.hit(&r, 0, 1_500_000).is_none());
    // The far root is taken when the near root falls below the interval.
    let rec = sphere.hit(&r, 1_600_000, PARAM_LIMIT).unwrap();
    assert_eq!(rec.t, 2_500_000);
}

#[test]
fn translation_invariance() {
    let center = Vec3::newi(1, 2, 3);
    let sphere = Sphere { center, radius: SCALE };
    let r = Ray::new(Vec3::newi(4, 2, 3), Vec3::new(-SCALE, 0, 0));
    let moved = Sphere { center: v(0, 0, 0), radius: SCALE };
    let r0 = Ray::new(Vec3::newi(3, 0, 0), Vec3::new(-SCALE, 0, 0));
    let a = sphere.hit(&r, 0, PARAM_LIMIT).unwrap();
    let b = moved.hit(&r0, 0, PARAM_LIMIT).unwrap();
    assert_eq!(a.t, b.t);
    assert_eq!(a.t, 2 * SCALE);
    assert_eq!(a.normal, b.normal);
    assert_eq!(a.front_face, b.front_face);
    assert_eq!(a.p, b.p.add(center));
}

#[test]
fn center_pixel_hits_and_maps_normal() {
    let cam = Camera::new(v(0, 0, 0), 3_555_555, 2_000_000, 1_000_000);
    let sphere = Sphere { center: v(0, 0, -1), radius: 500_000 };
    let r = cam.pixel_ray(500_000, 500_000);
    assert_eq!(r.direction, Vec3::new(0, 0, -SCALE));
    let rec = sphere.hit(&r, 0, PARAM_LIMIT).unwrap();
    assert_eq!(rec.t, 500_000);
    let c = ray_color(&r, &sphere);
    assert_eq!(c, Vec3::new(500_000, 500_000, SCALE));
}

#[test]
fn corner_pixels_show_the_gradient() {
    let cam = Camera::new(v(0, 0, 0), 3_555_555, 2_000_000, 1_000_000);
    let sphere = Sphere { center: v(0, 0, -1), radius: 500_000 };
    let corners = [(0, 0), (0, SCALE), (SCALE, 0), (SCALE, SCALE)];
    for (u, vv) in corners {
        let r = cam.pixel_ray(u, vv);
        assert!(sphere.hit(&r, 0, PARAM_LIMIT).is_none());
    }
    let top = ray_color(&cam.pixel_ray(500_000, SCALE), &sphere);
    let bottom = ray_color(&cam.pixel_ray(500_000, 0), &sphere);
    // The top of the image leans toward sky blue, the bottom toward white.
    assert!(top.x() < bottom.x());
    assert!(top.y() < bottom.y());
    assert_eq!(top.z(), SCALE);
    assert_eq!(bottom.z(), SCALE);
    let sky_x = 500_000;
    let white_x = SCALE;
    assert!((top.x() - sky_x).abs() < (bottom.x() - sky_x).abs());
    assert!((bottom.x() - white_x).abs() < (top.x() - white_x).abs());
}

#[test]
fn same_ray_same_color() {
    let sphere = Sphere { center: v(0, 0, -1), radius: 500_000 };
    let r = Ray::new(v(0, 0, 0), Vec3::new(137_000, -259_000, -SCALE));
    let c1 = ray_color(&r, &sphere);
    let c2 = ray_color(&r, &sphere);
    assert_eq!(c1, c2);
}

#[test]
fn channel_levels() {
    assert_eq!(channel_level(SCALE), 255);
    assert_eq!(channel_level(0), 0);
    assert_eq!(channel_level(500_000), 127);
    assert_eq!(channel_level(-1_000_000), -256);
    assert_eq!(channel_level(2_000_000), 511);
}
