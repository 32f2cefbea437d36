//! The pinhole camera: immutable viewport geometry fixed at scene setup,
//! and the ray through a given pixel.

use crate::ray::Ray;
use crate::scalar::{lemma_tz_div_bound, SCALE};
use crate::vec3::{
    bounded, lemma_abs_mul_bound, v3, v3_add, v3_div_s, v3_scale, v3_sub, Point, Vec3, V3,
};
use vstd::prelude::*;

verus! {

/// Largest camera coordinate (origin components, viewport extents, focal
/// length) under which every pixel ray stays within the intersection's
/// coordinate budget.
pub const CAMERA_LIMIT: i64 = 8_388_608;

/// The mathematical model of a camera.
pub ghost struct CameraV {
    pub origin: V3,
    pub lower_left: V3,
    pub horizontal: V3,
    pub vertical: V3,
}

/// The lower-left viewport corner:
/// `origin - horizontal / 2 - vertical / 2 - (0, 0, focal_length)`.
pub open spec fn camera_lower_left(origin: V3, vw: int, vh: int, focal: int) -> V3 {
    v3_sub(
        v3_sub(v3_sub(origin, v3_div_s(v3(vw, 0, 0), 2 * SCALE)), v3_div_s(v3(0, vh, 0), 2 * SCALE)),
        v3(0, 0, focal),
    )
}

/// A camera whose fields all lie within the pixel-ray budget.
pub open spec fn camera_wf(c: CameraV) -> bool {
    &&& bounded(c.origin, 33_554_432)
    &&& bounded(c.lower_left, 33_554_432)
    &&& bounded(c.horizontal, 33_554_432)
    &&& bounded(c.vertical, 33_554_432)
}

/// The direction of the ray through viewport coordinates `(u, v)`:
/// `lower_left + u * horizontal + v * vertical - origin`.
pub open spec fn pixel_dir(c: CameraV, u: int, v: int) -> V3 {
    v3_sub(v3_add(v3_add(c.lower_left, v3_scale(c.horizontal, u)), v3_scale(c.vertical, v)), c.origin)
}

/// A pinhole camera: an eye point and the viewport rectangle it looks
/// through, fixed at construction.
#[derive(Clone, Copy, PartialEq, Eq, Structural, Debug)]
pub struct Camera {
    pub origin: Point,
    pub lower_left: Point,
    pub horizontal: Vec3,
    pub vertical: Vec3,
}

impl View for Camera {
    type V = CameraV;

    open spec fn view(&self) -> CameraV {
        CameraV {
            origin: self.origin@,
            lower_left: self.lower_left@,
            horizontal: self.horizontal@,
            vertical: self.vertical@,
        }
    }
}

impl Camera {
    /// Builds a camera at `origin` looking along the negative third axis,
    /// with a viewport of the given fixed-point extents one focal length
    /// away.
    pub fn new(origin: Point, viewport_width: i64, viewport_height: i64, focal_length: i64) -> (c:
        Camera)
        requires
            bounded(origin@, CAMERA_LIMIT as int),
            1 <= viewport_width <= CAMERA_LIMIT,
            1 <= viewport_height <= CAMERA_LIMIT,
            1 <= focal_length <= CAMERA_LIMIT,
        ensures
            c@.origin == origin@,
            c@.horizontal == v3(viewport_width as int, 0, 0),
            c@.vertical == v3(0, viewport_height as int, 0),
            c@.lower_left == camera_lower_left(
                origin@,
                viewport_width as int,
                viewport_height as int,
                focal_length as int,
            ),
            camera_wf(c@),
    {
        proof {
            lemma_abs_mul_bound(viewport_width as int, SCALE as int, 8_388_608, 1_000_000);
            lemma_abs_mul_bound(viewport_height as int, SCALE as int, 8_388_608, 1_000_000);
            lemma_tz_div_bound(viewport_width * (SCALE as int), 2 * SCALE, 8_388_608_000_000);
            lemma_tz_div_bound(viewport_height * (SCALE as int), 2 * SCALE, 8_388_608_000_000);
            assert(8_388_608_000_000int / 2_000_000 == 4_194_304);
        }
        let horizontal = Vec3::new(viewport_width, 0, 0);
        let vertical = Vec3::new(0, viewport_height, 0);
        let half_h = horizontal.div_s(2 * SCALE);
        let half_v = vertical.div_s(2 * SCALE);
        let lower_left = origin.sub(half_h).sub(half_v).sub(Vec3::new(0, 0, focal_length));
        Camera { origin, lower_left, horizontal, vertical }
    }

    /// The ray from the eye through viewport coordinates `(u, v)`, each a
    /// fixed-point fraction in `[0, 1]` of the viewport extent.
    pub fn pixel_ray(&self, u: i64, v: i64) -> (r: Ray)
        requires
            camera_wf(self@),
            0 <= u <= SCALE,
            0 <= v <= SCALE,
        ensures
            r@.origin == self@.origin,
            r@.direction == pixel_dir(self@, u as int, v as int),
            bounded(r@.direction, crate::hit::COORD_LIMIT as int),
    {
        proof {
            lemma_pixel_scale_bounds(self@.horizontal, u as int);
            lemma_pixel_scale_bounds(self@.vertical, v as int);
        }
        let su = self.horizontal.scale(u);
        let sv = self.vertical.scale(v);
        let direction = self.lower_left.add(su).add(sv).sub(self.origin);
        Ray { origin: self.origin, direction }
    }
}

/// Scaling a camera extent by a viewport fraction in `[0, 1]` keeps it
/// within the camera budget.
pub proof fn lemma_pixel_scale_bounds(a: V3, u: int)
    requires
        bounded(a, 33_554_432),
        0 <= u <= SCALE as int,
    ensures
        bounded(v3_scale(a, u), 33_554_432),
{
    lemma_abs_mul_bound(a.x, u, 33_554_432, 1_000_000);
    lemma_abs_mul_bound(a.y, u, 33_554_432, 1_000_000);
    lemma_abs_mul_bound(a.z, u, 33_554_432, 1_000_000);
    lemma_tz_div_bound(a.x * u, SCALE as int, 33_554_432_000_000);
    lemma_tz_div_bound(a.y * u, SCALE as int, 33_554_432_000_000);
    lemma_tz_div_bound(a.z * u, SCALE as int, 33_554_432_000_000);
    assert(33_554_432_000_000int / 1_000_000 == 33_554_432);
}

} // verus!
