//! Rays: an origin with a direction, evaluated at a scalar parameter.

use crate::scalar::fits_i64;
use crate::vec3::{v3_add, v3_scale, Point, Vec3, V3};
use vstd::prelude::*;

verus! {

/// The mathematical model of a ray.
pub ghost struct RayV {
    pub origin: V3,
    pub direction: V3,
}

/// The point a ray reaches at parameter `t`: `origin + t * direction`.
pub open spec fn ray_at(r: RayV, t: int) -> V3 {
    v3_add(r.origin, v3_scale(r.direction, t))
}

/// A ray: an origin point and a direction vector. Any parameter value is
/// accepted, including negative ones behind the origin.
#[derive(Clone, Copy, PartialEq, Eq, Structural, Debug)]
pub struct Ray {
    pub origin: Point,
    pub direction: Vec3,
}

impl View for Ray {
    type V = RayV;

    open spec fn view(&self) -> RayV {
        RayV { origin: self.origin@, direction: self.direction@ }
    }
}

impl Ray {
    /// Builds a ray from an origin and a direction.
    pub fn new(origin: Point, direction: Vec3) -> (r: Ray)
        ensures
            r@.origin == origin@,
            r@.direction == direction@,
    {
        Ray { origin, direction }
    }

    /// The point the ray reaches at parameter `t`.
    pub fn at(&self, t: i64) -> (p: Point)
        requires
            fits_i64(v3_scale(self@.direction, t as int).x),
            fits_i64(v3_scale(self@.direction, t as int).y),
            fits_i64(v3_scale(self@.direction, t as int).z),
            fits_i64(ray_at(self@, t as int).x),
            fits_i64(ray_at(self@, t as int).y),
            fits_i64(ray_at(self@, t as int).z),
        ensures
            p@ == ray_at(self@, t as int),
    {
        self.origin.add(self.direction.scale(t))
    }
}

} // verus!
