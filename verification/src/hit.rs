//! Surfaces a ray can strike: the hittable contract, hit records, and the
//! analytic ray-sphere intersection.
//!
//! The intersection carries its half-`b` quadratic terms at double scale in
//! 128-bit intermediates and rescales once when the root is extracted, so
//! the discriminant's sign is the exact sign of the real discriminant of
//! the fixed-point inputs.

use crate::ray::{ray_at, Ray, RayV};
use crate::scalar::{lemma_tz_div_bound, sqrt_floor, tz_div, HALF, SCALE};
use crate::vec3::{
    bounded, cross_x_num, cross_y_num, cross_z_num, dot_num, lemma_abs_mul_bound, v3_add,
    v3_div_s, v3_len, v3_neg, v3_sub, v3_zero, Point, Vec3, V3,
};
use vstd::prelude::*;

verus! {

/// Largest coordinate magnitude (origin, direction, center components and
/// radius) the intersection's 128-bit intermediates accommodate.
pub const COORD_LIMIT: i64 = 134_217_728;

/// Largest parameter magnitude (`t_min`, `t_max`) the intersection's
/// 128-bit intermediates accommodate.
pub const PARAM_LIMIT: i64 = 1_073_741_824;

/// Component bound under which orienting a normal cannot overflow.
pub const NORMAL_LIMIT: i64 = 4_611_686_018_427_387_904;

/// The mathematical model of a hit record.
pub ghost struct HitV {
    pub p: V3,
    pub normal: V3,
    pub t: int,
    pub front_face: bool,
}

/// The mathematical model of a sphere.
pub ghost struct SphereV {
    pub center: V3,
    pub radius: int,
}

/// A recorded intersection: the hit point, the unit-scale normal oriented
/// against the incoming ray, the ray parameter, and whether the ray struck
/// the front (outside) of the surface.
#[derive(Clone, Copy, PartialEq, Eq, Structural, Debug)]
pub struct HitRecord {
    pub p: Point,
    pub normal: Vec3,
    pub t: i64,
    pub front_face: bool,
}

impl View for HitRecord {
    type V = HitV;

    open spec fn view(&self) -> HitV {
        HitV { p: self.p@, normal: self.normal@, t: self.t as int, front_face: self.front_face }
    }
}

/// The hit records of an optional result, as mathematical values.
pub open spec fn opt_hit_view(o: Option<HitRecord>) -> Option<HitV> {
    match o {
        Option::Some(h) => Option::Some(h@),
        Option::None => Option::None,
    }
}

/// A ray approaches a surface from outside when its direction and the
/// outward normal point against each other. The sign is taken on the
/// double-scale dot numerator, the exact sign of the real dot product.
pub open spec fn face_normal_front(dir: V3, outward: V3) -> bool {
    dot_num(dir, outward) < 0
}

/// Negating one argument negates the dot numerator.
pub proof fn lemma_dot_num_neg(a: V3, b: V3)
    ensures
        dot_num(a, v3_neg(b)) == -dot_num(a, b),
{
    assert(a.x * (-b.x) == -(a.x * b.x) && a.y * (-b.y) == -(a.y * b.y) && a.z * (-b.z) == -(a.z
        * b.z)) by (nonlinear_arith);
}

impl HitRecord {
    /// Orients `outward_normal` against the incoming ray: kept as given and
    /// marked front-facing when the ray comes from outside, negated
    /// otherwise, so the stored normal always points against the ray.
    pub fn set_face_normal(&mut self, r: &Ray, outward_normal: Vec3)
        requires
            bounded(r@.direction, NORMAL_LIMIT as int),
            bounded(outward_normal@, NORMAL_LIMIT as int),
        ensures
            final(self).front_face == face_normal_front(r@.direction, outward_normal@),
            final(self).normal@ == if face_normal_front(r@.direction, outward_normal@) {
                outward_normal@
            } else {
                v3_neg(outward_normal@)
            },
            final(self).p == old(self).p,
            final(self).t == old(self).t,
            dot_num(r@.direction, final(self).normal@) <= 0 || final(self).normal@
                == outward_normal@,
    {
        proof {
            lemma_abs_mul_bound(
                r@.direction.x,
                outward_normal@.x,
                NORMAL_LIMIT as int,
                NORMAL_LIMIT as int,
            );
            lemma_abs_mul_bound(
                r@.direction.y,
                outward_normal@.y,
                NORMAL_LIMIT as int,
                NORMAL_LIMIT as int,
            );
            lemma_abs_mul_bound(
                r@.direction.z,
                outward_normal@.z,
                NORMAL_LIMIT as int,
                NORMAL_LIMIT as int,
            );
        }
        let n: i128 = (r.direction.x as i128) * (outward_normal.x as i128) + (r.direction.y
            as i128) * (outward_normal.y as i128) + (r.direction.z as i128) * (outward_normal.z
            as i128);
        self.front_face = n < 0;
        self.normal = if self.front_face {
            outward_normal
        } else {
            outward_normal.neg()
        };
        proof {
            lemma_dot_num_neg(r@.direction, outward_normal@);
        }
    }
}

/// Immutable scene geometry: a center point and a fixed-point radius.
#[derive(Clone, Copy, PartialEq, Eq, Structural, Debug)]
pub struct Sphere {
    pub center: Point,
    pub radius: i64,
}

impl View for Sphere {
    type V = SphereV;

    open spec fn view(&self) -> SphereV {
        SphereV { center: self.center@, radius: self.radius as int }
    }
}

/// The quadratic's leading coefficient: the direction dotted with itself,
/// at double scale.
pub open spec fn sphere_a(r: RayV) -> int {
    dot_num(r.direction, r.direction)
}

/// Offset of the ray origin from the sphere center.
pub open spec fn sphere_oc(s: SphereV, r: RayV) -> V3 {
    v3_sub(r.origin, s.center)
}

/// Half the quadratic's middle coefficient, at double scale.
pub open spec fn sphere_half_b(s: SphereV, r: RayV) -> int {
    dot_num(sphere_oc(s, r), r.direction)
}

/// The quadratic's constant coefficient, at double scale.
pub open spec fn sphere_c(s: SphereV, r: RayV) -> int {
    dot_num(sphere_oc(s, r), sphere_oc(s, r)) - s.radius * s.radius
}

/// The quarter discriminant `half_b^2 - a * c`, at quadruple scale. Its
/// sign decides the intersection exactly.
pub open spec fn sphere_disc(s: SphereV, r: RayV) -> int {
    sphere_half_b(s, r) * sphere_half_b(s, r) - sphere_a(r) * sphere_c(s, r)
}

/// The nearer intersection parameter `(-half_b - sqrt(disc)) / a`, on the
/// fixed-point grid.
pub open spec fn sphere_root_near(s: SphereV, r: RayV) -> int {
    tz_div((-sphere_half_b(s, r) - sqrt_floor(sphere_disc(s, r))) * SCALE, sphere_a(r))
}

/// The farther intersection parameter `(-half_b + sqrt(disc)) / a`, on the
/// fixed-point grid.
pub open spec fn sphere_root_far(s: SphereV, r: RayV) -> int {
    tz_div((-sphere_half_b(s, r) + sqrt_floor(sphere_disc(s, r))) * SCALE, sphere_a(r))
}

/// Whether `t` lies in the half-open interval `[t_min, t_max)`: the lower
/// bound is accepted, the upper bound rejected.
pub open spec fn in_interval(t: int, t_min: int, t_max: int) -> bool {
    t_min <= t < t_max
}

/// The record a sphere reports for a hit at parameter `t`: the hit point,
/// and the outward normal `(p - center) / radius` exactly as the grid
/// computes it — unit length up to the rounding of the root, as the
/// budget note on [`sphere_hit_ok`] quantifies.
pub open spec fn sphere_hit_record(s: SphereV, r: RayV, t: int) -> HitV {
    let p = ray_at(r, t);
    let outward = v3_div_s(v3_sub(p, s.center), s.radius);
    let front = face_normal_front(r.direction, outward);
    HitV {
        p,
        normal: if front {
            outward
        } else {
            v3_neg(outward)
        },
        t,
        front_face: front,
    }
}

/// The intersection a sphere reports: nothing when the discriminant is
/// negative, else the nearer root if it lies in `[t_min, t_max)`, else the
/// farther root if it does, else nothing.
pub open spec fn sphere_hit_spec(s: SphereV, r: RayV, t_min: int, t_max: int) -> Option<HitV> {
    if sphere_disc(s, r) < 0 {
        Option::None
    } else if in_interval(sphere_root_near(s, r), t_min, t_max) {
        Option::Some(sphere_hit_record(s, r, sphere_root_near(s, r)))
    } else if in_interval(sphere_root_far(s, r), t_min, t_max) {
        Option::Some(sphere_hit_record(s, r, sphere_root_far(s, r)))
    } else {
        Option::None
    }
}

/// The machine budget of the intersection: coordinates within
/// [`COORD_LIMIT`], a radius of at least half a unit, a direction at
/// least one unit long, and interval bounds within [`PARAM_LIMIT`].
///
/// The two floors keep the grid's rounding small next to the geometry:
/// with them the computed root lies within one grid step of the real
/// root, so the outward normal `(p - center) / radius` deviates from
/// unit length only by the rounding of the root scaled by the
/// direction's magnitude over `SCALE * radius`. Below the floors that
/// rounding can dwarf the radius, and no useful tolerance holds.
pub open spec fn sphere_hit_ok(s: SphereV, r: RayV, t_min: int, t_max: int) -> bool {
    &&& bounded(r.origin, COORD_LIMIT as int)
    &&& bounded(r.direction, COORD_LIMIT as int)
    &&& bounded(s.center, COORD_LIMIT as int)
    &&& HALF as int <= s.radius <= COORD_LIMIT as int
    &&& (SCALE as int) * (SCALE as int) <= sphere_a(r)
    &&& -(PARAM_LIMIT as int) <= t_min
    &&& t_max <= PARAM_LIMIT as int
}

/// Any geometry that can answer: does ray `r` intersect me within the
/// parameter interval `[t_min, t_max)`, and if so, where first? Each
/// implementation gives its answer as a mathematical model, and its
/// executable test must agree with that model exactly. Every reported hit
/// lies in the queried interval, and its stored normal never points along
/// the incoming ray.
pub trait Hittable {
    /// The inputs on which this surface's test is defined within the
    /// machine's coordinate budget.
    spec fn hit_req(&self, r: Ray, t_min: i64, t_max: i64) -> bool;

    /// The intersection this surface reports, as a mathematical value.
    spec fn hit_model(&self, r: Ray, t_min: i64, t_max: i64) -> Option<HitV>;

    /// Reports the nearest intersection in `[t_min, t_max)`, if any.
    fn hit(&self, r: &Ray, t_min: i64, t_max: i64) -> (res: Option<HitRecord>)
        requires
            self.hit_req(*r, t_min, t_max),
        ensures
            opt_hit_view(res) == self.hit_model(*r, t_min, t_max),
            res matches Some(h) ==> t_min <= h.t < t_max,
            res matches Some(h) ==> dot_num(r@.direction, h.normal@) <= 0,
    ;
}

impl Hittable for Sphere {
    open spec fn hit_req(&self, r: Ray, t_min: i64, t_max: i64) -> bool {
        sphere_hit_ok(self@, r@, t_min as int, t_max as int)
    }

    open spec fn hit_model(&self, r: Ray, t_min: i64, t_max: i64) -> Option<HitV> {
        sphere_hit_spec(self@, r@, t_min as int, t_max as int)
    }

    fn hit(&self, r: &Ray, t_min: i64, t_max: i64) -> (res: Option<HitRecord>) {
        let ocx: i128 = (r.origin.x as i128) - (self.center.x as i128);
        let ocy: i128 = (r.origin.y as i128) - (self.center.y as i128);
        let ocz: i128 = (r.origin.z as i128) - (self.center.z as i128);
        let dx: i128 = r.direction.x as i128;
        let dy: i128 = r.direction.y as i128;
        let dz: i128 = r.direction.z as i128;
        let rad: i128 = self.radius as i128;
        proof {
            lemma_abs_mul_bound(dx as int, dx as int, 134217728, 134217728);
            lemma_abs_mul_bound(dy as int, dy as int, 134217728, 134217728);
            lemma_abs_mul_bound(dz as int, dz as int, 134217728, 134217728);
            lemma_abs_mul_bound(ocx as int, dx as int, 268435456, 134217728);
            lemma_abs_mul_bound(ocy as int, dy as int, 268435456, 134217728);
            lemma_abs_mul_bound(ocz as int, dz as int, 268435456, 134217728);
            lemma_abs_mul_bound(ocx as int, ocx as int, 268435456, 268435456);
            lemma_abs_mul_bound(ocy as int, ocy as int, 268435456, 268435456);
            lemma_abs_mul_bound(ocz as int, ocz as int, 268435456, 268435456);
            lemma_abs_mul_bound(rad as int, rad as int, 134217728, 134217728);
        }
        let a2: i128 = dx * dx + dy * dy + dz * dz;
        let hb: i128 = ocx * dx + ocy * dy + ocz * dz;
        let c2: i128 = ocx * ocx + ocy * ocy + ocz * ocz - rad * rad;
        proof {
            lemma_abs_mul_bound(hb as int, hb as int, 108086391056891904, 108086391056891904);
            lemma_abs_mul_bound(a2 as int, c2 as int, 54043195528445952, 250000000000000000);
        }
        let disc: i128 = hb * hb - a2 * c2;
        assert(disc as int == sphere_disc(self@, r@));
        if disc < 0 {
            return Option::None;
        }
        let squ: u128 = crate::scalar::isqrt_u128(disc as u128);
        proof {
            assert(squ as int <= 170_000_000_000_000_000) by (nonlinear_arith)
                requires
                    0 <= squ as int,
                    (squ as int) * (squ as int) <= 26_000_000_000_000_000_000_000_000_000_000_000,
            ;
        }
        let sq: i128 = squ as i128;
        assert(sq as int == sqrt_floor(sphere_disc(self@, r@)));
        proof {
            lemma_abs_mul_bound(-(hb as int) - sq as int, SCALE as int, 280_000_000_000_000_000,
                1_000_000);
        }
        let mut root: i128 = crate::scalar::tz_div_i128((-hb - sq) * (SCALE as i128), a2);
        assert(root as int == sphere_root_near(self@, r@));
        if root < t_min as i128 || root >= t_max as i128 {
            root = crate::scalar::tz_div_i128((-hb + sq) * (SCALE as i128), a2);
            assert(root as int == sphere_root_far(self@, r@));
            if root < t_min as i128 || root >= t_max as i128 {
                return Option::None;
            }
        }
        let t = root as i64;
        proof {
            lemma_at_scale_bounds(r@, t as int);
        }
        let p = r.at(t);
        let pc = p.sub(self.center);
        proof {
            lemma_abs_mul_bound(pc@.x, SCALE as int, 144_383_623_531, 1_000_000);
            lemma_abs_mul_bound(pc@.y, SCALE as int, 144_383_623_531, 1_000_000);
            lemma_abs_mul_bound(pc@.z, SCALE as int, 144_383_623_531, 1_000_000);
            lemma_tz_div_bound(pc@.x * SCALE, self@.radius, 144_383_623_531_000_000);
            lemma_tz_div_bound(pc@.y * SCALE, self@.radius, 144_383_623_531_000_000);
            lemma_tz_div_bound(pc@.z * SCALE, self@.radius, 144_383_623_531_000_000);
        }
        let outward = pc.div_s(self.radius);
        let mut rec = HitRecord { p, normal: Vec3 { x: 0, y: 0, z: 0 }, t, front_face: false };
        rec.set_face_normal(r, outward);
        proof {
            assert(rec@ == sphere_hit_record(self@, r@, t as int));
            if !face_normal_front(r@.direction, outward@) {
                lemma_dot_num_neg(r@.direction, outward@);
            }
        }
        Option::Some(rec)
    }
}

/// Within the machine budget, the point a ray reaches at a parameter in
/// `[-PARAM_LIMIT, PARAM_LIMIT]` keeps every component under
/// `144_249_405_803`, and the scaled direction under `144_115_188_075`.
pub proof fn lemma_at_scale_bounds(r: RayV, t: int)
    requires
        bounded(r.origin, COORD_LIMIT as int),
        bounded(r.direction, COORD_LIMIT as int),
        -(PARAM_LIMIT as int) <= t <= PARAM_LIMIT as int,
    ensures
        bounded(crate::vec3::v3_scale(r.direction, t), 144_115_188_075),
        bounded(ray_at(r, t), 144_249_405_803),
{
    lemma_abs_mul_bound(r.direction.x, t, 134217728, 1073741824);
    lemma_abs_mul_bound(r.direction.y, t, 134217728, 1073741824);
    lemma_abs_mul_bound(r.direction.z, t, 134217728, 1073741824);
    lemma_tz_div_bound(r.direction.x * t, SCALE as int, 144115188075855872);
    lemma_tz_div_bound(r.direction.y * t, SCALE as int, 144115188075855872);
    lemma_tz_div_bound(r.direction.z * t, SCALE as int, 144115188075855872);
    assert(144115188075855872int / 1000000 == 144115188075);
}

/// The same optional hit with its point translated by `c`.
pub open spec fn hitv_translate(o: Option<HitV>, c: V3) -> Option<HitV> {
    match o {
        Option::Some(h) => Option::Some(
            HitV { p: v3_add(h.p, c), normal: h.normal, t: h.t, front_face: h.front_face },
        ),
        Option::None => Option::None,
    }
}

/// Intersection is invariant under translation: testing a sphere at center
/// `c` equals testing a sphere at the origin against the ray whose origin
/// is shifted by `-c`, with the reported hit point shifted back by `c` and
/// the parameter, normal and facing unchanged.
pub proof fn lemma_hit_translation_invariant(s: SphereV, r: RayV, t_min: int, t_max: int)
    ensures
        sphere_hit_spec(s, r, t_min, t_max) == hitv_translate(
            sphere_hit_spec(
                SphereV { center: v3_zero(), radius: s.radius },
                RayV { origin: v3_sub(r.origin, s.center), direction: r.direction },
                t_min,
                t_max,
            ),
            s.center,
        ),
{
    let s0 = SphereV { center: v3_zero(), radius: s.radius };
    let r0 = RayV { origin: v3_sub(r.origin, s.center), direction: r.direction };
    assert(sphere_oc(s0, r0) == sphere_oc(s, r));
    assert forall|t: int| sphere_hit_record(s, r, t) == (HitV {
        p: v3_add(sphere_hit_record(s0, r0, t).p, s.center),
        normal: sphere_hit_record(s0, r0, t).normal,
        t,
        front_face: sphere_hit_record(s0, r0, t).front_face,
    }) by {
        let p = ray_at(r, t);
        let p0 = ray_at(r0, t);
        assert(p == v3_add(p0, s.center));
        assert(v3_sub(p0, v3_zero()) == v3_sub(p, s.center));
    }
}

/// Squared magnitude of the cross-product numerator of two vectors, at
/// quadruple scale.
pub open spec fn cross_num_sq(a: V3, b: V3) -> int {
    cross_x_num(a, b) * cross_x_num(a, b) + cross_y_num(a, b) * cross_y_num(a, b) + cross_z_num(
        a,
        b,
    ) * cross_z_num(a, b)
}

/// Lagrange's identity in three dimensions:
/// `|a|^2 |b|^2 - (a . b)^2 == |a x b|^2`, over the double-scale numerators.
/// Expansion of a squared difference.
proof fn lemma_diff_square(u: int, v: int)
    by (nonlinear_arith)
    ensures
        (u - v) * (u - v) == u * u - 2 * (u * v) + v * v,
{
}

/// Reassociation of a product of four factors.
proof fn lemma_prod_swap(x: int, w: int, y: int, z: int)
    by (nonlinear_arith)
    ensures
        (x * w) * (y * z) == (x * z) * (y * w),
{
}

/// Expansion of one squared two-by-two determinant.
proof fn lemma_pair_square(x: int, y: int, z: int, w: int)
    ensures
        (x * w - y * z) * (x * w - y * z) == (x * x) * (w * w) + (y * y) * (z * z) - 2 * ((x * z)
            * (y * w)),
{
    lemma_diff_square(x * w, y * z);
    lemma_sq_of_prod(x, w);
    lemma_sq_of_prod(y, z);
    lemma_prod_swap(x, w, y, z);
}

/// Expansion of the product of the two squared lengths.
proof fn lemma_expand_product(a1: int, a2: int, a3: int, b1: int, b2: int, b3: int)
    by (nonlinear_arith)
    ensures
        (a1 * a1 + a2 * a2 + a3 * a3) * (b1 * b1 + b2 * b2 + b3 * b3) == (a1 * a1) * (b1 * b1) + (
        a1 * a1) * (b2 * b2) + (a1 * a1) * (b3 * b3) + (a2 * a2) * (b1 * b1) + (a2 * a2) * (b2
            * b2) + (a2 * a2) * (b3 * b3) + (a3 * a3) * (b1 * b1) + (a3 * a3) * (b2 * b2) + (a3
            * a3) * (b3 * b3),
{
}

/// Expansion of the squared dot product.
proof fn lemma_expand_square(a1: int, a2: int, a3: int, b1: int, b2: int, b3: int)
    by (nonlinear_arith)
    ensures
        (a1 * b1 + a2 * b2 + a3 * b3) * (a1 * b1 + a2 * b2 + a3 * b3) == (a1 * b1) * (a1 * b1) + (
        a2 * b2) * (a2 * b2) + (a3 * b3) * (a3 * b3) + 2 * ((a1 * b1) * (a2 * b2)) + 2 * ((a1 * b1)
            * (a3 * b3)) + 2 * ((a2 * b2) * (a3 * b3)),
{
}

/// The square of a product is the product of the squares.
proof fn lemma_sq_of_prod(x: int, y: int)
    by (nonlinear_arith)
    ensures
        (x * y) * (x * y) == (x * x) * (y * y),
{
}

/// Lagrange's identity over plain integers: the three two-variable squares
/// assemble the full identity linearly.
proof fn lemma_lagrange_scalars(a1: int, a2: int, a3: int, b1: int, b2: int, b3: int)
    ensures
        (a1 * a1 + a2 * a2 + a3 * a3) * (b1 * b1 + b2 * b2 + b3 * b3) - (a1 * b1 + a2 * b2 + a3
            * b3) * (a1 * b1 + a2 * b2 + a3 * b3) == (a2 * b3 - a3 * b2) * (a2 * b3 - a3 * b2) + (
        a3 * b1 - a1 * b3) * (a3 * b1 - a1 * b3) + (a1 * b2 - a2 * b1) * (a1 * b2 - a2 * b1),
{
    lemma_pair_square(a2, a3, b2, b3);
    lemma_pair_square(a3, a1, b3, b1);
    lemma_pair_square(a1, a2, b1, b2);
    lemma_expand_product(a1, a2, a3, b1, b2, b3);
    lemma_expand_square(a1, a2, a3, b1, b2, b3);
    lemma_sq_of_prod(a1, b1);
    lemma_sq_of_prod(a2, b2);
    lemma_sq_of_prod(a3, b3);
    assert((a3 * b3) * (a1 * b1) == (a1 * b1) * (a3 * b3)) by (nonlinear_arith);
}

pub proof fn lemma_lagrange_identity(a: V3, b: V3)
    ensures
        dot_num(a, a) * dot_num(b, b) - dot_num(a, b) * dot_num(a, b) == cross_num_sq(a, b),
{
    lemma_lagrange_scalars(a.x, a.y, a.z, b.x, b.y, b.z);
}

/// A ray whose line stays farther from the center than the radius reports
/// no hit: when `|oc x d|^2 > |d|^2 r^2` — that is, the perpendicular
/// distance from the center to the ray's line exceeds the radius — the
/// discriminant is negative and the intersection is empty, whatever the
/// interval.
pub proof fn lemma_miss_when_line_far(s: SphereV, r: RayV, t_min: int, t_max: int)
    requires
        sphere_a(r) * (s.radius * s.radius) < cross_num_sq(sphere_oc(s, r), r.direction),
    ensures
        sphere_hit_spec(s, r, t_min, t_max) == Option::<HitV>::None,
{
    let oc = sphere_oc(s, r);
    let d = r.direction;
    lemma_lagrange_identity(oc, d);
    assert(sphere_a(r) * sphere_c(s, r) == dot_num(oc, oc) * dot_num(d, d) - sphere_a(r) * (
    s.radius * s.radius)) by (nonlinear_arith)
        requires
            sphere_a(r) == dot_num(d, d),
            sphere_c(s, r) == dot_num(oc, oc) - s.radius * s.radius,
    ;
    assert(sphere_disc(s, r) < 0);
}

/// Squaring a negated scaled component.
proof fn lemma_neg_scale_sq(k: int, x: int)
    by (nonlinear_arith)
    ensures
        (-(k * x)) * (-(k * x)) == (k * k) * (x * x),
{
}

/// A ray aimed straight at the center reports the near root at the
/// distance to the center minus the radius, exactly: with a direction of
/// exactly unit length and the center `k` whole units along it, the near
/// root is `k * SCALE - radius`.
pub proof fn lemma_head_on_near_root(s: SphereV, r: RayV, k: int)
    requires
        0 <= k,
        0 <= s.radius <= k * SCALE,
        sphere_a(r) == (SCALE as int) * (SCALE as int),
        sphere_oc(s, r).x == -(k * r.direction.x),
        sphere_oc(s, r).y == -(k * r.direction.y),
        sphere_oc(s, r).z == -(k * r.direction.z),
    ensures
        sphere_root_near(s, r) == k * SCALE - s.radius,
{
    let sc = SCALE as int;
    let d = r.direction;
    let oc = sphere_oc(s, r);
    let a = sphere_a(r);
    let rad = s.radius;
    assert(dot_num(oc, d) == -(k * dot_num(d, d))) by (nonlinear_arith)
        requires
            oc.x == -(k * d.x) && oc.y == -(k * d.y) && oc.z == -(k * d.z),
    ;
    lemma_neg_scale_sq(k, d.x);
    lemma_neg_scale_sq(k, d.y);
    lemma_neg_scale_sq(k, d.z);
    assert((k * k) * (d.x * d.x) + (k * k) * (d.y * d.y) + (k * k) * (d.z * d.z) == (k * k)
        * dot_num(d, d)) by (nonlinear_arith)
        requires
            dot_num(d, d) == d.x * d.x + d.y * d.y + d.z * d.z,
    ;
    assert(dot_num(oc, oc) == (k * k) * dot_num(d, d));
    assert(sphere_disc(s, r) == a * (rad * rad)) by (nonlinear_arith)
        requires
            sphere_half_b(s, r) == -(k * a),
            sphere_c(s, r) == (k * k) * a - rad * rad,
            sphere_disc(s, r) == sphere_half_b(s, r) * sphere_half_b(s, r) - a * sphere_c(s, r),
    ;
    lemma_sq_of_prod(sc, rad);
    assert(crate::scalar::is_sqrt(a * (rad * rad), sc * rad)) by (nonlinear_arith)
        requires
            a == sc * sc,
            a * (rad * rad) == (sc * rad) * (sc * rad),
            0 <= rad,
            0 < sc,
    ;
    crate::scalar::lemma_is_sqrt_floor(a * (rad * rad), sc * rad);
    let x = k * sc - rad;
    assert((-(-(k * a)) - sc * rad) * sc == x * a) by (nonlinear_arith)
        requires
            a == sc * sc,
            x == k * sc - rad,
    ;
    assert(0 <= x);
    vstd::arithmetic::div_mod::lemma_div_by_multiple(x, a);
    assert(tz_div(x * a, a) == (x * a) / a) by {
        crate::scalar::lemma_tz_div_nonneg(x * a, a);
        assert(0 <= x * a) by (nonlinear_arith)
            requires
                0 <= x,
                0 < a,
        ;
    }
}

/// A unit-direction ray aimed straight at the center from outside reports
/// the near root at the distance to the center minus the radius, within
/// one grid step: for an exactly unit direction collinear with the offset
/// to the center, a radius of at least half a unit, and the center at
/// least one radius ahead,
/// `dist - radius <= near root <= dist - radius + 1`,
/// where `dist` is the library's measured distance `v3_len(origin - center)`.
pub proof fn lemma_aimed_at_center_near_root(s: SphereV, r: RayV)
    requires
        sphere_a(r) == (SCALE as int) * (SCALE as int),
        cross_num_sq(sphere_oc(s, r), r.direction) == 0,
        HALF as int <= s.radius,
        (SCALE as int) * s.radius <= -sphere_half_b(s, r),
    ensures
        v3_len(sphere_oc(s, r)) - s.radius <= sphere_root_near(s, r),
        sphere_root_near(s, r) <= v3_len(sphere_oc(s, r)) - s.radius + 1,
{
    let sc = SCALE as int;
    let oc = sphere_oc(s, r);
    let d = r.direction;
    let a = sphere_a(r);
    let hb = sphere_half_b(s, r);
    let w = -hb;
    let rad = s.radius;
    let oc2 = dot_num(oc, oc);
    // Collinearity pins the geometry: |oc|^2 * |d|^2 == (oc . d)^2.
    lemma_lagrange_identity(oc, d);
    assert(w * w == oc2 * a) by (nonlinear_arith)
        requires
            oc2 * a - hb * hb == 0,
            w == -hb,
    ;
    // The discriminant collapses to a * radius^2.
    assert(a * sphere_c(s, r) == oc2 * a - a * (rad * rad)) by (nonlinear_arith)
        requires
            sphere_c(s, r) == oc2 - rad * rad,
    ;
    assert(sphere_disc(s, r) == a * (rad * rad));
    // Its square root is exactly SCALE * radius.
    lemma_sq_of_prod(sc, rad);
    assert(crate::scalar::is_sqrt(a * (rad * rad), sc * rad)) by (nonlinear_arith)
        requires
            a == sc * sc,
            a * (rad * rad) == (sc * rad) * (sc * rad),
            0 <= rad,
            0 < sc,
    ;
    crate::scalar::lemma_is_sqrt_floor(a * (rad * rad), sc * rad);
    // Write w as q * SCALE + rho; the near root is then exactly q - radius.
    assert(0 < sc * rad) by (nonlinear_arith)
        requires
            0 < sc,
            0 < rad,
    ;
    vstd::arithmetic::div_mod::lemma_fundamental_div_mod(w, sc);
    vstd::arithmetic::div_mod::lemma_mod_pos_bound(w, sc);
    vstd::arithmetic::div_mod::lemma_div_pos_is_pos(w, sc);
    let q = w / sc;
    let rho = w % sc;
    let num = (w - sc * rad) * sc;
    assert(num == (q - rad) * (sc * sc) + rho * sc) by (nonlinear_arith)
        requires
            w == sc * q + rho,
            num == (w - sc * rad) * sc,
    ;
    assert(0 <= rho * sc && rho * sc < sc * sc) by (nonlinear_arith)
        requires
            0 <= rho < sc,
            0 < sc,
    ;
    vstd::arithmetic::div_mod::lemma_fundamental_div_mod_converse(num, a, q - rad, rho * sc);
    assert(0 <= num) by (nonlinear_arith)
        requires
            num == (w - sc * rad) * sc,
            sc * rad <= w,
            0 < sc,
    ;
    crate::scalar::lemma_tz_div_nonneg(num, a);
    assert(sphere_root_near(s, r) == q - rad);
    // q is the whole-unit distance: q^2 <= |oc|^2 < (q + 1)^2.
    assert(oc2 * (sc * sc) == w * w);
    assert(q * q <= oc2) by (nonlinear_arith)
        requires
            oc2 * (sc * sc) == w * w,
            w == sc * q + rho,
            0 <= rho,
            0 <= q,
            0 < sc,
    ;
    assert(oc2 < (q + 1) * (q + 1)) by (nonlinear_arith)
        requires
            oc2 * (sc * sc) == w * w,
            w == sc * q + rho,
            0 <= rho < sc,
            0 <= q,
            0 < sc,
    ;
    crate::scalar::lemma_is_sqrt_floor(oc2, q);
    // The measured distance is q or q - 1.
    crate::vec3::lemma_dot_num_self_nonneg(oc);
    crate::scalar::lemma_tz_div_nonneg(oc2, sc);
    crate::scalar::lemma_tz_div_remainder(oc2, sc);
    let doc = crate::vec3::v3_dot(oc, oc);
    assert((doc + 1) * sc == doc * sc + sc) by (nonlinear_arith);
    assert(doc * sc == sc * doc) by (nonlinear_arith);
    assert(oc2 - sc < sc * doc <= oc2);
    crate::scalar::lemma_sqrt_floor_exists(sc * doc);
    crate::scalar::lemma_sqrt_floor_monotonic(sc * doc, oc2);
    // q is at least half a unit, so one SCALE of slack moves the root by
    // at most one.
    assert(sc * rad >= sc * (HALF as int)) by (nonlinear_arith)
        requires
            HALF as int <= rad,
            0 < sc,
    ;
    vstd::arithmetic::div_mod::lemma_div_is_ordered(500_000_000_000, w, sc);
    assert(500_000_000_000int / 1_000_000 == 500_000);
    assert(500_000 <= q);
    assert((q - 1) * (q - 1) <= sc * doc) by (nonlinear_arith)
        requires
            oc2 - sc < sc * doc,
            q * q <= oc2,
            500_000 <= q,
            sc == 1_000_000,
    ;
    assert(crate::scalar::is_sqrt((q - 1) * (q - 1), q - 1)) by (nonlinear_arith)
        requires
            1 <= q,
    ;
    crate::scalar::lemma_is_sqrt_floor((q - 1) * (q - 1), q - 1);
    crate::scalar::lemma_sqrt_floor_monotonic((q - 1) * (q - 1), sc * doc);
    assert(q - 1 <= v3_len(oc) <= q);
}

/// An empty interval admits no hit: with `t_min == t_max` the intersection
/// is always empty.
pub proof fn lemma_empty_interval_misses(s: SphereV, r: RayV, t: int)
    ensures
        sphere_hit_spec(s, r, t, t) == Option::<HitV>::None,
{
}

/// Every reported hit parameter lies in the queried half-open interval:
/// a root exactly at `t_max` is never reported.
pub proof fn lemma_hit_parameter_in_interval(s: SphereV, r: RayV, t_min: int, t_max: int)
    ensures
        sphere_hit_spec(s, r, t_min, t_max) matches Some(h) ==> t_min <= h.t < t_max,
{
}

/// The lower bound is inclusive: a near root exactly at `t_min` is
/// accepted and reported.
pub proof fn lemma_lower_bound_inclusive(s: SphereV, r: RayV, t_min: int, t_max: int)
    requires
        0 <= sphere_disc(s, r),
        sphere_root_near(s, r) == t_min,
        t_min < t_max,
    ensures
        sphere_hit_spec(s, r, t_min, t_max) == Option::Some(sphere_hit_record(s, r, t_min)),
{
}

} // verus!
