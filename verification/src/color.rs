//! Per-pixel color resolution: maps a ray to a normal-derived surface
//! color on a hit, and to a vertical sky gradient on a miss.

use crate::hit::{
    sphere_hit_ok, sphere_hit_record, sphere_hit_spec, Hittable, Sphere, SphereV, COORD_LIMIT,
    PARAM_LIMIT,
};
use crate::ray::{ray_at, Ray, RayV};
use crate::scalar::{
    fits_i64, fx_mul, lemma_sqrt_floor_exists, lemma_tz_div_at_least_one, lemma_tz_div_bound, HALF,
    SCALE,
};
use crate::vec3::{
    bounded, dot_num, lemma_abs_mul_bound, v3, v3_add, v3_dot, v3_len, v3_scale, v3_unit, Color,
    Vec3, V3,
};
use vstd::prelude::*;

verus! {

/// The horizon color of the background gradient: white.
pub open spec fn white() -> V3 {
    v3(SCALE as int, SCALE as int, SCALE as int)
}

/// The zenith color of the background gradient: a pale sky blue.
pub open spec fn sky_blue() -> V3 {
    v3(HALF as int, 700_000, SCALE as int)
}

/// Color of a hit: each normal component in `[-1, 1]` remapped linearly
/// to a channel in `[0, 1]` by `(n + 1) / 2`.
pub open spec fn normal_color(n: V3) -> V3 {
    v3_scale(v3_add(n, white()), HALF as int)
}

/// The gradient at blend factor `t`: `(1 - t) * white + t * sky`.
pub open spec fn background_blend(t: int) -> V3 {
    v3_add(v3_scale(white(), SCALE - t), v3_scale(sky_blue(), t))
}

/// Color of a miss: blend white toward sky blue by how far the unit
/// direction points upward, `t = (unit(dir).y + 1) / 2`.
pub open spec fn background_color(dir: V3) -> V3 {
    background_blend(fx_mul(v3_unit(dir).y + SCALE, HALF as int))
}

/// The color a ray resolves to against one sphere, tested over the
/// parameter interval `[0, PARAM_LIMIT)`.
pub open spec fn ray_color_spec(s: SphereV, r: RayV) -> V3 {
    match sphere_hit_spec(s, r, 0, PARAM_LIMIT as int) {
        Option::Some(h) => normal_color(h.normal),
        Option::None => background_color(r.direction),
    }
}

/// The machine budget of color resolution: the intersection budget, whose
/// direction floor — at least one unit long — also lets the miss branch
/// normalize the direction on the fixed-point grid.
pub open spec fn ray_color_ok(s: SphereV, r: RayV) -> bool {
    sphere_hit_ok(s, r, 0, PARAM_LIMIT as int)
}

/// A normal reported within the machine budget stays under this bound.
pub proof fn lemma_record_normal_bounded(s: SphereV, r: RayV, t: int)
    requires
        sphere_hit_ok(s, r, 0, PARAM_LIMIT as int),
        0 <= t <= PARAM_LIMIT as int,
    ensures
        bounded(sphere_hit_record(s, r, t).normal, 144_383_623_531_000_000),
{
    crate::hit::lemma_at_scale_bounds(r, t);
    let pc = crate::vec3::v3_sub(ray_at(r, t), s.center);
    lemma_abs_mul_bound(pc.x, SCALE as int, 144_383_623_531, 1_000_000);
    lemma_abs_mul_bound(pc.y, SCALE as int, 144_383_623_531, 1_000_000);
    lemma_abs_mul_bound(pc.z, SCALE as int, 144_383_623_531, 1_000_000);
    lemma_tz_div_bound(pc.x * SCALE, s.radius, 144_383_623_531_000_000);
    lemma_tz_div_bound(pc.y * SCALE, s.radius, 144_383_623_531_000_000);
    lemma_tz_div_bound(pc.z * SCALE, s.radius, 144_383_623_531_000_000);
}

/// Remaps a normal component to a channel: `(n + 1) / 2` on the grid.
fn half_up(n: i64) -> (r: i64)
    requires
        -200_000_000_000_000_000 <= n <= 200_000_000_000_000_000,
    ensures
        r as int == fx_mul(n + SCALE, HALF as int),
{
    proof {
        lemma_abs_mul_bound(n + SCALE, HALF as int, 200_000_000_001_000_000, 500_000);
        lemma_tz_div_bound((n + SCALE) * HALF, SCALE as int, 100_000_000_000_750_000_000_000);
    }
    crate::scalar::mul_fx(n + SCALE, HALF)
}

/// Resolves the color of one ray against one sphere: the normal-derived
/// surface color within `[0, PARAM_LIMIT)` on a hit, the vertical sky
/// gradient on a miss.
pub fn ray_color(r: &Ray, world: &Sphere) -> (c: Color)
    requires
        ray_color_ok(world@, r@),
    ensures
        c@ == ray_color_spec(world@, r@),
{
    match world.hit(r, 0, PARAM_LIMIT) {
        Option::Some(rec) => {
            proof {
                lemma_record_normal_bounded(world@, r@, rec@.t);
            }
            let cx = half_up(rec.normal.x);
            let cy = half_up(rec.normal.y);
            let cz = half_up(rec.normal.z);
            Vec3::new(cx, cy, cz)
        },
        Option::None => {
            proof {
                lemma_unit_dir_bounds(r@.direction);
            }
            let u = r.direction.unit_vector();
            let tb = half_up(u.y);
            proof {
                lemma_blend_bounds(tb as int);
            }
            let w = Vec3::new(SCALE, SCALE, SCALE);
            let sky = Vec3::new(HALF, 700_000, SCALE);
            w.scale(SCALE - tb).add(sky.scale(tb))
        },
    }
}

/// A direction within the coordinate budget and of at least unit-grid
/// length normalizes without overflow, to components under its scaled
/// magnitude.
pub proof fn lemma_unit_dir_bounds(dir: V3)
    requires
        bounded(dir, COORD_LIMIT as int),
        SCALE <= dot_num(dir, dir),
    ensures
        1 <= v3_dot(dir, dir),
        fits_i64(v3_dot(dir, dir)),
        1 <= v3_len(dir),
        bounded(v3_unit(dir), 134_217_728_000_000),
{
    lemma_tz_div_at_least_one(dot_num(dir, dir), SCALE as int);
    lemma_abs_mul_bound(dir.x, dir.x, COORD_LIMIT as int, COORD_LIMIT as int);
    lemma_abs_mul_bound(dir.y, dir.y, COORD_LIMIT as int, COORD_LIMIT as int);
    lemma_abs_mul_bound(dir.z, dir.z, COORD_LIMIT as int, COORD_LIMIT as int);
    lemma_tz_div_bound(dot_num(dir, dir), SCALE as int, 54_043_195_528_445_952);
    let d = v3_dot(dir, dir);
    let n = SCALE * d;
    lemma_sqrt_floor_exists(n);
    let len = v3_len(dir);
    if len == 0 {
        assert((0int + 1) * (0int + 1) == 1);
        assert(false);
    }
    lemma_abs_mul_bound(dir.x, SCALE as int, COORD_LIMIT as int, SCALE as int);
    lemma_abs_mul_bound(dir.y, SCALE as int, COORD_LIMIT as int, SCALE as int);
    lemma_abs_mul_bound(dir.z, SCALE as int, COORD_LIMIT as int, SCALE as int);
    lemma_tz_div_bound(dir.x * SCALE, len, 134_217_728_000_000);
    lemma_tz_div_bound(dir.y * SCALE, len, 134_217_728_000_000);
    lemma_tz_div_bound(dir.z * SCALE, len, 134_217_728_000_000);
}

/// The gradient's two scaled endpoints fit the machine word for any blend
/// factor a normalized direction can produce.
pub proof fn lemma_blend_bounds(t: int)
    requires
        -200_000_000_000_000 <= t <= 200_000_000_000_000,
    ensures
        fits_i64(v3_scale(white(), SCALE - t).x),
        fits_i64(v3_scale(white(), SCALE - t).y),
        fits_i64(v3_scale(white(), SCALE - t).z),
        fits_i64(v3_scale(sky_blue(), t).x),
        fits_i64(v3_scale(sky_blue(), t).y),
        fits_i64(v3_scale(sky_blue(), t).z),
        fits_i64(v3_add(v3_scale(white(), SCALE - t), v3_scale(sky_blue(), t)).x),
        fits_i64(v3_add(v3_scale(white(), SCALE - t), v3_scale(sky_blue(), t)).y),
        fits_i64(v3_add(v3_scale(white(), SCALE - t), v3_scale(sky_blue(), t)).z),
{
    lemma_abs_mul_bound(SCALE as int, SCALE - t, 1_000_000, 200_001_000_000_000);
    lemma_abs_mul_bound(HALF as int, t, 1_000_000, 200_001_000_000_000);
    lemma_abs_mul_bound(700_000, t, 1_000_000, 200_001_000_000_000);
    lemma_abs_mul_bound(SCALE as int, t, 1_000_000, 200_001_000_000_000);
    lemma_tz_div_bound((SCALE as int) * (SCALE - t), SCALE as int, 200_001_000_000_000_000_000);
    lemma_tz_div_bound((HALF as int) * t, SCALE as int, 200_001_000_000_000_000_000);
    lemma_tz_div_bound(700_000 * t, SCALE as int, 200_001_000_000_000_000_000);
    lemma_tz_div_bound((SCALE as int) * t, SCALE as int, 200_001_000_000_000_000_000);
}

/// The 8-bit level of a color channel: `floor(channel * 255.999)`, the
/// mapping the plain-text image format uses. Channels in `[0, 1]` land in
/// `[0, 255]`; out-of-range channels produce out-of-range levels, which
/// the caller may clamp.
pub open spec fn channel_level_spec(c: int) -> int {
    (c * 255_999) / 1_000_000_000
}

/// Computes the 8-bit level of one channel.
pub fn channel_level(c: i64) -> (r: i64)
    ensures
        r as int == channel_level_spec(c as int),
{
    proof {
        lemma_abs_mul_bound(c as int, 255_999, 9_223_372_036_854_775_808, 255_999);
        vstd::arithmetic::div_mod::lemma_div_is_ordered(
            (c as int) * 255_999,
            2_400_000_000_000_000_000_000_000,
            1_000_000_000,
        );
        vstd::arithmetic::div_mod::lemma_div_is_ordered(
            -2_400_000_000_000_000_000_000_000,
            (c as int) * 255_999,
            1_000_000_000,
        );
    }
    let p: i128 = (c as i128) * 255_999;
    let q = crate::scalar::floor_div_i128(p, 1_000_000_000);
    q as i64
}

/// Color resolution is a pure function: the same ray against the same
/// sphere always yields the same color.
pub proof fn lemma_ray_color_deterministic(c1: V3, c2: V3, s: SphereV, r: RayV)
    requires
        c1 == ray_color_spec(s, r),
        c2 == ray_color_spec(s, r),
    ensures
        c1 == c2,
{
}

} // verus!
