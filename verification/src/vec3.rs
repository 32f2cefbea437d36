//! Three-component vectors over fixed-point scalars.
//!
//! One representation serves three roles: geometric point, direction, and
//! RGB color. The ghost type [`V3`] models a vector as a triple of
//! mathematical integers (raw fixed-point values), and every executable
//! operation's contract states its result exactly over that model.

use crate::scalar::{
    abs_int, fits_i64, fx_div, fx_mul, is_sqrt, lemma_is_sqrt_floor, lemma_tz_div_neg,
    lemma_tz_div_nonneg, sqrt_floor, tz_div, SCALE,
};
use vstd::prelude::*;

verus! {

/// Component magnitude under which dot and cross products cannot overflow
/// their 128-bit intermediates.
pub const COMP_LIMIT: i64 = 1_000_000_000_000_000_000;

/// The mathematical model of a vector: a triple of raw fixed-point values.
pub ghost struct V3 {
    pub x: int,
    pub y: int,
    pub z: int,
}

/// Builds a model vector from its components.
pub open spec fn v3(x: int, y: int, z: int) -> V3 {
    V3 { x, y, z }
}

/// The zero vector of the model.
pub open spec fn v3_zero() -> V3 {
    v3(0, 0, 0)
}

/// Componentwise sum.
pub open spec fn v3_add(a: V3, b: V3) -> V3 {
    v3(a.x + b.x, a.y + b.y, a.z + b.z)
}

/// Componentwise difference.
pub open spec fn v3_sub(a: V3, b: V3) -> V3 {
    v3(a.x - b.x, a.y - b.y, a.z - b.z)
}

/// Componentwise negation.
pub open spec fn v3_neg(a: V3) -> V3 {
    v3(-a.x, -a.y, -a.z)
}

/// Componentwise fixed-point product.
pub open spec fn v3_mul(a: V3, b: V3) -> V3 {
    v3(fx_mul(a.x, b.x), fx_mul(a.y, b.y), fx_mul(a.z, b.z))
}

/// Componentwise fixed-point quotient.
pub open spec fn v3_div(a: V3, b: V3) -> V3 {
    v3(fx_div(a.x, b.x), fx_div(a.y, b.y), fx_div(a.z, b.z))
}

/// Product with a fixed-point scalar.
pub open spec fn v3_scale(a: V3, s: int) -> V3 {
    v3(fx_mul(a.x, s), fx_mul(a.y, s), fx_mul(a.z, s))
}

/// Quotient by a fixed-point scalar.
pub open spec fn v3_div_s(a: V3, s: int) -> V3 {
    v3(fx_div(a.x, s), fx_div(a.y, s), fx_div(a.z, s))
}

/// Numerator of the dot product: the sum of component products, carried
/// at double scale before the single rescaling division.
pub open spec fn dot_num(a: V3, b: V3) -> int {
    a.x * b.x + a.y * b.y + a.z * b.z
}

/// Fixed-point dot product: sum the component products, rescale once.
pub open spec fn v3_dot(a: V3, b: V3) -> int {
    tz_div(dot_num(a, b), SCALE as int)
}

/// First cross-product numerator, at double scale.
pub open spec fn cross_x_num(a: V3, b: V3) -> int {
    a.y * b.z - a.z * b.y
}

/// Second cross-product numerator, at double scale.
pub open spec fn cross_y_num(a: V3, b: V3) -> int {
    a.z * b.x - a.x * b.z
}

/// Third cross-product numerator, at double scale.
pub open spec fn cross_z_num(a: V3, b: V3) -> int {
    a.x * b.y - a.y * b.x
}

/// Fixed-point cross product, each component rescaled once.
pub open spec fn v3_cross(a: V3, b: V3) -> V3 {
    v3(
        tz_div(cross_x_num(a, b), SCALE as int),
        tz_div(cross_y_num(a, b), SCALE as int),
        tz_div(cross_z_num(a, b), SCALE as int),
    )
}

/// Euclidean length, rounded down to the fixed-point grid.
pub open spec fn v3_len(a: V3) -> int {
    sqrt_floor(SCALE * v3_dot(a, a))
}

/// The vector rescaled to length one, as far as the grid allows.
pub open spec fn v3_unit(a: V3) -> V3 {
    v3_div_s(a, v3_len(a))
}

/// All three components within `m` in magnitude.
pub open spec fn bounded(a: V3, m: int) -> bool {
    -m <= a.x <= m && -m <= a.y <= m && -m <= a.z <= m
}

/// A three-component fixed-point vector; also used as a point and a color.
#[derive(Clone, Copy, PartialEq, Eq, Structural, Debug)]
pub struct Vec3 {
    pub x: i64,
    pub y: i64,
    pub z: i64,
}

/// A vector read as a location in space.
pub type Point = Vec3;

/// A vector read as an RGB color, one unit per channel being full intensity.
pub type Color = Vec3;

impl View for Vec3 {
    type V = V3;

    open spec fn view(&self) -> V3 {
        v3(self.x as int, self.y as int, self.z as int)
    }
}

impl Vec3 {
    /// The first component.
    pub fn x(&self) -> (r: i64)
        ensures
            r == self@.x,
    {
        self.x
    }

    /// The second component.
    pub fn y(&self) -> (r: i64)
        ensures
            r == self@.y,
    {
        self.y
    }

    /// The third component.
    pub fn z(&self) -> (r: i64)
        ensures
            r == self@.z,
    {
        self.z
    }

    /// Builds a vector from raw fixed-point components.
    pub fn new(x: i64, y: i64, z: i64) -> (r: Vec3)
        ensures
            r@ == v3(x as int, y as int, z as int),
    {
        Vec3 { x, y, z }
    }

    /// Builds a vector from whole-unit components.
    pub fn newi(x: i64, y: i64, z: i64) -> (r: Vec3)
        requires
            fits_i64(x * SCALE),
            fits_i64(y * SCALE),
            fits_i64(z * SCALE),
        ensures
            r@ == v3(x * SCALE, y * SCALE, z * SCALE),
    {
        Vec3 { x: x * SCALE, y: y * SCALE, z: z * SCALE }
    }

    /// Componentwise negation.
    pub fn neg(self) -> (r: Vec3)
        requires
            i64::MIN < self@.x,
            i64::MIN < self@.y,
            i64::MIN < self@.z,
        ensures
            r@ == v3_neg(self@),
    {
        Vec3 { x: -self.x, y: -self.y, z: -self.z }
    }

    /// Componentwise sum.
    pub fn add(self, rhs: Vec3) -> (r: Vec3)
        requires
            fits_i64(self@.x + rhs@.x),
            fits_i64(self@.y + rhs@.y),
            fits_i64(self@.z + rhs@.z),
        ensures
            r@ == v3_add(self@, rhs@),
    {
        Vec3 { x: self.x + rhs.x, y: self.y + rhs.y, z: self.z + rhs.z }
    }

    /// Componentwise difference.
    pub fn sub(self, rhs: Vec3) -> (r: Vec3)
        requires
            fits_i64(self@.x - rhs@.x),
            fits_i64(self@.y - rhs@.y),
            fits_i64(self@.z - rhs@.z),
        ensures
            r@ == v3_sub(self@, rhs@),
    {
        Vec3 { x: self.x - rhs.x, y: self.y - rhs.y, z: self.z - rhs.z }
    }

    /// Componentwise fixed-point product.
    pub fn mul(self, rhs: Vec3) -> (r: Vec3)
        requires
            fits_i64(v3_mul(self@, rhs@).x),
            fits_i64(v3_mul(self@, rhs@).y),
            fits_i64(v3_mul(self@, rhs@).z),
        ensures
            r@ == v3_mul(self@, rhs@),
    {
        Vec3 {
            x: crate::scalar::mul_fx(self.x, rhs.x),
            y: crate::scalar::mul_fx(self.y, rhs.y),
            z: crate::scalar::mul_fx(self.z, rhs.z),
        }
    }

    /// Componentwise fixed-point quotient.
    pub fn div(self, rhs: Vec3) -> (r: Vec3)
        requires
            rhs@.x != 0,
            rhs@.y != 0,
            rhs@.z != 0,
            fits_i64(v3_div(self@, rhs@).x),
            fits_i64(v3_div(self@, rhs@).y),
            fits_i64(v3_div(self@, rhs@).z),
        ensures
            r@ == v3_div(self@, rhs@),
    {
        Vec3 {
            x: crate::scalar::div_fx(self.x, rhs.x),
            y: crate::scalar::div_fx(self.y, rhs.y),
            z: crate::scalar::div_fx(self.z, rhs.z),
        }
    }

    /// Product with a fixed-point scalar.
    pub fn scale(self, s: i64) -> (r: Vec3)
        requires
            fits_i64(v3_scale(self@, s as int).x),
            fits_i64(v3_scale(self@, s as int).y),
            fits_i64(v3_scale(self@, s as int).z),
        ensures
            r@ == v3_scale(self@, s as int),
    {
        Vec3 {
            x: crate::scalar::mul_fx(self.x, s),
            y: crate::scalar::mul_fx(self.y, s),
            z: crate::scalar::mul_fx(self.z, s),
        }
    }

    /// Quotient by a fixed-point scalar.
    pub fn div_s(self, s: i64) -> (r: Vec3)
        requires
            s != 0,
            fits_i64(v3_div_s(self@, s as int).x),
            fits_i64(v3_div_s(self@, s as int).y),
            fits_i64(v3_div_s(self@, s as int).z),
        ensures
            r@ == v3_div_s(self@, s as int),
    {
        Vec3 {
            x: crate::scalar::div_fx(self.x, s),
            y: crate::scalar::div_fx(self.y, s),
            z: crate::scalar::div_fx(self.z, s),
        }
    }

    /// Adds `rhs` in place.
    pub fn add_assign(&mut self, rhs: Vec3)
        requires
            fits_i64(old(self)@.x + rhs@.x),
            fits_i64(old(self)@.y + rhs@.y),
            fits_i64(old(self)@.z + rhs@.z),
        ensures
            final(self)@ == v3_add(old(self)@, rhs@),
    {
        self.x = self.x + rhs.x;
        self.y = self.y + rhs.y;
        self.z = self.z + rhs.z;
    }

    /// Multiplies by `rhs` componentwise in place.
    pub fn mul_assign(&mut self, rhs: Vec3)
        requires
            fits_i64(v3_mul(old(self)@, rhs@).x),
            fits_i64(v3_mul(old(self)@, rhs@).y),
            fits_i64(v3_mul(old(self)@, rhs@).z),
        ensures
            final(self)@ == v3_mul(old(self)@, rhs@),
    {
        self.x = crate::scalar::mul_fx(self.x, rhs.x);
        self.y = crate::scalar::mul_fx(self.y, rhs.y);
        self.z = crate::scalar::mul_fx(self.z, rhs.z);
    }

    /// Divides by `rhs` componentwise in place.
    pub fn div_assign(&mut self, rhs: Vec3)
        requires
            rhs@.x != 0,
            rhs@.y != 0,
            rhs@.z != 0,
            fits_i64(v3_div(old(self)@, rhs@).x),
            fits_i64(v3_div(old(self)@, rhs@).y),
            fits_i64(v3_div(old(self)@, rhs@).z),
        ensures
            final(self)@ == v3_div(old(self)@, rhs@),
    {
        self.x = crate::scalar::div_fx(self.x, rhs.x);
        self.y = crate::scalar::div_fx(self.y, rhs.y);
        self.z = crate::scalar::div_fx(self.z, rhs.z);
    }

    /// Fixed-point dot product.
    pub fn dot(&self, v: &Vec3) -> (r: i64)
        requires
            bounded(self@, COMP_LIMIT as int),
            bounded(v@, COMP_LIMIT as int),
            fits_i64(v3_dot(self@, v@)),
        ensures
            r as int == v3_dot(self@, v@),
    {
        proof {
            lemma_comp_product_bounds(self@, v@);
        }
        let n: i128 = (self.x as i128) * (v.x as i128) + (self.y as i128) * (v.y as i128) + (
        self.z as i128) * (v.z as i128);
        let q = crate::scalar::tz_div_i128(n, SCALE as i128);
        q as i64
    }

    /// Fixed-point cross product.
    pub fn cross(self, v: &Vec3) -> (r: Vec3)
        requires
            bounded(self@, COMP_LIMIT as int),
            bounded(v@, COMP_LIMIT as int),
            fits_i64(v3_cross(self@, v@).x),
            fits_i64(v3_cross(self@, v@).y),
            fits_i64(v3_cross(self@, v@).z),
        ensures
            r@ == v3_cross(self@, v@),
    {
        proof {
            lemma_comp_product_bounds(self@, v@);
            lemma_comp_product_bounds(v@, self@);
        }
        let nx: i128 = (self.y as i128) * (v.z as i128) - (self.z as i128) * (v.y as i128);
        let ny: i128 = (self.z as i128) * (v.x as i128) - (self.x as i128) * (v.z as i128);
        let nz: i128 = (self.x as i128) * (v.y as i128) - (self.y as i128) * (v.x as i128);
        let qx = crate::scalar::tz_div_i128(nx, SCALE as i128);
        let qy = crate::scalar::tz_div_i128(ny, SCALE as i128);
        let qz = crate::scalar::tz_div_i128(nz, SCALE as i128);
        Vec3 { x: qx as i64, y: qy as i64, z: qz as i64 }
    }

    /// The squared length: the dot product of the vector with itself.
    pub fn length_squared(&self) -> (r: i64)
        requires
            bounded(self@, COMP_LIMIT as int),
            fits_i64(v3_dot(self@, self@)),
        ensures
            r as int == v3_dot(self@, self@),
            0 <= r,
    {
        proof {
            lemma_dot_num_self_nonneg(self@);
            lemma_tz_div_nonneg(dot_num(self@, self@), SCALE as int);
        }
        self.dot(self)
    }

    /// The Euclidean length, rounded down to the fixed-point grid.
    pub fn length(&self) -> (r: i64)
        requires
            bounded(self@, COMP_LIMIT as int),
            fits_i64(v3_dot(self@, self@)),
        ensures
            r as int == v3_len(self@),
            is_sqrt(SCALE * v3_dot(self@, self@), r as int),
            0 <= r,
    {
        let ls = self.length_squared();
        proof {
            assert((ls as int) * (SCALE as int) <= 0x7fffffffffffffff * 1_000_000) by (
            nonlinear_arith)
                requires
                    0 <= ls as int <= 0x7fffffffffffffff,
            ;
        }
        let n: u128 = (ls as u128) * (SCALE as u128);
        let r = crate::scalar::isqrt_u128(n);
        proof {
            assert(r as int <= 4_000_000_000_000) by (nonlinear_arith)
                requires
                    0 <= r as int,
                    (r as int) * (r as int) <= 0x7fffffffffffffff * 1_000_000,
            ;
        }
        r as i64
    }

    /// The vector rescaled to length one. Normalization asks for a vector
    /// at least one unit long; the result's length is then one, up to
    /// three millionths short or one over ([`lemma_unit_vector_length`]).
    pub fn unit_vector(&self) -> (r: Vec3)
        requires
            bounded(self@, COMP_LIMIT as int),
            fits_i64(v3_dot(self@, self@)),
            (SCALE as int) * (SCALE as int) <= dot_num(self@, self@),
            fits_i64(v3_unit(self@).x),
            fits_i64(v3_unit(self@).y),
            fits_i64(v3_unit(self@).z),
        ensures
            r@ == v3_unit(self@),
            SCALE - 3 <= v3_len(v3_unit(self@)) <= SCALE + 1,
    {
        proof {
            lemma_unit_vector_length(self@);
        }
        let len = self.length();
        self.div_s(len)
    }
}

/// Componentwise products of two vectors within [`COMP_LIMIT`] stay within
/// the square of that limit.
pub proof fn lemma_comp_product_bounds(a: V3, b: V3)
    requires
        bounded(a, COMP_LIMIT as int),
        bounded(b, COMP_LIMIT as int),
    ensures
        -(COMP_LIMIT as int * COMP_LIMIT as int) <= a.x * b.x <= COMP_LIMIT as int * COMP_LIMIT
            as int,
        -(COMP_LIMIT as int * COMP_LIMIT as int) <= a.y * b.y <= COMP_LIMIT as int * COMP_LIMIT
            as int,
        -(COMP_LIMIT as int * COMP_LIMIT as int) <= a.z * b.z <= COMP_LIMIT as int * COMP_LIMIT
            as int,
        -(COMP_LIMIT as int * COMP_LIMIT as int) <= a.y * b.z <= COMP_LIMIT as int * COMP_LIMIT
            as int,
        -(COMP_LIMIT as int * COMP_LIMIT as int) <= a.z * b.y <= COMP_LIMIT as int * COMP_LIMIT
            as int,
        -(COMP_LIMIT as int * COMP_LIMIT as int) <= a.x * b.z <= COMP_LIMIT as int * COMP_LIMIT
            as int,
        -(COMP_LIMIT as int * COMP_LIMIT as int) <= a.x * b.y <= COMP_LIMIT as int * COMP_LIMIT
            as int,
        -(COMP_LIMIT as int * COMP_LIMIT as int) <= a.y * b.x <= COMP_LIMIT as int * COMP_LIMIT
            as int,
        -(COMP_LIMIT as int * COMP_LIMIT as int) <= a.z * b.x <= COMP_LIMIT as int * COMP_LIMIT
            as int,
{
    lemma_abs_mul_bound(a.y, b.x, COMP_LIMIT as int, COMP_LIMIT as int);
    lemma_abs_mul_bound(a.z, b.x, COMP_LIMIT as int, COMP_LIMIT as int);
    lemma_abs_mul_bound(a.x, b.x, COMP_LIMIT as int, COMP_LIMIT as int);
    lemma_abs_mul_bound(a.y, b.y, COMP_LIMIT as int, COMP_LIMIT as int);
    lemma_abs_mul_bound(a.z, b.z, COMP_LIMIT as int, COMP_LIMIT as int);
    lemma_abs_mul_bound(a.y, b.z, COMP_LIMIT as int, COMP_LIMIT as int);
    lemma_abs_mul_bound(a.z, b.y, COMP_LIMIT as int, COMP_LIMIT as int);
    lemma_abs_mul_bound(a.x, b.z, COMP_LIMIT as int, COMP_LIMIT as int);
    lemma_abs_mul_bound(a.x, b.y, COMP_LIMIT as int, COMP_LIMIT as int);
}

/// A product of bounded factors is bounded by the product of the bounds.
pub proof fn lemma_abs_mul_bound(a: int, b: int, ma: int, mb: int)
    by (nonlinear_arith)
    requires
        -ma <= a <= ma,
        -mb <= b <= mb,
        0 <= ma,
        0 <= mb,
    ensures
        -(ma * mb) <= a * b <= ma * mb,
{
}

/// The dot-product numerator of a vector with itself is a sum of squares.
pub proof fn lemma_dot_num_self_nonneg(a: V3)
    ensures
        0 <= dot_num(a, a),
{
    assert(0 <= a.x * a.x && 0 <= a.y * a.y && 0 <= a.z * a.z) by (nonlinear_arith);
}

/// The dot product is commutative.
pub proof fn lemma_dot_commutes(a: V3, b: V3)
    ensures
        v3_dot(a, b) == v3_dot(b, a),
{
    assert(dot_num(a, b) == dot_num(b, a)) by (nonlinear_arith);
}

/// The cross product is antisymmetric: swapping its arguments negates it.
pub proof fn lemma_cross_antisymmetric(a: V3, b: V3)
    ensures
        v3_cross(a, b) == v3_neg(v3_cross(b, a)),
{
    assert(cross_x_num(a, b) == -cross_x_num(b, a)) by (nonlinear_arith);
    assert(cross_y_num(a, b) == -cross_y_num(b, a)) by (nonlinear_arith);
    assert(cross_z_num(a, b) == -cross_z_num(b, a)) by (nonlinear_arith);
    lemma_tz_div_neg(cross_x_num(b, a), SCALE as int);
    lemma_tz_div_neg(cross_y_num(b, a), SCALE as int);
    lemma_tz_div_neg(cross_z_num(b, a), SCALE as int);
}

/// A normalized component squares to at most its exact value, and to
/// within `2 * l * |n|` of it, everything carried at the `l * l` scale.
proof fn lemma_unit_comp_square(n: int, l: int)
    requires
        0 < l,
    ensures
        (tz_div(n, l) * tz_div(n, l)) * (l * l) <= n * n,
        n * n - (tz_div(n, l) * tz_div(n, l)) * (l * l) <= 2 * (l * abs_int(n)),
{
    crate::scalar::lemma_tz_div_remainder(n, l);
    let q = abs_int(tz_div(n, l));
    let m = abs_int(n);
    let r = m - q * l;
    assert((q + 1) * l == q * l + l) by (nonlinear_arith);
    assert(0 <= r < l);
    assert(q * q == tz_div(n, l) * tz_div(n, l)) by (nonlinear_arith)
        requires
            q == tz_div(n, l) || q == -tz_div(n, l),
    ;
    assert(m * m == n * n) by (nonlinear_arith)
        requires
            m == n || m == -n,
    ;
    assert(m * m - (q * l) * (q * l) == r * (m + q * l)) by (nonlinear_arith)
        requires
            r == m - q * l,
    ;
    assert((q * l) * (q * l) == (q * q) * (l * l)) by (nonlinear_arith);
    assert(r * (m + q * l) <= 2 * (l * m)) by (nonlinear_arith)
        requires
            0 <= r < l,
            0 <= q * l <= m,
    ;
    assert(0 <= r * (m + q * l)) by (nonlinear_arith)
        requires
            0 <= r,
            0 <= m,
            0 <= q * l,
    ;
}

/// The mean inequality that absorbs one rounding error:
/// `2 * s * l * |n| <= n * n + s^2 l^2`.
proof fn lemma_mean_bound(n: int, m: int, s: int, l: int)
    by (nonlinear_arith)
    requires
        m == n || m == -n,
        0 <= m,
    ensures
        s * (2 * (l * m)) <= n * n + (s * s) * (l * l),
{
}

/// Normalizing a vector at least one whole unit long yields a vector of
/// length one, up to three millionths short or one over:
/// `SCALE - 3 <= length(unit_vector(a)) <= SCALE + 1`.
#[verifier::rlimit(60)]
pub proof fn lemma_unit_vector_length(a: V3)
    requires
        (SCALE as int) * (SCALE as int) <= dot_num(a, a),
    ensures
        SCALE - 3 <= v3_len(v3_unit(a)) <= SCALE + 1,
        SCALE <= v3_len(a),
        SCALE <= v3_dot(a, a),
{
    let s = SCALE as int;
    let qq = dot_num(a, a);
    lemma_dot_num_self_nonneg(a);
    let d = v3_dot(a, a);
    lemma_tz_div_nonneg(qq, s);
    crate::scalar::lemma_tz_div_remainder(qq, s);
    vstd::arithmetic::div_mod::lemma_div_by_multiple(s, s);
    vstd::arithmetic::div_mod::lemma_div_is_ordered(s * s, qq, s);
    assert(s <= d);
    let l = v3_len(a);
    crate::scalar::lemma_sqrt_floor_exists(s * d);
    assert(s * s <= s * d) by (nonlinear_arith)
        requires
            s <= d,
            0 < s,
    ;
    assert(crate::scalar::is_sqrt(s * s, s)) by (nonlinear_arith)
        requires
            0 < s,
    ;
    crate::scalar::lemma_is_sqrt_floor(s * s, s);
    crate::scalar::lemma_sqrt_floor_monotonic(s * s, s * d);
    assert(s <= l && 0 < l);
    let u = v3_unit(a);
    let n1 = a.x * s;
    let n2 = a.y * s;
    let n3 = a.z * s;
    assert(u.x == tz_div(n1, l) && u.y == tz_div(n2, l) && u.z == tz_div(n3, l));
    lemma_unit_comp_square(n1, l);
    lemma_unit_comp_square(n2, l);
    lemma_unit_comp_square(n3, l);
    assert(n1 * n1 == (a.x * a.x) * (s * s)) by (nonlinear_arith)
        requires
            n1 == a.x * s,
    ;
    assert(n2 * n2 == (a.y * a.y) * (s * s)) by (nonlinear_arith)
        requires
            n2 == a.y * s,
    ;
    assert(n3 * n3 == (a.z * a.z) * (s * s)) by (nonlinear_arith)
        requires
            n3 == a.z * s,
    ;
    assert((a.x * a.x) * (s * s) + (a.y * a.y) * (s * s) + (a.z * a.z) * (s * s) == qq * (s * s))
        by (nonlinear_arith)
        requires
            qq == a.x * a.x + a.y * a.y + a.z * a.z,
    ;
    let uu = dot_num(u, u);
    lemma_dot_num_self_nonneg(u);
    assert((u.x * u.x) * (l * l) + (u.y * u.y) * (l * l) + (u.z * u.z) * (l * l) == uu * (l * l))
        by (nonlinear_arith)
        requires
            uu == u.x * u.x + u.y * u.y + u.z * u.z,
    ;
    // Upper side: uu * l^2 <= qq * s^2 <= (s^2 + 3s) * l^2.
    assert(uu * (l * l) <= qq * (s * s));
    assert(qq * (s * s) <= (d * s + s) * (s * s)) by (nonlinear_arith)
        requires
            qq <= d * s + s,
            0 < s,
    ;
    assert(d * s <= l * l + 2 * l) by (nonlinear_arith)
        requires
            s * d < (l + 1) * (l + 1),
            s * d == d * s,
    ;
    assert((d * s + s) * (s * s) <= (l * l + 2 * l + l) * (s * s)) by (nonlinear_arith)
        requires
            d * s <= l * l + 2 * l,
            s <= l,
            0 < s,
    ;
    assert((l * l + 2 * l + l) * (s * s) <= (s * s + 3 * s) * (l * l)) by (nonlinear_arith)
        requires
            0 < s <= l,
    ;
    assert(uu <= s * s + 3 * s) by (nonlinear_arith)
        requires
            uu * (l * l) <= (s * s + 3 * s) * (l * l),
            0 < l,
    ;
    // Lower side: s * uu * l^2 >= s^2 l^2 (s - 4).
    lemma_mean_bound(n1, abs_int(n1), s, l);
    lemma_mean_bound(n2, abs_int(n2), s, l);
    lemma_mean_bound(n3, abs_int(n3), s, l);
    let e1 = n1 * n1 - (u.x * u.x) * (l * l);
    let e2 = n2 * n2 - (u.y * u.y) * (l * l);
    let e3 = n3 * n3 - (u.z * u.z) * (l * l);
    assert(s * e1 <= n1 * n1 + (s * s) * (l * l)) by (nonlinear_arith)
        requires
            0 <= e1,
            e1 <= 2 * (l * abs_int(n1)),
            s * (2 * (l * abs_int(n1))) <= n1 * n1 + (s * s) * (l * l),
            0 < s,
    ;
    assert(s * e2 <= n2 * n2 + (s * s) * (l * l)) by (nonlinear_arith)
        requires
            0 <= e2,
            e2 <= 2 * (l * abs_int(n2)),
            s * (2 * (l * abs_int(n2))) <= n2 * n2 + (s * s) * (l * l),
            0 < s,
    ;
    assert(s * e3 <= n3 * n3 + (s * s) * (l * l)) by (nonlinear_arith)
        requires
            0 <= e3,
            e3 <= 2 * (l * abs_int(n3)),
            s * (2 * (l * abs_int(n3))) <= n3 * n3 + (s * s) * (l * l),
            0 < s,
    ;
    assert(s * (e1 + e2 + e3) == s * e1 + s * e2 + s * e3) by (nonlinear_arith);
    assert(e1 + e2 + e3 == qq * (s * s) - uu * (l * l));
    assert(s * (qq * (s * s) - uu * (l * l)) <= qq * (s * s) + 3 * ((s * s) * (l * l)));
    // qq >= s * d >= l * l
    assert(l * l <= qq);
    assert(s * (uu * (l * l)) >= s * (qq * (s * s)) - qq * (s * s) - 3 * ((s * s) * (l * l)))
        by (nonlinear_arith)
        requires
            s * (qq * (s * s) - uu * (l * l)) <= qq * (s * s) + 3 * ((s * s) * (l * l)),
    ;
    assert(s * (qq * (s * s)) - qq * (s * s) == (s - 1) * (qq * (s * s))) by (nonlinear_arith);
    assert((s - 1) * (qq * (s * s)) >= (s - 1) * ((l * l) * (s * s))) by (nonlinear_arith)
        requires
            l * l <= qq,
            1 < s,
    ;
    assert((s - 1) * ((l * l) * (s * s)) - 3 * ((s * s) * (l * l)) == (s - 4) * ((s * s) * (l * l)))
        by (nonlinear_arith);
    assert(s * (uu * (l * l)) >= (s - 4) * ((s * s) * (l * l)));
    assert(uu >= s * s - 4 * s) by (nonlinear_arith)
        requires
            s * (uu * (l * l)) >= (s - 4) * ((s * s) * (l * l)),
            0 < l,
            0 < s,
    ;
    // The normalized dot product lands within four millionths of one.
    let du = v3_dot(u, u);
    lemma_tz_div_nonneg(uu, s);
    assert(s * s - 4 * s == (s - 4) * s) by (nonlinear_arith);
    assert(s * s + 3 * s == (s + 3) * s) by (nonlinear_arith);
    vstd::arithmetic::div_mod::lemma_div_by_multiple(s - 4, s);
    vstd::arithmetic::div_mod::lemma_div_by_multiple(s + 3, s);
    vstd::arithmetic::div_mod::lemma_div_is_ordered(s * s - 4 * s, uu, s);
    vstd::arithmetic::div_mod::lemma_div_is_ordered(uu, s * s + 3 * s, s);
    assert(s - 4 <= du <= s + 3);
    // And its rounded-down square root within three of one unit.
    let lu = v3_len(u);
    crate::scalar::lemma_sqrt_floor_exists(s * du);
    assert(s * s - 4 * s <= s * du <= s * s + 3 * s) by (nonlinear_arith)
        requires
            s - 4 <= du <= s + 3,
            0 < s,
    ;
    assert(s - 3 <= lu) by (nonlinear_arith)
        requires
            s * du < (lu + 1) * (lu + 1),
            s * s - 4 * s <= s * du,
            0 <= lu,
            1_000_000 == s,
    ;
    assert(lu <= s + 1) by (nonlinear_arith)
        requires
            lu * lu <= s * du,
            s * du <= s * s + 3 * s,
            0 <= lu,
            1_000_000 == s,
    ;
}

/// The squared length of a vector equals its dot product with itself,
/// and the length squares back to it within the rounding of the grid:
/// `0 <= SCALE * dot(a, a) - len(a)^2 <= 2 * len(a)`.
pub proof fn lemma_length_squares_to_dot(a: V3)
    ensures
        0 <= v3_dot(a, a),
        v3_len(a) * v3_len(a) <= SCALE * v3_dot(a, a),
        SCALE * v3_dot(a, a) - v3_len(a) * v3_len(a) <= 2 * v3_len(a),
        0 <= v3_len(a),
{
    lemma_dot_num_self_nonneg(a);
    lemma_tz_div_nonneg(dot_num(a, a), SCALE as int);
    let n = SCALE * v3_dot(a, a);
    crate::scalar::lemma_sqrt_floor_exists(n);
    let r = sqrt_floor(n);
    assert((r + 1) * (r + 1) == r * r + 2 * r + 1) by (nonlinear_arith);
}

} // verus!
