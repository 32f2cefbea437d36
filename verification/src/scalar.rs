//! Fixed-point scalars and the arithmetic primitives built on them.
//!
//! A scalar is an `i64` raw value counting millionths of a unit: the raw
//! value `1_500_000` stands for one and a half. Multiplication and division
//! of scalars rescale their result and round toward zero, the rounding that
//! [`tz_div`] captures; square roots round down, captured by [`is_sqrt`].

use vstd::arithmetic::div_mod::{
    lemma_div_is_ordered, lemma_div_of0, lemma_div_pos_is_pos,
    lemma_fundamental_div_mod_converse,
};
use vstd::prelude::*;

verus! {

/// Number of raw units in one whole scalar unit.
pub const SCALE: i64 = 1_000_000;

/// Half a unit, the factor used to average a value with one.
pub const HALF: i64 = 500_000;

/// Absolute value of a mathematical integer.
pub open spec fn abs_int(n: int) -> int {
    if n >= 0 {
        n
    } else {
        -n
    }
}

/// Integer division rounding toward zero, the rounding every scalar
/// operation uses. (The `/` of ghost code is Euclidean, which rounds
/// toward minus infinity on a negative dividend.)
pub open spec fn tz_div(n: int, d: int) -> int
    recommends
        d != 0,
{
    let q = abs_int(n) / abs_int(d);
    if (n >= 0) == (d >= 0) {
        q
    } else {
        -q
    }
}

/// Product of two scalars: rescale by `SCALE` and round toward zero.
pub open spec fn fx_mul(a: int, b: int) -> int {
    tz_div(a * b, SCALE as int)
}

/// Quotient of two scalars: rescale by `SCALE` and round toward zero.
pub open spec fn fx_div(a: int, b: int) -> int
    recommends
        b != 0,
{
    tz_div(a * SCALE, b)
}

/// Whether `n` fits in an `i64`, the machine bound every executable
/// scalar must meet.
pub open spec fn fits_i64(n: int) -> bool {
    i64::MIN <= n <= i64::MAX
}

/// Negating a dividend negates a toward-zero quotient.
pub proof fn lemma_tz_div_neg(n: int, d: int)
    requires
        d != 0,
    ensures
        tz_div(-n, d) == -tz_div(n, d),
{
    if n == 0 {
        lemma_div_of0(abs_int(d));
    }
}

/// A toward-zero quotient of a nonnegative dividend by a positive divisor
/// is the Euclidean quotient.
pub proof fn lemma_tz_div_nonneg(n: int, d: int)
    requires
        0 <= n,
        0 < d,
    ensures
        tz_div(n, d) == n / d,
        0 <= tz_div(n, d),
{
    lemma_div_pos_is_pos(n, d);
}

/// A bound on the dividend bounds a toward-zero quotient.
pub proof fn lemma_tz_div_bound(n: int, d: int, m: int)
    requires
        0 < d,
        0 <= m,
        -m <= n <= m,
    ensures
        -(m / d) <= tz_div(n, d) <= m / d,
        abs_int(tz_div(n, d)) <= abs_int(n),
{
    lemma_div_pos_is_pos(abs_int(n), d);
    lemma_div_is_ordered(abs_int(n), m, d);
    lemma_div_is_ordered(0, abs_int(n), d);
    lemma_div_is_ordered(0, m, d);
    vstd::arithmetic::div_mod::lemma_div_nonincreasing(abs_int(n), d);
}

/// The toward-zero quotient leaves a remainder below the divisor:
/// `|q| * d <= |n| < (|q| + 1) * d`.
pub proof fn lemma_tz_div_remainder(n: int, d: int)
    requires
        0 < d,
    ensures
        abs_int(tz_div(n, d)) * d <= abs_int(n),
        abs_int(n) < (abs_int(tz_div(n, d)) + 1) * d,
{
    let m = abs_int(n);
    let q = m / d;
    vstd::arithmetic::div_mod::lemma_fundamental_div_mod(m, d);
    vstd::arithmetic::div_mod::lemma_mod_pos_bound(m, d);
    assert(abs_int(tz_div(n, d)) == q);
    assert(d * q == q * d && (q + 1) * d == q * d + d) by (nonlinear_arith);
}

/// A dividend at least the positive divisor gives a quotient of at least one.
pub proof fn lemma_tz_div_at_least_one(n: int, d: int)
    requires
        0 < d <= n,
    ensures
        1 <= tz_div(n, d),
{
    vstd::arithmetic::div_mod::lemma_div_by_self(d);
    lemma_div_is_ordered(d, n, d);
}

/// `r` is the square root of `n` rounded down.
pub open spec fn is_sqrt(n: int, r: int) -> bool {
    0 <= r && r * r <= n && n < (r + 1) * (r + 1)
}

/// The square root of `n` rounded down. Meaningful for `n >= 0`, where
/// [`lemma_sqrt_floor_exists`] shows it satisfies [`is_sqrt`] and
/// [`lemma_is_sqrt_unique`] shows nothing else does.
pub open spec fn sqrt_floor(n: int) -> int {
    choose|r: int| is_sqrt(n, r)
}

/// Every nonnegative integer has a rounded-down square root.
pub proof fn lemma_sqrt_floor_exists(n: int)
    requires
        0 <= n,
    ensures
        is_sqrt(n, sqrt_floor(n)),
    decreases n,
{
    if n == 0 {
        assert(is_sqrt(0, 0));
    } else {
        lemma_sqrt_floor_exists(n - 1);
        let r = sqrt_floor(n - 1);
        if (r + 1) * (r + 1) <= n {
            assert((r + 2) * (r + 2) == (r + 1) * (r + 1) + 2 * r + 3) by (nonlinear_arith);
            assert(is_sqrt(n, r + 1));
        } else {
            assert(is_sqrt(n, r));
        }
    }
    assert(exists|r: int| is_sqrt(n, r));
}

/// At most one integer is the rounded-down square root of `n`.
pub proof fn lemma_is_sqrt_unique(n: int, r1: int, r2: int)
    by (nonlinear_arith)
    requires
        is_sqrt(n, r1),
        is_sqrt(n, r2),
    ensures
        r1 == r2,
{
}

/// A witness for [`is_sqrt`] equals [`sqrt_floor`].
pub proof fn lemma_is_sqrt_floor(n: int, r: int)
    requires
        is_sqrt(n, r),
    ensures
        r == sqrt_floor(n),
{
    lemma_sqrt_floor_exists(n);
    lemma_is_sqrt_unique(n, r, sqrt_floor(n));
}

/// Rounded-down square roots are monotonic.
pub proof fn lemma_sqrt_floor_monotonic(n1: int, n2: int)
    requires
        0 <= n1 <= n2,
    ensures
        sqrt_floor(n1) <= sqrt_floor(n2),
{
    lemma_sqrt_floor_exists(n1);
    lemma_sqrt_floor_exists(n2);
    let r1 = sqrt_floor(n1);
    let r2 = sqrt_floor(n2);
    assert(r1 <= r2) by (nonlinear_arith)
        requires
            is_sqrt(n1, r1),
            is_sqrt(n2, r2),
            n1 <= n2,
    ;
}

/// Square root of a `u128`, rounded down, by bisection.
pub fn isqrt_u128(n: u128) -> (r: u128)
    ensures
        is_sqrt(n as int, r as int),
        r as int == sqrt_floor(n as int),
{
    let mut lo: u128 = 0;
    let mut hi: u128 = 0x1_0000_0000_0000_0000;
    while lo + 1 < hi
        invariant
            lo < hi <= 0x1_0000_0000_0000_0000,
            lo * lo <= n,
            (n as int) < (hi as int) * (hi as int),
        decreases hi - lo,
    {
        let mid = lo + (hi - lo) / 2;
        assert(lo < mid < hi);
        assert(mid * mid < 0x1_0000_0000_0000_0000_0000_0000_0000_0000) by (nonlinear_arith)
            requires
                0 <= mid < 0x1_0000_0000_0000_0000int,
        ;
        if mid * mid <= n {
            lo = mid;
        } else {
            hi = mid;
        }
    }
    proof {
        lemma_is_sqrt_floor(n as int, lo as int);
    }
    lo
}

/// Division of an `i128` by a nonzero `i128`, rounding toward zero.
pub fn tz_div_i128(n: i128, d: i128) -> (r: i128)
    requires
        d != 0,
        i128::MIN < n,
        i128::MIN < d,
    ensures
        r as int == tz_div(n as int, d as int),
{
    let nn: u128 = if n < 0 {
        (-n) as u128
    } else {
        n as u128
    };
    let dd: u128 = if d < 0 {
        (-d) as u128
    } else {
        d as u128
    };
    let q = nn / dd;
    assert(q <= nn);
    let qi = q as i128;
    if (n < 0) != (d < 0) {
        -qi
    } else {
        qi
    }
}

/// Euclidean division of an `i128` by a positive `i128`: the quotient
/// rounded toward minus infinity, as the `/` of ghost code computes it.
pub fn floor_div_i128(n: i128, d: i128) -> (r: i128)
    requires
        0 < d,
        i128::MIN < n,
    ensures
        r as int == n as int / d as int,
{
    let nn: u128 = if n < 0 {
        (-n) as u128
    } else {
        n as u128
    };
    let dd = d as u128;
    let q = (nn / dd) as i128;
    let rem = (nn % dd) as i128;
    proof {
        assert(nn as int == q * d + rem) by {
            vstd::arithmetic::div_mod::lemma_fundamental_div_mod(nn as int, dd as int);
        }
    }
    if n >= 0 {
        q
    } else {
        if rem == 0 {
            proof {
                assert(n as int == (-(q as int)) * d + 0) by (nonlinear_arith)
                    requires
                        n as int == -(q as int * d),
                ;
                lemma_fundamental_div_mod_converse(n as int, d as int, -(q as int), 0);
            }
            -q
        } else {
            proof {
                assert(n as int == (-(q as int) - 1) * d + (d - rem)) by (nonlinear_arith)
                    requires
                        n as int == -(q as int * d + rem),
                ;
                lemma_fundamental_div_mod_converse(n as int, d as int, -(q as int) - 1, d - rem);
            }
            -q - 1
        }
    }
}

/// Product of two fixed-point scalars.
pub fn mul_fx(a: i64, b: i64) -> (r: i64)
    requires
        fits_i64(fx_mul(a as int, b as int)),
    ensures
        r as int == fx_mul(a as int, b as int),
{
    proof {
        assert(i128::MIN < (a as int) * (b as int) < i128::MAX) by (nonlinear_arith)
            requires
                i64::MIN <= a <= i64::MAX,
                i64::MIN <= b <= i64::MAX,
        ;
    }
    let p: i128 = (a as i128) * (b as i128);
    let q = tz_div_i128(p, SCALE as i128);
    proof {
        lemma_tz_div_bound(p as int, SCALE as int, abs_int(p as int));
    }
    q as i64
}

/// Quotient of two fixed-point scalars.
pub fn div_fx(a: i64, b: i64) -> (r: i64)
    requires
        b != 0,
        fits_i64(fx_div(a as int, b as int)),
    ensures
        r as int == fx_div(a as int, b as int),
{
    let p: i128 = (a as i128) * (SCALE as i128);
    let q = tz_div_i128(p, b as i128);
    q as i64
}

} // verus!
