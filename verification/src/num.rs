//! Exact integer arithmetic helpers for the fixed-point geometry kernel.
//!
//! Coordinates are `i64` values on a fixed grid; intermediate products are
//! taken in `i128`, so every operation here carries an exact contract over
//! mathematical integers.

use vstd::prelude::*;

verus! {

/// Absolute value of a mathematical integer.
pub open spec fn abs_i(n: int) -> int {
    if n >= 0 {
        n
    } else {
        -n
    }
}

/// The smaller of two integers.
pub open spec fn min_i(a: int, b: int) -> int {
    if a < b {
        a
    } else {
        b
    }
}

/// The larger of two integers.
pub open spec fn max_i(a: int, b: int) -> int {
    if a < b {
        b
    } else {
        a
    }
}

/// Rounded division for `d > 0`: the exact quotient `n / d` rounded to the
/// nearest integer, halves away from zero.
pub open spec fn div_round(n: int, d: int) -> int
    recommends
        d > 0,
{
    if n >= 0 {
        (2 * n + d) / (2 * d)
    } else {
        -((2 * -n + d) / (2 * d))
    }
}

/// Rounded division with a sign-normalized divisor, for `d != 0`.
pub open spec fn sdiv_round(n: int, d: int) -> int
    recommends
        d != 0,
{
    if d > 0 {
        div_round(n, d)
    } else {
        div_round(-n, -d)
    }
}

/// Floor of the square root of a nonnegative integer.
pub open spec fn sqrt_floor(n: int) -> int {
    choose|r: int| 0 <= r && #[trigger] (r * r) <= n && n < (r + 1) * (r + 1)
}

/// A square root floor exists for every nonnegative integer.
pub proof fn lemma_sqrt_exists(n: int)
    requires
        n >= 0,
    ensures
        exists|r: int| 0 <= r && #[trigger] (r * r) <= n && n < (r + 1) * (r + 1),
    decreases n,
{
    if n == 0 {
        assert(0 <= 0 && 0 * 0 <= 0 && 0 < (0 + 1) * (0 + 1)) by (nonlinear_arith);
    } else {
        lemma_sqrt_exists(n - 1);
        let r = choose|r: int| 0 <= r && #[trigger] (r * r) <= n - 1 && n - 1 < (r + 1) * (r + 1);
        if (r + 1) * (r + 1) <= n {
            assert(0 <= r + 1 && (r + 1) * (r + 1) <= n && n < (r + 2) * (r + 2))
                by (nonlinear_arith)
                requires
                    0 <= r,
                    (r + 1) * (r + 1) <= n,
                    n - 1 < (r + 1) * (r + 1),
            ;
        } else {
            assert(0 <= r && r * r <= n && n < (r + 1) * (r + 1));
        }
    }
}

/// The square root floor is unique.
pub proof fn lemma_sqrt_unique(n: int, r1: int, r2: int)
    by (nonlinear_arith)
    requires
        0 <= r1,
        r1 * r1 <= n,
        n < (r1 + 1) * (r1 + 1),
        0 <= r2,
        r2 * r2 <= n,
        n < (r2 + 1) * (r2 + 1),
    ensures
        r1 == r2,
{
}

/// `sqrt_floor` itself satisfies its defining inequalities.
pub proof fn lemma_sqrt_floor(n: int)
    requires
        n >= 0,
    ensures
        0 <= sqrt_floor(n),
        sqrt_floor(n) * sqrt_floor(n) <= n,
        n < (sqrt_floor(n) + 1) * (sqrt_floor(n) + 1),
{
    lemma_sqrt_exists(n);
}

/// Bound on a product from bounds on its factors.
pub proof fn lemma_abs_mul(a: int, b: int, ma: int, mb: int)
    by (nonlinear_arith)
    requires
        abs_i(a) <= ma,
        abs_i(b) <= mb,
    ensures
        abs_i(a * b) <= ma * mb,
{
}

/// Bound on a dot product and a cross product from bounds on the operands.
pub proof fn lemma_dot_cross_bound(ax: int, ay: int, bx: int, by: int, ma: int, mb: int)
    by (nonlinear_arith)
    requires
        abs_i(ax) <= ma,
        abs_i(ay) <= ma,
        abs_i(bx) <= mb,
        abs_i(by) <= mb,
    ensures
        abs_i(ax * bx + ay * by) <= 2 * ma * mb,
        abs_i(ax * by - ay * bx) <= 2 * ma * mb,
{
}

/// Rounded division keeps the magnitude bound of the exact quotient.
pub proof fn lemma_div_round_bound(n: int, d: int, m: int)
    by (nonlinear_arith)
    requires
        d > 0,
        m >= 0,
        abs_i(n) <= m * d,
    ensures
        abs_i(div_round(n, d)) <= m,
{
}

/// Bounds on the two components of a point rotated by a direction whose
/// components are bounded by `UNIT`.
pub proof fn lemma_rot_parts_pub(x: int, y: int, c: int, s: int)
    by (nonlinear_arith)
    requires
        abs_i(c) <= crate::UNIT,
        abs_i(s) <= crate::UNIT,
    ensures
        abs_i(x * c - y * s) <= (abs_i(x) + abs_i(y)) * crate::UNIT,
        abs_i(x * s + y * c) <= (abs_i(x) + abs_i(y)) * crate::UNIT,
{
}

/// Exact product of two `i64` values.
pub fn mul_i64(a: i64, b: i64) -> (r: i128)
    ensures
        r == a * b,
{
    proof {
        lemma_abs_mul(a as int, b as int, 0x8000_0000_0000_0000, 0x8000_0000_0000_0000);
    }
    (a as i128) * (b as i128)
}

/// Exact dot product `ax * bx + ay * by` of bounded `i64` pairs.
pub fn dot2(ax: i64, ay: i64, bx: i64, by: i64) -> (r: i128)
    requires
        abs_i(ax as int) <= 0x4_0000_0000_0000,
        abs_i(ay as int) <= 0x4_0000_0000_0000,
        abs_i(bx as int) <= 0x4_0000_0000_0000,
        abs_i(by as int) <= 0x4_0000_0000_0000,
    ensures
        r == ax * bx + ay * by,
{
    proof {
        lemma_abs_mul(ax as int, bx as int, 0x4_0000_0000_0000, 0x4_0000_0000_0000);
        lemma_abs_mul(ay as int, by as int, 0x4_0000_0000_0000, 0x4_0000_0000_0000);
    }
    (ax as i128) * (bx as i128) + (ay as i128) * (by as i128)
}

/// Exact cross product `ax * by - ay * bx` of bounded `i64` pairs.
pub fn cross2(ax: i64, ay: i64, bx: i64, by: i64) -> (r: i128)
    requires
        abs_i(ax as int) <= 0x4_0000_0000_0000,
        abs_i(ay as int) <= 0x4_0000_0000_0000,
        abs_i(bx as int) <= 0x4_0000_0000_0000,
        abs_i(by as int) <= 0x4_0000_0000_0000,
    ensures
        r == ax * by - ay * bx,
{
    proof {
        lemma_abs_mul(ax as int, by as int, 0x4_0000_0000_0000, 0x4_0000_0000_0000);
        lemma_abs_mul(ay as int, bx as int, 0x4_0000_0000_0000, 0x4_0000_0000_0000);
    }
    (ax as i128) * (by as i128) - (ay as i128) * (bx as i128)
}

/// The rounded quotient, written with quotient and remainder.
proof fn lemma_div_round_alt(m: int, d: int, q: int, r: int)
    requires
        d > 0,
        m >= 0,
        0 <= r < d,
        m == q * d + r,
    ensures
        (2 * m + d) / (2 * d) == q + if 2 * r >= d {
            1int
        } else {
            0int
        },
{
    if 2 * r >= d {
        assert(2 * m + d == (q + 1) * (2 * d) + (2 * r - d)) by (nonlinear_arith)
            requires
                m == q * d + r,
        ;
        vstd::arithmetic::div_mod::lemma_fundamental_div_mod_converse(
            2 * m + d,
            2 * d,
            q + 1,
            2 * r - d,
        );
    } else {
        assert(2 * m + d == q * (2 * d) + (2 * r + d)) by (nonlinear_arith)
            requires
                m == q * d + r,
        ;
        vstd::arithmetic::div_mod::lemma_fundamental_div_mod_converse(2 * m + d, 2 * d, q, 2 * r + d);
    }
}

/// Rounded division of `i128` values, `d > 0`.
pub fn div_round_i128(n: i128, d: i128) -> (r: i128)
    requires
        d > 0,
        n > i128::MIN,
    ensures
        r == div_round(n as int, d as int),
{
    let neg: bool = n < 0;
    let m: u128 = if neg {
        (-n) as u128
    } else {
        n as u128
    };
    let du: u128 = d as u128;
    let q: u128 = m / du;
    let rem: u128 = m % du;
    let rounded: u128 = if 2 * rem >= du {
        q + 1
    } else {
        q
    };
    proof {
        vstd::arithmetic::div_mod::lemma_fundamental_div_mod(m as int, du as int);
        lemma_div_round_alt(m as int, du as int, q as int, rem as int);
        assert(q <= m) by (nonlinear_arith)
            requires
                q == m / du,
                du >= 1,
        ;
        if 2 * rem >= du {
            assert(du >= 2);
            vstd::arithmetic::div_mod::lemma_div_is_ordered_by_denominator(m as int, 2, du as int);
        }
    }
    let qi: i128 = rounded as i128;
    if neg {
        -qi
    } else {
        qi
    }
}

/// Rounded division of `i128` values with a sign-normalized divisor.
pub fn sdiv_round_i128(n: i128, d: i128) -> (r: i128)
    requires
        d != 0,
        n > i128::MIN,
        d > i128::MIN,
    ensures
        r == sdiv_round(n as int, d as int),
{
    if d > 0 {
        div_round_i128(n, d)
    } else {
        div_round_i128(-n, -d)
    }
}

/// Floor of the square root of a `u128`, by bisection.
pub fn isqrt_u128(n: u128) -> (r: u128)
    ensures
        r == sqrt_floor(n as int),
        r * r <= n,
        n < (r + 1) * (r + 1),
        r < 0x1_0000_0000_0000_0000,
{
    let mut lo: u128 = 0;
    let mut hi: u128 = 0x1_0000_0000_0000_0000;
    proof {
        assert((0x1_0000_0000_0000_0000 as int) * (0x1_0000_0000_0000_0000 as int) > u128::MAX)
            by (nonlinear_arith);
    }
    while hi - lo > 1
        invariant
            lo < hi,
            hi <= 0x1_0000_0000_0000_0000,
            lo * lo <= n,
            n < hi * hi,
        decreases hi - lo,
    {
        let mid: u128 = lo + (hi - lo) / 2;
        proof {
            assert(mid < hi);
            assert(mid * mid < 0x1_0000_0000_0000_0000 * 0x1_0000_0000_0000_0000)
                by (nonlinear_arith)
                requires
                    mid < 0x1_0000_0000_0000_0000 as u128,
            ;
        }
        if mid * mid <= n {
            lo = mid;
        } else {
            hi = mid;
        }
    }
    proof {
        lemma_sqrt_exists(n as int);
        lemma_sqrt_unique(n as int, lo as int, sqrt_floor(n as int));
    }
    lo
}

} // verus!
