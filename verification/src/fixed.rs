//! Fixed-point scalar math for the simulation.
//!
//! World lengths are measured in milli-units: the integer 1000 stands for
//! one world unit. Angles are measured in tenth-degrees: a full turn is
//! 3600. The trigonometric functions are rational approximations evaluated
//! exactly in integer arithmetic; their spec-level definitions are the
//! model that every contract in the crate speaks of.

use vstd::prelude::*;

verus! {

/// Milli-units per world unit.
pub const UNIT: i64 = 1000;

/// Tenth-degree angle units in a full turn.
pub const TURN: i64 = 3600;

/// Largest heading perturbation per move, in tenth-degrees (10 degrees).
pub const MAX_TURN: i64 = 100;

/// Largest world extent per axis, in milli-units (one million world units).
pub const MAX_EXTENT: i64 = 1_000_000_000;

/// Quotient of nonnegative values, with the Euclidean characterization.
pub fn div_nn(a: i64, b: i64) -> (r: i64)
    requires
        0 <= a,
        0 < b,
    ensures
        r == a as int / b as int,
        0 <= r <= a,
        b * r <= a < b * (r + 1),
{
    let q = (a as u64) / (b as u64);
    proof {
        vstd::arithmetic::div_mod::lemma_fundamental_div_mod(a as int, b as int);
        vstd::arithmetic::div_mod::lemma_mod_division_less_than_divisor(a as int, b as int);
        vstd::arithmetic::div_mod::lemma_div_nonincreasing(a as int, b as int);
        vstd::arithmetic::div_mod::lemma_div_pos_is_pos(a as int, b as int);
        vstd::arithmetic::mul::lemma_mul_is_distributive_add(b as int, a as int / b as int, 1);
    }
    q as i64
}

/// Sine on the first half turn: `t` in tenth-degrees within `[0, 1800]`,
/// result scaled by 1000. This is a rational approximation of the real
/// sine, exact as an integer function.
pub open spec fn sin_half_spec(t: int) -> int {
    let p = t * (1800 - t);
    4000 * p / (4050000 - p)
}

/// Sine of an angle in `[0, 3600)`, scaled by 1000.
pub open spec fn sin_spec(t: int) -> int {
    if t <= 1800 {
        sin_half_spec(t)
    } else {
        -sin_half_spec(t - 1800)
    }
}

/// Cosine of an angle in `[0, 3600)`, scaled by 1000.
pub open spec fn cos_spec(t: int) -> int {
    sin_spec(if t + 900 < 3600 { t + 900 } else { t + 900 - 3600 })
}

pub proof fn lemma_sin_half_bounds(t: int)
    requires
        0 <= t <= 1800,
    ensures
        0 <= sin_half_spec(t) <= 1000,
{
    assert(0 <= t * (1800 - t) <= 810000) by (nonlinear_arith)
        requires 0 <= t <= 1800,
    ;
    let p = t * (1800 - t);
    let num = 4000 * p;
    let den = 4050000 - p;
    vstd::arithmetic::div_mod::lemma_div_is_ordered(0, num, den);
    vstd::arithmetic::div_mod::lemma_div_basics(den);
    assert(num <= 1000 * den);
    vstd::arithmetic::div_mod::lemma_div_is_ordered(num, 1000 * den, den);
    vstd::arithmetic::div_mod::lemma_div_multiples_vanish(1000, den);
}

pub proof fn lemma_sin_bounds(t: int)
    requires
        0 <= t < 3600,
    ensures
        -1000 <= sin_spec(t) <= 1000,
        -1000 <= cos_spec(t) <= 1000,
{
    if t <= 1800 {
        lemma_sin_half_bounds(t);
    } else {
        lemma_sin_half_bounds(t - 1800);
    }
    let c = if t + 900 < 3600 { t + 900 } else { t + 900 - 3600 };
    if c <= 1800 {
        lemma_sin_half_bounds(c);
    } else {
        lemma_sin_half_bounds(c - 1800);
    }
}

/// Executable sine on the first half turn.
fn sin_half(t: i64) -> (r: i64)
    requires
        0 <= t <= 1800,
    ensures
        r == sin_half_spec(t as int),
        0 <= r <= 1000,
{
    proof {
        assert(0 <= t * (1800 - t) <= 810000) by (nonlinear_arith)
            requires 0 <= t <= 1800,
        ;
        lemma_sin_half_bounds(t as int);
    }
    let p = t * (1800 - t);
    div_nn(4000 * p, 4050000 - p)
}

/// Executable sine of an angle in `[0, 3600)`, scaled by 1000.
pub fn sin_fixed(t: i64) -> (r: i64)
    requires
        0 <= t < 3600,
    ensures
        r == sin_spec(t as int),
        -1000 <= r <= 1000,
{
    if t <= 1800 {
        sin_half(t)
    } else {
        let s = sin_half(t - 1800);
        -s
    }
}

/// Executable cosine of an angle in `[0, 3600)`, scaled by 1000.
pub fn cos_fixed(t: i64) -> (r: i64)
    requires
        0 <= t < 3600,
    ensures
        r == cos_spec(t as int),
        -1000 <= r <= 1000,
{
    let c = if t + 900 < 3600 { t + 900 } else { t + 900 - 3600 };
    sin_fixed(c)
}

/// Normalization of an angle that is off by less than one turn on either
/// side, back into `[0, 3600)`.
pub open spec fn wrap_angle_spec(a: int) -> int {
    if a < 0 {
        a + 3600
    } else if a >= 3600 {
        a - 3600
    } else {
        a
    }
}

/// Executable single-step angle normalization.
pub fn wrap_angle(a: i64) -> (r: i64)
    requires
        -3600 <= a < 7200,
    ensures
        r == wrap_angle_spec(a as int),
        0 <= r < 3600,
{
    if a < 0 {
        a + 3600
    } else if a >= 3600 {
        a - 3600
    } else {
        a
    }
}

/// Toroidal wrap of one coordinate: one subtraction or addition of the
/// world extent, as the movement phase needs when the displacement is no
/// larger than the extent.
pub open spec fn wrap_coord_spec(p: int, e: int) -> int {
    if p >= e {
        p - e
    } else if p < 0 {
        p + e
    } else {
        p
    }
}

pub proof fn lemma_wrap_coord_range(p: int, e: int)
    requires
        0 < e,
        -e <= p < 2 * e,
    ensures
        0 <= wrap_coord_spec(p, e) < e,
{
}

/// Executable toroidal wrap of one coordinate.
pub fn wrap_coord(p: i64, e: i64) -> (r: i64)
    requires
        0 < e <= MAX_EXTENT,
        -e <= p < 2 * e,
    ensures
        r == wrap_coord_spec(p as int, e as int),
        0 <= r < e,
{
    if p >= e {
        p - e
    } else if p < 0 {
        p + e
    } else {
        p
    }
}

/// A step of `len` milli-units along one component `v` of a unit vector
/// scaled by 1000: the product scaled back down, rounded toward zero.
pub open spec fn scaled_step_spec(v: int, len: int) -> int {
    if v >= 0 {
        v * len / 1000
    } else {
        -((-v) * len / 1000)
    }
}

pub proof fn lemma_scaled_step_bounds(v: int, len: int)
    requires
        -1000 <= v <= 1000,
        0 <= len,
    ensures
        -len <= scaled_step_spec(v, len) <= len,
{
    let m = if v >= 0 { v } else { -v };
    assert(0 <= m * len <= 1000 * len) by (nonlinear_arith)
        requires 0 <= m <= 1000, 0 <= len,
    ;
    vstd::arithmetic::div_mod::lemma_div_is_ordered(0, m * len, 1000);
    vstd::arithmetic::div_mod::lemma_div_basics(1000);
    vstd::arithmetic::div_mod::lemma_div_is_ordered(m * len, 1000 * len, 1000);
    vstd::arithmetic::div_mod::lemma_div_multiples_vanish(len, 1000);
}

/// Executable scaled step.
pub fn scaled_step(v: i64, len: i64) -> (r: i64)
    requires
        -1000 <= v <= 1000,
        0 <= len <= MAX_EXTENT,
    ensures
        r == scaled_step_spec(v as int, len as int),
        -len <= r <= len,
{
    proof {
        lemma_scaled_step_bounds(v as int, len as int);
        assert(0 <= 1000 * len <= 1_000_000_000_000) by (nonlinear_arith)
            requires 0 <= len <= 1_000_000_000,
        ;
        assert((if v >= 0 { v as int } else { -(v as int) }) * len <= 1000 * len)
            by (nonlinear_arith)
            requires -1000 <= v <= 1000, 0 <= len,
        ;
    }
    if v >= 0 {
        div_nn(v * len, 1000)
    } else {
        let m = div_nn((-v) * len, 1000);
        -m
    }
}

/// Arctangent of the ratio `z / 1000` for `z` in `[0, 1000]`, in
/// tenth-degrees: a rational approximation evaluated exactly in integer
/// arithmetic, with `atan_frac_spec(1000) == 450` (45 degrees).
pub open spec fn atan_frac_spec(z: int) -> int {
    (450000 * z + 156 * z * (1000 - z)) / 1000000
}

pub proof fn lemma_atan_frac_bounds(z: int)
    requires
        0 <= z <= 1000,
    ensures
        0 <= atan_frac_spec(z) <= 450,
{
    assert(0 <= 450000 * z + 156 * z * (1000 - z) <= 450000000) by (nonlinear_arith)
        requires 0 <= z <= 1000,
    ;
    let num = 450000 * z + 156 * z * (1000 - z);
    vstd::arithmetic::div_mod::lemma_div_is_ordered(0, num, 1000000);
    vstd::arithmetic::div_mod::lemma_div_basics(1000000);
    vstd::arithmetic::div_mod::lemma_div_is_ordered(num, 450000000, 1000000);
    vstd::arithmetic::div_mod::lemma_div_multiples_vanish(450, 1000000);
}

/// Executable arctangent of a ratio scaled by 1000.
fn atan_frac(z: i64) -> (r: i64)
    requires
        0 <= z <= 1000,
    ensures
        r == atan_frac_spec(z as int),
        0 <= r <= 450,
{
    proof {
        assert(0 <= 156 * z * (1000 - z) <= 39000000) by (nonlinear_arith)
            requires 0 <= z <= 1000,
        ;
        lemma_atan_frac_bounds(z as int);
    }
    div_nn(450000 * z + 156 * z * (1000 - z), 1000000)
}

/// The heading, in tenth-degrees within `[0, 3600)`, of the vector
/// `(dx, dy)`; zero when the vector is zero.
pub open spec fn atan2_spec(dy: int, dx: int) -> int {
    if dx == 0 && dy == 0 {
        0
    } else {
        let ax = if dx >= 0 { dx } else { -dx };
        let ay = if dy >= 0 { dy } else { -dy };
        let oct = if ay <= ax {
            atan_frac_spec(1000 * ay / ax)
        } else {
            900 - atan_frac_spec(1000 * ax / ay)
        };
        if dx >= 0 && dy >= 0 {
            oct
        } else if dx < 0 && dy >= 0 {
            1800 - oct
        } else if dx < 0 {
            1800 + oct
        } else if oct == 0 {
            0
        } else {
            3600 - oct
        }
    }
}

pub proof fn lemma_atan2_range(dy: int, dx: int)
    ensures
        0 <= atan2_spec(dy, dx) < 3600,
{
    if !(dx == 0 && dy == 0) {
        let ax = if dx >= 0 { dx } else { -dx };
        let ay = if dy >= 0 { dy } else { -dy };
        if ay <= ax {
            assert(0 < ax);
            assert(1000 * ay <= 1000 * ax) by (nonlinear_arith)
                requires ay <= ax,
            ;
            vstd::arithmetic::div_mod::lemma_div_pos_is_pos(1000 * ay, ax);
            vstd::arithmetic::div_mod::lemma_div_is_ordered(1000 * ay, 1000 * ax, ax);
            vstd::arithmetic::div_mod::lemma_div_multiples_vanish(1000, ax);
            lemma_atan_frac_bounds(1000 * ay / ax);
        } else {
            assert(0 < ay);
            assert(1000 * ax <= 1000 * ay) by (nonlinear_arith)
                requires ax <= ay,
            ;
            vstd::arithmetic::div_mod::lemma_div_pos_is_pos(1000 * ax, ay);
            vstd::arithmetic::div_mod::lemma_div_is_ordered(1000 * ax, 1000 * ay, ay);
            vstd::arithmetic::div_mod::lemma_div_multiples_vanish(1000, ay);
            lemma_atan_frac_bounds(1000 * ax / ay);
        }
    }
}

/// Executable heading of the vector `(dx, dy)`.
pub fn atan2_fixed(dy: i64, dx: i64) -> (r: i64)
    requires
        -MAX_EXTENT <= dy <= MAX_EXTENT,
        -MAX_EXTENT <= dx <= MAX_EXTENT,
    ensures
        r == atan2_spec(dy as int, dx as int),
        0 <= r < 3600,
{
    proof {
        lemma_atan2_range(dy as int, dx as int);
    }
    if dx == 0 && dy == 0 {
        0
    } else {
        let ax = if dx >= 0 { dx } else { -dx };
        let ay = if dy >= 0 { dy } else { -dy };
        let oct = if ay <= ax {
            proof {
                assert(1000 * ay <= 1000 * ax) by (nonlinear_arith)
                    requires ay <= ax,
                ;
                vstd::arithmetic::div_mod::lemma_div_is_ordered(
                    1000 * ay, 1000 * ax, ax as int);
                vstd::arithmetic::div_mod::lemma_div_multiples_vanish(1000, ax as int);
            }
            let z = div_nn(1000 * ay, ax);
            atan_frac(z)
        } else {
            proof {
                assert(1000 * ax <= 1000 * ay) by (nonlinear_arith)
                    requires ax <= ay,
                ;
                vstd::arithmetic::div_mod::lemma_div_is_ordered(
                    1000 * ax, 1000 * ay, ay as int);
                vstd::arithmetic::div_mod::lemma_div_multiples_vanish(1000, ay as int);
            }
            let z = div_nn(1000 * ax, ay);
            900 - atan_frac(z)
        };
        if dx >= 0 && dy >= 0 {
            oct
        } else if dx < 0 && dy >= 0 {
            1800 - oct
        } else if dx < 0 {
            1800 + oct
        } else if oct == 0 {
            0
        } else {
            3600 - oct
        }
    }
}

/// Saturating increment of a progress counter.
pub open spec fn sat_inc_spec(c: int) -> int {
    if c >= 0xffff_ffff {
        0xffff_ffff
    } else {
        c + 1
    }
}

/// Executable saturating increment.
pub fn sat_inc(c: u32) -> (r: u32)
    ensures
        r == sat_inc_spec(c as int),
{
    if c == 0xffff_ffff {
        c
    } else {
        c + 1
    }
}

/// The integer square root, rounded down.
pub open spec fn sqrt_floor(n: int) -> int
    decreases n,
{
    if n < 1 {
        0
    } else {
        let r = sqrt_floor(n - 1);
        if (r + 1) * (r + 1) <= n {
            r + 1
        } else {
            r
        }
    }
}

pub proof fn lemma_sqrt_floor(n: int)
    requires
        0 <= n,
    ensures
        0 <= sqrt_floor(n),
        sqrt_floor(n) * sqrt_floor(n) <= n,
        n < (sqrt_floor(n) + 1) * (sqrt_floor(n) + 1),
    decreases n,
{
    if n >= 1 {
        lemma_sqrt_floor(n - 1);
        let r = sqrt_floor(n - 1);
        if (r + 1) * (r + 1) <= n {
            assert(n < (r + 2) * (r + 2)) by (nonlinear_arith)
                requires n - 1 < (r + 1) * (r + 1), 0 <= r,
            ;
        }
    }
}

pub proof fn lemma_sqrt_floor_unique(n: int, r: int)
    requires
        0 <= n,
        0 <= r,
        r * r <= n,
        n < (r + 1) * (r + 1),
    ensures
        r == sqrt_floor(n),
{
    lemma_sqrt_floor(n);
    let s = sqrt_floor(n);
    if r < s {
        assert((r + 1) * (r + 1) <= s * s) by (nonlinear_arith)
            requires 0 <= r, r + 1 <= s,
        ;
    }
    if s < r {
        assert((s + 1) * (s + 1) <= r * r) by (nonlinear_arith)
            requires 0 <= s, s + 1 <= r,
        ;
    }
}

/// Executable integer square root by binary search.
pub fn isqrt(n: i64) -> (r: i64)
    requires
        0 <= n,
    ensures
        r == sqrt_floor(n as int),
        0 <= r,
        r * r <= n < (r + 1) * (r + 1),
{
    let mut lo: i64 = 0;
    let mut hi: i64 = 3_037_000_499;
    proof {
        assert((3_037_000_499int + 1) * (3_037_000_499int + 1) > i64::MAX as int);
    }
    while lo < hi
        invariant
            0 <= lo <= hi <= 3_037_000_499,
            lo * lo <= n as int,
            (n as int) < (hi + 1) * (hi + 1),
        decreases hi - lo,
    {
        let half = div_nn(hi - lo + 1, 2);
        let mid = lo + half;
        proof {
            assert(lo < mid <= hi);
        }
        let quot = div_nn(n, mid);
        if mid <= quot {
            proof {
                assert(mid * mid <= mid * quot) by (nonlinear_arith)
                    requires 0 < mid, mid as int <= quot as int,
                ;
            }
            lo = mid;
        } else {
            proof {
                assert(mid * (quot + 1) <= mid * mid) by (nonlinear_arith)
                    requires 0 < mid, quot as int + 1 <= mid as int,
                ;
            }
            hi = mid - 1;
        }
    }
    proof {
        lemma_sqrt_floor_unique(n as int, lo as int);
    }
    lo
}

} // verus!
