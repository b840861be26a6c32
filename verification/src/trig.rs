//! Fixed-point trigonometry on binary turns.
//!
//! An angle is a `u32` *binary turn*: `2^32` angle units make one full
//! revolution, so wrap-around is ordinary unsigned overflow. Sine and
//! cosine are scaled by `2^30` ([`SCALE`]) and computed from a
//! quarter-wave Taylor polynomial; the arc tangent is recovered by
//! bisecting the quadrant that the signs of the coordinates pick.

use vstd::prelude::*;
use vstd::arithmetic::div_mod::{
    lemma_basic_div, lemma_div_is_ordered, lemma_div_multiples_vanish, lemma_div_pos_is_pos,
    lemma_fundamental_div_mod,
};

verus! {

/// The projection scale: sine and cosine of a full-scale angle are
/// `SCALE` at their peaks. One quarter turn also spans `SCALE` angle
/// units, since `2^30 = 2^32 / 4`.
pub const SCALE: u64 = 0x4000_0000;

/// Taylor coefficients of `sin(x * pi/2)` on the quarter wave, scaled by
/// `2^30`: `round((pi/2)^k / k! * 2^30)` for odd `k`.
pub const C1: u64 = 1686629713;

pub const C3: u64 = 693598668;

pub const C5: u64 = 85569306;

pub const C7: u64 = 5026995;

pub const C9: u64 = 172272;

pub const C11: u64 = 3864;

pub const C13: u64 = 61;

/// One Horner step of the quarter-wave polynomial: subtract from the
/// coefficient `c` the previous accumulator `a` scaled by `v / 2^30`.
pub open spec fn hstep(c: int, v: int, a: int) -> int {
    c - (v * a) / 0x4000_0000
}

/// Quarter-wave sine: `sin(t / 2^30 * pi/2) * 2^30` for `t` in
/// `[0, 2^30]`, evaluated as a degree-13 Taylor polynomial in fixed
/// point, exact at both endpoints and clamped to `SCALE`.
pub open spec fn qsin_spec(t: int) -> int
    recommends
        0 <= t <= 0x4000_0000,
{
    if t == 0x4000_0000 {
        0x4000_0000
    } else {
        let v = (t * t) / 0x4000_0000;
        let a = hstep(
            C1 as int,
            v,
            hstep(
                C3 as int,
                v,
                hstep(C5 as int, v, hstep(C7 as int, v, hstep(C9 as int, v, hstep(C11 as int, v, C13 as int)))),
            ),
        );
        let r = (t * a) / 0x4000_0000;
        if r > 0x4000_0000 {
            0x4000_0000
        } else {
            r
        }
    }
}

/// One executable Horner step; the result never exceeds the coefficient.
fn hstep_x(c: u64, v: u64, a: u64) -> (r: u64)
    requires
        v <= 0x4000_0000,
        a <= c,
        c <= 0x8000_0000,
    ensures
        r as int == hstep(c as int, v as int, a as int),
        r <= c,
{
    proof {
        assert(v * a <= 0x4000_0000 * a) by (nonlinear_arith)
            requires
                v <= 0x4000_0000;
        lemma_div_is_ordered((v * a) as int, (0x4000_0000 * a) as int, 0x4000_0000);
        lemma_div_multiples_vanish(a as int, 0x4000_0000);
    }
    let d = (v * a) / 0x4000_0000;
    c - d
}

/// Quarter-wave sine, executable form.
pub fn qsin(t: u64) -> (r: u64)
    requires
        t <= 0x4000_0000,
    ensures
        r as int == qsin_spec(t as int),
        r <= 0x4000_0000,
{
    if t == 0x4000_0000 {
        0x4000_0000
    } else {
        proof {
            assert(t * t <= 0x4000_0000 * 0x4000_0000) by (nonlinear_arith)
                requires
                    t <= 0x4000_0000;
            lemma_div_is_ordered((t * t) as int, (0x4000_0000 * 0x4000_0000) as int, 0x4000_0000);
            lemma_div_multiples_vanish(0x4000_0000, 0x4000_0000);
        }
        let v = (t * t) / 0x4000_0000;
        let a = hstep_x(C11, v, C13);
        let a = hstep_x(C9, v, a);
        let a = hstep_x(C7, v, a);
        let a = hstep_x(C5, v, a);
        let a = hstep_x(C3, v, a);
        let a = hstep_x(C1, v, a);
        proof {
            assert(t * a <= 0x4000_0000 * a) by (nonlinear_arith)
                requires
                    t <= 0x4000_0000;
        }
        let r = (t * a) / 0x4000_0000;
        if r > 0x4000_0000 {
            0x4000_0000
        } else {
            r
        }
    }
}

/// Sine of a binary-turn angle, scaled by `2^30`, by quarter-wave
/// folding: the quadrant picks the sign and whether the wave runs
/// forward or backward.
pub open spec fn sin_spec(a: int) -> int
    recommends
        0 <= a < 0x1_0000_0000,
{
    let q = a / 0x4000_0000;
    let t = a % 0x4000_0000;
    if q == 0 {
        qsin_spec(t)
    } else if q == 1 {
        qsin_spec(0x4000_0000 - t)
    } else if q == 2 {
        -qsin_spec(t)
    } else {
        -qsin_spec(0x4000_0000 - t)
    }
}

/// Cosine of a binary-turn angle: the sine a quarter turn ahead.
pub open spec fn cos_spec(a: int) -> int
    recommends
        0 <= a < 0x1_0000_0000,
{
    sin_spec((a + 0x4000_0000) % 0x1_0000_0000)
}

/// Sine of a binary-turn angle, executable form.
pub fn sin_fp(a: u32) -> (r: i64)
    ensures
        r as int == sin_spec(a as int),
        -0x4000_0000 <= r as int <= 0x4000_0000,
{
    let q = a / 0x4000_0000;
    let t = (a % 0x4000_0000) as u64;
    if q == 0 {
        qsin(t) as i64
    } else if q == 1 {
        qsin(0x4000_0000 - t) as i64
    } else if q == 2 {
        -(qsin(t) as i64)
    } else {
        -(qsin(0x4000_0000 - t) as i64)
    }
}

/// Cosine of a binary-turn angle, executable form.
pub fn cos_fp(a: u32) -> (r: i64)
    ensures
        r as int == cos_spec(a as int),
        -0x4000_0000 <= r as int <= 0x4000_0000,
{
    let b = (((a as u64) + 0x4000_0000) % 0x1_0000_0000) as u32;
    sin_fp(b)
}

/// The binary-turn angle of a sample `x` on a circle of circumference
/// `r`: the sample reduced modulo `r`, scaled to a turn, rounded to the
/// nearest angle unit. Rounding (rather than truncating) keeps samples
/// that sit symmetrically about zero at exactly opposite angles.
pub open spec fn angle_of(x: int, r: int) -> int
    recommends
        1 <= r < 0x1_0000_0000,
        0 <= x,
{
    ((x % r) * 0x1_0000_0000 + r / 2) / r % 0x1_0000_0000
}

/// Angle of a sample on a circle of circumference `range`, executable
/// form.
pub fn sample_angle(x: i64, range: u32) -> (b: u32)
    requires
        x >= 0,
        range >= 1,
    ensures
        b as int == angle_of(x as int, range as int),
{
    let r = range as u64;
    let m = (x as u64) % r;
    let q = (m * 0x1_0000_0000 + r / 2) / r;
    (q % 0x1_0000_0000) as u32
}

/// Whether the direction `(x, y)` lies clockwise of the angle `a`: the
/// sign of the cross product of `(x, y)` with the unit vector at `a`.
pub open spec fn cross_pos(x: int, y: int, a: int) -> bool {
    x * sin_spec(a) - y * cos_spec(a) > 0
}

/// Bisection for the angle of `(x, y)` inside `[lo, lo + width)`: test
/// the midpoint's half-plane and keep the half that contains the
/// direction.
pub open spec fn bisect_spec(x: int, y: int, lo: int, width: int) -> int
    decreases width,
{
    if width <= 1 {
        lo
    } else {
        let half = width / 2;
        let mid = lo + half;
        if cross_pos(x, y, mid) {
            bisect_spec(x, y, lo, half)
        } else {
            bisect_spec(x, y, mid, half)
        }
    }
}

/// The quadrant that the signs of `(x, y)` place the direction in, as
/// the quadrant's starting angle.
pub open spec fn quad_lo(x: int, y: int) -> int {
    if x >= 0 && y >= 0 {
        0
    } else if x < 0 && y >= 0 {
        0x4000_0000
    } else if x < 0 && y < 0 {
        0x8000_0000
    } else {
        0xC000_0000
    }
}

/// The angle of the direction `(x, y)` in binary turns, in `[0, 2^32)`:
/// directions on the axes are mapped to their exact quarter-turn
/// angles; any other direction gets its exact quadrant from the signs,
/// then thirty bisection steps down to a single angle unit. The origin
/// is reported as angle `2^30 - 1`.
pub open spec fn atan2_spec(x: int, y: int) -> int {
    if x == 0 && y > 0 {
        0x4000_0000
    } else if x < 0 && y == 0 {
        0x8000_0000
    } else if x == 0 && y < 0 {
        0xC000_0000
    } else {
        bisect_spec(x, y, quad_lo(x, y), 0x4000_0000)
    }
}

/// Arc tangent of `(x, y)` in binary turns, executable form.
pub fn atan2_fp(x: i64, y: i64) -> (r: u32)
    ensures
        r as int == atan2_spec(x as int, y as int),
{
    if x == 0 && y > 0 {
        return 0x4000_0000;
    }
    if x < 0 && y == 0 {
        return 0x8000_0000;
    }
    if x == 0 && y < 0 {
        return 0xC000_0000;
    }
    let mut lo: u32 = if x >= 0 && y >= 0 {
        0
    } else if x < 0 && y >= 0 {
        0x4000_0000
    } else if x < 0 && y < 0 {
        0x8000_0000
    } else {
        0xC000_0000
    };
    let mut width: u32 = 0x4000_0000;
    let ghost target = atan2_spec(x as int, y as int);
    proof {
        assert(bisect_spec(x as int, y as int, lo as int, width as int) == target);
    }
    while width > 1
        invariant
            1 <= width,
            lo as int + width as int <= 0x1_0000_0000,
            bisect_spec(x as int, y as int, lo as int, width as int) == target,
        decreases width,
    {
        let half = width / 2;
        let mid = lo + half;
        let s = sin_fp(mid);
        let c = cos_fp(mid);
        proof {
            assert(
                (x as int) * (s as int) <= 0x8000_0000_0000_0000 * 0x4000_0000
                && (x as int) * (s as int) >= -0x8000_0000_0000_0000 * 0x4000_0000
            ) by (nonlinear_arith)
                requires
                    -0x8000_0000_0000_0000 <= x as int <= 0x8000_0000_0000_0000,
                    -0x4000_0000 <= s as int <= 0x4000_0000;
            assert(
                (y as int) * (c as int) <= 0x8000_0000_0000_0000 * 0x4000_0000
                && (y as int) * (c as int) >= -0x8000_0000_0000_0000 * 0x4000_0000
            ) by (nonlinear_arith)
                requires
                    -0x8000_0000_0000_0000 <= y as int <= 0x8000_0000_0000_0000,
                    -0x4000_0000 <= c as int <= 0x4000_0000;
        }
        let d = (x as i128) * (s as i128) - (y as i128) * (c as i128);
        if d > 0 {
            width = half;
        } else {
            lo = mid;
            width = half;
        }
    }
    lo
}

/// Scaling a non-negative value by `v / 2^30` with `v` at most `2^30`
/// never increases it.
proof fn lemma_scale_le(v: int, a: int)
    requires
        0 <= v <= 0x4000_0000,
        0 <= a,
    ensures
        0 <= (v * a) / 0x4000_0000 <= a,
{
    assert(v * a <= 0x4000_0000 * a) by (nonlinear_arith)
        requires
            0 <= v <= 0x4000_0000,
            0 <= a;
    assert(v * a >= 0) by (nonlinear_arith)
        requires
            0 <= v,
            0 <= a;
    lemma_div_pos_is_pos(v * a, 0x4000_0000);
    lemma_div_is_ordered(v * a, 0x4000_0000 * a, 0x4000_0000);
    lemma_div_multiples_vanish(a, 0x4000_0000);
}

/// The quarter-wave sine is at least one fixed-point step everywhere
/// but at angle zero: the polynomial cannot collapse to zero on the
/// open quarter wave.
pub proof fn lemma_qsin_pos(t: int)
    requires
        1 <= t <= 0x4000_0000,
    ensures
        qsin_spec(t) >= 1,
{
    if t < 0x4000_0000 {
        let v = (t * t) / 0x4000_0000;
        lemma_scale_le(t, t);
        let a6 = hstep(C11 as int, v, C13 as int);
        let a5 = hstep(C9 as int, v, a6);
        let a4 = hstep(C7 as int, v, a5);
        let a3 = hstep(C5 as int, v, a4);
        let a2 = hstep(C3 as int, v, a3);
        let a1 = hstep(C1 as int, v, a2);
        lemma_scale_le(v, C13 as int);
        lemma_scale_le(v, a6);
        lemma_scale_le(v, a5);
        lemma_scale_le(v, a4);
        lemma_scale_le(v, a3);
        lemma_scale_le(v, a2);
        assert(C1 - C3 <= a1 <= C1);
        if t < 0x8000 {
            // Below the fixed-point granularity of `v` the polynomial is
            // exactly the leading term, which exceeds the scale.
            assert(t * t < 0x4000_0000) by (nonlinear_arith)
                requires
                    0 <= t <= 0x7FFF;
            lemma_basic_div(t * t, 0x4000_0000);
            assert(v == 0);
            assert(0 * a2 == 0) by (nonlinear_arith);
            lemma_basic_div(0, 0x4000_0000);
            assert(a1 == C1);
            assert(t * a1 >= 0x4000_0000) by (nonlinear_arith)
                requires
                    t >= 1,
                    a1 == 1686629713;
        } else {
            assert(t * a1 >= 0x4000_0000) by (nonlinear_arith)
                requires
                    t >= 2,
                    993031045 <= a1;
        }
        lemma_div_is_ordered(0x4000_0000, t * a1, 0x4000_0000);
        assert(0x4000_0000int / 0x4000_0000 == 1);
    }
}

/// The sine is at least one fixed-point step strictly inside the first
/// half turn.
pub proof fn lemma_sin_pos_first_half(a: int)
    requires
        1 <= a < 0x8000_0000,
    ensures
        sin_spec(a) >= 1,
{
    let q = a / 0x4000_0000;
    let t = a % 0x4000_0000;
    lemma_fundamental_div_mod(a, 0x4000_0000);
    if q == 0 {
        lemma_qsin_pos(t);
    } else {
        lemma_qsin_pos(0x4000_0000 - t);
    }
}

/// A direction on the positive x-axis bisects to angle zero: every
/// midpoint the search probes has positive sine, so the lower half is
/// kept throughout.
proof fn lemma_bisect_positive_axis(x: int, lo: int, width: int)
    requires
        x >= 1,
        lo == 0,
        1 <= width <= 0x4000_0000,
    ensures
        bisect_spec(x, 0, lo, width) == 0,
    decreases width,
{
    if width > 1 {
        let mid = width / 2;
        assert(1 <= mid < 0x4000_0000);
        lemma_sin_pos_first_half(mid);
        assert(x * sin_spec(mid) >= 1) by (nonlinear_arith)
            requires
                x >= 1,
                sin_spec(mid) >= 1;
        assert(0 * cos_spec(mid) == 0) by (nonlinear_arith);
        assert(cross_pos(x, 0, mid));
        lemma_bisect_positive_axis(x, 0, width / 2);
    }
}

/// The angle of a direction straight along the positive x-axis is
/// exactly zero.
pub proof fn lemma_atan2_positive_axis(x: int)
    requires
        x >= 1,
    ensures
        atan2_spec(x, 0) == 0,
{
    lemma_bisect_positive_axis(x, 0, 0x4000_0000);
}

} // verus!
