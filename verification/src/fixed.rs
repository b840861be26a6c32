//! Scalar fixed-point helpers: division with truncation toward zero and
//! the integer square root, the arithmetic the averaging engine is built on.

use vstd::prelude::*;
use vstd::arithmetic::div_mod::{lemma_div_is_ordered, lemma_div_multiples_vanish, lemma_div_pos_is_pos};
use vstd::arithmetic::mul::lemma_mul_inequality;

verus! {

/// Quotient of `a` by `n`, truncated toward zero, as Rust's signed
/// integer division computes it.
pub open spec fn tdiv(a: int, n: int) -> int
    recommends
        n >= 1,
{
    if a >= 0 {
        a / n
    } else {
        -((-a) / n)
    }
}

/// The integer square root of `v`: the greatest `r` with `r * r <= v`.
pub open spec fn isqrt_spec(v: int) -> int
    decreases v,
{
    if v <= 0 {
        0
    } else {
        let h = 2 * isqrt_spec(v / 4);
        if (h + 1) * (h + 1) <= v {
            h + 1
        } else {
            h
        }
    }
}

/// `isqrt_spec` is the rounded-down square root: it is non-negative,
/// its square is at most `v`, and the next square is beyond `v`.
pub proof fn lemma_isqrt_bounds(v: int)
    requires
        v >= 0,
    ensures
        0 <= isqrt_spec(v),
        isqrt_spec(v) * isqrt_spec(v) <= v,
        v < (isqrt_spec(v) + 1) * (isqrt_spec(v) + 1),
    decreases v,
{
    if v == 0 {
    } else {
        lemma_isqrt_bounds(v / 4);
        let g = isqrt_spec(v / 4);
        let h = 2 * g;
        assert(4 * (v / 4) <= v && v <= 4 * (v / 4) + 3) by (nonlinear_arith)
            requires
                v >= 1;
        assert(h * h <= 4 * (v / 4)) by (nonlinear_arith)
            requires
                h == 2 * g,
                g * g <= v / 4;
        assert(v < (h + 2) * (h + 2)) by (nonlinear_arith)
            requires
                h == 2 * g,
                v / 4 < (g + 1) * (g + 1),
                v <= 4 * (v / 4) + 3;
        if (h + 1) * (h + 1) <= v {
            assert(isqrt_spec(v) == h + 1);
        } else {
            assert(isqrt_spec(v) == h);
        }
    }
}

/// The integer square root of a perfect square is its root.
pub proof fn lemma_isqrt_exact(c: int)
    requires
        c >= 0,
    ensures
        isqrt_spec(c * c) == c,
{
    assert(c * c >= 0) by (nonlinear_arith)
        requires
            c >= 0;
    lemma_isqrt_bounds(c * c);
    let r = isqrt_spec(c * c);
    if r < c {
        assert((r + 1) * (r + 1) <= c * c) by (nonlinear_arith)
            requires
                0 <= r,
                r + 1 <= c;
        assert(false);
    }
    if r > c {
        assert(c * c < r * r) by (nonlinear_arith)
            requires
                0 <= c,
                c + 1 <= r;
        assert(false);
    }
}

/// A quotient truncated toward zero keeps any bound that the dividend
/// has in multiples of the divisor.
pub proof fn lemma_tdiv_bound(a: int, n: int, m: int)
    requires
        n >= 1,
        m >= 0,
        -(n * m) <= a <= n * m,
    ensures
        -m <= tdiv(a, n) <= m,
{
    lemma_div_multiples_vanish(m, n);
    if a >= 0 {
        lemma_div_pos_is_pos(a, n);
        lemma_div_is_ordered(a, n * m, n);
    } else {
        lemma_div_pos_is_pos(-a, n);
        lemma_div_is_ordered(-a, n * m, n);
    }
}

/// Division truncated toward zero never moves past the dividend: for a
/// bounded correction `c - m`, the updated mean `m + (c - m) / n` stays
/// between `m` and `c`, and so inside any interval holding both.
pub proof fn lemma_step_stays_bounded(m: int, c: int, n: int, s: int)
    requires
        n >= 1,
        s >= 0,
        -s <= m <= s,
        -s <= c <= s,
    ensures
        -s <= m + tdiv(c - m, n) <= s,
{
    if c >= m {
        let d = c - m;
        assert(d <= n * d) by (nonlinear_arith)
            requires
                d >= 0,
                n >= 1;
        lemma_div_pos_is_pos(d, n);
        lemma_div_is_ordered(d, n * d, n);
        lemma_div_multiples_vanish(d, n);
        assert(0 <= tdiv(d, n) <= d);
    } else {
        let d = m - c;
        assert(d <= n * d) by (nonlinear_arith)
            requires
                d >= 0,
                n >= 1;
        lemma_div_pos_is_pos(d, n);
        lemma_div_is_ordered(d, n * d, n);
        lemma_div_multiples_vanish(d, n);
        assert(-d <= tdiv(c - m, n) <= 0);
    }
}

/// Multiplying both sides of a strict bound by a positive factor keeps
/// it strict.
pub proof fn lemma_mul_strict_bound(a: int, b: int, c: int)
    by (nonlinear_arith)
    requires
        0 <= a < c,
        b >= 1,
    ensures
        a * b < c * b,
{
}

/// Quotient of `a` by `n` truncated toward zero, for dividends bounded
/// by `n` half-scale units.
pub fn div_trunc(a: i128, n: u64) -> (r: i64)
    requires
        n >= 1,
        -(n as int) * 0x8000_0000 <= a as int <= (n as int) * 0x8000_0000,
    ensures
        r as int == tdiv(a as int, n as int),
        -0x8000_0000 <= r as int <= 0x8000_0000,
{
    proof {
        lemma_tdiv_bound(a as int, n as int, 0x8000_0000);
    }
    if a >= 0 {
        let q = (a as u128) / (n as u128);
        proof {
            assert(q as int == tdiv(a as int, n as int));
        }
        q as i64
    } else {
        let q = ((-a) as u128) / (n as u128);
        proof {
            assert(q as int == (-(a as int)) / (n as int));
        }
        -(q as i64)
    }
}

/// The integer square root of `v`, for `v` below `2^62`.
pub fn isqrt_u64(v: u64) -> (r: u64)
    requires
        v < 0x4000_0000_0000_0000,
    ensures
        r as int == isqrt_spec(v as int),
        r as int * r as int <= v as int,
    decreases v,
{
    proof {
        lemma_isqrt_bounds(v as int);
    }
    if v == 0 {
        0
    } else {
        let g = isqrt_u64(v / 4);
        proof {
            lemma_isqrt_bounds(v as int / 4);
            assert(g as int * g as int <= v as int / 4);
            assert(g < 0x4000_0000) by (nonlinear_arith)
                requires
                    g as int * g as int <= v as int / 4,
                    v < 0x4000_0000_0000_0000;
        }
        let h = 2 * g;
        proof {
            assert((h as int + 1) * (h as int + 1) <= 0x4000_0000_0000_0000) by (nonlinear_arith)
                requires
                    h as int + 1 <= 0x8000_0000;
        }
        if (h + 1) * (h + 1) <= v {
            h + 1
        } else {
            h
        }
    }
}

} // verus!
