//! Laws of the averaging engines, stated and proved over the engine
//! specifications.

use vstd::prelude::*;
use vstd::arithmetic::div_mod::{
    lemma_basic_div, lemma_div_basics, lemma_div_is_ordered, lemma_div_multiples_vanish,
    lemma_div_multiples_vanish_fancy, lemma_div_pos_is_pos, lemma_fundamental_div_mod,
    lemma_mod_bound, lemma_small_mod,
};

verus! {

use crate::fixed::{lemma_isqrt_exact, tdiv};
use crate::trig::{
    angle_of, atan2_spec, cos_spec, lemma_atan2_positive_axis, lemma_sin_pos_first_half, qsin_spec,
    sin_spec,
};
use crate::clock::{mean_weekday_index_spec, weekday_samples, Weekday};
use crate::{batch_mean, proj_sums, running_mean, running_means};

/// Reading a quotient and remainder off an explicit decomposition.
proof fn lemma_decompose(x: int, k: int, u: int, d: int)
    requires
        d >= 1,
        0 <= u < d,
        x == k * d + u,
    ensures
        x / d == k,
        x % d == u,
{
    assert(d * k + u == x) by (nonlinear_arith)
        requires
            x == k * d + u;
    lemma_div_multiples_vanish_fancy(k, u, d);
    lemma_fundamental_div_mod(x, d);
}

/// The sequence holding `n` copies of the sample `v`.
pub open spec fn repeated(v: i64, n: nat) -> Seq<i64> {
    Seq::new(n, |i: int| v)
}

/// Mirror symmetry of the fixed-point sine: measuring an angle the
/// other way around the circle flips the sign of its sine, exactly.
/// This is what makes samples symmetric about zero cancel without
/// residue.
pub proof fn lemma_sin_wrap_neg(a: int)
    requires
        0 <= a < 0x1_0000_0000,
    ensures
        sin_spec((0x1_0000_0000 - a) % 0x1_0000_0000) == -sin_spec(a),
{
    if a == 0 {
        lemma_small_mod(0, 0x1_0000_0000);
    } else {
        let b = 0x1_0000_0000 - a;
        lemma_small_mod(b as nat, 0x1_0000_0000);
        let q = a / 0x4000_0000;
        let t = a % 0x4000_0000;
        lemma_fundamental_div_mod(a, 0x4000_0000);
        assert(0 <= q <= 3 && 0 <= t < 0x4000_0000) by {
            lemma_decompose(a, q, t, 0x4000_0000);
        }
        if t == 0 {
            lemma_decompose(b, 4 - q, 0, 0x4000_0000);
        } else {
            lemma_decompose(b, 3 - q, 0x4000_0000 - t, 0x4000_0000);
        }
    }
}

/// Mirror symmetry of the fixed-point cosine: measuring an angle the
/// other way around the circle keeps its cosine, exactly.
pub proof fn lemma_cos_wrap_neg(a: int)
    requires
        0 <= a < 0x1_0000_0000,
    ensures
        cos_spec((0x1_0000_0000 - a) % 0x1_0000_0000) == cos_spec(a),
{
    if a == 0 {
        lemma_small_mod(0, 0x1_0000_0000);
    } else {
        let b = 0x1_0000_0000 - a;
        lemma_small_mod(b as nat, 0x1_0000_0000);
        let q = a / 0x4000_0000;
        let t = a % 0x4000_0000;
        lemma_fundamental_div_mod(a, 0x4000_0000);
        assert(0 <= q <= 3 && 0 <= t < 0x4000_0000) by {
            lemma_decompose(a, q, t, 0x4000_0000);
        }
        assert(qsin_spec(0) == 0);
        // The quarter-turn shift on the right-hand side.
        if q <= 2 {
            lemma_small_mod((a + 0x4000_0000) as nat, 0x1_0000_0000);
            lemma_decompose(a + 0x4000_0000, q + 1, t, 0x4000_0000);
        } else {
            lemma_decompose(a + 0x4000_0000, 1, t, 0x1_0000_0000);
            lemma_decompose(t, 0, t, 0x4000_0000);
        }
        // The mirrored angle and its quarter-turn shift.
        if t == 0 {
            lemma_decompose(b, 4 - q, 0, 0x4000_0000);
            if q == 1 {
                lemma_decompose(b + 0x4000_0000, 1, 0, 0x1_0000_0000);
                lemma_decompose(0, 0, 0, 0x4000_0000);
            } else {
                lemma_small_mod((b + 0x4000_0000) as nat, 0x1_0000_0000);
                lemma_decompose(b + 0x4000_0000, 5 - q, 0, 0x4000_0000);
            }
        } else {
            lemma_decompose(b, 3 - q, 0x4000_0000 - t, 0x4000_0000);
            if q == 0 {
                lemma_decompose(b + 0x4000_0000, 1, 0x4000_0000 - t, 0x1_0000_0000);
                lemma_decompose(0x4000_0000 - t, 0, 0x4000_0000 - t, 0x4000_0000);
            } else {
                lemma_small_mod((b + 0x4000_0000) as nat, 0x1_0000_0000);
                lemma_decompose(b + 0x4000_0000, 4 - q, 0x4000_0000 - t, 0x4000_0000);
            }
        }
    }
}

/// Truncating division inverts multiplication exactly, for either sign
/// of the factor.
proof fn lemma_tdiv_multiples(c: int, n: int)
    requires
        n >= 1,
    ensures
        tdiv(n * c, n) == c,
{
    if n * c >= 0 {
        lemma_div_multiples_vanish(c, n);
        if c < 0 {
            assert(n * c < 0) by (nonlinear_arith)
                requires
                    n >= 1,
                    c < 0;
        }
    } else {
        assert(-(n * c) == n * (-c)) by (nonlinear_arith);
        lemma_div_multiples_vanish(-c, n);
    }
}

/// The projection sums of `n` copies of one sample are `n` times the
/// sample's projection.
proof fn lemma_proj_sums_repeated(r: int, v: i64, n: nat)
    ensures
        proj_sums(r, repeated(v, n)) == ((n as int) * cos_spec(angle_of(v as int, r)), (n as int)
            * sin_spec(angle_of(v as int, r))),
    decreases n,
{
    let c = cos_spec(angle_of(v as int, r));
    let s = sin_spec(angle_of(v as int, r));
    if n == 0 {
        assert(repeated(v, n).len() == 0);
        assert(0 * c == 0) by (nonlinear_arith);
        assert(0 * s == 0) by (nonlinear_arith);
    } else {
        lemma_proj_sums_repeated(r, v, (n - 1) as nat);
        assert(repeated(v, n).drop_last() =~= repeated(v, (n - 1) as nat));
        assert(repeated(v, n).last() == v);
        assert((n - 1) * c + c == n * c) by (nonlinear_arith);
        assert((n - 1) * s + s == n * s) by (nonlinear_arith);
    }
}

/// Averaging one sample repeated any number of times gives exactly the
/// result of averaging it once: the mean projection of `n` equal
/// samples is the sample's own projection, so the count drops out of
/// both the mean value and the confidence.
pub proof fn lemma_unanimous_independent_of_count(r: int, v: i64, n: nat)
    requires
        1 <= r,
        n >= 1,
    ensures
        batch_mean(r, repeated(v, n)) == batch_mean(r, repeated(v, 1)),
{
    let c = cos_spec(angle_of(v as int, r));
    let s = sin_spec(angle_of(v as int, r));
    lemma_proj_sums_repeated(r, v, n);
    lemma_proj_sums_repeated(r, v, 1);
    lemma_tdiv_multiples(c, n as int);
    lemma_tdiv_multiples(s, n as int);
    lemma_tdiv_multiples(c, 1);
    lemma_tdiv_multiples(s, 1);
    assert(1 * c == c) by (nonlinear_arith);
    assert(1 * s == s) by (nonlinear_arith);
}

/// Folding one sample into a running mean that already equals it moves
/// nothing: the running mean of `n` copies of a sample is exactly the
/// sample's projection, for every `n`. The streaming engine neither
/// drifts nor overflows under a constant input.
pub proof fn lemma_running_constant_no_drift(r: int, v: i64, n: nat)
    requires
        n >= 1,
    ensures
        running_means(r, repeated(v, n)) == (cos_spec(angle_of(v as int, r)), sin_spec(
            angle_of(v as int, r),
        )),
    decreases n,
{
    let c = cos_spec(angle_of(v as int, r));
    let s = sin_spec(angle_of(v as int, r));
    assert(repeated(v, n).last() == v);
    if n == 1 {
        assert(repeated(v, 1).drop_last() =~= repeated(v, 0));
        assert(repeated(v, 0).len() == 0);
        lemma_div_basics(c);
        lemma_div_basics(s);
        lemma_div_basics(-c);
        lemma_div_basics(-s);
        assert(tdiv(c - 0, 1) == c);
        assert(tdiv(s - 0, 1) == s);
    } else {
        lemma_running_constant_no_drift(r, v, (n - 1) as nat);
        assert(repeated(v, n).drop_last() =~= repeated(v, (n - 1) as nat));
        lemma_div_basics(n as int);
        assert(tdiv(c - c, n as int) == 0);
        assert(tdiv(s - s, n as int) == 0);
    }
}

/// On a constant input the two engines agree exactly, whatever the
/// count: batch summation and the running update reach the same mean
/// projection, hence the same mean value and the same confidence.
pub proof fn lemma_engines_agree_on_constant(r: int, v: i64, n: nat)
    requires
        1 <= r,
        n >= 1,
    ensures
        running_mean(r, repeated(v, n)) == batch_mean(r, repeated(v, n)),
{
    let c = cos_spec(angle_of(v as int, r));
    let s = sin_spec(angle_of(v as int, r));
    lemma_running_constant_no_drift(r, v, n);
    lemma_proj_sums_repeated(r, v, n);
    lemma_tdiv_multiples(c, n as int);
    lemma_tdiv_multiples(s, n as int);
}

/// Two diametrically opposite samples, `0` and `range / 2`, cancel
/// exactly: the mean projection is the origin and the confidence is
/// zero, the engine's statement of maximal disagreement.
pub proof fn lemma_opposed_samples_cancel(r: int)
    requires
        2 <= r < 0x1_0000_0000,
        r % 2 == 0,
    ensures
        batch_mean(r, seq![0 as i64, (r / 2) as i64]).1 == 0,
{
    let h = r / 2;
    let s = seq![0 as i64, h as i64];
    assert(s.drop_last() =~= seq![0 as i64]);
    assert(seq![0 as i64].drop_last() =~= Seq::<i64>::empty());
    assert(s.last() == h as i64);
    assert(seq![0 as i64].last() == 0 as i64);

    // The angle of sample 0 is 0.
    lemma_basic_div(h, r);
    assert(angle_of(0, r) == 0);

    // The angle of sample r / 2 is exactly half a turn.
    lemma_fundamental_div_mod(r, 2);
    assert(h * 0x1_0000_0000 == r * 0x8000_0000) by (nonlinear_arith)
        requires
            r == 2 * h;
    lemma_div_multiples_vanish_fancy(0x8000_0000, h, r);
    assert((h * 0x1_0000_0000 + h) / r == 0x8000_0000);
    assert((h as i64) as int % r == h) by {
        lemma_basic_div(h, r);
        lemma_fundamental_div_mod(h, r);
    }
    assert(angle_of(h, r) == 0x8000_0000);

    // The projections at angles 0 and half a turn cancel exactly.
    assert(sin_spec(0) == 0);
    assert(cos_spec(0) == 0x4000_0000);
    assert(sin_spec(0x8000_0000) == 0);
    assert(cos_spec(0x8000_0000) == -0x4000_0000);
    assert((h as i64) as int == h);
    assert(proj_sums(r, Seq::<i64>::empty()) == (0int, 0int));
    assert(proj_sums(r, seq![0 as i64]) == (0x4000_0000 as int, 0int));
    assert(proj_sums(r, s) == (0int, 0int));
    lemma_basic_div(0, 2);
    assert(tdiv(0, 2) == 0);
}

/// One hour before and one hour after midnight — samples 3600 and
/// 82800 on the 86 400-second day — average to exactly zero: the two
/// rounded angles are exact complements, their sines cancel without
/// residue, and the mean direction lands on the positive axis.
pub proof fn lemma_symmetric_times_average_to_midnight()
    ensures
        batch_mean(86400, seq![3600 as i64, 82800 as i64]).0 == 0,
{
    let s = seq![3600 as i64, 82800 as i64];
    assert(s.drop_last() =~= seq![3600 as i64]);
    assert(seq![3600 as i64].drop_last() =~= Seq::<i64>::empty());
    assert(s.last() == 82800 as i64);
    assert(seq![3600 as i64].last() == 3600 as i64);

    // The two samples map to exactly complementary angles.
    lemma_small_mod(3600nat, 86400nat);
    lemma_small_mod(82800nat, 86400nat);
    lemma_div_multiples_vanish_fancy(178956971, 14400, 86400);
    assert(86400 * 178956971 + 14400 == 3600 * 0x1_0000_0000 + 43200int);
    lemma_small_mod(178956971nat, 0x1_0000_0000nat);
    assert(angle_of(3600, 86400) == 178956971);
    lemma_div_multiples_vanish_fancy(4116010325, 72000, 86400);
    assert(86400 * 4116010325 + 72000 == 82800 * 0x1_0000_0000 + 43200int);
    lemma_small_mod(4116010325nat, 0x1_0000_0000nat);
    assert(angle_of(82800, 86400) == 4116010325);

    // Complementary angles have opposite sines and equal cosines.
    lemma_sin_wrap_neg(178956971);
    lemma_cos_wrap_neg(178956971);
    assert((0x1_0000_0000 - 178956971int) % 0x1_0000_0000 == 4116010325) by {
        lemma_small_mod(4116010325nat, 0x1_0000_0000nat);
    }
    let c = cos_spec(178956971);
    assert(proj_sums(86400, Seq::<i64>::empty()) == (0int, 0int));
    assert(proj_sums(86400, seq![3600 as i64]) == (c, sin_spec(178956971)));
    assert(proj_sums(86400, s) == (c + c, 0int));

    // The mean projection points along the positive axis.
    assert((178956971 + 0x4000_0000int) % 0x1_0000_0000 == 1252698795) by {
        lemma_small_mod(1252698795nat, 0x1_0000_0000nat);
    }
    lemma_sin_pos_first_half(1252698795);
    assert(c >= 1);
    assert(c + c == 2 * c);
    lemma_tdiv_multiples(c, 2);
    lemma_basic_div(0, 2);
    assert(tdiv(0, 2) == 0);
    lemma_atan2_positive_axis(c);
    assert(atan2_spec(c, 0) * 86400 == 0);
}

/// The week wraps: Sunday and Tuesday average to Monday. The two days
/// sit symmetrically about the week boundary, their rounded angles are
/// exact complements, and the mean direction lands on Monday's angle
/// zero.
pub proof fn lemma_week_wrap_averages_to_monday()
    ensures
        mean_weekday_index_spec(seq![Weekday::Sun, Weekday::Tue]) == 0,
{
    let days = seq![Weekday::Sun, Weekday::Tue];
    let s = seq![6 as i64, 1 as i64];
    assert(weekday_samples(days) =~= s);
    assert(s.drop_last() =~= seq![6 as i64]);
    assert(seq![6 as i64].drop_last() =~= Seq::<i64>::empty());
    assert(s.last() == 1 as i64);
    assert(seq![6 as i64].last() == 6 as i64);

    // The two days map to exactly complementary angles.
    lemma_small_mod(6nat, 7nat);
    lemma_small_mod(1nat, 7nat);
    lemma_div_multiples_vanish_fancy(3681400539, 6, 7);
    assert(7 * 3681400539 + 6 == 6 * 0x1_0000_0000 + 3int);
    lemma_small_mod(3681400539nat, 0x1_0000_0000nat);
    assert(angle_of(6, 7) == 3681400539);
    lemma_div_multiples_vanish_fancy(613566757, 0, 7);
    assert(7 * 613566757 + 0 == 1 * 0x1_0000_0000 + 3int);
    lemma_small_mod(613566757nat, 0x1_0000_0000nat);
    assert(angle_of(1, 7) == 613566757);

    // Complementary angles have opposite sines and equal cosines.
    lemma_sin_wrap_neg(613566757);
    lemma_cos_wrap_neg(613566757);
    assert((0x1_0000_0000 - 613566757int) % 0x1_0000_0000 == 3681400539) by {
        lemma_small_mod(3681400539nat, 0x1_0000_0000nat);
    }
    let c = cos_spec(613566757);
    assert(proj_sums(7, Seq::<i64>::empty()) == (0int, 0int));
    assert(proj_sums(7, seq![6 as i64]) == (c, sin_spec(3681400539)));
    assert(proj_sums(7, s) == (c + c, 0int));

    // The mean projection points along Monday's axis.
    assert((613566757 + 0x4000_0000int) % 0x1_0000_0000 == 1687308581) by {
        lemma_small_mod(1687308581nat, 0x1_0000_0000nat);
    }
    lemma_sin_pos_first_half(1687308581);
    assert(c >= 1);
    assert(c + c == 2 * c);
    lemma_tdiv_multiples(c, 2);
    lemma_basic_div(0, 2);
    assert(tdiv(0, 2) == 0);
    lemma_atan2_positive_axis(c);
    assert(atan2_spec(c, 0) * 7 == 0);
    assert(batch_mean(7, s).0 == 0);
    lemma_basic_div(0x8000_0000, 0x1_0000_0000);
}

/// Samples that sit symmetrically about the wrap point map to exactly
/// mirrored angles: the rounded angles of `d` and `range - d` are
/// complements of a full turn. The one exception is an even range
/// whose lower sample rounds to an exact angle tie.
pub proof fn lemma_mirrored_samples_mirrored_angles(r: int, d: int)
    requires
        1 <= d < r < 0x1_0000_0000,
        r % 2 == 1 || (d * 0x1_0000_0000 + r / 2) % r != 0,
    ensures
        1 <= angle_of(d, r) < 0x1_0000_0000,
        angle_of(r - d, r) == 0x1_0000_0000 - angle_of(d, r),
{
    lemma_small_mod(d as nat, r as nat);
    lemma_small_mod((r - d) as nat, r as nat);
    let u = d * 0x1_0000_0000 + r / 2;
    let v = (r - d) * 0x1_0000_0000 + r / 2;
    let b1 = u / r;
    let b2 = v / r;
    let m1 = u % r;
    let m2 = v % r;
    lemma_fundamental_div_mod(u, r);
    lemma_fundamental_div_mod(v, r);
    lemma_mod_bound(u, r);
    lemma_mod_bound(v, r);
    lemma_fundamental_div_mod(r, 2);
    assert(u + v == r * 0x1_0000_0000 + 2 * (r / 2)) by (nonlinear_arith)
        requires
            u == d * 0x1_0000_0000 + r / 2,
            v == (r - d) * 0x1_0000_0000 + r / 2;
    assert(r * (b1 + b2) + m1 + m2 == r * 0x1_0000_0000 + 2 * (r / 2)) by (nonlinear_arith)
        requires
            u == r * b1 + m1,
            v == r * b2 + m2,
            u + v == r * 0x1_0000_0000 + 2 * (r / 2);
    let k = 0x1_0000_0000 + 1 - b1 - b2;
    if r % 2 == 0 {
        assert(m1 + m2 == r * k) by (nonlinear_arith)
            requires
                r * (b1 + b2) + m1 + m2 == r * 0x1_0000_0000 + 2 * (r / 2),
                r == 2 * (r / 2),
                k == 0x1_0000_0000 + 1 - b1 - b2;
        assert(0 <= r * k <= 2 * r - 2);
        assert(0 <= k < 2) by (nonlinear_arith)
            requires
                r >= 2,
                0 <= r * k <= 2 * r - 2;
        if k == 0 {
            // Both remainders would vanish, against the tie guard.
            assert(r * k == 0) by (nonlinear_arith)
                requires
                    k == 0;
            assert(false);
        }
        assert(r * k == r) by (nonlinear_arith)
            requires
                k == 1;
    } else {
        assert(m1 + m2 + 1 == r * k) by (nonlinear_arith)
            requires
                r * (b1 + b2) + m1 + m2 == r * 0x1_0000_0000 + 2 * (r / 2),
                r == 2 * (r / 2) + 1,
                k == 0x1_0000_0000 + 1 - b1 - b2;
        assert(1 <= r * k <= 2 * r - 1);
        assert(k == 1) by (nonlinear_arith)
            requires
                r >= 1,
                1 <= r * k <= 2 * r - 1;
    }
    assert(b1 + b2 == 0x1_0000_0000);

    // Each quotient stays within one turn, so the outer wrap is idle.
    assert(r * 1 <= u) by (nonlinear_arith)
        requires
            1 <= d,
            2 <= r < 0x1_0000_0000,
            u == d * 0x1_0000_0000 + r / 2;
    lemma_div_is_ordered(r, u, r);
    lemma_div_basics(r);
    assert(b1 >= 1);
    assert(b2 >= 1) by {
        assert(r * 1 <= v) by (nonlinear_arith)
            requires
                1 <= r - d,
                2 <= r < 0x1_0000_0000,
                v == (r - d) * 0x1_0000_0000 + r / 2;
        lemma_div_is_ordered(r, v, r);
    }
    lemma_small_mod(b1 as nat, 0x1_0000_0000);
    lemma_small_mod(b2 as nat, 0x1_0000_0000);
}

/// Samples symmetric about the wrap point cancel in the sine direction
/// and agree in the cosine direction: their mean projection lies on the
/// x-axis, exactly.
pub proof fn lemma_symmetric_pair_projections_cancel(r: int, d: int)
    requires
        1 <= d < r < 0x1_0000_0000,
        r % 2 == 1 || (d * 0x1_0000_0000 + r / 2) % r != 0,
    ensures
        proj_sums(r, seq![d as i64, (r - d) as i64]).1 == 0,
        proj_sums(r, seq![d as i64, (r - d) as i64]).0 == 2 * cos_spec(angle_of(d, r)),
{
    lemma_mirrored_samples_mirrored_angles(r, d);
    let b1 = angle_of(d, r);
    lemma_sin_wrap_neg(b1);
    lemma_cos_wrap_neg(b1);
    lemma_small_mod((0x1_0000_0000 - b1) as nat, 0x1_0000_0000);
    let s = seq![d as i64, (r - d) as i64];
    assert(s.drop_last() =~= seq![d as i64]);
    assert(seq![d as i64].drop_last() =~= Seq::<i64>::empty());
    assert(s.last() == (r - d) as i64);
    assert(seq![d as i64].last() == d as i64);
    let c = cos_spec(b1);
    assert(proj_sums(r, Seq::<i64>::empty()) == (0int, 0int));
    assert(proj_sums(r, seq![d as i64]) == (c, sin_spec(b1)));
    assert(proj_sums(r, s) == (c + c, 0int));
}

/// Samples in full agreement at the origin carry full confidence: the
/// mean projection of any number of zero samples sits on the unit
/// circle, and both engines report the maximal confidence, exactly.
pub proof fn lemma_unanimous_full_confidence(r: int, n: nat)
    requires
        2 <= r < 0x1_0000_0000,
        n >= 1,
    ensures
        batch_mean(r, repeated(0, n)).1 == 0x4000_0000,
        running_mean(r, repeated(0, n)).1 == 0x4000_0000,
{
    // A zero sample maps to angle zero, whose projection is (scale, 0).
    lemma_small_mod(0, r as nat);
    lemma_basic_div(r / 2, r);
    lemma_small_mod(0, 0x1_0000_0000);
    assert(angle_of(0, r) == 0);
    lemma_small_mod(0x4000_0000, 0x1_0000_0000);
    lemma_decompose(0x4000_0000, 1, 0, 0x4000_0000);
    assert(cos_spec(0) == 0x4000_0000);
    lemma_decompose(0, 0, 0, 0x4000_0000);
    assert(sin_spec(0) == 0);

    // Both engines reach the mean projection (scale, 0).
    lemma_proj_sums_repeated(r, 0, n);
    lemma_tdiv_multiples(0x4000_0000, n as int);
    lemma_tdiv_multiples(0, n as int);
    lemma_running_constant_no_drift(r, 0, n);

    // Its distance from the origin is exactly the scale.
    assert(0x4000_0000 * 0x4000_0000 + 0 * 0 == 0x4000_0000 * 0x4000_0000)
        by (nonlinear_arith);
    lemma_isqrt_exact(0x4000_0000);
}

} // verus!
