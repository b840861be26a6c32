//! Verified circular (modular) averaging.
//!
//! The mean of values on a cyclic domain — time of day, day of week,
//! compass headings — cannot be taken with ordinary arithmetic: 23:00 and
//! 01:00 average to midnight, not to noon. This crate maps each sample to
//! a position on a circle, averages the positions, and maps the mean
//! position back to a domain value together with a confidence score.
//!
//! All arithmetic is exact fixed-point integer arithmetic, so every
//! function carries a full functional contract:
//!
//! * angles are *binary turns*: `u32` values where `2^32` is one full turn;
//! * projections (sine and cosine values) are scaled by `2^30`, held in
//!   [`trig::SCALE`];
//! * a mean domain value is returned in Q32.32: the value multiplied by
//!   `2^32`, so callers keep the fractional part;
//! * a confidence is scaled by `2^30`: `0x4000_0000` means every sample
//!   agrees, `0` means the samples cancel out.

use vstd::prelude::*;

pub mod clock;
pub mod fixed;
pub mod laws;
pub mod trig;

verus! {

pub use crate::clock::avg_time_of_day;
pub use crate::clock::avg_weekday;
pub use crate::clock::TimeOfDay;
pub use crate::clock::Weekday;

use crate::fixed::{div_trunc, isqrt_spec, isqrt_u64, lemma_tdiv_bound, tdiv};
use crate::trig::{atan2_fp, atan2_spec, cos_fp, cos_spec, sample_angle, angle_of, sin_fp, sin_spec};

/// Why an averaging call could not produce a result.
#[derive(Clone, Copy, Debug, PartialEq, Eq, Structural)]
pub enum CircadianError {
    /// A sample was negative; the cyclic domain holds non-negative values.
    InvalidInput,
    /// No samples were supplied, so no direction exists to average.
    EmptyInput,
    /// A mean could not be represented in the target domain type.
    DomainConversion,
}

/// Sum of the unit-circle projections of the samples: the pair of
/// summed cosines and summed sines, each term scaled by `2^30`.
pub open spec fn proj_sums(r: int, s: Seq<i64>) -> (int, int)
    decreases s.len(),
{
    if s.len() == 0 {
        (0, 0)
    } else {
        let p = proj_sums(r, s.drop_last());
        let b = angle_of(s.last() as int, r);
        (p.0 + cos_spec(b), p.1 + sin_spec(b))
    }
}

/// Confidence of a mean projection `(ax, ay)`: its distance from the
/// origin, scaled by `2^30` and clamped to one.
pub open spec fn conf_of(ax: int, ay: int) -> int {
    let d = isqrt_spec(ax * ax + ay * ay);
    if d > 0x4000_0000 {
        0x4000_0000
    } else {
        d
    }
}

/// The batch circular mean: project every sample, sum, divide by the
/// count, and read the mean angle and confidence off the mean projection.
/// The first component is the mean domain value in Q32.32, the second the
/// confidence scaled by `2^30`.
pub open spec fn batch_mean(r: int, s: Seq<i64>) -> (int, int)
    recommends
        1 <= r,
        s.len() >= 1,
{
    let p = proj_sums(r, s);
    let n = s.len() as int;
    let ax = tdiv(p.0, n);
    let ay = tdiv(p.1, n);
    (atan2_spec(ax, ay) * r, conf_of(ax, ay))
}

/// The running mean projection after consuming `s` one sample at a time:
/// each step moves the mean by the truncated correction `(p - mean) / n`.
pub open spec fn running_means(r: int, s: Seq<i64>) -> (int, int)
    decreases s.len(),
{
    if s.len() == 0 {
        (0, 0)
    } else {
        let p = running_means(r, s.drop_last());
        let b = angle_of(s.last() as int, r);
        let n = s.len() as int;
        (p.0 + tdiv(cos_spec(b) - p.0, n), p.1 + tdiv(sin_spec(b) - p.1, n))
    }
}

/// The streaming circular mean: the angle and confidence of the running
/// mean projection, in the same representation as [`batch_mean`].
pub open spec fn running_mean(r: int, s: Seq<i64>) -> (int, int)
    recommends
        1 <= r,
        s.len() >= 1,
{
    let m = running_means(r, s);
    (atan2_spec(m.0, m.1) * r, conf_of(m.0, m.1))
}

/// Confidence of the mean projection `(ax, ay)`.
fn conf_exec(ax: i64, ay: i64) -> (c: u32)
    requires
        -0x4000_0000 <= ax as int <= 0x4000_0000,
        -0x4000_0000 <= ay as int <= 0x4000_0000,
    ensures
        c as int == conf_of(ax as int, ay as int),
        c <= 0x4000_0000,
{
    proof {
        assert(ax as int * ax as int <= 0x4000_0000 * 0x4000_0000) by (nonlinear_arith)
            requires
                -0x4000_0000 <= ax as int <= 0x4000_0000;
        assert(ay as int * ay as int <= 0x4000_0000 * 0x4000_0000) by (nonlinear_arith)
            requires
                -0x4000_0000 <= ay as int <= 0x4000_0000;
        assert(ax as int * ax as int >= 0) by (nonlinear_arith);
        assert(ay as int * ay as int >= 0) by (nonlinear_arith);
    }
    let d2 = (ax as i128) * (ax as i128) + (ay as i128) * (ay as i128);
    let d = isqrt_u64(d2 as u64);
    if d > 0x4000_0000 {
        0x4000_0000
    } else {
        d as u32
    }
}

/// The batch circular-mean engine.
///
/// Maps each sample onto a circle of circumference `range`, sums the
/// projections, divides by the count and returns the mean position as a
/// domain value in Q32.32 together with the confidence scaled by `2^30`.
///
/// This is the unchecked, caller-verified entry point: the preconditions
/// demand non-empty, non-negative data. [`checked_circadian_average`]
/// validates them at run time instead.
pub fn circadian_average(range: u32, data: &Vec<i64>) -> (r: (u64, u32))
    requires
        range >= 1,
        data@.len() >= 1,
        forall|i: int| 0 <= i < data@.len() ==> 0 <= #[trigger] data@[i],
    ensures
        (r.0 as int, r.1 as int) == batch_mean(range as int, data@),
        r.0 < (range as int) * 0x1_0000_0000,
        r.1 <= 0x4000_0000,
{
    let n = data.len();
    let mut xs: i128 = 0;
    let mut ys: i128 = 0;
    let mut i: usize = 0;
    while i < n
        invariant
            n == data@.len(),
            i <= n,
            range >= 1,
            forall|k: int| 0 <= k < data@.len() ==> 0 <= #[trigger] data@[k],
            (xs as int, ys as int) == proj_sums(range as int, data@.take(i as int)),
            -(i as int) * 0x4000_0000 <= xs as int <= (i as int) * 0x4000_0000,
            -(i as int) * 0x4000_0000 <= ys as int <= (i as int) * 0x4000_0000,
        decreases n - i,
    {
        let b = sample_angle(data[i], range);
        let c = cos_fp(b);
        let s = sin_fp(b);
        proof {
            assert(data@.take(i + 1).drop_last() =~= data@.take(i as int));
            assert(data@.take(i + 1).last() == data@[i as int]);
        }
        xs = xs + (c as i128);
        ys = ys + (s as i128);
        i = i + 1;
    }
    proof {
        assert(data@.take(n as int) =~= data@);
        lemma_tdiv_bound(xs as int, n as int, 0x4000_0000);
        lemma_tdiv_bound(ys as int, n as int, 0x4000_0000);
    }
    let ax = div_trunc(xs, n as u64);
    let ay = div_trunc(ys, n as u64);
    let ang = atan2_fp(ax, ay);
    proof {
        crate::fixed::lemma_mul_strict_bound(ang as int, range as int, 0x1_0000_0000);
    }
    let value = (ang as u64) * (range as u64);
    let conf = conf_exec(ax, ay);
    (value, conf)
}

/// The streaming circular-mean engine.
///
/// Consumes the samples in one forward pass, keeping only a running mean
/// projection and a count; every intermediate value stays within one
/// projection's bounds, so no sum can grow with the input and any length
/// of input is accepted. Output representation is that of
/// [`circadian_average`].
///
/// This is the unchecked, caller-verified entry point;
/// [`checked_safe_circadian_average`] validates at run time instead.
pub fn safe_circadian_average(range: u32, data: &Vec<i64>) -> (r: (u64, u32))
    requires
        range >= 1,
        data@.len() >= 1,
        forall|i: int| 0 <= i < data@.len() ==> 0 <= #[trigger] data@[i],
    ensures
        (r.0 as int, r.1 as int) == running_mean(range as int, data@),
        r.0 < (range as int) * 0x1_0000_0000,
        r.1 <= 0x4000_0000,
{
    let n = data.len();
    let mut xm: i64 = 0;
    let mut ym: i64 = 0;
    let mut i: usize = 0;
    while i < n
        invariant
            n == data@.len(),
            i <= n,
            range >= 1,
            forall|k: int| 0 <= k < data@.len() ==> 0 <= #[trigger] data@[k],
            (xm as int, ym as int) == running_means(range as int, data@.take(i as int)),
            -0x4000_0000 <= xm as int <= 0x4000_0000,
            -0x4000_0000 <= ym as int <= 0x4000_0000,
        decreases n - i,
    {
        let b = sample_angle(data[i], range);
        let c = cos_fp(b);
        let s = sin_fp(b);
        let k = (i as u64) + 1;
        let dx = div_trunc((c as i128) - (xm as i128), k);
        let dy = div_trunc((s as i128) - (ym as i128), k);
        proof {
            assert(data@.take(i + 1).drop_last() =~= data@.take(i as int));
            assert(data@.take(i + 1).last() == data@[i as int]);
            crate::fixed::lemma_step_stays_bounded(xm as int, c as int, k as int, 0x4000_0000);
            crate::fixed::lemma_step_stays_bounded(ym as int, s as int, k as int, 0x4000_0000);
        }
        xm = xm + dx;
        ym = ym + dy;
        i = i + 1;
    }
    proof {
        assert(data@.take(n as int) =~= data@);
    }
    let ang = atan2_fp(xm, ym);
    proof {
        crate::fixed::lemma_mul_strict_bound(ang as int, range as int, 0x1_0000_0000);
    }
    let value = (ang as u64) * (range as u64);
    let conf = conf_exec(xm, ym);
    (value, conf)
}

/// The checked entry point of the batch engine: rejects empty input and
/// negative samples with an error instead of demanding them away.
pub fn checked_circadian_average(range: u32, data: &Vec<i64>) -> (r: Result<
    (u64, u32),
    CircadianError,
>)
    requires
        range >= 1,
    ensures
        data@.len() == 0 ==> r == Err::<(u64, u32), CircadianError>(CircadianError::EmptyInput),
        data@.len() >= 1 && (exists|i: int| 0 <= i < data@.len() && #[trigger] data@[i] < 0) ==> r
            == Err::<(u64, u32), CircadianError>(CircadianError::InvalidInput),
        data@.len() >= 1 && (forall|i: int| 0 <= i < data@.len() ==> 0 <= #[trigger] data@[i])
            ==> (r matches Ok(v) && (v.0 as int, v.1 as int) == batch_mean(range as int, data@)),
{
    if data.len() == 0 {
        return Err(CircadianError::EmptyInput);
    }
    let n = data.len();
    let mut i: usize = 0;
    while i < n
        invariant
            n == data@.len(),
            i <= n,
            forall|k: int| 0 <= k < i ==> 0 <= #[trigger] data@[k],
        decreases n - i,
    {
        if data[i] < 0 {
            return Err(CircadianError::InvalidInput);
        }
        i = i + 1;
    }
    Ok(circadian_average(range, data))
}

/// The checked entry point of the streaming engine: rejects empty input
/// and negative samples with an error instead of demanding them away.
pub fn checked_safe_circadian_average(range: u32, data: &Vec<i64>) -> (r: Result<
    (u64, u32),
    CircadianError,
>)
    requires
        range >= 1,
    ensures
        data@.len() == 0 ==> r == Err::<(u64, u32), CircadianError>(CircadianError::EmptyInput),
        data@.len() >= 1 && (exists|i: int| 0 <= i < data@.len() && #[trigger] data@[i] < 0) ==> r
            == Err::<(u64, u32), CircadianError>(CircadianError::InvalidInput),
        data@.len() >= 1 && (forall|i: int| 0 <= i < data@.len() ==> 0 <= #[trigger] data@[i])
            ==> (r matches Ok(v) && (v.0 as int, v.1 as int) == running_mean(range as int, data@)),
{
    if data.len() == 0 {
        return Err(CircadianError::EmptyInput);
    }
    let n = data.len();
    let mut i: usize = 0;
    while i < n
        invariant
            n == data@.len(),
            i <= n,
            forall|k: int| 0 <= k < i ==> 0 <= #[trigger] data@[k],
        decreases n - i,
    {
        if data[i] < 0 {
            return Err(CircadianError::InvalidInput);
        }
        i = i + 1;
    }
    Ok(safe_circadian_average(range, data))
}

} // verus!
