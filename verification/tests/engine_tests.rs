//! Tests of the two circular-mean engines.
//!
//! A mean value comes back in Q32.32 and a confidence scaled by `2^30`;
//! the helpers below turn both into `f64` for comparison against the
//! analytically expected results.

use circadian::{
    checked_circadian_average, checked_safe_circadian_average, circadian_average,
    safe_circadian_average, CircadianError,
};

const FRAC_1_SQRT_2: f64 = std::f64::consts::FRAC_1_SQRT_2;

fn value_of(raw: (u64, u32)) -> f64 {
    raw.0 as f64 / 4294967296.0
}

fn conf_of(raw: (u64, u32)) -> f64 {
    raw.1 as f64 / 1073741824.0
}

fn close(a: f64, b: f64, eps: f64) -> bool {
    (a - b).abs() <= eps
}

#[test]
fn test_circadian_average_unanimous() {
    let data = vec![0, 0];
    let r = circadian_average(4, &data);
    assert_eq!(value_of(r), 0.0);
    assert_eq!(conf_of(r), 1.0);
}

#[test]
fn test_circadian_average_split() {
    let data = vec![1, 2];
    let r = circadian_average(4, &data);
    assert_eq!(value_of(r), 1.5);
    assert!(close(conf_of(r), FRAC_1_SQRT_2, 0.0001));
}

#[test]
fn test_circadian_average_even_split() {
    let data = vec![0, 2];
    let r = circadian_average(4, &data);
    assert!(close(value_of(r), 1.0, 0.0001));
    assert!(close(conf_of(r), 0.0, 0.0001));
}

#[test]
fn test_average_in_lower_left_quadrant() {
    let data = vec![2, 3];
    let r = circadian_average(4, &data);
    assert!(close(value_of(r), 2.5, 0.0001));
    assert!(close(conf_of(r), FRAC_1_SQRT_2, 0.0001));
}

#[test]
fn avg_count() {
    let data: Vec<i64> = vec![
        514, 176, 64, 249, 415, 455, 221, 375, 477, 464, 421, 32, 40, 496, 534, 134,
    ];
    let r = circadian_average(607, &data);
    assert!(close(value_of(r), 498.7531532014195, 0.001));
    assert!(close(conf_of(r), 0.23138448716890458, 0.001));
    // The exact fixed-point outputs, pinned.
    assert_eq!(r.0, 2142128481253);
    assert_eq!(r.1, 248447200);
}

#[test]
fn test_safe_circadian_average_unanimous() {
    let data = vec![0, 0];
    let r = safe_circadian_average(4, &data);
    assert_eq!(value_of(r), 0.0);
    assert_eq!(conf_of(r), 1.0);
}

#[test]
fn test_with_reasonably_sized_numbers() {
    let data = vec![1000, 2000];
    let r = safe_circadian_average(4000, &data);
    assert_eq!(value_of(r), 1500.0);
    assert!(close(conf_of(r), FRAC_1_SQRT_2, 0.0001));
}

#[test]
fn test_that_averaging_max_works() {
    let avg = f32::MAX + (f32::MAX - f32::MAX) / 1.0_f32;
    assert!((avg - f32::MAX).abs() <= 0.0001);
}

// A pair one step either side of the wrap point averages onto the wrap
// point itself, for both engines.
#[test]
fn batch_boundary_crossing() {
    let data = vec![1, 7];
    let r = circadian_average(8, &data);
    assert_eq!(value_of(r), 0.0);
    assert!(close(conf_of(r), FRAC_1_SQRT_2, 0.0001));
}

#[test]
fn streaming_boundary_crossing() {
    let data = vec![1, 7];
    let r = safe_circadian_average(8, &data);
    assert_eq!(value_of(r), 0.0);
    assert!(close(conf_of(r), FRAC_1_SQRT_2, 0.0001));
}

// A sample repeated any number of times averages to itself with full
// confidence, on both engines.
#[test]
fn unanimous_repeated_sample() {
    let data = vec![5, 5, 5];
    let b = circadian_average(86400, &data);
    let s = safe_circadian_average(86400, &data);
    assert!(close(value_of(b), 5.0, 0.001));
    assert_eq!(conf_of(b), 1.0);
    assert!(close(value_of(s), 5.0, 0.001));
    assert_eq!(conf_of(s), 1.0);
    assert_eq!(b, s);
}

// Two diametrically opposite samples cancel to confidence zero.
#[test]
fn opposed_samples_zero_confidence() {
    let data = vec![0, 43200];
    let b = circadian_average(86400, &data);
    let s = safe_circadian_average(86400, &data);
    assert_eq!(b.1, 0);
    assert_eq!(s.1, 0);
}

// Samples symmetric about a midpoint average to that midpoint, with the
// analytically expected confidence cos(d * 2*pi / range).
#[test]
fn symmetric_pair_midpoint_and_confidence() {
    let data = vec![300, 500];
    let r = circadian_average(3600, &data);
    assert!(close(value_of(r), 400.0, 0.001));
    let expected = (100.0 * 2.0 * std::f64::consts::PI / 3600.0).cos();
    assert!(close(conf_of(r), expected, 0.0001));
}

// Batch and streaming agree within a whisker on a mixed dataset, and
// exactly on the boundary-crossing pair.
#[test]
fn engines_agree_on_mixed_data() {
    let data: Vec<i64> = vec![
        514, 176, 64, 249, 415, 455, 221, 375, 477, 464, 421, 32, 40, 496, 534, 134,
    ];
    let b = circadian_average(607, &data);
    let s = safe_circadian_average(607, &data);
    assert!(close(value_of(b), value_of(s), 0.001));
    assert!(close(conf_of(b), conf_of(s), 0.001));
    assert_eq!(s.0, 2142128478825);
    assert_eq!(s.1, 248447199);

    let pair = vec![1, 7];
    assert_eq!(circadian_average(8, &pair), safe_circadian_average(8, &pair));
}

// The streaming engine stays bounded under huge sample values...
#[test]
fn streaming_huge_samples_stay_bounded() {
    let big: i64 = 1 << 62;
    let data = vec![big, big, big];
    let r = safe_circadian_average(4294967295, &data);
    assert_eq!(conf_of(r), 1.0);
    let expected = (big % 4294967295) as f64;
    assert!(close(value_of(r), expected, 2.0));
    assert_eq!(r.0, 4611686017353646080);
}

// ...and under a long constant stream it neither drifts nor loses
// confidence beyond one fixed-point step.
#[test]
fn streaming_long_constant_no_drift() {
    let data = vec![86399; 10000];
    let r = safe_circadian_average(86400, &data);
    assert!(close(value_of(r), 86399.0, 0.001));
    assert!(close(conf_of(r), 1.0, 0.000001));
    assert_eq!(circadian_average(86400, &data), r);
}

// The checked entry points reject a negative sample on both engines.
#[test]
fn checked_rejects_negative_batch() {
    let data = vec![-1];
    let r = checked_circadian_average(4, &data);
    assert_eq!(r, Err(CircadianError::InvalidInput));
}

#[test]
fn checked_rejects_negative_stream() {
    let data = vec![3, -1, 2];
    let r = checked_safe_circadian_average(4, &data);
    assert_eq!(r, Err(CircadianError::InvalidInput));
}

// The checked entry points reject empty input.
#[test]
fn checked_rejects_empty() {
    let data: Vec<i64> = vec![];
    assert_eq!(
        checked_circadian_average(4, &data),
        Err(CircadianError::EmptyInput)
    );
    assert_eq!(
        checked_safe_circadian_average(4, &data),
        Err(CircadianError::EmptyInput)
    );
}

// On clean input the checked entry points hand back the engine result.
#[test]
fn checked_passes_through() {
    let data = vec![1, 2];
    assert_eq!(
        checked_circadian_average(4, &data),
        Ok(circadian_average(4, &data))
    );
    assert_eq!(
        checked_safe_circadian_average(4, &data),
        Ok(safe_circadian_average(4, &data))
    );
}
