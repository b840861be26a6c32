//! Tests of the time-of-day and weekday adapters.

use circadian::{avg_time_of_day, avg_weekday, CircadianError, TimeOfDay, Weekday};

#[test]
fn test_avg_time_of_day() {
    let data = vec![
        TimeOfDay::from_hms(1, 0, 0).unwrap(),
        TimeOfDay::from_hms(23, 0, 0).unwrap(),
    ];
    let avg_time = avg_time_of_day(&data).unwrap();
    assert_eq!(avg_time, TimeOfDay::from_hms(0, 0, 0).unwrap());
}

#[test]
fn test_avg_day_of_week() {
    let data = vec![Weekday::Tue, Weekday::Tue];
    let avg_day = avg_weekday(&data).unwrap();
    assert_eq!(avg_day.0, Weekday::Tue);
}

#[test]
fn test_avg_day_of_week_2() {
    let data = vec![Weekday::Tue, Weekday::Thu];
    let avg_day = avg_weekday(&data).unwrap();
    assert_eq!(avg_day.0, Weekday::Wed);
}

#[test]
fn test_avg_day_of_week_3() {
    let data = vec![Weekday::Tue, Weekday::Thu, Weekday::Fri];
    let avg_day = avg_weekday(&data).unwrap();
    assert_eq!(avg_day.0, Weekday::Thu);
}

#[test]
fn test_avg_day_of_week_4() {
    let data = vec![Weekday::Sun, Weekday::Tue];
    let avg_day = avg_weekday(&data).unwrap();
    assert_eq!(avg_day.0, Weekday::Mon);
}

// Two days either side of Wednesday carry the analytically expected
// confidence cos(2*pi / 7).
#[test]
fn avg_weekday_confidence() {
    let data = vec![Weekday::Tue, Weekday::Thu];
    let (_, conf) = avg_weekday(&data).unwrap();
    let conf_f = conf as f64 / 1073741824.0;
    let expected = (2.0 * std::f64::consts::PI / 7.0).cos();
    assert!((conf_f - expected).abs() <= 0.0001);
}

#[test]
fn avg_time_of_day_empty() {
    let data: Vec<TimeOfDay> = vec![];
    assert_eq!(avg_time_of_day(&data), Err(CircadianError::EmptyInput));
}

#[test]
fn avg_weekday_empty() {
    let data: Vec<Weekday> = vec![];
    assert_eq!(avg_weekday(&data), Err(CircadianError::EmptyInput));
}

#[test]
fn time_of_day_components() {
    let t = TimeOfDay::from_hms(23, 59, 58).unwrap();
    assert_eq!(t.hour(), 23);
    assert_eq!(t.minute(), 59);
    assert_eq!(t.second(), 58);
    assert_eq!(t.num_seconds_from_midnight(), 23 * 3600 + 59 * 60 + 58);
}

#[test]
fn time_of_day_rejects_out_of_range() {
    assert!(TimeOfDay::from_hms(24, 0, 0).is_none());
    assert!(TimeOfDay::from_hms(0, 60, 0).is_none());
    assert!(TimeOfDay::from_hms(0, 0, 60).is_none());
    assert!(TimeOfDay::from_num_seconds_from_midnight(86400).is_none());
    let t = TimeOfDay::from_num_seconds_from_midnight(86399).unwrap();
    assert_eq!(t.hour(), 23);
}

#[test]
fn weekday_indexing_round_trip() {
    let days = [
        Weekday::Mon,
        Weekday::Tue,
        Weekday::Wed,
        Weekday::Thu,
        Weekday::Fri,
        Weekday::Sat,
        Weekday::Sun,
    ];
    let mut i: u32 = 0;
    while i < 7 {
        let d = days[i as usize];
        assert_eq!(d.num_days_from_monday(), i);
        assert_eq!(Weekday::from_u32(i), Some(d));
        i += 1;
    }
    assert_eq!(Weekday::from_u32(7), None);
}

// A time-of-day pair symmetric about 06:00 averages onto 06:00 exactly
// at second resolution.
#[test]
fn avg_time_symmetric_about_six() {
    let data = vec![
        TimeOfDay::from_hms(5, 0, 0).unwrap(),
        TimeOfDay::from_hms(7, 0, 0).unwrap(),
    ];
    let avg_time = avg_time_of_day(&data).unwrap();
    assert_eq!(avg_time, TimeOfDay::from_hms(6, 0, 0).unwrap());
}
