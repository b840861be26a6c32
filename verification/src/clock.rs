//! Domain adapters: averaging times of day and days of the week.
//!
//! A [`TimeOfDay`] is a second within the civil day; a [`Weekday`] is a
//! day of the week, indexed from Monday. Both live on a cyclic domain,
//! so their means come from the circular engine, fed with a
//! circumference of 86 400 seconds, respectively 7 days.

use vstd::prelude::*;

verus! {

use crate::{batch_mean, circadian_average, CircadianError};

/// A time of day with second resolution: seconds since midnight, always
/// below 86 400.
#[derive(Clone, Copy, Debug, PartialEq, Eq, Structural)]
pub struct TimeOfDay {
    secs: u32,
}

impl TimeOfDay {
    /// Seconds since midnight, as a specification value.
    pub closed spec fn sec_of_day(&self) -> int {
        self.secs as int
    }

    #[verifier::type_invariant]
    spec fn wf(&self) -> bool {
        self.secs < 86400
    }

    /// The time of day `hour:min:sec`; `None` when a component is out of
    /// range.
    pub fn from_hms(hour: u32, min: u32, sec: u32) -> (r: Option<TimeOfDay>)
        ensures
            hour < 24 && min < 60 && sec < 60 ==> (r matches Some(t) && t.sec_of_day() == hour
                * 3600 + min * 60 + sec),
            !(hour < 24 && min < 60 && sec < 60) ==> r is None,
    {
        if hour < 24 && min < 60 && sec < 60 {
            Some(TimeOfDay { secs: hour * 3600 + min * 60 + sec })
        } else {
            None
        }
    }

    /// The time of day a given number of seconds after midnight; `None`
    /// from 86 400 on.
    pub fn from_num_seconds_from_midnight(secs: u32) -> (r: Option<TimeOfDay>)
        ensures
            secs < 86400 ==> (r matches Some(t) && t.sec_of_day() == secs),
            secs >= 86400 ==> r is None,
    {
        if secs < 86400 {
            Some(TimeOfDay { secs })
        } else {
            None
        }
    }

    /// Seconds since midnight.
    pub fn num_seconds_from_midnight(&self) -> (s: u32)
        ensures
            s as int == self.sec_of_day(),
            s < 86400,
    {
        proof {
            use_type_invariant(&*self);
        }
        self.secs
    }

    /// The hour of the day, `0` to `23`.
    pub fn hour(&self) -> (h: u32)
        ensures
            h as int == self.sec_of_day() / 3600,
            h < 24,
    {
        proof {
            use_type_invariant(&*self);
        }
        self.secs / 3600
    }

    /// The minute of the hour, `0` to `59`.
    pub fn minute(&self) -> (m: u32)
        ensures
            m as int == self.sec_of_day() / 60 % 60,
    {
        proof {
            use_type_invariant(&*self);
        }
        self.secs / 60 % 60
    }

    /// The second of the minute, `0` to `59`.
    pub fn second(&self) -> (s: u32)
        ensures
            s as int == self.sec_of_day() % 60,
    {
        proof {
            use_type_invariant(&*self);
        }
        self.secs % 60
    }
}

/// A day of the week. Monday is the first day and carries index zero,
/// the convention of [`Weekday::num_days_from_monday`].
#[derive(Clone, Copy, Debug, PartialEq, Eq, Structural)]
pub enum Weekday {
    Mon,
    Tue,
    Wed,
    Thu,
    Fri,
    Sat,
    Sun,
}

impl Weekday {
    /// The day's zero-based index, counting from Monday.
    pub open spec fn index_spec(&self) -> int {
        match self {
            Weekday::Mon => 0,
            Weekday::Tue => 1,
            Weekday::Wed => 2,
            Weekday::Thu => 3,
            Weekday::Fri => 4,
            Weekday::Sat => 5,
            Weekday::Sun => 6,
        }
    }

    /// Days since the Monday of the same week: `Mon` is `0`, `Sun` is
    /// `6`.
    pub fn num_days_from_monday(&self) -> (d: u32)
        ensures
            d as int == self.index_spec(),
            d < 7,
    {
        match self {
            Weekday::Mon => 0,
            Weekday::Tue => 1,
            Weekday::Wed => 2,
            Weekday::Thu => 3,
            Weekday::Fri => 4,
            Weekday::Sat => 5,
            Weekday::Sun => 6,
        }
    }

    /// The day with the given index from Monday; `None` from 7 on.
    pub fn from_u32(d: u32) -> (r: Option<Weekday>)
        ensures
            d < 7 ==> (r matches Some(w) && w.index_spec() == d),
            d >= 7 ==> r is None,
    {
        match d {
            0 => Some(Weekday::Mon),
            1 => Some(Weekday::Tue),
            2 => Some(Weekday::Wed),
            3 => Some(Weekday::Thu),
            4 => Some(Weekday::Fri),
            5 => Some(Weekday::Sat),
            6 => Some(Weekday::Sun),
            _ => None,
        }
    }
}

/// The times as engine samples: each time's seconds since midnight.
pub open spec fn time_samples(times: Seq<TimeOfDay>) -> Seq<i64> {
    times.map_values(|t: TimeOfDay| t.sec_of_day() as i64)
}

/// The days as engine samples: each day's index from Monday.
pub open spec fn weekday_samples(days: Seq<Weekday>) -> Seq<i64> {
    days.map_values(|w: Weekday| w.index_spec() as i64)
}

/// The mean time of day as whole seconds since midnight: the batch
/// circular mean on the 86 400-second day, truncated to the second.
pub open spec fn mean_seconds_spec(times: Seq<TimeOfDay>) -> int {
    batch_mean(86400, time_samples(times)).0 / 0x1_0000_0000
}

/// The weekday index that the mean position rounds to: the batch
/// circular mean on the 7-day week, rounded half away from zero, with a
/// rounded index of 7 wrapping past Sunday back to Monday.
pub open spec fn mean_weekday_index_spec(days: Seq<Weekday>) -> int {
    let v = batch_mean(7, weekday_samples(days)).0;
    let idx = (v + 0x8000_0000) / 0x1_0000_0000;
    if idx == 7 {
        0
    } else {
        idx
    }
}

/// The confidence of the mean weekday, scaled by `2^30`.
pub open spec fn mean_weekday_conf_spec(days: Seq<Weekday>) -> int {
    batch_mean(7, weekday_samples(days)).1
}

/// The mean time of day of the given times on the 24-hour circle,
/// truncated to whole seconds: 23:00 and 01:00 average to midnight, not
/// to noon. Empty input yields `EmptyInput`.
pub fn avg_time_of_day(times: &Vec<TimeOfDay>) -> (r: Result<TimeOfDay, CircadianError>)
    ensures
        times@.len() == 0 ==> r == Err::<TimeOfDay, CircadianError>(CircadianError::EmptyInput),
        times@.len() >= 1 ==> (r matches Ok(t) && t.sec_of_day() == mean_seconds_spec(times@)),
{
    if times.len() == 0 {
        return Err(CircadianError::EmptyInput);
    }
    let n = times.len();
    let mut samples: Vec<i64> = Vec::new();
    let mut i: usize = 0;
    while i < n
        invariant
            n == times@.len(),
            i <= n,
            samples@ == time_samples(times@.take(i as int)),
            forall|k: int| 0 <= k < samples@.len() ==> 0 <= #[trigger] samples@[k],
        decreases n - i,
    {
        let s = times[i].num_seconds_from_midnight();
        samples.push(s as i64);
        proof {
            assert(samples@ =~= time_samples(times@.take(i + 1)));
        }
        i = i + 1;
    }
    proof {
        assert(times@.take(n as int) =~= times@);
    }
    let res = circadian_average(86400, &samples);
    let secs = (res.0 / 0x1_0000_0000) as u32;
    Ok(TimeOfDay { secs })
}

/// The mean day of the week of the given days on the 7-day circle, with
/// Monday as index zero, rounded half away from zero to the nearest
/// day; {Sunday, Tuesday} averages to Monday across the week boundary.
/// Returns the day together with the confidence of the mean, scaled by
/// `2^30`. Empty input yields `EmptyInput`.
pub fn avg_weekday(days: &Vec<Weekday>) -> (r: Result<(Weekday, u32), CircadianError>)
    ensures
        days@.len() == 0 ==> r == Err::<(Weekday, u32), CircadianError>(CircadianError::EmptyInput),
        days@.len() >= 1 ==> (r matches Ok(p) && p.0.index_spec() == mean_weekday_index_spec(days@)
            && p.1 as int == mean_weekday_conf_spec(days@)),
{
    if days.len() == 0 {
        return Err(CircadianError::EmptyInput);
    }
    let n = days.len();
    let mut samples: Vec<i64> = Vec::new();
    let mut i: usize = 0;
    while i < n
        invariant
            n == days@.len(),
            i <= n,
            samples@ == weekday_samples(days@.take(i as int)),
            forall|k: int| 0 <= k < samples@.len() ==> 0 <= #[trigger] samples@[k],
        decreases n - i,
    {
        let d = days[i].num_days_from_monday();
        samples.push(d as i64);
        proof {
            assert(samples@ =~= weekday_samples(days@.take(i + 1)));
        }
        i = i + 1;
    }
    proof {
        assert(days@.take(n as int) =~= days@);
    }
    let res = circadian_average(7, &samples);
    let idx0 = ((res.0 + 0x8000_0000) / 0x1_0000_0000) as u32;
    let idx = if idx0 == 7 {
        0
    } else {
        idx0
    };
    match Weekday::from_u32(idx) {
        Some(w) => Ok((w, res.1)),
        None => Err(CircadianError::DomainConversion),
    }
}

} // verus!
