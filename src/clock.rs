use chrono::{Datelike, Timelike};
use vstd::prelude::*;

verus! {

/// A wall-clock reading in the logger's civil time zone, held as plain fields.
#[derive(Clone, Copy, Debug)]
pub struct CivilTime {
    pub year: i32,
    pub month: u32,
    pub day: u32,
    /// Day of the year, starting from 1.
    pub ordinal: u32,
    pub hour: u32,
    pub minute: u32,
    pub second: u32,
}

/// Whether `year` is a leap year of the proleptic Gregorian calendar.
pub open spec fn is_leap(year: int) -> bool {
    (year % 4 == 0 && year % 100 != 0) || year % 400 == 0
}

/// Days in the months of `year` before `month`.
pub open spec fn days_before_month(year: int, month: int) -> int {
    let common: int = if month <= 1 {
        0
    } else if month == 2 {
        31
    } else if month == 3 {
        59
    } else if month == 4 {
        90
    } else if month == 5 {
        120
    } else if month == 6 {
        151
    } else if month == 7 {
        181
    } else if month == 8 {
        212
    } else if month == 9 {
        243
    } else if month == 10 {
        273
    } else if month == 11 {
        304
    } else {
        334
    };
    if month > 2 && is_leap(year) {
        common + 1
    } else {
        common
    }
}

/// Days in `month` of `year`.
pub open spec fn days_in_month(year: int, month: int) -> int {
    if month == 12 {
        31
    } else {
        days_before_month(year, month + 1) - days_before_month(year, month)
    }
}

impl CivilTime {
    /// The ranges a reading of the calendar and the clock can take; the day of
    /// the year is that of the date.
    pub open spec fn wf(&self) -> bool {
        &&& 1 <= self.month <= 12
        &&& 1 <= self.day <= days_in_month(self.year as int, self.month as int)
        &&& self.ordinal == days_before_month(self.year as int, self.month as int) + self.day
        &&& 1 <= self.ordinal <= 366
        &&& self.hour < 24
        &&& self.minute < 60
        &&& self.second < 60
    }
}

/// Relies on chrono's `From<SystemTime>` for `DateTime<Utc>` and
/// `DateTime::with_timezone` with chrono_tz's `US::Eastern` for the time now,
/// and on chrono's `Datelike` / `Timelike` accessors, whose documented ranges,
/// and day of the year, are those of `wf`.
#[verifier::external_body]
pub fn current_time() -> (r: CivilTime)
    ensures
        r.wf(),
{
    let utc = chrono::DateTime::<chrono::Utc>::from(std::time::SystemTime::now());
    let now = utc.with_timezone(&chrono_tz::US::Eastern);
    CivilTime {
        year: now.year(),
        month: now.month(),
        day: now.day(),
        ordinal: now.ordinal(),
        hour: now.hour(),
        minute: now.minute(),
        second: now.second(),
    }
}

} // verus!
