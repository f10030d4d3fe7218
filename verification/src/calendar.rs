//! Points in time, counted in seconds.

use chrono::{TimeZone, Utc};
use vstd::prelude::*;

verus! {

/// A date of the Gregorian calendar and a time of day.
pub struct Moment {
    pub year: nat,
    pub month: nat,
    pub day: nat,
    pub hour: nat,
    pub minute: nat,
    pub second: nat,
}

/// Whether `year` has a 29th of February.
pub open spec fn is_leap(year: nat) -> bool {
    year % 4 == 0 && (year % 100 != 0 || year % 400 == 0)
}

/// The number of days of a month.
pub open spec fn days_in_month(year: nat, month: nat) -> nat {
    if month == 2 {
        if is_leap(year) { 29 } else { 28 }
    } else if month == 4 || month == 6 || month == 9 || month == 11 {
        30
    } else {
        31
    }
}

/// The number of days of `year` before the first of `month`.
pub open spec fn days_before_month(year: nat, month: nat) -> nat
    decreases month,
{
    if month <= 1 {
        0
    } else {
        days_before_month(year, (month - 1) as nat) + days_in_month(year, (month - 1) as nat)
    }
}

/// The number of days before the first of January of `year`, from the year 0 on:
/// 365 for each year before it, and one more for each leap year among them.
pub open spec fn days_before_year(year: nat) -> int {
    365 * year + (year + 3) / 4 - (year + 99) / 100 + (year + 399) / 400
}

impl Moment {
    /// Whether the date and the time of day exist.
    pub open spec fn exists_in_calendar(self) -> bool {
        &&& 1 <= self.month <= 12
        &&& 1 <= self.day <= days_in_month(self.year, self.month)
        &&& self.hour < 24
        &&& self.minute < 60
        &&& self.second < 60
    }

    /// The number of days from the first of January of the year 0.
    pub open spec fn day_number(self) -> int {
        days_before_year(self.year) + days_before_month(self.year, self.month) + self.day - 1
    }

    /// The number of seconds from the beginning of the year 1970, in UTC.
    pub open spec fn unix_seconds(self) -> int {
        (self.day_number() - days_before_year(1970)) * 86400 + self.hour * 3600 + self.minute * 60
            + self.second
    }
}

/// `TimeZone::with_ymd_and_hms` of `Utc`, and `DateTime::timestamp` of what it
/// gives: the seconds from the beginning of 1970 to a date and time in UTC, or
/// nothing where the calendar or the clock has no such date or time.
#[verifier::external_body]
pub(crate) fn utc_seconds(
    year: i32,
    month: u32,
    day: u32,
    hour: u32,
    minute: u32,
    second: u32,
) -> (r: Option<i64>)
    requires
        0 <= year <= 9999,
    ensures
        ({
            let moment = Moment {
                year: year as nat,
                month: month as nat,
                day: day as nat,
                hour: hour as nat,
                minute: minute as nat,
                second: second as nat,
            };
            match r {
                Some(t) => moment.exists_in_calendar() && t == moment.unix_seconds(),
                None => !moment.exists_in_calendar(),
            }
        }),
{
    let moment = Utc.with_ymd_and_hms(year, month, day, hour, minute, second).single()?;
    Some(moment.timestamp())
}

} // verus!
