//! Day-units: the calendar days by which a channel's history is retrieved,
//! and the trailing window of the recent-chatter leaderboard.

use vstd::prelude::*;
use chrono::Datelike;

verus! {

/// The length of a UTC day in milliseconds.
pub const MILLIS_PER_DAY: i64 = 86_400_000;

/// One calendar day (UTC) of a channel's history.
#[derive(Debug, Clone, Copy, PartialEq, Eq, Structural)]
pub struct DayUnit {
    pub year: i32,
    pub month: u32,
    pub day: u32,
}

/// `year` has a 29th of February in the proleptic Gregorian calendar.
pub open spec fn is_leap_year(year: int) -> bool {
    year % 4 == 0 && (year % 100 != 0 || year % 400 == 0)
}

/// The number of days of the given month; `month` is 1 for January.
pub open spec fn days_in_month(year: int, month: int) -> int {
    if month == 2 {
        if is_leap_year(year) {
            29
        } else {
            28
        }
    } else if month == 4 || month == 6 || month == 9 || month == 11 {
        30
    } else {
        31
    }
}

/// The three numbers name a day of the calendar.
pub open spec fn is_calendar_date(year: int, month: int, day: int) -> bool {
    1 <= month <= 12 && 1 <= day <= days_in_month(year, month)
}

/// The day-units from the first of the month of `today` up to `today`.
pub open spec fn month_days(today: DayUnit) -> Seq<DayUnit> {
    Seq::new(
        today.day as nat,
        |i: int| DayUnit { year: today.year, month: today.month, day: (i + 1) as u32 },
    )
}

/// The calendar date (UTC) into which the instant `millis`, in milliseconds
/// since the epoch, falls: year, month and day of month. `None` where the
/// instant lies outside the dates that can be represented.
pub uninterp spec fn utc_date_of(millis: i64) -> Option<(i32, u32, u32)>;

/// The day-unit into which the instant `millis` falls, where the calendar
/// knows that day.
pub open spec fn day_unit_of(millis: i64) -> Option<DayUnit> {
    match utc_date_of(millis) {
        Some((year, month, day)) => if is_calendar_date(year as int, month as int, day as int) {
            Some(DayUnit { year, month, day })
        } else {
            None
        },
        None => None,
    }
}

/// The instant at which the UTC day before the day of `now` began.
pub open spec fn yesterday_midnight(now: int) -> int {
    now - now % (MILLIS_PER_DAY as int) - MILLIS_PER_DAY
}

/// Calls `chrono::DateTime::<Utc>::from_timestamp_millis` and reads year,
/// month and day off the date-time it gives. The contract gives that result
/// its name and claims nothing more of it.
#[verifier::external_body]
fn utc_date_parts(millis: i64) -> (r: Option<(i32, u32, u32)>)
    ensures
        r == utc_date_of(millis),
{
    match chrono::DateTime::<chrono::Utc>::from_timestamp_millis(millis) {
        Some(at) => Some((at.year(), at.month(), at.day())),
        None => None,
    }
}

impl DayUnit {
    /// The day-unit is a day of the calendar.
    pub open spec fn wf(self) -> bool {
        is_calendar_date(self.year as int, self.month as int, self.day as int)
    }

    /// The day-unit of the given date, where the calendar has such a day.
    pub fn new(year: i32, month: u32, day: u32) -> (r: Option<DayUnit>)
        ensures
            r == if is_calendar_date(year as int, month as int, day as int) {
                Some(DayUnit { year, month, day })
            } else {
                None::<DayUnit>
            },
    {
        if month < 1 || month > 12 || day < 1 {
            return None;
        }
        let leap = year % 4 == 0 && (year % 100 != 0 || year % 400 == 0);
        let last: u32 = if month == 2 {
            if leap {
                29
            } else {
                28
            }
        } else if month == 4 || month == 6 || month == 9 || month == 11 {
            30
        } else {
            31
        };
        if day <= last {
            Some(DayUnit { year, month, day })
        } else {
            None
        }
    }

    /// The day-unit into which the instant `millis` (milliseconds since the
    /// epoch, UTC) falls.
    pub fn containing(millis: i64) -> (r: Option<DayUnit>)
        ensures
            r == day_unit_of(millis),
    {
        match utc_date_parts(millis) {
            Some((year, month, day)) => DayUnit::new(year, month, day),
            None => None,
        }
    }
}

/// A month-to-date history asks only for days that the calendar has, and for
/// none of them twice.
pub proof fn lemma_month_days_valid(today: DayUnit)
    requires
        today.wf(),
    ensures
        forall|i: int| 0 <= i < month_days(today).len() ==> (#[trigger] month_days(today)[i]).wf(),
        forall|i: int, j: int|
            0 <= i < j < month_days(today).len() ==> #[trigger] month_days(today)[i]
                != #[trigger] month_days(today)[j],
{
}

/// The day-units to retrieve for a month-to-date history: the first of the
/// month of `today`, and each day after it up to `today` itself.
pub fn month_to_date(today: DayUnit) -> (r: Vec<DayUnit>)
    ensures
        r@ == month_days(today),
{
    let mut out: Vec<DayUnit> = Vec::new();
    let mut d: u32 = 0;
    while d < today.day
        invariant
            d <= today.day,
            out@.len() == d,
            forall|i: int|
                0 <= i < d ==> #[trigger] out@[i] == (DayUnit {
                    year: today.year,
                    month: today.month,
                    day: (i + 1) as u32,
                }),
        decreases today.day - d,
    {
        out.push(DayUnit { year: today.year, month: today.month, day: d + 1 });
        d = d + 1;
    }
    assert(out@ =~= month_days(today));
    out
}

/// The two day-units and the cutoff of the recent-chatter leaderboard.
#[derive(Debug, Clone, Copy, PartialEq, Eq, Structural)]
pub struct RecentWindow {
    /// The day of the invocation.
    pub today: DayUnit,
    /// The day before it.
    pub yesterday: DayUnit,
    /// The instant at which `yesterday` began: a message of `yesterday`
    /// counts only if it was sent strictly after it.
    pub cutoff_millis: i64,
}

/// The window of an invocation at the instant `now`: `None` where the instant
/// a day earlier, or yesterday's midnight, lies below the range of `i64`, or
/// the calendar does not know one of the two days.
pub open spec fn window_at(now: i64) -> Option<RecentWindow> {
    if now - MILLIS_PER_DAY < i64::MIN || yesterday_midnight(now as int) < i64::MIN {
        None
    } else {
        match (day_unit_of(now), day_unit_of((now - MILLIS_PER_DAY) as i64)) {
            (Some(today), Some(yesterday)) => Some(
                RecentWindow {
                    today,
                    yesterday,
                    cutoff_millis: yesterday_midnight(now as int) as i64,
                },
            ),
            _ => None,
        }
    }
}

impl RecentWindow {
    /// The window of an invocation at the instant `now`, in milliseconds
    /// since the epoch.
    pub fn at(now: i64) -> (r: Option<RecentWindow>)
        ensures
            r == window_at(now),
    {
        let day_ago = match now.checked_sub(MILLIS_PER_DAY) {
            Some(t) => t,
            None => {
                return None;
            },
        };
        let into_day = match now.checked_rem_euclid(MILLIS_PER_DAY) {
            Some(t) => t,
            None => {
                return None;
            },
        };
        let cutoff = match day_ago.checked_sub(into_day) {
            Some(t) => t,
            None => {
                return None;
            },
        };
        let today = match DayUnit::containing(now) {
            Some(d) => d,
            None => {
                return None;
            },
        };
        let yesterday = match DayUnit::containing(day_ago) {
            Some(d) => d,
            None => {
                return None;
            },
        };
        Some(RecentWindow { today, yesterday, cutoff_millis: cutoff })
    }
}

} // verus!
