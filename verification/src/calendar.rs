use chrono::{Datelike, Duration, Local, NaiveDate, Timelike};
use vstd::prelude::*;

verus! {

/// The earliest year a `Date` can hold; it is the earliest of chrono's `NaiveDate`.
pub const MIN_YEAR: i32 = -262143;

/// The latest year a `Date` can hold; it is the latest of chrono's `NaiveDate`.
pub const MAX_YEAR: i32 = 262142;

/// A day of the proleptic Gregorian calendar as three numbers. Year 0 is 1 BCE.
pub struct DateView {
    pub year: int,
    pub month: int,
    pub day: int,
}

/// An instant as far as backups are labelled: the local date and the hour of day.
pub struct TimestampView {
    pub date: DateView,
    pub hour: int,
}

/// Whether February has 29 days in `year`.
pub open spec fn is_leap_year(year: int) -> bool {
    year % 4 == 0 && (year % 100 != 0 || year % 400 == 0)
}

/// The number of days of a month, from 1 for January to 12 for December.
pub open spec fn days_in_month(year: int, month: int) -> int {
    if month == 2 {
        if is_leap_year(year) {
            29
        } else {
            28
        }
    } else if month == 4 || month == 6 || month == 9 || month == 11 {
        30
    } else {
        31
    }
}

/// Whether the three numbers name a day that exists.
pub open spec fn is_calendar_date(d: DateView) -> bool {
    &&& 1 <= d.month <= 12
    &&& 1 <= d.day <= days_in_month(d.year, d.month)
}

/// Whether `d` exists and lies in the years that a `Date` can hold.
pub open spec fn representable(d: DateView) -> bool {
    &&& MIN_YEAR <= d.year <= MAX_YEAR
    &&& is_calendar_date(d)
}

/// The day after `d`.
pub open spec fn following_day(d: DateView) -> DateView {
    if d.day < days_in_month(d.year, d.month) {
        DateView { year: d.year, month: d.month, day: d.day + 1 }
    } else if d.month < 12 {
        DateView { year: d.year, month: d.month + 1, day: 1 }
    } else {
        DateView { year: d.year + 1, month: 1, day: 1 }
    }
}

/// Calendar order: by year, then month, then day.
pub open spec fn date_le(a: DateView, b: DateView) -> bool {
    a.year < b.year || (a.year == b.year && (a.month < b.month || (a.month == b.month && a.day
        <= b.day)))
}

/// A calendar day between the first of January of `MIN_YEAR` and the last of
/// December of `MAX_YEAR`.
#[derive(Clone, Copy, Debug, PartialEq, Eq, Structural)]
pub struct Date {
    year: i32,
    month: u32,
    day: u32,
}

impl View for Date {
    type V = DateView;

    closed spec fn view(&self) -> DateView {
        DateView { year: self.year as int, month: self.month as int, day: self.day as int }
    }
}

fn leap_year(year: i32) -> (leap: bool)
    requires
        MIN_YEAR <= year <= MAX_YEAR,
    ensures
        leap == is_leap_year(year as int),
{
    // 262400 is a multiple of 400, so the shift keeps every remainder and makes the year positive
    let shifted: u32 = (year + 262400) as u32;
    shifted % 4 == 0 && (shifted % 100 != 0 || shifted % 400 == 0)
}

fn month_length(year: i32, month: u32) -> (days: u32)
    requires
        MIN_YEAR <= year <= MAX_YEAR,
    ensures
        days == days_in_month(year as int, month as int),
{
    if month == 2 {
        if leap_year(year) {
            29
        } else {
            28
        }
    } else if month == 4 || month == 6 || month == 9 || month == 11 {
        30
    } else {
        31
    }
}

impl Date {
    /// Every `Date` is a day that exists, in a year between `MIN_YEAR` and `MAX_YEAR`.
    #[verifier::type_invariant]
    pub open spec fn wf(&self) -> bool {
        representable(self@)
    }

    /// The date with the given year, month and day, if there is such a day and
    /// its year is between `MIN_YEAR` and `MAX_YEAR`.
    pub fn from_ymd_opt(year: i32, month: u32, day: u32) -> (date: Option<Date>)
        ensures
            date is Some <==> representable(
                DateView { year: year as int, month: month as int, day: day as int },
            ),
            date matches Some(d) ==> d@ == (DateView {
                year: year as int,
                month: month as int,
                day: day as int,
            }),
    {
        if year < MIN_YEAR || year > MAX_YEAR || month < 1 || month > 12 || day < 1 {
            return None;
        }
        if day > month_length(year, month) {
            return None;
        }
        Some(Date { year, month, day })
    }

    /// The year; 0 is 1 BCE.
    pub fn year(&self) -> (year: i32)
        ensures
            year == self@.year,
            MIN_YEAR <= year <= MAX_YEAR,
    {
        proof {
            use_type_invariant(self);
        }
        self.year
    }

    /// The month, from 1 to 12.
    pub fn month(&self) -> (month: u32)
        ensures
            month == self@.month,
            1 <= month <= 12,
    {
        proof {
            use_type_invariant(self);
        }
        self.month
    }

    /// The day of the month, from 1.
    pub fn day(&self) -> (day: u32)
        ensures
            day == self@.day,
            1 <= day <= days_in_month(self@.year, self@.month),
    {
        proof {
            use_type_invariant(self);
        }
        self.day
    }
}

/// Whether `t` is a day a `Date` can hold together with an hour of the day.
pub open spec fn is_timestamp(t: TimestampView) -> bool {
    &&& representable(t.date)
    &&& 0 <= t.hour < 24
}

/// A local date and the hour of day, from 0 to 23.
#[derive(Clone, Copy, Debug, PartialEq, Eq, Structural)]
pub struct Timestamp {
    date: Date,
    hour: u32,
}

impl View for Timestamp {
    type V = TimestampView;

    closed spec fn view(&self) -> TimestampView {
        TimestampView { date: self.date@, hour: self.hour as int }
    }
}

impl Timestamp {
    /// Every `Timestamp` holds an hour from 0 to 23.
    #[verifier::type_invariant]
    pub open spec fn wf(&self) -> bool {
        is_timestamp(self@)
    }

    /// The given hour of the given day, if `hour` is an hour of the day.
    pub fn new(date: Date, hour: u32) -> (stamp: Option<Timestamp>)
        ensures
            stamp is Some <==> hour < 24,
            stamp matches Some(t) ==> t@ == (TimestampView { date: date@, hour: hour as int }),
    {
        proof {
            use_type_invariant(date);
        }
        if hour < 24 {
            Some(Timestamp { date, hour })
        } else {
            None
        }
    }

    /// The local date.
    pub fn date(&self) -> (date: Date)
        ensures
            date@ == self@.date,
    {
        self.date
    }

    /// The hour of the day, from 0 to 23.
    pub fn hour(&self) -> (hour: u32)
        ensures
            hour == self@.hour,
            hour < 24,
    {
        proof {
            use_type_invariant(self);
        }
        self.hour
    }
}

/// Calls chrono's `Local::now()` and keeps the local date and hour. The result
/// depends on the clock and the time zone, so the contract claims only what
/// holds of every reading: the date is one chrono can hold and the hour is below
/// 24. chrono panics where the system clock stands before 1970 or past the last
/// instant it can hold; no argument of this function can rule that out.
#[verifier::external_body]
pub(crate) fn local_now() -> (now: Timestamp)
    ensures
        is_timestamp(now@),
{
    let now = Local::now().naive_local();
    Timestamp {
        date: Date { year: now.year(), month: now.month(), day: now.day() },
        hour: now.hour(),
    }
}

/// Calls chrono's `NaiveDate + Duration::days(1)`. The contract claims that the
/// sum is the next day of the proleptic Gregorian calendar. The addition panics
/// past the last day chrono can hold, which the second precondition rules out.
/// The date reaches chrono through `NaiveDate::from_ymd_opt`, which takes every
/// representable date.
#[verifier::external_body]
fn day_after(date: Date) -> (next: Date)
    requires
        representable(date@),
        representable(following_day(date@)),
    ensures
        next@ == following_day(date@),
{
    let today = NaiveDate::from_ymd_opt(date.year, date.month, date.day).unwrap();
    let next = today + Duration::days(1);
    Date { year: next.year(), month: next.month(), day: next.day() }
}

/// Whether `date` is the last day of its month: whether the day after it falls
/// in another month.
pub fn is_last_day_of_month(date: Date) -> (last: bool)
    ensures
        last == (following_day(date@).month != date@.month),
        last == (date@.day == days_in_month(date@.year, date@.month)),
{
    proof {
        use_type_invariant(date);
    }
    if date.year == MAX_YEAR && date.month == 12 && date.day == 31 {
        true
    } else {
        let next = day_after(date);
        next.month != date.month
    }
}

/// For every day of the calendar, the day after it falls in a different month
/// exactly when the day is the last of its month; and the following day's month
/// number differs exactly when its year and month differ as a pair.
pub proof fn lemma_month_ends_where_next_day_leaves(d: DateView)
    requires
        is_calendar_date(d),
    ensures
        is_calendar_date(following_day(d)),
        following_day(d).month != d.month <==> d.day == days_in_month(d.year, d.month),
        following_day(d).month != d.month <==> (following_day(d).year, following_day(d).month) != (
            d.year,
            d.month,
        ),
{
}

/// `following_day` is the successor in calendar order: it is later than the
/// day itself, and no day of the calendar lies between the two.
pub proof fn lemma_following_day_is_next(d: DateView, other: DateView)
    requires
        is_calendar_date(d),
        is_calendar_date(other),
    ensures
        date_le(d, following_day(d)),
        !date_le(following_day(d), d),
        date_le(other, d) || date_le(following_day(d), other),
{
}

} // verus!
