//! The calendar date of a moment of the clock.
//!
//! Error messages show a date as an example of one, and the date they show
//! is that of the day. The clock itself is the caller's: it hands in the
//! seconds since the first of January 1970, and the calendar here says
//! what day that is.

use crate::date::Date;
use vstd::prelude::*;

verus! {

/// The year has a twenty-ninth of February.
pub open spec fn is_leap(year: int) -> bool {
    year % 4 == 0 && (year % 100 != 0 || year % 400 == 0)
}

/// How many days the year has.
pub open spec fn year_length(year: int) -> int {
    if is_leap(year) {
        366
    } else {
        365
    }
}

/// How many days the month has in that year.
pub open spec fn month_length(year: int, month: int) -> int {
    if month == 2 {
        if is_leap(year) {
            29
        } else {
            28
        }
    } else if month == 4 || month == 6 || month == 9 || month == 11 {
        30
    } else {
        31
    }
}

/// How many days lie between the first of January 1970 and the first of
/// January of `year`.
pub open spec fn days_before_year(year: int) -> int
    decreases year,
{
    if year <= 1970 {
        0
    } else {
        days_before_year(year - 1) + year_length(year - 1)
    }
}

/// How many days of `year` lie before the first of `month`.
pub open spec fn days_before_month(year: int, month: int) -> int
    decreases month,
{
    if month <= 1 {
        0
    } else {
        days_before_month(year, month - 1) + month_length(year, month - 1)
    }
}

/// The date is a day of the calendar, in 1970 or later.
pub open spec fn on_calendar(date: Date) -> bool {
    1970 <= date.year && 1 <= date.month <= 12 && 1 <= date.day <= month_length(
        date.year as int,
        date.month as int,
    )
}

/// How many days lie between the first of January 1970 and the date.
pub open spec fn day_number(date: Date) -> int {
    days_before_year(date.year as int) + days_before_month(date.year as int, date.month as int)
        + date.day - 1
}

/// The days of the calendar are numbered in order: a later date has a
/// greater number, so no two dates share one.
pub proof fn lemma_day_number_ordered(a: Date, b: Date)
    requires
        on_calendar(a),
        on_calendar(b),
        a.earlier(b),
    ensures
        day_number(a) < day_number(b),
{
    if a.year < b.year {
        lemma_days_in_year(a);
        lemma_years_ordered(a.year + 1, b.year as int);
        lemma_days_in_year(b);
    } else if a.month < b.month {
        lemma_months_ordered(a.year as int, a.month + 1, b.month as int);
    }
}

/// A date lies within its year.
proof fn lemma_days_in_year(date: Date)
    requires
        on_calendar(date),
    ensures
        0 <= days_before_month(date.year as int, date.month as int),
        days_before_month(date.year as int, date.month as int) + date.day <= year_length(
            date.year as int,
        ),
{
    let y = date.year as int;
    assert(days_before_month(y, 1) == 0);
    assert(days_before_month(y, 2) == 31);
    assert(days_before_month(y, 3) == 31 + month_length(y, 2));
    assert(days_before_month(y, 4) == days_before_month(y, 3) + 31);
    assert(days_before_month(y, 5) == days_before_month(y, 4) + 30);
    assert(days_before_month(y, 6) == days_before_month(y, 5) + 31);
    assert(days_before_month(y, 7) == days_before_month(y, 6) + 30);
    assert(days_before_month(y, 8) == days_before_month(y, 7) + 31);
    assert(days_before_month(y, 9) == days_before_month(y, 8) + 31);
    assert(days_before_month(y, 10) == days_before_month(y, 9) + 30);
    assert(days_before_month(y, 11) == days_before_month(y, 10) + 31);
    assert(days_before_month(y, 12) == days_before_month(y, 11) + 30);
}

/// A year is as long as its twelve months.
proof fn lemma_twelve_months(year: int)
    ensures
        days_before_month(year, 12) + 31 == year_length(year),
{
    assert(days_before_month(year, 1) == 0);
    assert(days_before_month(year, 2) == 31);
    assert(days_before_month(year, 3) == 31 + month_length(year, 2));
    assert(days_before_month(year, 4) == days_before_month(year, 3) + 31);
    assert(days_before_month(year, 5) == days_before_month(year, 4) + 30);
    assert(days_before_month(year, 6) == days_before_month(year, 5) + 31);
    assert(days_before_month(year, 7) == days_before_month(year, 6) + 30);
    assert(days_before_month(year, 8) == days_before_month(year, 7) + 31);
    assert(days_before_month(year, 9) == days_before_month(year, 8) + 31);
    assert(days_before_month(year, 10) == days_before_month(year, 9) + 30);
    assert(days_before_month(year, 11) == days_before_month(year, 10) + 31);
    assert(days_before_month(year, 12) == days_before_month(year, 11) + 30);
}

/// The first days of the years are numbered in order.
proof fn lemma_years_ordered(a: int, b: int)
    requires
        1970 <= a <= b,
    ensures
        days_before_year(a) <= days_before_year(b),
    decreases b - a,
{
    if a < b {
        lemma_years_ordered(a, b - 1);
    }
}

/// The first days of the months of a year are numbered in order.
proof fn lemma_months_ordered(year: int, a: int, b: int)
    requires
        1 <= a <= b,
    ensures
        days_before_month(year, a) <= days_before_month(year, b),
    decreases b - a,
{
    if a < b {
        lemma_months_ordered(year, a, b - 1);
    }
}

/// Tells whether the year has a twenty-ninth of February.
pub fn leap_year(year: u16) -> (b: bool)
    ensures
        b == is_leap(year as int),
{
    year % 4 == 0 && (year % 100 != 0 || year % 400 == 0)
}

/// How many days the month has in that year.
pub fn days_in_month(year: u16, month: u8) -> (days: u64)
    ensures
        days == month_length(year as int, month as int),
{
    if month == 2 {
        if leap_year(year) {
            29
        } else {
            28
        }
    } else if month == 4 || month == 6 || month == 9 || month == 11 {
        30
    } else {
        31
    }
}

/// How many days the year has.
pub fn days_in_year(year: u16) -> (days: u64)
    ensures
        days == year_length(year as int),
{
    if leap_year(year) {
        366
    } else {
        365
    }
}

impl Date {
    /// The date of the day that lies `days` days after the first of January
    /// 1970, unless its year is beyond the limit of a date.
    pub fn on_day(days: u64) -> (out: Option<Date>)
        ensures
            out is Some <==> days < days_before_year(3000),
            match out {
                Some(date) => date.valid() && on_calendar(date) && day_number(date) == days,
                None => true,
            },
    {
        let mut year: u16 = 1970;
        let mut rest: u64 = days;
        let mut length = days_in_year(year);
        while rest >= length
            invariant
                1970 <= year < 3000,
                days == days_before_year(year as int) + rest,
                length == year_length(year as int),
            decreases 3000 - year,
        {
            if year == 2999 {
                return None;
            }
            rest = rest - length;
            year = year + 1;
            length = days_in_year(year);
        }
        proof {
            lemma_years_ordered(year + 1, 3000);
        }
        let mut month: u8 = 1;
        let mut length = days_in_month(year, month);
        while rest >= length
            invariant
                1970 <= year < 3000,
                1 <= month <= 12,
                days == days_before_year(year as int) + days_before_month(
                    year as int,
                    month as int,
                ) + rest,
                days_before_month(year as int, month as int) + rest < year_length(year as int),
                length == month_length(year as int, month as int),
            decreases 12 - month,
        {
            proof {
                lemma_twelve_months(year as int);
            }
            rest = rest - length;
            month = month + 1;
            length = days_in_month(year, month);
        }
        Some(Date { year, month, day: (rest + 1) as u8 })
    }

    /// The date of the moment that lies `seconds` seconds after the start of
    /// 1970, or the last date there is if the moment lies after that.
    pub fn at_second(seconds: u64) -> (out: Date)
        ensures
            out.valid(),
            seconds / 86400 < days_before_year(3000) ==> on_calendar(out) && day_number(out)
                == seconds / 86400,
            seconds / 86400 >= days_before_year(3000) ==> out == (Date {
                year: 2999,
                month: 12,
                day: 31,
            }),
    {
        match Date::on_day(seconds / 86400) {
            Some(date) => date,
            None => Date { year: 2999, month: 12, day: 31 },
        }
    }
}

} // verus!
