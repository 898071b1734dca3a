//! The Gregorian calendar.
use vstd::prelude::*;

verus! {

/// Whether `year` has a 29th of February.
pub open spec fn is_leap_year(year: int) -> bool {
    year % 4 == 0 && (year % 100 != 0 || year % 400 == 0)
}

/// The number of days of a year.
pub open spec fn days_in_year(year: int) -> int {
    if is_leap_year(year) {
        366
    } else {
        365
    }
}

/// The number of days of a month, which is counted from 1 on.
pub open spec fn days_in_month(year: int, month: int) -> int {
    if month == 2 {
        if is_leap_year(year) {
            29
        } else {
            28
        }
    } else if month == 4 || month == 6 || month == 9 || month == 11 {
        30
    } else {
        31
    }
}

/// Whether there is such a date.
pub open spec fn is_date(year: int, month: int, day: int) -> bool {
    1 <= month <= 12 && 1 <= day <= days_in_month(year, month)
}

/// The number of days from the start of 1970 to the start of a later year.
pub open spec fn days_before_year(year: int) -> int
    decreases year - 1970,
{
    if year <= 1970 {
        0
    } else {
        days_before_year(year - 1) + days_in_year(year - 1)
    }
}

/// The number of days from the start of a year to the start of one of its months.
pub open spec fn days_before_month(year: int, month: int) -> int
    decreases month,
{
    if month <= 1 {
        0
    } else {
        days_before_month(year, month - 1) + days_in_month(year, month - 1)
    }
}

/// The number of days from the 1st of January 1970 to a later date.
pub open spec fn days_since_epoch(year: int, month: int, day: int) -> int {
    days_before_year(year) + days_before_month(year, month) + (day - 1)
}

/// The number of microseconds in a number of days and a time of day.
pub open spec fn micros_of(days: int, hour: int, minute: int, second: int) -> int {
    (((days * 24 + hour) * 60 + minute) * 60 + second) * 1_000_000
}

/// The number of days from the 1st of January 1970 to a date, computed from a year that is
/// taken to start in March, so that its leap day comes last.
pub open spec fn march_days(year: int, month: int, day: int) -> int {
    let (m, y) = if month > 2 {
        (month - 2, year)
    } else {
        (month + 10, year - 1)
    };
    y / 4 - y / 100 + y / 400 + 367 * m / 12 + day + y * 365 - 719_499
}

/// The days before a year, in terms of the leap days before it.
pub proof fn lemma_days_before_year(year: int)
    requires
        1970 <= year,
    ensures
        days_before_year(year) == 365 * year + (year - 1) / 4 - (year - 1) / 100 + (year - 1) / 400
            - 719_527,
    decreases year,
{
    if year > 1970 {
        lemma_days_before_year(year - 1);
    }
}

/// Counting days from March on gives the number of days since the epoch.
pub proof fn law_march_days(year: int, month: int, day: int)
    requires
        1970 <= year,
        is_date(year, month, day),
    ensures
        march_days(year, month, day) == days_since_epoch(year, month, day),
{
    lemma_days_before_year(year);
    reveal_with_fuel(days_before_month, 13);
    if month == 1 {
    } else if month == 2 {
    } else if month == 3 {
    } else if month == 4 {
    } else if month == 5 {
    } else if month == 6 {
    } else if month == 7 {
    } else if month == 8 {
    } else if month == 9 {
    } else if month == 10 {
    } else if month == 11 {
    } else {
    }
}

/// A year is a leap year exactly if it is a multiple of 4 but not of 100, or a multiple of 400; and
/// its February, and so the year, then has a day more.
pub proof fn law_leap_years(year: int)
    ensures
        days_in_month(year, 2) - 28 == days_in_year(year) - 365,
        (exists|q: int| year == #[trigger] (400 * q)) ==> days_in_month(year, 2) == 29,
        (exists|q: int| year == #[trigger] (100 * q)) && !(exists|q: int|
            year == #[trigger] (400 * q)) ==> days_in_month(year, 2) == 28,
        (exists|q: int| year == #[trigger] (4 * q)) && !(exists|q: int|
            year == #[trigger] (100 * q)) ==> days_in_month(year, 2) == 29,
        !(exists|q: int| year == #[trigger] (4 * q)) ==> days_in_month(year, 2) == 28,
{
    assert(year % 400 == 0 ==> year == 400 * (year / 400));
    assert(year % 100 == 0 ==> year == 100 * (year / 100));
    assert(year % 4 == 0 ==> year == 4 * (year / 4));
}

/// The months of a year add up to the year, and no month but February depends on the year: those
/// before August alternate between 31 and 30 days, and so do those from August on.
pub proof fn law_months_make_a_year(year: int, month: int)
    requires
        1 <= month <= 12,
    ensures
        days_before_month(year, 12) + days_in_month(year, 12) == days_in_year(year),
        month != 2 ==> days_in_month(year, month) == 30 + (month + month / 8) % 2,
{
    reveal_with_fuel(days_before_month, 13);
}

/// The day count starts with 0 on the 1st of January 1970 and advances by 1 from each date to the
/// next one: within a month, from a month to the next, and from a year to the next.
pub proof fn law_days_are_counted(year: int, month: int, day: int)
    requires
        1970 <= year,
        is_date(year, month, day),
    ensures
        days_since_epoch(1970, 1, 1) == 0,
        is_date(year, month, day + 1) ==> days_since_epoch(year, month, day + 1)
            == days_since_epoch(year, month, day) + 1,
        !is_date(year, month, day + 1) && month < 12 ==> is_date(year, month + 1, 1)
            && days_since_epoch(year, month + 1, 1) == days_since_epoch(year, month, day) + 1,
        !is_date(year, month, day + 1) && month == 12 ==> is_date(year + 1, 1, 1)
            && days_since_epoch(year + 1, 1, 1) == days_since_epoch(year, month, day) + 1,
{
    reveal_with_fuel(days_before_month, 13);
    reveal_with_fuel(days_before_year, 2);
}

/// There are dates from the 1st on in each of the months 1 to 12, up to the last day of the month.
pub proof fn law_dates(year: int, month: int, day: int)
    ensures
        is_date(year, month, day) <==> 0 < month && month < 13 && 0 < day && day < days_in_month(
            year,
            month,
        ) + 1,
{
}

/// A minute has 60 seconds, an hour 60 minutes, a day 24 hours, and a second a million
/// microseconds.
pub proof fn law_units_of_time(days: int, hour: int, minute: int, second: int)
    ensures
        micros_of(0, 0, 0, 0) == 0,
        micros_of(days, hour, minute, second + 1) == micros_of(days, hour, minute, second)
            + 1_000_000,
        micros_of(days, hour, minute + 1, second) == micros_of(days, hour, minute, second + 60),
        micros_of(days, hour + 1, minute, second) == micros_of(days, hour, minute + 60, second),
        micros_of(days + 1, hour, minute, second) == micros_of(days, hour + 24, minute, second),
{
}

/// Counting from March on goes on beyond the months of a year: it advances with the days; the
/// months 0, 13 and 14 are the last of the year before and the first two of the year after; from
/// the third on, twelve months have 367 days; and 400 years have 146097 days.
pub proof fn law_march_days_go_on(year: int, month: int, day: int, days: int)
    requires
        0 <= month,
    ensures
        march_days(year, month, day + days) == march_days(year, month, day) + days,
        march_days(year, 0, day) == march_days(year - 1, 12, day),
        march_days(year, 13, day) == march_days(year + 1, 1, day),
        march_days(year, 14, day) == march_days(year + 1, 2, day),
        2 < month ==> march_days(year, month + 12, day) == march_days(year, month, day) + 367,
        march_days(year + 400, month, day) == march_days(year, month, day) + 146_097,
{
}


} // verus!
