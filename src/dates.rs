//! Day numbers of the proleptic Gregorian calendar, and age thresholds in days.
use vstd::prelude::*;

use chrono::{Datelike, NaiveDate};

verus! {

pub open spec fn is_leap_year(y: int) -> bool {
    (y % 4 == 0 && y % 100 != 0) || y % 400 == 0
}

pub open spec fn days_in_month(y: int, m: int) -> int {
    if m == 2 {
        if is_leap_year(y) {
            29
        } else {
            28
        }
    } else if m == 4 || m == 6 || m == 9 || m == 11 {
        30
    } else {
        31
    }
}

/// Days of the year `y` before the first of month `m`.
pub open spec fn days_before_month(y: int, m: int) -> int
    decreases m,
{
    if m <= 1 {
        0
    } else {
        days_before_month(y, m - 1) + days_in_month(y, m - 1)
    }
}

pub open spec fn is_date(y: int, m: int, d: int) -> bool {
    1 <= m <= 12 && 1 <= d <= days_in_month(y, m)
}

/// The day number of a date: January 1 of year 1 is day 1, year 0 is a leap year.
pub open spec fn day_number(y: int, m: int, d: int) -> int {
    365 * (y - 1) + (y - 1) / 4 - (y - 1) / 100 + (y - 1) / 400 + days_before_month(y, m) + d
}

/// The anniversary, `age` years on, of a date; for 29 February in a common year,
/// 1 March.
pub open spec fn anniversary_day(y: int, m: int, d: int, age: int) -> int {
    if is_date(y + age, m, d) {
        day_number(y + age, m, d)
    } else {
        day_number(y + age, 3, 1)
    }
}

/// The years that the calendar covers.
pub open spec fn in_calendar(y: int) -> bool {
    -262143 <= y <= 262142
}

/// Relies on chrono's `NaiveDate::from_num_days_from_ce_opt` and `Datelike`'s
/// `year`, `month`, `day`: the date of a day number, for dates of the years that
/// chrono covers (`MIN_YEAR` to `MAX_YEAR`).
#[verifier::external_body]
fn chrono_date_of(n: i32) -> (r: Option<(i32, u32, u32)>)
    ensures
        r matches Some((y, m, d)) ==> is_date(y as int, m as int, d as int) && in_calendar(
            y as int,
        ) && day_number(y as int, m as int, d as int) == n,
        forall|y: int, m: int, d: int|
            is_date(y, m, d) && in_calendar(y) && #[trigger] day_number(y, m, d) == n ==> r
                == Some((y as i32, m as u32, d as u32)),
{
    NaiveDate::from_num_days_from_ce_opt(n).map(|x| (x.year(), x.month(), x.day()))
}

/// Relies on chrono's `NaiveDate::from_ymd_opt` and `Datelike::num_days_from_ce`:
/// the day number of a date exactly when the date exists and its year lies
/// between `MIN_YEAR` and `MAX_YEAR`.
#[verifier::external_body]
fn chrono_day_number(y: i32, m: u32, d: u32) -> (r: Option<i32>)
    ensures
        r is Some == (is_date(y as int, m as int, d as int) && in_calendar(y as int)),
        r matches Some(n) ==> n == day_number(y as int, m as int, d as int),
{
    NaiveDate::from_ymd_opt(y, m, d).map(|x| x.num_days_from_ce())
}

/// The day number of a date; `None` for a date that does not exist or lies
/// beyond the calendar's years.
pub fn date_to_day_number(year: i32, month: u32, day: u32) -> (r: Option<i32>)
    ensures
        r is Some == (is_date(year as int, month as int, day as int) && in_calendar(year as int)),
        r matches Some(n) ==> n == day_number(year as int, month as int, day as int),
{
    chrono_day_number(year, month, day)
}

/// The threshold in days for an age of `age_years` years, from the birthday
/// (a day number) to its anniversary that many years on.
pub open spec fn delta_for_age(y: int, m: int, d: int, age: int) -> int {
    anniversary_day(y, m, d, age) - day_number(y, m, d)
}

/// Whether the threshold for a birthday on (y, m, d) and an age can be had:
/// both years in the calendar, and the threshold fits an `i32`.
pub open spec fn delta_defined(y: int, m: int, d: int, age: int) -> bool {
    &&& in_calendar(y)
    &&& in_calendar(y + age)
    &&& i32::MIN <= delta_for_age(y, m, d, age) <= i32::MAX
}

/// The threshold in days for an age of `age_years` years: from the birthday to
/// its anniversary that many years on. `None` exactly where the calendar's
/// years end or the threshold does not fit.
pub fn age_to_delta(birthday: i32, age_years: i32) -> (r: Option<i32>)
    ensures
        forall|y: int, m: int, d: int|
            is_date(y, m, d) && in_calendar(y) && #[trigger] day_number(y, m, d) == birthday ==> (
            r is Some == delta_defined(y, m, d, age_years as int)) && (r matches Some(delta)
                ==> delta == delta_for_age(y, m, d, age_years as int)),
        r is Some ==> exists|y: int, m: int, d: int|
            is_date(y, m, d) && in_calendar(y) && #[trigger] day_number(y, m, d) == birthday,
{
    let (y, m, d) = match chrono_date_of(birthday) {
        Some(t) => t,
        None => return None,
    };
    assert(day_number(y as int, m as int, d as int) == birthday);
    let y2: i32 = match y.checked_add(age_years) {
        Some(v) => v,
        None => return None,
    };
    let ann: i32 = match chrono_day_number(y2, m, d) {
        Some(n) => n,
        None => {
            if is_date_exec(y2, m, d) {
                return None;
            }
            match chrono_day_number(y2, 3, 1) {
                Some(n) => n,
                None => return None,
            }
        },
    };
    let delta: i64 = ann as i64 - birthday as i64;
    if delta < i32::MIN as i64 || delta > i32::MAX as i64 {
        return None;
    }
    Some(delta as i32)
}

/// Whether a date exists.
fn is_date_exec(y: i32, m: u32, d: u32) -> (r: bool)
    ensures
        r == is_date(y as int, m as int, d as int),
{
    if m < 1 || m > 12 || d < 1 {
        return false;
    }
    let dim: u32 = if m == 2 {
        if (y % 4 == 0 && y % 100 != 0) || y % 400 == 0 {
            29
        } else {
            28
        }
    } else if m == 4 || m == 6 || m == 9 || m == 11 {
        30
    } else {
        31
    };
    d <= dim
}

} // verus!
