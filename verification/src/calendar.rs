//! The date of a point in time.
use vstd::prelude::*;
use vstd::string::*;
use crate::text::{decimal, decimal_text};

verus! {

/// Whether a year has a leap day.
pub open spec fn is_leap(year: int) -> bool {
    year % 4 == 0 && (year % 100 != 0 || year % 400 == 0)
}

/// How many days a year has.
pub open spec fn year_days(year: int) -> int {
    if is_leap(year) {
        366
    } else {
        365
    }
}

/// How many days a month has; months count from zero.
pub open spec fn month_days(year: int, month: int) -> int {
    if month == 1 {
        if is_leap(year) {
            29
        } else {
            28
        }
    } else if month == 3 || month == 5 || month == 8 || month == 10 {
        30
    } else {
        31
    }
}

/// How many days passed from the beginning of 1970 to that of `year`.
pub open spec fn days_before_year(year: int) -> int
    decreases year,
{
    if year <= 1970 {
        0
    } else {
        days_before_year(year - 1) + year_days(year - 1)
    }
}

/// How many days of a year pass before a month.
pub open spec fn days_before_month(year: int, month: int) -> int
    decreases month,
{
    if month <= 0 {
        0
    } else {
        days_before_month(year, month - 1) + month_days(year, month - 1)
    }
}

/// A date; month and day count from zero.
pub struct Date {
    pub year: int,
    pub month: int,
    pub day: int,
}

/// Whether a date exists in the calendar, from 1970 on.
pub open spec fn is_date(d: Date) -> bool {
    &&& 1970 <= d.year
    &&& 0 <= d.month < 12
    &&& 0 <= d.day < month_days(d.year, d.month)
}

/// How many days passed from the beginning of 1970 to a date.
pub open spec fn day_number(d: Date) -> int {
    days_before_year(d.year) + days_before_month(d.year, d.month) + d.day
}

proof fn lemma_years(a: int, b: int)
    requires
        1970 <= a < b,
    ensures
        days_before_year(a) + year_days(a) <= days_before_year(b),
    decreases b,
{
    if a < b - 1 {
        lemma_years(a, b - 1);
    }
}

proof fn lemma_months(year: int, a: int, b: int)
    requires
        0 <= a < b,
    ensures
        days_before_month(year, a) + month_days(year, a) <= days_before_month(year, b),
    decreases b,
{
    if a < b - 1 {
        lemma_months(year, a, b - 1);
    }
}

proof fn lemma_year_sum(year: int)
    ensures
        days_before_month(year, 12) == year_days(year),
{
    reveal_with_fuel(days_before_month, 13);
}

/// No two dates have the same number of days before them.
pub proof fn day_numbers_differ(a: Date, b: Date)
    requires
        is_date(a),
        is_date(b),
        day_number(a) == day_number(b),
    ensures
        a == b,
{
    lemma_year_sum(a.year);
    lemma_year_sum(b.year);
    lemma_months(a.year, a.month, 12);
    lemma_months(b.year, b.month, 12);
    if a.year < b.year {
        lemma_years(a.year, b.year);
        lemma_months_not_negative(b.year, b.month);
    } else if b.year < a.year {
        lemma_years(b.year, a.year);
        lemma_months_not_negative(a.year, a.month);
    } else if a.month < b.month {
        lemma_months(a.year, a.month, b.month);
    } else if b.month < a.month {
        lemma_months(a.year, b.month, a.month);
    }
}

proof fn lemma_months_not_negative(year: int, month: int)
    ensures
        days_before_month(year, month) >= 0,
    decreases month,
{
    if month > 0 {
        lemma_months_not_negative(year, month - 1);
    }
}

/// A number with at least two digits.
pub open spec fn two_digits(n: int) -> Seq<char> {
    if n < 10 {
        seq!['0'] + decimal(n as nat)
    } else {
        decimal(n as nat)
    }
}

/// A date as `YYYY-MM-DD`.
pub open spec fn date_line(d: Date) -> Seq<char> {
    decimal(d.year as nat) + "-"@ + two_digits(d.month + 1) + "-"@ + two_digits(d.day + 1)
}

fn leap(year: u64) -> (r: bool)
    ensures
        r == is_leap(year as int),
{
    year % 4 == 0 && (year % 100 != 0 || year % 400 == 0)
}

fn days_of_month(year: u64, month: u64) -> (r: u64)
    ensures
        r == month_days(year as int, month as int),
{
    if month == 1 {
        if leap(year) {
            29
        } else {
            28
        }
    } else if month == 3 || month == 5 || month == 8 || month == 10 {
        30
    } else {
        31
    }
}

fn two_digit_text(n: u64) -> (r: String)
    ensures
        r@ == two_digits(n as int),
{
    if n < 10 {
        let mut r = String::new();
        r.push('0');
        assert(r@ =~= seq!['0']);
        r.append(decimal_text(n as u128).as_str());
        r
    } else {
        decimal_text(n as u128)
    }
}

/// The date of a point in time, in seconds since the beginning of 1970: the one
/// with as many days before it.
pub fn date_of_seconds(seconds: u64) -> (r: String)
    ensures
        exists|d: Date| is_date(d) && day_number(d) == seconds / 86400 && r@ == #[trigger] date_line(d),
{
    let days: u64 = seconds / 86400;
    let mut year: u64 = 1970;
    let mut left: u64 = days;
    let mut length: u64 = 365;
    while left >= length
        invariant
            1970 <= year <= 1970 + (days - left),
            days <= u64::MAX / 86400,
            left <= days,
            length == year_days(year as int),
            days_before_year(year as int) + left == days,
        decreases left,
    {
        left = left - length;
        year = year + 1;
        length = if leap(year) {
            366
        } else {
            365
        };
    }
    let mut month: u64 = 0;
    let mut day: u64 = left;
    proof {
        lemma_year_sum(year as int);
    }
    while month < 12 && day >= days_of_month(year, month)
        invariant
            month <= 12,
            left < year_days(year as int),
            days_before_month(year as int, 12) == year_days(year as int),
            days_before_month(year as int, month as int) + day == left,
        decreases 12 - month,
    {
        day = day - days_of_month(year, month);
        month = month + 1;
    }
    let ghost d = Date { year: year as int, month: month as int, day: day as int };
    assert(is_date(d));
    assert(day_number(d) == days);
    let mut r = decimal_text(year as u128);
    r.append("-");
    r.append(two_digit_text(month + 1).as_str());
    r.append("-");
    r.append(two_digit_text(day + 1).as_str());
    assert(r@ == date_line(d));
    r
}

} // verus!
