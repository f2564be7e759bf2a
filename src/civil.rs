//! Calendar dates written `YYYY-MM-DD`, and the day after a date.
use crate::number::{digit_of, digit_value};
use vstd::prelude::*;

verus! {

/// Gregorian leap years.
pub open spec fn is_leap(year: int) -> bool {
    (year % 4 == 0 && year % 100 != 0) || year % 400 == 0
}

/// Days in a month of a year.
pub open spec fn days_in_month(year: int, month: int) -> int {
    if month == 2 {
        if is_leap(year) {
            29
        } else {
            28
        }
    } else if month == 4 || month == 6 || month == 9 || month == 11 {
        30
    } else {
        31
    }
}

pub open spec fn is_digit_at(s: Seq<char>, i: int) -> bool {
    digit_of(s[i], 10) is Some
}

/// Value of the two decimal digits at `i` and `i + 1`.
pub open spec fn two_digits(s: Seq<char>, i: int) -> int {
    digit_of(s[i], 10)->0 * 10 + digit_of(s[i + 1], 10)->0
}

/// The year, month and day of a valid date written `YYYY-MM-DD`.
pub open spec fn date_of(s: Seq<char>) -> Option<(int, int, int)> {
    if s.len() == 10 && s[4] == '-' && s[7] == '-' && is_digit_at(s, 0) && is_digit_at(s, 1)
        && is_digit_at(s, 2) && is_digit_at(s, 3) && is_digit_at(s, 5) && is_digit_at(s, 6)
        && is_digit_at(s, 8) && is_digit_at(s, 9) {
        let year = two_digits(s, 0) * 100 + two_digits(s, 2);
        let month = two_digits(s, 5);
        let day = two_digits(s, 8);
        if 1 <= month <= 12 && 1 <= day <= days_in_month(year, month) {
            Some((year, month, day))
        } else {
            None
        }
    } else {
        None
    }
}

/// The calendar day after a date.
pub open spec fn next_day(date: (int, int, int)) -> (int, int, int) {
    let (year, month, day) = date;
    if day < days_in_month(year, month) {
        (year, month, day + 1)
    } else if month < 12 {
        (year, month + 1, 1)
    } else {
        (year + 1, 1, 1)
    }
}

/// `b` is a valid date, and the day after the valid date `a`.
pub open spec fn follows(a: Seq<char>, b: Seq<char>) -> bool {
    date_of(a) is Some && date_of(b) == Some(next_day(date_of(a)->0))
}

fn two_digits_at(s: &str, i: usize) -> (r: Option<u32>)
    requires
        i <= 8,
        i + 1 < s@.len(),
    ensures
        match r {
            Some(v) => is_digit_at(s@, i as int) && is_digit_at(s@, i + 1) && v == two_digits(
                s@,
                i as int,
            ),
            None => !(is_digit_at(s@, i as int) && is_digit_at(s@, i + 1)),
        },
{
    let a = match digit_value(s.get_char(i), 10) {
        Some(a) => a,
        None => return None,
    };
    let b = match digit_value(s.get_char(i + 1), 10) {
        Some(b) => b,
        None => return None,
    };
    Some((a * 10 + b) as u32)
}

fn month_length(year: u32, month: u32) -> (r: u32)
    ensures
        r == days_in_month(year as int, month as int),
{
    if month == 2 {
        if (year % 4 == 0 && year % 100 != 0) || year % 400 == 0 {
            29
        } else {
            28
        }
    } else if month == 4 || month == 6 || month == 9 || month == 11 {
        30
    } else {
        31
    }
}

/// Year, month and day of a date written `YYYY-MM-DD`, when it is a valid date.
pub fn parse_date(s: &str) -> (r: Option<(u32, u32, u32)>)
    ensures
        match r {
            Some((y, m, d)) => date_of(s@) == Some((y as int, m as int, d as int)),
            None => date_of(s@) is None,
        },
{
    if s.unicode_len() != 10 || s.get_char(4) != '-' || s.get_char(7) != '-' {
        return None;
    }
    let (c, y, m, d) = match (
        two_digits_at(s, 0),
        two_digits_at(s, 2),
        two_digits_at(s, 5),
        two_digits_at(s, 8),
    ) {
        (Some(c), Some(y), Some(m), Some(d)) => (c, y, m, d),
        _ => return None,
    };
    let year = c * 100 + y;
    if m < 1 || m > 12 || d < 1 || d > month_length(year, m) {
        return None;
    }
    Some((year, m, d))
}

/// Whether `b` is the day after `a`, both valid dates written `YYYY-MM-DD`.
pub fn is_next_day(a: &str, b: &str) -> (r: bool)
    ensures
        r == follows(a@, b@),
{
    let (y, m, d) = match parse_date(a) {
        Some(x) => x,
        None => return false,
    };
    let next = if d < month_length(y, m) {
        (y, m, d + 1)
    } else if m < 12 {
        (y, m + 1, 1)
    } else {
        (y + 1, 1, 1)
    };
    match parse_date(b) {
        Some(x) => x.0 == next.0 && x.1 == next.1 && x.2 == next.2,
        None => false,
    }
}

} // verus!
