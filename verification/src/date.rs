//! Calendar dates, as plain year/month/day values.
//!
//! Stargazer events carry an ISO-8601 timestamp string; the store groups
//! them by calendar day.  A day is the `YYYY-MM-DD` prefix of the timestamp,
//! parsed and validated here.

use vstd::prelude::*;

verus! {

/// A calendar date.  Valid dates satisfy [`Date::valid`].
#[derive(Clone, Copy, Debug, PartialEq, Eq, Structural)]
pub struct Date {
    pub year: u32,
    pub month: u32,
    pub day: u32,
}

pub open spec fn spec_is_leap_year(y: int) -> bool {
    y % 4 == 0 && (y % 100 != 0 || y % 400 == 0)
}

pub open spec fn spec_days_in_month(y: int, m: int) -> int {
    if m == 2 {
        if spec_is_leap_year(y) {
            29
        } else {
            28
        }
    } else if m == 4 || m == 6 || m == 9 || m == 11 {
        30
    } else {
        31
    }
}

impl Date {
    /// A real calendar day with a four-digit year.
    pub open spec fn valid(self) -> bool {
        &&& self.year <= 9999
        &&& 1 <= self.month <= 12
        &&& 1 <= self.day <= spec_days_in_month(self.year as int, self.month as int)
    }

    /// Chronological order: lexicographic on (year, month, day).
    pub open spec fn lt(self, other: Date) -> bool {
        ||| self.year < other.year
        ||| (self.year == other.year && self.month < other.month)
        ||| (self.year == other.year && self.month == other.month && self.day < other.day)
    }

    pub open spec fn le(self, other: Date) -> bool {
        self.lt(other) || self == other
    }

    /// Strictly before `other` in calendar order.
    pub fn before(&self, other: &Date) -> (r: bool)
        ensures
            r == self.lt(*other),
    {
        self.year < other.year || (self.year == other.year && (self.month < other.month || (
        self.month == other.month && self.day < other.day)))
    }
}

/// Number of days in the given month, February honouring leap years.
pub fn days_in_month(year: u32, month: u32) -> (r: u32)
    requires
        1 <= month <= 12,
    ensures
        r == spec_days_in_month(year as int, month as int),
{
    if month == 2 {
        if year % 4 == 0 && (year % 100 != 0 || year % 400 == 0) {
            29
        } else {
            28
        }
    } else if month == 4 || month == 6 || month == 9 || month == 11 {
        30
    } else {
        31
    }
}

pub open spec fn spec_is_digit(c: char) -> bool {
    48 <= c as u32 <= 57
}

pub open spec fn spec_digit(c: char) -> int {
    c as u32 - 48
}

/// The date encoded by a character sequence that starts with `YYYY-MM-DD`,
/// or nothing if the prefix is absent or names no real calendar day.
pub open spec fn spec_timestamp_date(s: Seq<char>) -> Option<Date> {
    if s.len() >= 10 && spec_is_digit(s[0]) && spec_is_digit(s[1]) && spec_is_digit(s[2])
        && spec_is_digit(s[3]) && s[4] == '-' && spec_is_digit(s[5]) && spec_is_digit(s[6]) && s[7]
        == '-' && spec_is_digit(s[8]) && spec_is_digit(s[9]) {
        let d = Date {
            year: (spec_digit(s[0]) * 1000 + spec_digit(s[1]) * 100 + spec_digit(s[2]) * 10
                + spec_digit(s[3])) as u32,
            month: (spec_digit(s[5]) * 10 + spec_digit(s[6])) as u32,
            day: (spec_digit(s[8]) * 10 + spec_digit(s[9])) as u32,
        };
        if d.valid() {
            Some(d)
        } else {
            None
        }
    } else {
        None
    }
}

/// Whether a timestamp string carries a usable calendar day.
pub open spec fn spec_timestamp_ok(s: Seq<char>) -> bool {
    spec_timestamp_date(s) is Some
}

fn digit_at(s: &str, i: usize) -> (r: Option<u32>)
    requires
        i < s@.len(),
    ensures
        r is Some <==> spec_is_digit(s@[i as int]),
        r is Some ==> r->0 == spec_digit(s@[i as int]),
{
    let c = s.get_char(i);
    let v = c as u32;
    if 48 <= v && v <= 57 {
        Some(v - 48)
    } else {
        None
    }
}

/// Parse the `YYYY-MM-DD` prefix of a timestamp such as
/// `2024-09-21T11:08:01Z` into a calendar date.
pub fn timestamp_date(ts: &str) -> (r: Option<Date>)
    ensures
        r == spec_timestamp_date(ts@),
        r is Some ==> r->0.valid(),
{
    let n = ts.unicode_len();
    if n < 10 {
        return None;
    }
    let d0 = digit_at(ts, 0);
    let d1 = digit_at(ts, 1);
    let d2 = digit_at(ts, 2);
    let d3 = digit_at(ts, 3);
    let d5 = digit_at(ts, 5);
    let d6 = digit_at(ts, 6);
    let d8 = digit_at(ts, 8);
    let d9 = digit_at(ts, 9);
    if ts.get_char(4) != '-' || ts.get_char(7) != '-' {
        return None;
    }
    match (d0, d1, d2, d3, d5, d6, d8, d9) {
        (
            Some(y0),
            Some(y1),
            Some(y2),
            Some(y3),
            Some(m0),
            Some(m1),
            Some(a0),
            Some(a1),
        ) => {
            let date = Date {
                year: y0 * 1000 + y1 * 100 + y2 * 10 + y3,
                month: m0 * 10 + m1,
                day: a0 * 10 + a1,
            };
            if 1 <= date.month && date.month <= 12 && 1 <= date.day && date.day <= days_in_month(
                date.year,
                date.month,
            ) {
                Some(date)
            } else {
                None
            }
        },
        _ => None,
    }
}

} // verus!
