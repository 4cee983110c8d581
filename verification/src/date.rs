//! Calendar dates with explicit validity and ordering.
//!
//! Release dates arrive from the catalog service as text with year, month,
//! or day precision.  This module gives the pipeline its own comparable
//! date value so that the recency cutoff is a genuine calendar comparison.

use vstd::prelude::*;

verus! {

/// A calendar date, held as plain year / month / day numbers.
#[derive(Clone, Copy, PartialEq, Eq, Structural, Debug)]
pub struct Date {
    pub year: u32,
    pub month: u32,
    pub day: u32,
}

/// Gregorian leap-year rule.
pub open spec fn is_leap_year(y: int) -> bool {
    y % 4 == 0 && (y % 100 != 0 || y % 400 == 0)
}

/// Number of days in month `m` of year `y` (for `m` between 1 and 12).
pub open spec fn days_in_month(y: int, m: int) -> int {
    if m == 2 {
        if is_leap_year(y) {
            29
        } else {
            28
        }
    } else if m == 4 || m == 6 || m == 9 || m == 11 {
        30
    } else {
        31
    }
}

/// How release dates of partial (year or year-month) precision are treated:
/// normalized to the first day of the period they name, or rejected so that
/// only full year-month-day dates enter the report.
#[derive(Clone, Copy, PartialEq, Eq, Structural, Debug)]
pub enum DatePolicy {
    PeriodStart,
    DayPrecisionOnly,
}

impl Date {
    /// The date denotes a real day of the Gregorian calendar.
    pub open spec fn valid(self) -> bool {
        &&& 1 <= self.month <= 12
        &&& 1 <= self.day <= days_in_month(self.year as int, self.month as int)
    }

    /// `self` is on or before `other` in calendar order.
    pub open spec fn spec_le(self, other: Date) -> bool {
        ||| self.year < other.year
        ||| (self.year == other.year && self.month < other.month)
        ||| (self.year == other.year && self.month == other.month && self.day <= other.day)
    }

    /// Calendar comparison: `self` is on or before `other`.
    pub fn le(&self, other: &Date) -> (r: bool)
        ensures
            r == self.spec_le(*other),
    {
        if self.year != other.year {
            self.year < other.year
        } else if self.month != other.month {
            self.month < other.month
        } else {
            self.day <= other.day
        }
    }
}

/// Calendar order is a total order: it is reflexive and antisymmetric, and
/// any two dates compare — so "on or after the cutoff" and "strictly
/// before the cutoff" partition all dates, with the cutoff day itself on
/// the included side.
pub proof fn lemma_date_order_total(a: Date, b: Date)
    ensures
        a.spec_le(a),
        a.spec_le(b) || b.spec_le(a),
        (a.spec_le(b) && b.spec_le(a)) ==> a == b,
{
}

/// `c` is a decimal digit.
pub open spec fn is_digit(c: char) -> bool {
    48 <= c as u32 <= 57
}

/// Numeric value of the decimal digit `c`.
pub open spec fn digit(c: char) -> int {
    c as u32 - 48
}

/// The first four characters of `s` are decimal digits.
pub open spec fn year_digits(s: Seq<char>) -> bool {
    &&& is_digit(s[0])
    &&& is_digit(s[1])
    &&& is_digit(s[2])
    &&& is_digit(s[3])
}

/// The year named by the first four characters of `s`.
pub open spec fn spec_year(s: Seq<char>) -> int {
    1000 * digit(s[0]) + 100 * digit(s[1]) + 10 * digit(s[2]) + digit(s[3])
}

/// The characters of `s` at positions `i` and `i + 1` are decimal digits.
pub open spec fn two_digits(s: Seq<char>, i: int) -> bool {
    is_digit(s[i]) && is_digit(s[i + 1])
}

/// The two-digit number at positions `i` and `i + 1` of `s`.
pub open spec fn spec_two(s: Seq<char>, i: int) -> int {
    10 * digit(s[i]) + digit(s[i + 1])
}

/// The date named by the text `s`, under `policy`.
///
/// Dates arrive as `YYYY`, `YYYY-MM`, or `YYYY-MM-DD`.  The two partial
/// forms are normalized to the first day of the period they name when the
/// policy allows it; text of any other shape, or naming no real calendar
/// day, has no date.
pub open spec fn normalize_date(s: Seq<char>, policy: DatePolicy) -> Option<Date> {
    if s.len() == 4 && policy is PeriodStart && year_digits(s) {
        Some(Date { year: spec_year(s) as u32, month: 1, day: 1 })
    } else if s.len() == 7 && policy is PeriodStart && year_digits(s) && s[4] == '-'
        && two_digits(s, 5) && 1 <= spec_two(s, 5) <= 12 {
        Some(Date { year: spec_year(s) as u32, month: spec_two(s, 5) as u32, day: 1 })
    } else if s.len() == 10 && year_digits(s) && s[4] == '-' && two_digits(s, 5) && s[7] == '-'
        && two_digits(s, 8) && 1 <= spec_two(s, 5) <= 12
        && 1 <= spec_two(s, 8) <= days_in_month(spec_year(s), spec_two(s, 5)) {
        Some(
            Date {
                year: spec_year(s) as u32,
                month: spec_two(s, 5) as u32,
                day: spec_two(s, 8) as u32,
            },
        )
    } else {
        None
    }
}

/// Every date that `normalize_date` produces denotes a real calendar day.
pub proof fn lemma_normalize_date_valid(s: Seq<char>, policy: DatePolicy)
    ensures
        normalize_date(s, policy) matches Some(d) ==> d.valid(),
{
}

/// The digit at position `i` of `s`, if the character there is one.
fn digit_at(s: &str, i: usize) -> (r: Option<u32>)
    requires
        i < s@.len(),
    ensures
        match r {
            Some(v) => is_digit(s@[i as int]) && v == digit(s@[i as int]),
            None => !is_digit(s@[i as int]),
        },
{
    let c = s.get_char(i);
    let v = c as u32;
    if 48 <= v && v <= 57 {
        Some(v - 48)
    } else {
        None
    }
}

/// Number of days in month `m` of year `y`.
pub fn month_length(y: u32, m: u32) -> (r: u32)
    requires
        1 <= m <= 12,
    ensures
        r == days_in_month(y as int, m as int),
{
    if m == 2 {
        if y % 4 == 0 && (y % 100 != 0 || y % 400 == 0) {
            29
        } else {
            28
        }
    } else if m == 4 || m == 6 || m == 9 || m == 11 {
        30
    } else {
        31
    }
}

/// Parses a release date of year, year-month, or year-month-day precision,
/// normalizing partial precision under `policy`.
pub fn parse_release_date(s: &str, policy: DatePolicy) -> (r: Option<Date>)
    ensures
        r == normalize_date(s@, policy),
{
    let n = s.unicode_len();
    if n != 4 && n != 7 && n != 10 {
        return None;
    }
    if n != 10 && !matches!(policy, DatePolicy::PeriodStart) {
        return None;
    }
    let d0 = match digit_at(s, 0) {
        Some(v) => v,
        None => { return None; },
    };
    let d1 = match digit_at(s, 1) {
        Some(v) => v,
        None => { return None; },
    };
    let d2 = match digit_at(s, 2) {
        Some(v) => v,
        None => { return None; },
    };
    let d3 = match digit_at(s, 3) {
        Some(v) => v,
        None => { return None; },
    };
    let year = 1000 * d0 + 100 * d1 + 10 * d2 + d3;
    if n == 4 {
        return Some(Date { year, month: 1, day: 1 });
    }
    if s.get_char(4) != '-' {
        return None;
    }
    let m0 = match digit_at(s, 5) {
        Some(v) => v,
        None => { return None; },
    };
    let m1 = match digit_at(s, 6) {
        Some(v) => v,
        None => { return None; },
    };
    let month = 10 * m0 + m1;
    if month < 1 || month > 12 {
        return None;
    }
    if n == 7 {
        return Some(Date { year, month, day: 1 });
    }
    if s.get_char(7) != '-' {
        return None;
    }
    let e0 = match digit_at(s, 8) {
        Some(v) => v,
        None => { return None; },
    };
    let e1 = match digit_at(s, 9) {
        Some(v) => v,
        None => { return None; },
    };
    let day = 10 * e0 + e1;
    if day < 1 || day > month_length(year, month) {
        return None;
    }
    Some(Date { year, month, day })
}

} // verus!
