//! Calendar dates.
//!
//! A post's publication date is a plain year/month/day triple under the
//! proleptic Gregorian calendar.  This module holds its validity rules,
//! ordering, parsing from `YYYY-MM-DD` text, and the short labels the site
//! prints (`Jan. 01`, `Jan. 01, 2024`, `2024`).

use vstd::prelude::*;
use crate::text;

verus! {

/// A calendar date: year, month and day.
#[derive(Clone, Copy, PartialEq, Eq, Structural, Debug)]
pub struct Date {
    /// The year, non-negative in a valid date.
    pub year: i32,
    /// The month, `1` to `12` in a valid date.
    pub month: u32,
    /// The day of the month, valid for the month in a valid date.
    pub day: u32,
}

/// Whether `y` is a leap year of the Gregorian calendar.
pub open spec fn is_leap_year(y: int) -> bool {
    y % 4 == 0 && (y % 100 != 0 || y % 400 == 0)
}

/// The number of days in a month.
pub open spec fn days_in_month(y: int, m: int) -> int {
    if m == 2 {
        if is_leap_year(y) {
            29
        } else {
            28
        }
    } else if m == 4 || m == 6 || m == 9 || m == 11 {
        30
    } else {
        31
    }
}

impl Date {
    /// A well-formed date: a real day of a real month, in a non-negative
    /// year.
    pub open spec fn valid(self) -> bool {
        0 <= self.year && 1 <= self.month <= 12 && 1 <= self.day <= days_in_month(
            self.year as int,
            self.month as int,
        )
    }

    /// The date as a single number that orders chronologically.
    pub open spec fn key(self) -> int {
        self.year * 512 + self.month * 32 + self.day
    }

    /// Builds the date when the triple names a real calendar day.
    pub fn new(year: i32, month: u32, day: u32) -> (r: Option<Date>)
        ensures
            r is Some <==> (Date { year, month, day }).valid(),
            r matches Some(d) ==> (d == (Date { year, month, day }) && d.valid()),
    {
        let d = Date { year, month, day };
        if year < 0 || month < 1 || month > 12 || day < 1 {
            return None;
        }
        let max: u32 = if month == 2 {
            if (year % 4 == 0) && (year % 100 != 0 || year % 400 == 0) {
                29
            } else {
                28
            }
        } else if month == 4 || month == 6 || month == 9 || month == 11 {
            30
        } else {
            31
        };
        if day > max {
            return None;
        }
        Some(d)
    }

    /// Whether this date falls strictly before `other` in time.
    pub fn lt(&self, other: &Date) -> (r: bool)
        requires
            self.valid(),
            other.valid(),
        ensures
            r == (self.key() < other.key()),
    {
        if self.year != other.year {
            self.year < other.year
        } else if self.month != other.month {
            self.month < other.month
        } else {
            self.day < other.day
        }
    }
}

/// The three-letter English abbreviation of a month.
pub open spec fn month_abbr(m: int) -> Seq<char> {
    if m == 1 {
        seq!['J', 'a', 'n']
    } else if m == 2 {
        seq!['F', 'e', 'b']
    } else if m == 3 {
        seq!['M', 'a', 'r']
    } else if m == 4 {
        seq!['A', 'p', 'r']
    } else if m == 5 {
        seq!['M', 'a', 'y']
    } else if m == 6 {
        seq!['J', 'u', 'n']
    } else if m == 7 {
        seq!['J', 'u', 'l']
    } else if m == 8 {
        seq!['A', 'u', 'g']
    } else if m == 9 {
        seq!['S', 'e', 'p']
    } else if m == 10 {
        seq!['O', 'c', 't']
    } else if m == 11 {
        seq!['N', 'o', 'v']
    } else {
        seq!['D', 'e', 'c']
    }
}

/// The year printed as text: zero-padded to four digits, longer years in
/// full.
pub open spec fn year_chars(y: int) -> Seq<char> {
    if y <= 9999 {
        seq![
            text::digit_char(y / 1000),
            text::digit_char((y / 100) % 10),
            text::digit_char((y / 10) % 10),
            text::digit_char(y % 10),
        ]
    } else {
        text::digits_of(y)
    }
}

/// The short day label of a date: `Mon. DD`.
pub open spec fn day_label(d: Date) -> Seq<char> {
    month_abbr(d.month as int) + seq!['.', ' '] + text::pad2_of(d.day as int)
}

/// The long date label of a date: `Mon. DD, YYYY`.
pub open spec fn full_label(d: Date) -> Seq<char> {
    day_label(d) + seq![',', ' '] + year_chars(d.year as int)
}

/// Appends the three-letter abbreviation of month `m`.
fn push_month_abbr(v: &mut Vec<char>, m: u32)
    requires
        1 <= m <= 12,
    ensures
        final(v)@ == old(v)@ + month_abbr(m as int),
{
    if m == 1 {
        v.push('J');
        v.push('a');
        v.push('n');
    } else if m == 2 {
        v.push('F');
        v.push('e');
        v.push('b');
    } else if m == 3 {
        v.push('M');
        v.push('a');
        v.push('r');
    } else if m == 4 {
        v.push('A');
        v.push('p');
        v.push('r');
    } else if m == 5 {
        v.push('M');
        v.push('a');
        v.push('y');
    } else if m == 6 {
        v.push('J');
        v.push('u');
        v.push('n');
    } else if m == 7 {
        v.push('J');
        v.push('u');
        v.push('l');
    } else if m == 8 {
        v.push('A');
        v.push('u');
        v.push('g');
    } else if m == 9 {
        v.push('S');
        v.push('e');
        v.push('p');
    } else if m == 10 {
        v.push('O');
        v.push('c');
        v.push('t');
    } else if m == 11 {
        v.push('N');
        v.push('o');
        v.push('v');
    } else {
        v.push('D');
        v.push('e');
        v.push('c');
    }
    proof {
        assert(v@ =~= old(v)@ + month_abbr(m as int));
    }
}

/// Appends the year, zero-padded to four digits.
pub fn push_year(v: &mut Vec<char>, y: i32)
    requires
        y >= 0,
    ensures
        final(v)@ == old(v)@ + year_chars(y as int),
{
    let u = y as u32;
    if u <= 9999 {
        v.push((('0' as u32 + u / 1000) as u8) as char);
        v.push((('0' as u32 + (u / 100) % 10) as u8) as char);
        v.push((('0' as u32 + (u / 10) % 10) as u8) as char);
        v.push((('0' as u32 + u % 10) as u8) as char);
        proof {
            assert(v@ =~= old(v)@ + year_chars(y as int));
        }
    } else {
        text::push_u32(v, u);
    }
}

/// The short day label of a valid date, `Mon. DD`.
pub fn format_day_label(d: &Date) -> (r: String)
    requires
        d.valid(),
    ensures
        r@ == day_label(*d),
{
    let mut v: Vec<char> = Vec::new();
    push_month_abbr(&mut v, d.month);
    v.push('.');
    v.push(' ');
    text::push_pad2(&mut v, d.day);
    proof {
        assert(v@ =~= day_label(*d));
    }
    text::from_chars(&v)
}

/// The long date label of a valid date, `Mon. DD, YYYY`.
pub fn format_full_label(d: &Date) -> (r: String)
    requires
        d.valid(),
    ensures
        r@ == full_label(*d),
{
    let mut v: Vec<char> = Vec::new();
    push_month_abbr(&mut v, d.month);
    v.push('.');
    v.push(' ');
    text::push_pad2(&mut v, d.day);
    v.push(',');
    v.push(' ');
    push_year(&mut v, d.year);
    proof {
        assert(v@ =~= full_label(*d));
    }
    text::from_chars(&v)
}

/// The year label of a valid date, `YYYY`.
pub fn format_year(d: &Date) -> (r: String)
    requires
        d.valid(),
    ensures
        r@ == year_chars(d.year as int),
{
    let mut v: Vec<char> = Vec::new();
    push_year(&mut v, d.year);
    text::from_chars(&v)
}

/// The date written by `YYYY-MM-DD` text, when it is one.
pub open spec fn date_of_chars(s: Seq<char>) -> Option<Date> {
    let parts = text::split_of(s, '-');
    if parts.len() != 3 {
        None
    } else if !(text::is_digits(parts[0]) && text::is_digits(parts[1]) && text::is_digits(
        parts[2],
    )) {
        None
    } else if text::digits_val(parts[0]) > i32::MAX || text::digits_val(parts[1]) > u32::MAX
        || text::digits_val(parts[2]) > u32::MAX {
        None
    } else {
        let d = Date {
            year: text::digits_val(parts[0]) as i32,
            month: text::digits_val(parts[1]) as u32,
            day: text::digits_val(parts[2]) as u32,
        };
        if d.valid() {
            Some(d)
        } else {
            None
        }
    }
}

/// Parses `YYYY-MM-DD` text into a valid date.
pub fn parse_date(s: &Vec<char>) -> (r: Option<Date>)
    ensures
        r == date_of_chars(s@),
        r matches Some(d) ==> d.valid(),
{
    let parts = text::split_all(s, '-');
    let ghost dv = parts.deep_view();
    proof {
        text::lemma_deep_view_is(&parts);
    }
    if parts.len() != 3 {
        return None;
    }
    let y = match text::parse_u32(&parts[0]) {
        Some(v) => v,
        None => {
            return None;
        },
    };
    let m = match text::parse_u32(&parts[1]) {
        Some(v) => v,
        None => {
            return None;
        },
    };
    let d = match text::parse_u32(&parts[2]) {
        Some(v) => v,
        None => {
            return None;
        },
    };
    if y > i32::MAX as u32 {
        return None;
    }
    Date::new(y as i32, m, d)
}

} // verus!
