//! Calendar dates: the library's own date type, its text forms, and the calls
//! into `chrono` that parse and convert dates.

use vstd::prelude::*;
use chrono::Datelike;
use crate::text::{decimal, push_padded, string_of, zero_pad};

verus! {

/// A calendar date (proleptic Gregorian), as `chrono::NaiveDate` holds it.
#[derive(Clone, Copy, Debug, PartialEq, Eq, Structural)]
pub struct Date {
    pub year: i32,
    pub month: u32,
    pub day: u32,
}

/// Leap years of the proleptic Gregorian calendar.
pub open spec fn is_leap_year(y: int) -> bool {
    y % 4 == 0 && (y % 100 != 0 || y % 400 == 0)
}

pub open spec fn days_in_month(y: int, m: int) -> int {
    if m == 2 {
        if is_leap_year(y) {
            29
        } else {
            28
        }
    } else if m == 4 || m == 6 || m == 9 || m == 11 {
        30
    } else {
        31
    }
}

/// Smallest and largest years that `chrono::NaiveDate` represents.
pub open spec fn min_year() -> int {
    -262143
}

pub open spec fn max_year() -> int {
    262142
}

/// The dates that `chrono::NaiveDate` can hold.
pub open spec fn is_calendar_date(d: Date) -> bool {
    &&& min_year() <= d.year <= max_year()
    &&& 1 <= d.month <= 12
    &&& 1 <= d.day <= days_in_month(d.year as int, d.month as int)
}

/// The date with these parts, when `NaiveDate` can hold it.
pub open spec fn calendar_date(year: i32, month: u32, day: u32) -> Option<Date> {
    if is_calendar_date(Date { year, month, day }) {
        Some(Date { year, month, day })
    } else {
        None
    }
}

/// Chronological order of dates.
pub open spec fn date_lt(a: Date, b: Date) -> bool {
    ||| a.year < b.year
    ||| (a.year == b.year && a.month < b.month)
    ||| (a.year == b.year && a.month == b.month && a.day < b.day)
}

/// `%Y`: four digits, zero-padded, for years 0 to 9999; otherwise an explicit
/// sign followed by at least four digits.
pub open spec fn year_text(y: int) -> Seq<char> {
    if 0 <= y <= 9999 {
        zero_pad(decimal(y as nat), 4)
    } else if y < 0 {
        seq!['-'] + zero_pad(decimal((-y) as nat), 4)
    } else {
        seq!['+'] + zero_pad(decimal(y as nat), 4)
    }
}

/// `%m` and `%d`: two digits, zero-padded.
pub open spec fn two_digit_text(n: int) -> Seq<char> {
    zero_pad(decimal(n as nat), 2)
}

/// `%Y-%m-%d`, which is also how `NaiveDate` displays itself.
pub open spec fn iso_text(d: Date) -> Seq<char> {
    year_text(d.year as int) + seq!['-'] + two_digit_text(d.month as int) + seq!['-']
        + two_digit_text(d.day as int)
}

/// Appends `year_text(y)`.
pub fn push_year(out: &mut Vec<char>, y: i32)
    ensures
        final(out)@ == old(out)@ + year_text(y as int),
{
    if 0 <= y && y <= 9999 {
        push_padded(out, y as u64, 4);
    } else if y < 0 {
        let ghost start = out@;
        out.push('-');
        let a: u64 = if y == i32::MIN {
            2147483648u64
        } else {
            (-y) as u64
        };
        push_padded(out, a, 4);
        assert(out@ =~= start + year_text(y as int));
    } else {
        let ghost start = out@;
        out.push('+');
        push_padded(out, y as u64, 4);
        assert(out@ =~= start + year_text(y as int));
    }
}

impl Date {
    /// Whether the date is one that `NaiveDate` can hold (see
    /// `is_calendar_date`).
    pub fn is_valid(&self) -> (r: bool)
        ensures
            r == is_calendar_date(*self),
    {
        if self.year < -262143 || self.year > 262142 || self.month < 1 || self.month > 12
            || self.day < 1 {
            return false;
        }
        // shifted by a multiple of 400 years, which keeps leap years
        let y: u64 = (self.year as i64 + 400000) as u64;
        assert(y % 4 == 0 <==> self.year % 4 == 0);
        assert(y % 100 == 0 <==> self.year % 100 == 0);
        assert(y % 400 == 0 <==> self.year % 400 == 0);
        let leap = y % 4 == 0 && (y % 100 != 0 || y % 400 == 0);
        let days: u32 = if self.month == 2 {
            if leap {
                29
            } else {
                28
            }
        } else if self.month == 4 || self.month == 6 || self.month == 9 || self.month == 11 {
            30
        } else {
            31
        };
        self.day <= days
    }

    /// Chronological comparison.
    pub fn before(&self, other: &Date) -> (r: bool)
        ensures
            r == date_lt(*self, *other),
    {
        self.year < other.year || (self.year == other.year && self.month < other.month) || (
        self.year == other.year && self.month == other.month && self.day < other.day)
    }

    /// `%Y`.
    pub fn year_string(&self) -> (r: String)
        ensures
            r@ == year_text(self.year as int),
    {
        let mut v: Vec<char> = Vec::new();
        push_year(&mut v, self.year);
        assert(v@ =~= year_text(self.year as int));
        string_of(&v)
    }

    /// `%m`.
    pub fn month_string(&self) -> (r: String)
        ensures
            r@ == two_digit_text(self.month as int),
    {
        let mut v: Vec<char> = Vec::new();
        push_padded(&mut v, self.month as u64, 2);
        assert(v@ =~= two_digit_text(self.month as int));
        string_of(&v)
    }

    /// `%d`.
    pub fn day_string(&self) -> (r: String)
        ensures
            r@ == two_digit_text(self.day as int),
    {
        let mut v: Vec<char> = Vec::new();
        push_padded(&mut v, self.day as u64, 2);
        assert(v@ =~= two_digit_text(self.day as int));
        string_of(&v)
    }

    /// Appends `iso_text(self)`.
    pub fn push_iso(&self, out: &mut Vec<char>)
        ensures
            final(out)@ == old(out)@ + iso_text(*self),
    {
        let ghost start = out@;
        push_year(out, self.year);
        out.push('-');
        push_padded(out, self.month as u64, 2);
        out.push('-');
        push_padded(out, self.day as u64, 2);
        assert(out@ =~= start + iso_text(*self));
    }

    /// The date as `%Y-%m-%d`, the text that `NaiveDate`'s `to_string` gives.
    pub fn to_string(&self) -> (r: String)
        ensures
            r@ == iso_text(*self),
    {
        let mut v: Vec<char> = Vec::new();
        self.push_iso(&mut v);
        assert(v@ =~= iso_text(*self));
        string_of(&v)
    }
}

/// What `chrono::NaiveDate::parse_from_str(text, format)` gives, as a `Date`.
pub uninterp spec fn chrono_parse_date(text: Seq<char>, format: Seq<char>) -> Option<Date>;

/// What `chrono::NaiveDateTime::parse_from_str(text, format)` gives, reduced to
/// its date.
pub uninterp spec fn chrono_parse_datetime_date(text: Seq<char>, format: Seq<char>) -> Option<
    Date,
>;

/// Calls `chrono::NaiveDate::parse_from_str`.  Claimed: the result is the
/// named function of the two texts, and a parsed date is one that `NaiveDate`
/// can hold.
#[verifier::external_body]
pub(crate) fn parse_date_with_format(text: &str, format: &str) -> (r: Option<Date>)
    ensures
        r == chrono_parse_date(text@, format@),
        r matches Some(d) ==> is_calendar_date(d),
{
    chrono::NaiveDate::parse_from_str(text, format).ok().map(
        |d| Date { year: d.year(), month: d.month(), day: d.day() },
    )
}

/// Calls `chrono::NaiveDateTime::parse_from_str` and keeps the date.  Claimed:
/// the result is the named function of the two texts, and a parsed date is one
/// that `NaiveDate` can hold.
#[verifier::external_body]
pub(crate) fn parse_datetime_date_with_format(text: &str, format: &str) -> (r: Option<Date>)
    ensures
        r == chrono_parse_datetime_date(text@, format@),
        r matches Some(d) ==> is_calendar_date(d),
{
    chrono::NaiveDateTime::parse_from_str(text, format).ok().map(
        |t| Date { year: t.date().year(), month: t.date().month(), day: t.date().day() },
    )
}

/// Calls `chrono::NaiveDate::from_ymd_opt`.  Claimed: it gives the date exactly
/// when year, month and day form a date that `NaiveDate` can hold.
#[verifier::external_body]
pub(crate) fn date_from_ymd(year: i32, month: u32, day: u32) -> (r: Option<Date>)
    ensures
        r == calendar_date(year, month, day),
{
    chrono::NaiveDate::from_ymd_opt(year, month, day).map(|_| Date { year, month, day })
}

} // verus!
