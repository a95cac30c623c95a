//! Calendar dates as plain values, and the day-by-day arithmetic that the
//! measurement windows are built from.
use vstd::prelude::*;
use chrono::Datelike;

verus! {

/// The earliest year that a date of this library may carry.
pub const MIN_YEAR: i32 = -262143;

/// The latest year that a date of this library may carry.
pub const MAX_YEAR: i32 = 262142;

/// A day of the proleptic Gregorian calendar.
#[derive(Clone, Copy, Debug, PartialEq, Eq, Structural)]
pub struct Date {
    pub year: i32,
    pub month: u32,
    pub day: u32,
}

/// A year of 366 days in the Gregorian calendar.
pub open spec fn is_leap_year(y: int) -> bool {
    y % 4 == 0 && (y % 100 != 0 || y % 400 == 0)
}

/// The number of days of month `m` of year `y`.
pub open spec fn month_length(y: int, m: int) -> int {
    if m == 2 {
        if is_leap_year(y) {
            29
        } else {
            28
        }
    } else if m == 4 || m == 6 || m == 9 || m == 11 {
        30
    } else {
        31
    }
}

impl Date {
    /// A real day of the calendar, within the years that the library covers.
    pub open spec fn wf(self) -> bool {
        &&& MIN_YEAR <= self.year <= MAX_YEAR
        &&& 1 <= self.month <= 12
        &&& 1 <= self.day <= month_length(self.year as int, self.month as int)
    }

    /// An integer that orders dates as the calendar does.
    pub open spec fn key(self) -> int {
        self.year * 512 + self.month * 32 + self.day
    }

    /// The date is not the last day that the library covers.
    pub open spec fn has_next(self) -> bool {
        self.year < MAX_YEAR || self.month < 12 || self.day < 31
    }
}

/// The day after `d`.
pub open spec fn next_date(d: Date) -> Date {
    if d.day < month_length(d.year as int, d.month as int) {
        Date { year: d.year, month: d.month, day: (d.day + 1) as u32 }
    } else if d.month < 12 {
        Date { year: d.year, month: (d.month + 1) as u32, day: 1 }
    } else {
        Date { year: (d.year + 1) as i32, month: 1, day: 1 }
    }
}

/// The day before `d`.
pub open spec fn prev_date(d: Date) -> Date {
    if d.day > 1 {
        Date { year: d.year, month: d.month, day: (d.day - 1) as u32 }
    } else if d.month > 1 {
        Date {
            year: d.year,
            month: (d.month - 1) as u32,
            day: month_length(d.year as int, d.month - 1) as u32,
        }
    } else {
        Date { year: (d.year - 1) as i32, month: 12, day: 31 }
    }
}

/// The number of days from `a` to `b`, both included (one when `b` is not after `a`).
pub open spec fn span(a: Date, b: Date) -> nat
    decreases b.key() - a.key(),
{
    if a.wf() && a.key() < b.key() && next_date(a).key() <= b.key() {
        1 + span(next_date(a), b)
    } else {
        1
    }
}

/// The last day of the month that holds `d`.
pub open spec fn month_end(d: Date) -> Date {
    Date { year: d.year, month: d.month, day: month_length(d.year as int, d.month as int) as u32 }
}

/// Keys order dates as the calendar does.
pub proof fn lemma_key_order(a: Date, b: Date)
    requires
        a.wf(),
        b.wf(),
    ensures
        a.key() < b.key() <==> (a.year < b.year || (a.year == b.year && a.month < b.month) || (
        a.year == b.year && a.month == b.month && a.day < b.day)),
        a.key() == b.key() <==> a == b,
{
}

/// The next day is a real day and comes right after `d`: no day lies between the two.
pub proof fn lemma_next_date(d: Date, e: Date)
    requires
        d.wf(),
        e.wf(),
        d.key() < e.key(),
    ensures
        next_date(d).wf(),
        d.key() < next_date(d).key(),
        next_date(d).key() <= e.key(),
{
    lemma_key_order(d, e);
    lemma_key_order(next_date(d), e);
}

/// Whether a year has a 29th of February.
pub fn is_leap(year: i32) -> (r: bool)
    ensures
        r == is_leap_year(year as int),
{
    // shifted by a multiple of 400 so that the remainders are taken of a natural number
    let y: u64 = (year as i64 + 4_000_000_000i64) as u64;
    let by4 = y % 4 == 0;
    let by100 = y % 100 == 0;
    let by400 = y % 400 == 0;
    by4 && (!by100 || by400)
}

/// The number of days of a month.
pub fn days_in_month(year: i32, month: u32) -> (r: u32)
    ensures
        r == month_length(year as int, month as int),
{
    if month == 2 {
        if is_leap(year) {
            29
        } else {
            28
        }
    } else if month == 4 || month == 6 || month == 9 || month == 11 {
        30
    } else {
        31
    }
}

impl Date {
    /// The day after this one.
    pub fn next_day(&self) -> (r: Date)
        requires
            self.wf(),
            self.has_next(),
        ensures
            r == next_date(*self),
            r.wf(),
            self.key() < r.key(),
    {
        let len = days_in_month(self.year, self.month);
        if self.day < len {
            Date { year: self.year, month: self.month, day: self.day + 1 }
        } else if self.month < 12 {
            Date { year: self.year, month: self.month + 1, day: 1 }
        } else {
            Date { year: self.year + 1, month: 1, day: 1 }
        }
    }

    /// The day before this one.
    pub fn prev_day(&self) -> (r: Date)
        requires
            self.wf(),
            self.year > MIN_YEAR || self.month > 1 || self.day > 1,
        ensures
            r == prev_date(*self),
            r.wf(),
            r.key() < self.key(),
            next_date(r) == *self,
    {
        if self.day > 1 {
            Date { year: self.year, month: self.month, day: self.day - 1 }
        } else if self.month > 1 {
            Date { year: self.year, month: self.month - 1, day: days_in_month(self.year, self.month - 1) }
        } else {
            Date { year: self.year - 1, month: 12, day: 31 }
        }
    }

    /// Whether this day comes before `other`, or is `other`.
    pub fn is_on_or_before(&self, other: &Date) -> (r: bool)
        requires
            self.wf(),
            other.wf(),
        ensures
            r == (self.key() <= other.key()),
    {
        proof {
            lemma_key_order(*self, *other);
        }
        self.year < other.year || (self.year == other.year && (self.month < other.month || (
        self.month == other.month && self.day <= other.day)))
    }
}

impl Date {
    /// The date with these parts, when they name a real day of the years covered.
    pub fn from_ymd(year: i32, month: u32, day: u32) -> (r: Option<Date>)
        ensures
            r matches Some(d) ==> d == (Date { year, month, day }),
            r is Some <==> (Date { year, month, day }).wf(),
    {
        if year < MIN_YEAR || year > MAX_YEAR || month < 1 || month > 12 || day < 1 {
            None
        } else if day > days_in_month(year, month) {
            None
        } else {
            Some(Date { year, month, day })
        }
    }
}

/// The first day of the Unix epoch, 1970-01-01.
pub open spec fn epoch_day() -> Date {
    Date { year: 1970, month: 1, day: 1 }
}

/// The day `n` days after `d` (before it, for a negative `n`).
pub open spec fn shift_days(d: Date, n: int) -> Date
    decreases (if n >= 0 {
        n
    } else {
        -n
    }),
{
    if n > 0 {
        next_date(shift_days(d, n - 1))
    } else if n < 0 {
        prev_date(shift_days(d, n + 1))
    } else {
        d
    }
}

/// The day that chrono reads from a text in the format `%Y-%m-%d`, if any.
pub uninterp spec fn parsed_date(s: Seq<char>) -> Option<Date>;

/// The UTC calendar day of a count of seconds since the Unix epoch, as chrono
/// computes it, if chrono can represent it.
pub uninterp spec fn utc_date_of(secs: int) -> Option<Date>;

/// Relies on chrono::NaiveDate::parse_from_str with the format `%Y-%m-%d`: the
/// outcome depends on the text alone, and a NaiveDate is a real day within the
/// years from chrono's MIN_YEAR to its MAX_YEAR.
#[verifier::external_body]
pub(crate) fn parse_ymd(s: &str) -> (r: Option<Date>)
    ensures
        r == parsed_date(s@),
        r matches Some(d) ==> d.wf(),
{
    match chrono::NaiveDate::parse_from_str(s, "%Y-%m-%d") {
        Ok(d) => Some(Date { year: d.year(), month: d.month(), day: d.day() }),
        Err(_) => None,
    }
}

/// Relies on chrono::DateTime::from_timestamp: the UTC day of a timestamp, a
/// real day within chrono's years, or nothing where chrono cannot represent it.
/// The day lies as many days after 1970-01-01 as the timestamp holds whole days
/// (`secs.div_euclid(86400)`), counted in the proleptic Gregorian calendar.
#[verifier::external_body]
pub(crate) fn utc_date(secs: i64) -> (r: Option<Date>)
    ensures
        r == utc_date_of(secs as int),
        r matches Some(d) ==> d.wf() && d == shift_days(epoch_day(), secs as int / 86400),
{
    match chrono::DateTime::from_timestamp(secs, 0) {
        Some(t) => Some(Date { year: t.year(), month: t.month(), day: t.day() }),
        None => None,
    }
}

/// How chrono displays the UTC time of a timestamp (`YYYY-MM-DD HH:MM:SS UTC`),
/// if chrono can represent it.
pub uninterp spec fn utc_text_of(secs: int) -> Option<Seq<char>>;

/// Relies on chrono::DateTime::from_timestamp and the Display of DateTime<Utc>:
/// the text depends on the timestamp alone.
#[verifier::external_body]
pub(crate) fn utc_text(secs: i64) -> (r: Option<String>)
    ensures
        match r {
            Some(t) => utc_text_of(secs as int) == Some(t@),
            None => utc_text_of(secs as int) is None,
        },
{
    match chrono::DateTime::from_timestamp(secs, 0) {
        Some(t) => Some(t.to_string()),
        None => None,
    }
}

} // verus!
