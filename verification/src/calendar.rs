//! Calendar dates and instants as the journal uses them: the proleptic Gregorian
//! calendar over the year range that chrono represents.
use vstd::prelude::*;
use chrono::{Datelike, Timelike};

verus! {

/// First year that a calendar date can have.
pub const MIN_YEAR: i32 = -262143;
/// Last year that a calendar date can have.
pub const MAX_YEAR: i32 = 262142;

pub open spec fn is_leap_year(y: int) -> bool {
    y % 4 == 0 && (y % 100 != 0 || y % 400 == 0)
}

pub open spec fn days_in_month(y: int, m: int) -> int {
    if m == 2 {
        if is_leap_year(y) { 29 } else { 28 }
    } else if m == 4 || m == 6 || m == 9 || m == 11 {
        30
    } else {
        31
    }
}

/// A year, month and day that name an existing calendar day in range.
pub open spec fn valid_ymd(y: int, m: int, d: int) -> bool {
    &&& MIN_YEAR <= y <= MAX_YEAR
    &&& 1 <= m <= 12
    &&& 1 <= d <= days_in_month(y, m)
}

/// The calendar day before the given one, if it is in range.
pub open spec fn prev_date(date: (int, int, int)) -> Option<(int, int, int)> {
    let (y, m, d) = date;
    if d > 1 {
        Some((y, m, d - 1))
    } else if m > 1 {
        Some((y, m - 1, days_in_month(y, m - 1)))
    } else if y > MIN_YEAR {
        Some((y - 1, 12, 31))
    } else {
        None
    }
}

/// Strict chronological order of two dates.
pub open spec fn date_before(a: (int, int, int), b: (int, int, int)) -> bool {
    a.0 < b.0 || (a.0 == b.0 && (a.1 < b.1 || (a.1 == b.1 && a.2 < b.2)))
}

/// A calendar day that exists in the proleptic Gregorian calendar.
#[derive(Clone, Copy, Debug, PartialEq, Eq, Hash, Structural)]
pub struct CalendarDate {
    year: i32,
    month: u32,
    day: u32,
}

impl CalendarDate {
    #[verifier::type_invariant]
    spec fn inv(self) -> bool {
        valid_ymd(self.year as int, self.month as int, self.day as int)
    }

    pub closed spec fn ymd(self) -> (int, int, int) {
        (self.year as int, self.month as int, self.day as int)
    }

    /// The date with the given year, month and day, if that day exists.
    pub fn from_ymd(year: i32, month: u32, day: u32) -> (r: Option<CalendarDate>)
        ensures
            r is Some <==> valid_ymd(year as int, month as int, day as int),
            r matches Some(d) ==> d@ == (year as int, month as int, day as int),
    {
        if year < MIN_YEAR || year > MAX_YEAR || month < 1 || month > 12 || day < 1 {
            return None;
        }
        let leap = year % 4 == 0 && (year % 100 != 0 || year % 400 == 0);
        let last: u32 = if month == 2 {
            if leap { 29 } else { 28 }
        } else if month == 4 || month == 6 || month == 9 || month == 11 {
            30
        } else {
            31
        };
        assert(leap == is_leap_year(year as int));
        if day > last {
            None
        } else {
            Some(CalendarDate { year, month, day })
        }
    }

    /// Dates with the same year, month and day are the same date.
    pub proof fn lemma_same_view(a: CalendarDate, b: CalendarDate)
        ensures
            (a == b) <==> (a@ == b@),
    {
    }

    pub fn year(&self) -> (r: i32)
        ensures
            r == self@.0,
            valid_ymd(self@.0, self@.1, self@.2),
    {
        proof { use_type_invariant(self); }
        self.year
    }

    pub fn month(&self) -> (r: u32)
        ensures
            r == self@.1,
            valid_ymd(self@.0, self@.1, self@.2),
    {
        proof { use_type_invariant(self); }
        self.month
    }

    pub fn day(&self) -> (r: u32)
        ensures
            r == self@.2,
            valid_ymd(self@.0, self@.1, self@.2),
    {
        proof { use_type_invariant(self); }
        self.day
    }
}

impl View for CalendarDate {
    type V = (int, int, int);

    open spec fn view(&self) -> (int, int, int) {
        self.ymd()
    }
}

/// The previous calendar day (`chrono::NaiveDate::pred_opt`).
/// Trusted: chrono documents the previous calendar date in the proleptic Gregorian
/// calendar, and `None` only before its first representable date.
#[verifier::external_body]
pub(crate) fn previous_day(date: &CalendarDate) -> (r: Option<CalendarDate>)
    ensures
        match prev_date(date@) {
            Some(p) => r matches Some(q) && q@ == p,
            None => r is None,
        },
{
    chrono::NaiveDate::from_ymd_opt(date.year, date.month, date.day)
        .and_then(|d| d.pred_opt())
        .map(|d| CalendarDate { year: d.year(), month: d.month(), day: d.day() })
}

/// What chrono's `DateTime::parse_from_rfc3339` reads from a text: the local
/// year, month, day, hour and minute of the instant, or nothing.
pub uninterp spec fn rfc3339_reading(text: Seq<char>) -> Option<(int, int, int, int, int)>;

/// What chrono's `NaiveDate::parse_from_str` with the pattern `%Y-%m-%d` reads from a text.
pub uninterp spec fn ymd_reading(text: Seq<char>) -> Option<(int, int, int)>;

/// Days from 1 January of year 1 to 1 January of year `y` (negative for earlier years).
pub open spec fn days_before_year(y: int) -> int {
    365 * (y - 1) + (y - 1) / 4 - (y - 1) / 100 + (y - 1) / 400
}

/// Days from 1 January to the first of month `m` in year `y`.
pub open spec fn days_before_month(y: int, m: int) -> int {
    let before: int = if m <= 1 { 0 } else if m == 2 { 31 } else if m == 3 { 59 } else if m == 4 { 90 }
        else if m == 5 { 120 } else if m == 6 { 151 } else if m == 7 { 181 } else if m == 8 { 212 }
        else if m == 9 { 243 } else if m == 10 { 273 } else if m == 11 { 304 } else { 334 };
    if m > 2 && is_leap_year(y) { before + 1 } else { before }
}

/// The weekday of a date, counted from Monday as zero: 1 January of year 1 was a Monday.
pub open spec fn weekday_from_monday(date: (int, int, int)) -> int {
    (days_before_year(date.0) + days_before_month(date.0, date.1) + date.2 - 1) % 7
}

/// A local instant as the journal reads it: its calendar day, hour and minute.
#[derive(Clone, Copy, Debug, PartialEq, Eq, Structural)]
pub struct Timestamp {
    date: CalendarDate,
    hour: u32,
    minute: u32,
}

impl Timestamp {
    #[verifier::type_invariant]
    spec fn inv(self) -> bool {
        self.hour < 24 && self.minute < 60
    }

    pub closed spec fn fields(self) -> (int, int, int, int, int) {
        (self.date@.0, self.date@.1, self.date@.2, self.hour as int, self.minute as int)
    }

    /// The instant on `date` at `hour:minute`, if that time of day exists.
    pub fn new(date: CalendarDate, hour: u32, minute: u32) -> (r: Option<Timestamp>)
        ensures
            r is Some <==> hour < 24 && minute < 60,
            r matches Some(t) ==> t@ == (date@.0, date@.1, date@.2, hour as int, minute as int),
    {
        if hour < 24 && minute < 60 {
            Some(Timestamp { date, hour, minute })
        } else {
            None
        }
    }

    pub fn date(&self) -> (r: CalendarDate)
        ensures
            r@ == (self@.0, self@.1, self@.2),
    {
        self.date
    }

    pub fn hour(&self) -> (r: u32)
        ensures
            r == self@.3,
            r < 24,
    {
        proof { use_type_invariant(self); }
        self.hour
    }

    pub fn minute(&self) -> (r: u32)
        ensures
            r == self@.4,
            r < 60,
    {
        proof { use_type_invariant(self); }
        self.minute
    }
}

impl View for Timestamp {
    type V = (int, int, int, int, int);

    open spec fn view(&self) -> (int, int, int, int, int) {
        self.fields()
    }
}

/// A character that an RFC 3339 instant is written with: a digit, a date or time
/// separator, a fraction point, the zone letter in either case, or an offset sign (chrono
/// also reads the minus sign U+2212).
pub open spec fn rfc3339_char(c: char) -> bool {
    ||| ('0' <= c && c <= '9')
    ||| c == '-' || c == ':' || c == '.' || c == ' ' || c == '+'
    ||| c == 'T' || c == 't' || c == 'Z' || c == 'z'
    ||| c == '\u{2212}'
}

/// Every character of `s` is one that an RFC 3339 instant is written with.
pub open spec fn rfc3339_chars(s: Seq<char>) -> bool {
    forall|i: int| 0 <= i < s.len() ==> #[trigger] rfc3339_char(s[i])
}

/// Reads an RFC 3339 instant (`chrono::DateTime::parse_from_rfc3339`), keeping its local
/// date, hour and minute. Trusted: the result is named by `rfc3339_reading`; the parser
/// accepts four date digits, `-`, two digits, `-`, two digits, a `T`, `t` or space, two
/// digits, `:`, two digits, `:`, two digits, an optional `.` and digits, then `Z`, `z` or
/// a sign (`+`, `-` or U+2212) with two digits, `:` and two digits, and nothing after it.
#[verifier::external_body]
pub(crate) fn parse_rfc3339(text: &str) -> (r: Option<Timestamp>)
    ensures
        match r {
            Some(t) => rfc3339_reading(text@) == Some(t@),
            None => rfc3339_reading(text@) is None,
        },
        r is Some ==> rfc3339_chars(text@),
{
    chrono::DateTime::parse_from_rfc3339(text).ok().map(|t| Timestamp {
        date: CalendarDate { year: t.year(), month: t.month(), day: t.day() },
        hour: t.hour(),
        minute: t.minute(),
    })
}

/// Reads a `%Y-%m-%d` date (`chrono::NaiveDate::parse_from_str`).
/// Trusted: the result is named by `ymd_reading`.
#[verifier::external_body]
pub(crate) fn parse_ymd(text: &str) -> (r: Option<CalendarDate>)
    ensures
        match r {
            Some(d) => ymd_reading(text@) == Some(d@),
            None => ymd_reading(text@) is None,
        },
{
    chrono::NaiveDate::parse_from_str(text, "%Y-%m-%d")
        .ok()
        .map(|d| CalendarDate { year: d.year(), month: d.month(), day: d.day() })
}

/// The current local time as RFC 3339 text (`chrono::Local::now().to_rfc3339()`).
/// Trusted: chrono writes the date, `T`, the time with its fraction and the offset, which
/// its own RFC 3339 reader accepts; which instant it names depends on the clock and is
/// left unsaid.
#[verifier::external_body]
pub(crate) fn now_rfc3339() -> (r: String)
    ensures
        rfc3339_reading(r@) is Some,
        rfc3339_chars(r@),
{
    chrono::Local::now().to_rfc3339()
}

/// The weekday of a date (`chrono::Datelike::weekday`), counted from Monday as zero.
/// Trusted: chrono's dates follow the proleptic Gregorian calendar, so the weekday is
/// `weekday_from_monday`.
#[verifier::external_body]
pub(crate) fn weekday_number(date: &CalendarDate) -> (r: u32)
    ensures
        r == weekday_from_monday(date@),
        r < 7,
{
    chrono::NaiveDate::from_ymd_opt(date.year, date.month, date.day)
        .map(|d| d.weekday().num_days_from_monday())
        .unwrap_or(0)
}

/// The journal day of an instant: a day begins at 04:00 local time, so earlier hours
/// still belong to the previous calendar date.
pub fn journal_day(now: &Timestamp) -> (r: CalendarDate)
    requires
        now@.3 >= 4 || prev_date((now@.0, now@.1, now@.2)) is Some,
    ensures
        r@ == if now@.3 < 4 {
            prev_date((now@.0, now@.1, now@.2)).unwrap()
        } else {
            (now@.0, now@.1, now@.2)
        },
{
    let date = now.date();
    if now.hour() < 4 {
        match previous_day(&date) {
            Some(p) => p,
            None => date,
        }
    } else {
        date
    }
}

} // verus!
