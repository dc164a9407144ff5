//! How dates and times are written in journal pages and file names.
use vstd::prelude::*;
use crate::calendar::{CalendarDate, Timestamp, date_before, weekday_from_monday, weekday_number};
use crate::text::{decimal, padded, push_padded, push_all, push_str, string_of, decimal_chars};

verus! {

/// How chrono writes a year: four digits for years 0 to 9999, otherwise a sign and
/// at least four digits.
pub open spec fn year_text(y: int) -> Seq<char> {
    if 0 <= y <= 9999 {
        padded(y as nat, 4)
    } else if y > 9999 {
        seq!['+'] + padded(y as nat, 4)
    } else {
        seq!['-'] + padded((-y) as nat, 4)
    }
}

/// How chrono displays a date: `YYYY-MM-DD`.
pub open spec fn date_text(d: (int, int, int)) -> Seq<char> {
    year_text(d.0) + seq!['-'] + padded(d.1 as nat, 2) + seq!['-'] + padded(d.2 as nat, 2)
}

pub open spec fn month_name(m: int) -> Seq<char> {
    if m == 1 { "January"@ }
    else if m == 2 { "February"@ }
    else if m == 3 { "March"@ }
    else if m == 4 { "April"@ }
    else if m == 5 { "May"@ }
    else if m == 6 { "June"@ }
    else if m == 7 { "July"@ }
    else if m == 8 { "August"@ }
    else if m == 9 { "September"@ }
    else if m == 10 { "October"@ }
    else if m == 11 { "November"@ }
    else { "December"@ }
}

pub open spec fn weekday_name(w: int) -> Seq<char> {
    if w == 0 { "Monday"@ }
    else if w == 1 { "Tuesday"@ }
    else if w == 2 { "Wednesday"@ }
    else if w == 3 { "Thursday"@ }
    else if w == 4 { "Friday"@ }
    else if w == 5 { "Saturday"@ }
    else { "Sunday"@ }
}

/// The page heading: `# Weekday, D Month YYYY`, followed by ` · label` when there is a label.
pub open spec fn heading_text(d: (int, int, int), label: Seq<char>) -> Seq<char> {
    let base = "# "@ + weekday_name(weekday_from_monday(d)) + ", "@ + decimal(d.2 as nat) + seq![' ']
        + month_name(d.1) + seq![' '] + year_text(d.0);
    if label.len() == 0 {
        base
    } else {
        base + " · "@ + label
    }
}

/// The heading of a writing session: its local time, and also its date when the session
/// began after the page's day.
pub open spec fn session_heading_text(t: (int, int, int, int, int), page: (int, int, int)) -> Seq<char> {
    let clock = padded(t.3 as nat, 2) + seq![':'] + padded(t.4 as nat, 2);
    if date_before(page, (t.0, t.1, t.2)) {
        "## "@ + date_text((t.0, t.1, t.2)) + seq![' '] + clock
    } else {
        "## "@ + clock
    }
}

pub fn push_year(out: &mut Vec<char>, y: i32)
    ensures
        final(out)@ == old(out)@ + year_text(y as int),
{
    if 0 <= y && y <= 9999 {
        push_padded(out, y as u64, 4);
    } else if y > 9999 {
        let ghost start = out@;
        out.push('+');
        push_padded(out, y as u64, 4);
        assert(out@ =~= start + (seq!['+'] + padded(y as nat, 4)));
    } else {
        let ghost start = out@;
        out.push('-');
        let a: i64 = -(y as i64);
        push_padded(out, a as u64, 4);
        assert(out@ =~= start + (seq!['-'] + padded((-y) as nat, 4)));
    }
}

pub fn push_date(out: &mut Vec<char>, d: &CalendarDate)
    ensures
        final(out)@ == old(out)@ + date_text(d@),
{
    let ghost start = out@;
    push_year(out, d.year());
    out.push('-');
    push_padded(out, d.month() as u64, 2);
    out.push('-');
    push_padded(out, d.day() as u64, 2);
    assert(out@ =~= start + date_text(d@));
}

impl CalendarDate {
    /// The date as `YYYY-MM-DD`.
    pub fn to_string(&self) -> (r: String)
        ensures
            r@ == date_text(self@),
    {
        let mut v: Vec<char> = Vec::new();
        push_date(&mut v, self);
        string_of(v.as_slice())
    }

    /// The year as the name of the page's year folder.
    pub fn year_string(&self) -> (r: String)
        ensures
            r@ == year_text(self@.0),
    {
        let mut v: Vec<char> = Vec::new();
        push_year(&mut v, self.year());
        string_of(v.as_slice())
    }
}

fn push_month_name(out: &mut Vec<char>, m: u32)
    ensures
        final(out)@ == old(out)@ + month_name(m as int),
{
    if m == 1 { push_str(out, "January") }
    else if m == 2 { push_str(out, "February") }
    else if m == 3 { push_str(out, "March") }
    else if m == 4 { push_str(out, "April") }
    else if m == 5 { push_str(out, "May") }
    else if m == 6 { push_str(out, "June") }
    else if m == 7 { push_str(out, "July") }
    else if m == 8 { push_str(out, "August") }
    else if m == 9 { push_str(out, "September") }
    else if m == 10 { push_str(out, "October") }
    else if m == 11 { push_str(out, "November") }
    else { push_str(out, "December") }
}

fn push_weekday_name(out: &mut Vec<char>, w: u32)
    ensures
        final(out)@ == old(out)@ + weekday_name(w as int),
{
    if w == 0 { push_str(out, "Monday") }
    else if w == 1 { push_str(out, "Tuesday") }
    else if w == 2 { push_str(out, "Wednesday") }
    else if w == 3 { push_str(out, "Thursday") }
    else if w == 4 { push_str(out, "Friday") }
    else if w == 5 { push_str(out, "Saturday") }
    else { push_str(out, "Sunday") }
}

/// The heading of the page for `date` with the given label.
pub fn heading(date: &CalendarDate, label: &[char]) -> (r: Vec<char>)
    ensures
        r@ == heading_text(date@, label@),
{
    let mut out: Vec<char> = Vec::new();
    push_str(&mut out, "# ");
    let w = weekday_number(date);
    push_weekday_name(&mut out, w);
    push_str(&mut out, ", ");
    let dd = decimal_chars(date.day() as u64);
    push_all(&mut out, dd.as_slice());
    out.push(' ');
    push_month_name(&mut out, date.month());
    out.push(' ');
    push_year(&mut out, date.year());
    let ghost base = out@;
    assert(base =~= "# "@ + weekday_name(weekday_from_monday(date@)) + ", "@ + decimal(date@.2 as nat) + seq![' ']
        + month_name(date@.1) + seq![' '] + year_text(date@.0));
    if label.len() > 0 {
        push_str(&mut out, " · ");
        push_all(&mut out, label);
        assert(out@ =~= base + " · "@ + label@);
    }
    out
}

/// The heading of a session that began at `start` on the page for `page`.
pub fn session_heading(start: &Timestamp, page: &CalendarDate) -> (r: Vec<char>)
    ensures
        r@ == session_heading_text(start@, page@),
{
    let mut out: Vec<char> = Vec::new();
    push_str(&mut out, "## ");
    let d = start.date();
    let later = page.year() < d.year()
        || (page.year() == d.year() && (page.month() < d.month()
            || (page.month() == d.month() && page.day() < d.day())));
    if later {
        push_date(&mut out, &d);
        out.push(' ');
    }
    let ghost mid = out@;
    push_padded(&mut out, start.hour() as u64, 2);
    out.push(':');
    push_padded(&mut out, start.minute() as u64, 2);
    let ghost clock = padded(start@.3 as nat, 2) + seq![':'] + padded(start@.4 as nat, 2);
    assert(out@ =~= mid + clock);
    if later {
        assert(out@ =~= "## "@ + date_text((start@.0, start@.1, start@.2)) + seq![' '] + clock);
    } else {
        assert(out@ =~= "## "@ + clock);
    }
    out
}

} // verus!
