//! Where pages live in the journal folder: `YYYY/YYYY-MM-DD.md`, and which files there are
//! pages.
use vstd::prelude::*;
use crate::calendar::{CalendarDate, date_before, ymd_reading, parse_ymd};
use crate::dates_text::{date_text, year_text, push_date, push_year};
use crate::text::{chars_of, string_of, same_chars};

verus! {

/// The name of a page's file in its year folder.
pub open spec fn page_file_text(date: (int, int, int)) -> Seq<char> {
    date_text(date) + seq!['.', 'm', 'd']
}

/// The year folder and the file name of the page for `date`.
pub fn page_location(date: &CalendarDate) -> (r: (String, String))
    ensures
        r.0@ == year_text(date@.0),
        r.1@ == page_file_text(date@),
{
    let mut year: Vec<char> = Vec::new();
    push_year(&mut year, date.year());
    let mut file: Vec<char> = Vec::new();
    push_date(&mut file, date);
    file.push('.');
    file.push('m');
    file.push('d');
    assert(file@ =~= page_file_text(date@));
    (string_of(year.as_slice()), string_of(file.as_slice()))
}

/// A folder name of four ASCII digits, as year folders are named.
pub open spec fn year_folder_name(name: Seq<char>) -> bool {
    name.len() == 4 && forall|i: int| 0 <= i < 4 ==> '0' <= #[trigger] name[i] <= '9'
}

/// The date of a page file: a year folder named by four digits holding `YYYY-MM-DD.md`,
/// where the name is exactly how its date is written and its year is the folder's.
pub open spec fn dated_page_spec(year: Seq<char>, file: Seq<char>) -> Option<(int, int, int)> {
    if !year_folder_name(year) || file.len() < 3
        || file.subrange(file.len() - 3, file.len() as int) != seq!['.', 'm', 'd'] {
        None
    } else {
        let stem = file.subrange(0, file.len() - 3);
        match ymd_reading(stem) {
            None => None,
            Some(d) => if date_text(d) == stem && year_text(d.0) == year {
                Some(d)
            } else {
                None
            },
        }
    }
}

/// The date of the page file `file` in the folder `year`, if it is a page.
pub fn dated_page(year: &str, file: &str) -> (r: Option<CalendarDate>)
    ensures
        match dated_page_spec(year@, file@) {
            Some(d) => r matches Some(x) && x@ == d,
            None => r is None,
        },
{
    let y = chars_of(year);
    let f = chars_of(file);
    assert(f@.len() == f.len());
    if y.len() != 4 {
        return None;
    }
    let mut i: usize = 0;
    while i < 4
        invariant
            i <= 4,
            y@ == year@,
            y@.len() == 4,
            forall|k: int| 0 <= k < i ==> '0' <= #[trigger] y@[k] <= '9',
        decreases 4 - i,
    {
        if !('0' <= y[i] && y[i] <= '9') {
            return None;
        }
        i += 1;
    }
    let md: Vec<char> = vec!['.', 'm', 'd'];
    if f.len() < 3 || !same_chars(&f[f.len() - 3..f.len()], md.as_slice()) {
        return None;
    }
    let stem = string_of(&f[0..f.len() - 3]);
    let d = match parse_ymd(stem.as_str()) {
        None => return None,
        Some(d) => d,
    };
    let shown = d.to_string();
    let folder = d.year_string();
    let shown_chars = chars_of(shown.as_str());
    let folder_chars = chars_of(folder.as_str());
    let stem_chars = chars_of(stem.as_str());
    if same_chars(shown_chars.as_slice(), stem_chars.as_slice()) && same_chars(folder_chars.as_slice(), y.as_slice()) {
        Some(d)
    } else {
        None
    }
}

/// `a` comes no later than `b`.
pub open spec fn date_le(a: (int, int, int), b: (int, int, int)) -> bool {
    !date_before(b, a)
}

pub open spec fn dates_view(v: Seq<CalendarDate>) -> Seq<(int, int, int)> {
    v.map_values(|d: CalendarDate| d@)
}

pub open spec fn sorted_dates(s: Seq<(int, int, int)>) -> bool {
    forall|i: int, j: int| 0 <= i < j < s.len() ==> date_le(s[i], s[j])
}

fn earlier(a: &CalendarDate, b: &CalendarDate) -> (r: bool)
    ensures
        r == date_before(a@, b@),
{
    a.year() < b.year() || (a.year() == b.year() && (a.month() < b.month()
        || (a.month() == b.month() && a.day() < b.day())))
}

/// The dates in chronological order.
pub fn sort_dates(dates: Vec<CalendarDate>) -> (r: Vec<CalendarDate>)
    ensures
        sorted_dates(dates_view(r@)),
        dates_view(r@).to_multiset() == dates_view(dates@).to_multiset(),
{
    broadcast use vstd::seq_lib::group_to_multiset_ensures;
    let mut out: Vec<CalendarDate> = Vec::new();
    let mut i: usize = 0;
    while i < dates.len()
        invariant
            i <= dates.len(),
            sorted_dates(dates_view(out@)),
            dates_view(out@).to_multiset() == dates_view(dates@.take(i as int)).to_multiset(),
        decreases dates.len() - i,
    {
        let x = dates[i];
        let mut pos: usize = 0;
        while pos < out.len() && !earlier(&x, &out[pos])
            invariant
                pos <= out.len(),
                forall|k: int| 0 <= k < pos ==> date_le(#[trigger] out@[k]@, x@),
            decreases out.len() - pos,
        {
            pos += 1;
        }
        let ghost before = dates_view(out@);
        out.insert(pos, x);
        proof {
            assert(dates_view(out@) =~= before.insert(pos as int, x@));
            vstd::seq_lib::to_multiset_insert(before, pos as int, x@);
            assert(dates_view(dates@.take(i + 1)) =~= dates_view(dates@.take(i as int)).push(x@));
            vstd::seq_lib::to_multiset_build(dates_view(dates@.take(i as int)), x@);
            assert forall|a: int, b: int| 0 <= a < b < dates_view(out@).len() implies date_le(dates_view(out@)[a], dates_view(out@)[b]) by {
                if b < pos {
                } else if a > pos {
                } else if a == pos {
                    // x is before every later element
                    if pos < before.len() {
                        assert(date_le(before[a], before[b - 1]) || a == b - 1);
                    }
                } else {
                }
            }
        }
        i += 1;
    }
    assert(dates@.take(dates@.len() as int) =~= dates@);
    out
}

} // verus!

verus! {

/// The name of a new conflict copy of the page file `{stem}.md`, beside it:
/// `{stem}.{ULID}.conflict.md`, with a fresh ULID.
pub fn conflict_file_name(stem: &str) -> (r: String)
    ensures
        exists|id: Seq<char>| crate::ids::ulid_text(id) && r@ == stem@ + "."@ + id + ".conflict.md"@,
{
    let id = crate::ids::new_ulid();
    let mut r = String::from_str(stem);
    r.append(".");
    r.append(id.as_str());
    r.append(".conflict.md");
    r
}

/// The start of the name of the hidden file that a page's new text is first written to:
/// `.the-page-{date}-`.
pub fn temporary_prefix(date: &CalendarDate) -> (r: String)
    ensures
        r@ == ".the-page-"@ + date_text(date@) + "-"@,
{
    let mut out: Vec<char> = Vec::new();
    crate::text::push_str(&mut out, ".the-page-");
    push_date(&mut out, date);
    crate::text::push_str(&mut out, "-");
    string_of(out.as_slice())
}

} // verus!

verus! {

/// Whether a folder name is four ASCII digits, as year folders are named.
pub fn is_year_folder(name: &str) -> (r: bool)
    ensures
        r == year_folder_name(name@),
{
    let c = chars_of(name);
    if c.len() != 4 {
        return false;
    }
    let mut i: usize = 0;
    while i < 4
        invariant
            i <= 4,
            c@ == name@,
            c@.len() == 4,
            forall|k: int| 0 <= k < i ==> '0' <= #[trigger] c@[k] <= '9',
        decreases 4 - i,
    {
        if !('0' <= c[i] && c[i] <= '9') {
            return false;
        }
        i += 1;
    }
    true
}

} // verus!

verus! {

/// A page file of the year folder `y` among its first `m` entries names the date `d`; only
/// a real folder counts, and in it only regular files.
pub open spec fn listed_in_folder(y: (String, bool, Vec<(String, bool)>), m: int, d: (int, int, int)) -> bool {
    y.1 && exists|j: int| 0 <= j < m && j < y.2@.len() && y.2@[j].1 && #[trigger] dated_page_spec(y.0@, y.2@[j].0@) == Some(d)
}

/// One of the first `n` folders of the journal folder holds a page file that names `d`.
pub open spec fn listed_before(folders: Seq<(String, bool, Vec<(String, bool)>)>, n: int, d: (int, int, int)) -> bool {
    exists|i: int| 0 <= i < n && i < folders.len() && #[trigger] listed_in_folder(folders[i], folders[i].2@.len() as int, d)
}

/// The dates of the pages in a journal folder, given its folders (each with its name,
/// whether it is a real folder rather than a link, and its entries, each with its name and
/// whether it is a regular file): in chronological order, the dates named by a page file
/// that stands as a regular file in a real folder named by its year.
pub fn listed_page_dates(folders: &[(String, bool, Vec<(String, bool)>)]) -> (r: Vec<CalendarDate>)
    ensures
        sorted_dates(dates_view(r@)),
        forall|d: (int, int, int)| dates_view(r@).contains(d) <==> listed_before(folders@, folders@.len() as int, d),
{
    broadcast use vstd::seq_lib::group_to_multiset_ensures;
    let mut found: Vec<CalendarDate> = Vec::new();
    let mut i: usize = 0;
    while i < folders.len()
        invariant
            i <= folders.len(),
            forall|d: (int, int, int)| dates_view(found@).contains(d) <==> listed_before(folders@, i as int, d),
        decreases folders.len() - i,
    {
        let folder = &folders[i];
        let ghost before = found@;
        let mut j: usize = 0;
        if folder.1 {
            while j < folder.2.len()
                invariant
                    j <= folder.2.len(),
                    folder == folders@[i as int],
                    folder.1,
                    forall|d: (int, int, int)| dates_view(found@).contains(d)
                        <==> (listed_before(folders@, i as int, d) || listed_in_folder(*folder, j as int, d)),
                decreases folder.2.len() - j,
            {
                let ghost prior = found@;
                if folder.2[j].1 {
                    match dated_page(folder.0.as_str(), folder.2[j].0.as_str()) {
                        Some(d) => {
                            found.push(d);
                            assert(dates_view(found@) =~= dates_view(prior).push(d@));
                        },
                        None => {},
                    }
                }
                proof {
                    assert forall|d: (int, int, int)| dates_view(found@).contains(d)
                        <==> (listed_before(folders@, i as int, d) || listed_in_folder(*folder, j + 1, d)) by {
                        if listed_in_folder(*folder, j + 1, d) && !listed_in_folder(*folder, j as int, d) {
                            let w = choose|w: int| 0 <= w < j + 1 && w < folder.2@.len() && folder.2@[w].1
                                && #[trigger] dated_page_spec(folder.0@, folder.2@[w].0@) == Some(d);
                            assert(w == j);
                            assert(dates_view(found@).last() == d);
                        }
                        if dates_view(found@).contains(d) && !dates_view(prior).contains(d) {
                            assert(dated_page_spec(folder.0@, folder.2@[j as int].0@) == Some(d));
                        }
                        if listed_in_folder(*folder, j as int, d) {
                            let w = choose|w: int| 0 <= w < j && w < folder.2@.len() && folder.2@[w].1
                                && #[trigger] dated_page_spec(folder.0@, folder.2@[w].0@) == Some(d);
                            assert(dated_page_spec(folder.0@, folder.2@[w].0@) == Some(d));
                        }
                        if dates_view(prior).contains(d) {
                            let k = choose|k: int| 0 <= k < dates_view(prior).len() && dates_view(prior)[k] == d;
                            assert(dates_view(found@)[k] == d);
                        }
                    }
                }
                j += 1;
            }
        }
        proof {
            assert forall|d: (int, int, int)| dates_view(found@).contains(d) <==> listed_before(folders@, i + 1, d) by {
                if listed_before(folders@, i + 1, d) && !listed_before(folders@, i as int, d) {
                    let w = choose|w: int| 0 <= w < i + 1 && w < folders@.len()
                        && #[trigger] listed_in_folder(folders@[w], folders@[w].2@.len() as int, d);
                    assert(w == i);
                }
                if listed_before(folders@, i as int, d) {
                    let w = choose|w: int| 0 <= w < i && w < folders@.len()
                        && #[trigger] listed_in_folder(folders@[w], folders@[w].2@.len() as int, d);
                    assert(listed_in_folder(folders@[w], folders@[w].2@.len() as int, d));
                }
                if dates_view(found@).contains(d) && !listed_before(folders@, i as int, d) {
                    assert(listed_in_folder(folders@[i as int], folders@[i as int].2@.len() as int, d));
                }
            }
        }
        i += 1;
    }
    let r = sort_dates(found);
    proof {
        assert forall|d: (int, int, int)| dates_view(r@).contains(d) <==> dates_view(found@).contains(d) by {
            assert(dates_view(r@).to_multiset().count(d) == dates_view(found@).to_multiset().count(d));
        }
    }
    r
}

} // verus!
