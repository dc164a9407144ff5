//! Which files in the journal folder are pages: the copies and hidden files that saving
//! leaves beside a page never are.
use vstd::prelude::*;
use crate::dates_text::{date_text, year_text};
use crate::storage::dated_page_spec;
use crate::text::{decimal, padded, zeros, digit_char};

verus! {

/// A character that appears in written dates: a digit, a sign or a hyphen.
pub open spec fn date_char(c: char) -> bool {
    ('0' <= c <= '9') || c == '-' || c == '+'
}

proof fn lemma_decimal_chars(n: nat)
    ensures
        forall|i: int| 0 <= i < decimal(n).len() ==> '0' <= #[trigger] decimal(n)[i] <= '9',
    decreases n,
{
    if n >= 10 {
        lemma_decimal_chars(n / 10);
        lemma_digit_char((n % 10) as nat);
        let p = decimal(n / 10);
        assert(decimal(n) == p.push(digit_char((n % 10) as nat)));
        assert forall|i: int| 0 <= i < decimal(n).len() implies '0' <= #[trigger] decimal(n)[i] <= '9' by {
            if i < p.len() {
                assert(decimal(n)[i] == p[i]);
            }
        }
    } else {
        lemma_digit_char(n);
    }
}

proof fn lemma_digit_char(k: nat)
    requires
        k < 10,
    ensures
        '0' <= digit_char(k) <= '9',
{
    assert(digit_char(k) as int == 48 + k);
}

proof fn lemma_padded_chars(n: nat, w: nat)
    ensures
        forall|i: int| 0 <= i < padded(n, w).len() ==> '0' <= #[trigger] padded(n, w)[i] <= '9',
{
    lemma_decimal_chars(n);
    let d = decimal(n);
    if d.len() < w {
        let z = zeros((w - d.len()) as nat);
        assert forall|i: int| 0 <= i < padded(n, w).len() implies '0' <= #[trigger] padded(n, w)[i] <= '9' by {
            if i < z.len() {
                assert(padded(n, w)[i] == z[i]);
            } else {
                assert(padded(n, w)[i] == d[i - z.len()]);
            }
        }
    }
}

/// Every character of a written date is a digit, a sign or a hyphen.
pub proof fn lemma_date_chars(d: (int, int, int))
    ensures
        forall|i: int| 0 <= i < date_text(d).len() ==> date_char(#[trigger] date_text(d)[i]),
{
    let y = d.0;
    let yt = year_text(y);
    if 0 <= y <= 9999 {
        lemma_padded_chars(y as nat, 4);
    } else if y > 9999 {
        lemma_padded_chars(y as nat, 4);
        assert forall|i: int| 0 <= i < yt.len() implies date_char(#[trigger] yt[i]) by {
            if i > 0 {
                assert(yt[i] == padded(y as nat, 4)[i - 1]);
            }
        }
    } else {
        lemma_padded_chars((-y) as nat, 4);
        assert forall|i: int| 0 <= i < yt.len() implies date_char(#[trigger] yt[i]) by {
            if i > 0 {
                assert(yt[i] == padded((-y) as nat, 4)[i - 1]);
            }
        }
    }
    assert forall|i: int| 0 <= i < yt.len() implies date_char(#[trigger] yt[i]) by {
        if 0 <= y <= 9999 {
            assert(yt[i] == padded(y as nat, 4)[i]);
        }
    }
    lemma_padded_chars(d.1 as nat, 2);
    lemma_padded_chars(d.2 as nat, 2);
    let m = padded(d.1 as nat, 2);
    let a = padded(d.2 as nat, 2);
    let t = date_text(d);
    assert forall|i: int| 0 <= i < t.len() implies date_char(#[trigger] t[i]) by {
        if i < yt.len() {
            assert(t[i] == yt[i]);
        } else if i == yt.len() {
            assert(t[i] == '-');
        } else if i < yt.len() + 1 + m.len() {
            assert(t[i] == m[i - yt.len() - 1]);
        } else if i == yt.len() + 1 + m.len() {
            assert(t[i] == '-');
        } else {
            assert(t[i] == a[i - yt.len() - 2 - m.len()]);
        }
    }
}

/// A file whose name holds a `.` before its `.md` is never read as a page: the name of a
/// page is its date, which has no dot.
pub proof fn lemma_dotted_names_are_not_pages(year: Seq<char>, file: Seq<char>, i: int)
    requires
        0 <= i < file.len() - 3,
        file[i] == '.',
    ensures
        dated_page_spec(year, file) is None,
{
    if let Some(d) = dated_page_spec(year, file) {
        let stem = file.subrange(0, file.len() - 3);
        lemma_date_chars(d);
        assert(date_text(d) == stem);
        assert(stem[i] == '.');
        assert(date_char(date_text(d)[i]));
    }
}

/// A conflict copy of a page, `{stem}.{id}.conflict.md`, is never read as a page, so
/// conflict copies do not appear among the journal's pages.
pub proof fn lemma_conflict_copies_are_not_pages(year: Seq<char>, stem: Seq<char>, id: Seq<char>)
    ensures
        dated_page_spec(year, stem + "."@ + id + ".conflict.md"@) is None,
{
    reveal_strlit(".");
    reveal_strlit(".conflict.md");
    let file = stem + "."@ + id + ".conflict.md"@;
    assert(file[stem.len() as int] == '.');
    lemma_dotted_names_are_not_pages(year, file, stem.len() as int);
}

/// A hidden file, whose name starts with a dot (such as the `.the-page-…` files that a
/// save writes first), is never read as a page.
pub proof fn lemma_hidden_files_are_not_pages(year: Seq<char>, file: Seq<char>)
    requires
        file.len() > 0,
        file[0] == '.',
    ensures
        dated_page_spec(year, file) is None,
{
    if file.len() > 3 {
        lemma_dotted_names_are_not_pages(year, file, 0);
    } else if let Some(d) = dated_page_spec(year, file) {
        assert(date_text(d).len() > 0);
    }
}

} // verus!
