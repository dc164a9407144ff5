//! What holds of every page body the library writes: reading it back gives the
//! sessions that were written.
use vstd::prelude::*;
use crate::calendar::{rfc3339_reading, rfc3339_chars, rfc3339_char};
use crate::calendar::date_before;
use crate::dates_text::{date_text, session_heading_text, year_text};
use crate::sessions::{
    SessionView, SessionError, block_text, blank, comment_text, comment_open, comment_close, comment_stamp,
    check_stamp, heading_mark, is_boundary, joined_blocks, body_text, marked_heading, next_boundary,
    parse_block, parse_blocks_from, parse_body, prepend, previous_separator, session_marker,
    lemma_next_boundary_facts, render_error_from, render_body, times_in_rfc3339_chars,
};
use crate::text::{
    decimal, padded, zeros, starts_with, occurs_at, find_from, split_once, contains,
    lemma_find_from_facts, lemma_find_from_exact, lemma_find_from_none, lemma_occurs_skip, lemma_find_skip,
};

verus! {

/// No line break occurs in `s`.
pub open spec fn single_line(s: Seq<char>) -> bool {
    forall|i: int| 0 <= i < s.len() ==> s[i] != '\n'
}

pub open spec fn is_digit_char(c: char) -> bool {
    48 <= (c as int) <= 57
}

pub open spec fn all_digits(s: Seq<char>) -> bool {
    forall|i: int| 0 <= i < s.len() ==> is_digit_char(#[trigger] s[i])
}

proof fn lemma_decimal_digits(n: nat)
    ensures
        all_digits(decimal(n)),
    decreases n,
{
    if n >= 10 {
        lemma_decimal_digits(n / 10);
        assert forall|i: int| 0 <= i < decimal(n).len() implies is_digit_char(#[trigger] decimal(n)[i]) by {
            if i < decimal(n / 10).len() {
                assert(decimal(n)[i] == decimal(n / 10)[i]);
            }
        }
    }
}

proof fn lemma_padded_digits(n: nat, w: nat)
    ensures
        all_digits(padded(n, w)),
{
    lemma_decimal_digits(n);
    let d = decimal(n);
    if d.len() < w {
        let z = zeros((w - d.len()) as nat);
        assert forall|i: int| 0 <= i < padded(n, w).len() implies is_digit_char(#[trigger] padded(n, w)[i]) by {
            if i < z.len() {
                assert(padded(n, w)[i] == z[i]);
            } else {
                assert(padded(n, w)[i] == d[i - z.len()]);
            }
        }
    }
}

proof fn lemma_year_single_line(y: int)
    ensures
        single_line(year_text(y)),
{
    if 0 <= y <= 9999 {
        lemma_padded_digits(y as nat, 4);
    } else if y > 9999 {
        lemma_padded_digits(y as nat, 4);
        let p = padded(y as nat, 4);
        assert forall|i: int| 0 <= i < year_text(y).len() implies year_text(y)[i] != '\n' by {
            if i > 0 {
                assert(year_text(y)[i] == p[i - 1]);
            }
        }
    } else {
        lemma_padded_digits((-y) as nat, 4);
        let p = padded((-y) as nat, 4);
        assert forall|i: int| 0 <= i < year_text(y).len() implies year_text(y)[i] != '\n' by {
            if i > 0 {
                assert(year_text(y)[i] == p[i - 1]);
            }
        }
    }
}

proof fn lemma_concat_single_line(a: Seq<char>, b: Seq<char>)
    requires
        single_line(a),
        single_line(b),
    ensures
        single_line(a + b),
{
    assert forall|i: int| 0 <= i < (a + b).len() implies (a + b)[i] != '\n' by {
        if i < a.len() {
            assert((a + b)[i] == a[i]);
        } else {
            assert((a + b)[i] == b[i - a.len()]);
        }
    }
}

proof fn lemma_digits_single_line(s: Seq<char>)
    requires
        all_digits(s),
    ensures
        single_line(s),
{
    assert forall|i: int| 0 <= i < s.len() implies s[i] != '\n' by {
        assert(is_digit_char(s[i]));
    }
}

proof fn lemma_session_heading_shape(t: (int, int, int, int, int), page: (int, int, int))
    ensures
        single_line(session_heading_text(t, page)),
        starts_with(session_heading_text(t, page), seq!['#', '#', ' ']),
{
    let h = session_heading_text(t, page);
    lemma_padded_digits(t.3 as nat, 2);
    lemma_padded_digits(t.4 as nat, 2);
    lemma_digits_single_line(padded(t.3 as nat, 2));
    lemma_digits_single_line(padded(t.4 as nat, 2));
    let clock = padded(t.3 as nat, 2) + seq![':'] + padded(t.4 as nat, 2);
    lemma_concat_single_line(padded(t.3 as nat, 2), seq![':']);
    lemma_concat_single_line(padded(t.3 as nat, 2) + seq![':'], padded(t.4 as nat, 2));
    reveal_strlit("## ");
    assert("## "@ =~= seq!['#', '#', ' ']);
    if date_before(page, (t.0, t.1, t.2)) {
        let d = (t.0, t.1, t.2);
        lemma_year_single_line(t.0);
        lemma_padded_digits(t.1 as nat, 2);
        lemma_padded_digits(t.2 as nat, 2);
        lemma_digits_single_line(padded(t.1 as nat, 2));
        lemma_digits_single_line(padded(t.2 as nat, 2));
        lemma_concat_single_line(year_text(t.0), seq!['-']);
        lemma_concat_single_line(year_text(t.0) + seq!['-'], padded(t.1 as nat, 2));
        lemma_concat_single_line(year_text(t.0) + seq!['-'] + padded(t.1 as nat, 2), seq!['-']);
        lemma_concat_single_line(year_text(t.0) + seq!['-'] + padded(t.1 as nat, 2) + seq!['-'], padded(t.2 as nat, 2));
        lemma_concat_single_line(seq!['#', '#', ' '], date_text(d));
        lemma_concat_single_line(seq!['#', '#', ' '] + date_text(d), seq![' ']);
        lemma_concat_single_line(seq!['#', '#', ' '] + date_text(d) + seq![' '], clock);
        assert(h =~= seq!['#', '#', ' '] + date_text(d) + seq![' '] + clock);
        assert(h.subrange(0, 3) =~= seq!['#', '#', ' ']);
    } else {
        lemma_concat_single_line(seq!['#', '#', ' '], clock);
        assert(h =~= seq!['#', '#', ' '] + clock);
        assert(h.subrange(0, 3) =~= seq!['#', '#', ' ']);
    }
}

} // verus!

verus! {

proof fn lemma_occurs_prefix(a: Seq<char>, r: Seq<char>, p: Seq<char>, k: int)
    requires
        0 <= k,
        k + p.len() <= a.len(),
    ensures
        occurs_at(a + r, p, k) == occurs_at(a, p, k),
{
    assert((a + r).subrange(k, k + p.len()) =~= a.subrange(k, k + p.len()));
}

/// A text that ends a block: nothing, or a blank line and more.
pub open spec fn block_end(r: Seq<char>) -> bool {
    r.len() == 0 || starts_with(r, blank())
}

proof fn lemma_marked_extend(a: Seq<char>, r: Seq<char>)
    requires
        block_end(r),
    ensures
        marked_heading(a + r) == marked_heading(a),
{
    if r.len() == 0 {
        assert(a + r =~= a);
        return;
    }
    assert(r[0] == '\n' && r[1] == '\n') by {
        assert(r.subrange(0, 2)[0] == r[0]);
        assert(r.subrange(0, 2)[1] == r[1]);
    }
    let hm = heading_mark();
    let nl = seq!['\n'];
    let m = session_marker();
    if a.len() >= 3 {
        assert((a + r).subrange(0, 3) =~= a.subrange(0, 3));
    } else {
        if starts_with(a + r, hm) {
            assert((a + r)[a.len() as int] == (a + r).subrange(0, 3)[a.len() as int]);
            assert((a + r)[a.len() as int] == r[0]);
        }
        return;
    }
    if !starts_with(a, hm) {
        return;
    }
    lemma_find_from_facts(a, nl, 0);
    match find_from(a, nl, 0) {
        Some(j) => {
            assert forall|k: int| 0 <= k < j implies !occurs_at(a + r, nl, k) by {
                lemma_occurs_prefix(a, r, nl, k);
            }
            lemma_occurs_prefix(a, r, nl, j);
            lemma_find_from_exact(a + r, nl, 0, j);
            let u = a.skip(j + 1);
            assert((a + r).skip(j + 1) =~= u + r);
            if u.len() >= 13 {
                assert((u + r).subrange(0, 13) =~= u.subrange(0, 13));
            } else if starts_with(u + r, m) {
                assert((u + r)[u.len() as int] == (u + r).subrange(0, 13)[u.len() as int]);
                assert((u + r)[u.len() as int] == r[0]);
            }
        },
        None => {
            assert forall|k: int| 0 <= k < a.len() implies !occurs_at(a + r, nl, k) by {
                lemma_occurs_prefix(a, r, nl, k);
            }
            assert((a + r).subrange(a.len() as int, a.len() + 1int) =~= nl);
            lemma_find_from_exact(a + r, nl, 0, a.len() as int);
            let w = (a + r).skip(a.len() + 1int);
            assert(w[0] == r[1]);
            if starts_with(w, m) {
                assert(w.subrange(0, 13)[0] == w[0]);
            }
        },
    }
}

/// A boundary of `x + r` inside `x` is a boundary of `x`, when `r` ends a block.
proof fn lemma_boundary_extend(x: Seq<char>, r: Seq<char>, k: int)
    requires
        block_end(r),
        0 <= k < x.len(),
        is_boundary(x + r, k),
    ensures
        is_boundary(x, k),
{
    if r.len() > 0 {
        assert(r[0] == '\n' && r[1] == '\n') by {
            assert(r.subrange(0, 2)[0] == r[0]);
            assert(r.subrange(0, 2)[1] == r[1]);
        }
    }
    if k + 2 <= x.len() {
        lemma_occurs_prefix(x, r, blank(), k);
        assert((x + r).skip(k + 2) =~= x.skip(k + 2) + r);
        lemma_marked_extend(x.skip(k + 2), r);
    } else {
        // k is the last position of x: the blank line would start with x's last character
        // and r's first, and the text after it begins with r's second line break.
        assert(r.len() > 0) by {
            if r.len() == 0 {
                assert(x + r =~= x);
            }
        }
        let t = (x + r).skip(k + 2);
        assert(t[0] == r[1]);
        assert(t.subrange(0, 3)[0] == t[0]);
    }
}

/// Boundaries depend only on what follows them.
proof fn lemma_boundary_skip(body: Seq<char>, a: int, j: int)
    requires
        0 <= a <= body.len(),
        0 <= j,
    ensures
        is_boundary(body.skip(a), j) == is_boundary(body, a + j),
{
    lemma_occurs_skip(body, blank(), a, j);
    if j + 2 <= body.len() - a {
        assert(body.skip(a).skip(j + 2) =~= body.skip(a + j + 2));
    }
}

proof fn lemma_next_boundary_skip(body: Seq<char>, a: int, j: int)
    requires
        0 <= a <= body.len(),
        0 <= j,
    ensures
        next_boundary(body.skip(a), j) == match next_boundary(body, a + j) {
            Some(i) => Some(i - a),
            None => None,
        },
    decreases body.len() + 1 - a - j,
{
    lemma_boundary_skip(body, a, j);
    if j + 2 > body.len() - a {
    } else if is_boundary(body, a + j) {
    } else {
        lemma_next_boundary_skip(body, a, j + 1);
    }
}

/// Reading blocks depends only on the text from where reading begins.
proof fn lemma_parse_skip(body: Seq<char>, a: int, j: int, index: nat, page: (int, int, int))
    requires
        0 <= a <= body.len(),
        0 <= j <= body.len() - a,
    ensures
        parse_blocks_from(body, a + j, index, page) == parse_blocks_from(body.skip(a), j, index, page),
    decreases body.len() - a - j,
{
    lemma_next_boundary_skip(body, a, j);
    lemma_next_boundary_facts(body, a + j);
    match next_boundary(body, a + j) {
        Some(i) => {
            assert(body.subrange(a + j, i) =~= body.skip(a).subrange(j, i - a));
            lemma_parse_skip(body, a, i - a + 2, index + 1, page);
        },
        None => {
            assert(body.subrange(a + j, body.len() as int) =~= body.skip(a).subrange(j, body.len() - a));
        },
    }
}

} // verus!

verus! {

/// A session that the library can write so that reading gives it back: its times are
/// RFC 3339 texts on one line, its start does not contain the separator that introduces
/// the preceding end, only the first session lacks a preceding end, and its text does not
/// itself begin a new session block.
pub open spec fn session_writable(s: SessionView, first: bool) -> bool {
    &&& rfc3339_reading(s.0) is Some
    &&& single_line(s.0)
    &&& !contains(s.0, previous_separator())
    &&& first == (s.1 is None)
    &&& (s.1 matches Some(p) ==> rfc3339_reading(p) is Some && single_line(p))
    &&& content_writable(s.2)
}

/// The text of a session does not itself begin a new session block.
pub open spec fn content_writable(content: Seq<char>) -> bool {
    forall|i: int| !is_boundary(#[trigger] (blank() + content), i)
}

proof fn lemma_comment_single_line(start: Seq<char>, previous: Option<Seq<char>>)
    requires
        single_line(start),
        previous matches Some(p) ==> single_line(p),
    ensures
        single_line(comment_text(start, previous)),
        comment_text(start, previous).len() >= 18,
        comment_text(start, previous)[0] == '<',
{
    let o = comment_open();
    let c = comment_close();
    let sep = previous_separator();
    assert(single_line(o));
    assert(single_line(c));
    assert(single_line(sep));
    lemma_concat_single_line(o, start);
    match previous {
        Some(p) => {
            lemma_concat_single_line(o + start, sep);
            lemma_concat_single_line(o + start + sep, p);
            lemma_concat_single_line(o + start + sep + p, c);
            assert((o + start + sep + p + c)[0] == o[0]);
        },
        None => {
            lemma_concat_single_line(o + start, c);
            assert((o + start + c)[0] == o[0]);
        },
    }
}

/// In a header made of two single lines, the only line break is between them, and the
/// first blank line is where the header ends.
proof fn lemma_header_breaks(h: Seq<char>, c: Seq<char>, rest: Seq<char>)
    requires
        single_line(h),
        single_line(c),
        c.len() > 0,
        c[0] != '\n',
    ensures
        find_from(h + seq!['\n'] + c, seq!['\n'], 0) == Some(h.len() as int),
        forall|j: int| 0 <= j < h.len() + 1 + c.len() ==> !occurs_at(h + seq!['\n'] + c + rest, blank(), j),
{
    let hc = h + seq!['\n'] + c;
    let nl = seq!['\n'];
    assert forall|j: int| 0 <= j < h.len() implies !occurs_at(hc, nl, j) by {
        assert(hc[j] == h[j]);
        if occurs_at(hc, nl, j) {
            assert(hc.subrange(j, j + 1)[0] == hc[j]);
        }
    }
    assert(hc.subrange(h.len() as int, h.len() + 1int) =~= nl);
    lemma_find_from_exact(hc, nl, 0, h.len() as int);
    let all = hc + rest;
    assert forall|j: int| 0 <= j < h.len() + 1 + c.len() implies !occurs_at(all, blank(), j) by {
        if occurs_at(all, blank(), j) {
            assert(all.subrange(j, j + 2)[0] == all[j]);
            assert(all.subrange(j, j + 2)[1] == all[j + 1]);
            if j < h.len() {
                assert(all[j] == h[j]);
            } else if j == h.len() {
                assert(all[j + 1] == c[0]);
            } else {
                assert(all[j] == c[j - h.len() - 1]);
            }
        }
    }
}

} // verus!

verus! {

proof fn lemma_separator_one_semicolon(i: int)
    requires
        0 < i < 16,
    ensures
        previous_separator()[i] != ';',
{
    let sep = previous_separator();
    assert(sep[1] == ' ' && sep[2] == 'p' && sep[3] == 'r' && sep[4] == 'e' && sep[5] == 'v');
    assert(sep[6] == 'i' && sep[7] == 'o' && sep[8] == 'u' && sep[9] == 's' && sep[10] == '-');
    assert(sep[11] == 'e' && sep[12] == 'n' && sep[13] == 'd' && sep[14] == ':' && sep[15] == ' ');
}

proof fn lemma_no_straddle(start: Seq<char>, p: Seq<char>, k: int)
    requires
        0 <= k < start.len() < k + 16,
    ensures
        !occurs_at(start + previous_separator() + p, previous_separator(), k),
{
    let sep = previous_separator();
    let stamp = start + sep + p;
    let n = start.len() as int;
    if occurs_at(stamp, sep, k) {
        assert(stamp[n] == sep[0]);
        assert(stamp.subrange(k, k + 16)[n - k] == stamp[n]);
        lemma_separator_one_semicolon(n - k);
    }
}

proof fn lemma_split_after_start(start: Seq<char>, p: Seq<char>)
    requires
        !contains(start, previous_separator()),
    ensures
        split_once(start + previous_separator() + p, previous_separator()) == Some((start, p)),
{
    let sep = previous_separator();
    let stamp = start + sep + p;
    let n = start.len() as int;
    assert forall|k: int| 0 <= k < n implies !occurs_at(stamp, sep, k) by {
        if k + 16 <= n {
            assert(stamp =~= start + (sep + p));
            lemma_occurs_prefix(start, sep + p, sep, k);
            assert(!occurs_at(start, sep, k));
        } else {
            lemma_no_straddle(start, p, k);
        }
    }
    assert(stamp.subrange(n, n + 16) =~= sep);
    lemma_find_from_exact(stamp, sep, 0, n);
    assert(stamp.subrange(0, n) =~= start);
    assert(stamp.subrange(n + 16, stamp.len() as int) =~= p);
}

proof fn lemma_comment_parts(start: Seq<char>, previous: Option<Seq<char>>)
    ensures
        ({
            let comment = comment_text(start, previous);
            &&& comment.len() >= comment_open().len() + comment_close().len()
            &&& starts_with(comment, comment_open())
            &&& comment.skip(comment.len() - comment_close().len()) == comment_close()
            &&& comment.subrange(comment_open().len() as int, comment.len() - comment_close().len())
                == match previous {
                    Some(p) => start + previous_separator() + p,
                    None => start,
                }
        }),
{
    let o = comment_open();
    let c = comment_close();
    let sep = previous_separator();
    let comment = comment_text(start, previous);
    let mid = match previous {
        Some(p) => start + sep + p,
        None => start,
    };
    assert(comment =~= o + mid + c);
    assert(comment.subrange(0, 14) =~= o);
    assert(comment.skip(comment.len() - 4) =~= c);
    assert(comment.subrange(14, comment.len() - 4) =~= mid);
}

proof fn lemma_stamp_reads_back(start: Seq<char>, previous: Option<Seq<char>>)
    requires
        !contains(start, previous_separator()),
    ensures
        comment_stamp(comment_text(start, previous)) == Some((start, previous)),
{
    lemma_comment_parts(start, previous);
    let sep = previous_separator();
    match previous {
        None => {
            assert forall|k: int| 0 <= k implies !occurs_at(start, sep, k) by {
                if occurs_at(start, sep, k) {
                    assert(contains(start, sep));
                }
            }
            lemma_find_from_none(start, sep, 0);
        },
        Some(p) => {
            lemma_split_after_start(start, p);
        },
    }
}

} // verus!

verus! {

proof fn lemma_block_shape(s: SessionView, page: (int, int, int))
    requires
        rfc3339_reading(s.0) is Some,
        single_line(s.0),
        s.1 matches Some(p) ==> single_line(p),
    ensures
        ({
            let h = session_heading_text(rfc3339_reading(s.0).unwrap(), page);
            let c = comment_text(s.0, s.1);
            &&& single_line(h)
            &&& starts_with(h, heading_mark())
            &&& single_line(c)
            &&& c.len() >= 18
            &&& c[0] == '<'
            &&& block_text(s, page) == h + seq!['\n'] + c + (blank() + s.2)
        }),
{
    let h = session_heading_text(rfc3339_reading(s.0).unwrap(), page);
    let c = comment_text(s.0, s.1);
    lemma_session_heading_shape(rfc3339_reading(s.0).unwrap(), page);
    lemma_comment_single_line(s.0, s.1);
    assert(block_text(s, page) =~= h + seq!['\n'] + c + (blank() + s.2));
}

/// A block is marked as the start of a session.
proof fn lemma_block_marked(s: SessionView, page: (int, int, int), r: Seq<char>)
    requires
        rfc3339_reading(s.0) is Some,
        single_line(s.0),
        s.1 matches Some(p) ==> single_line(p),
        block_end(r),
    ensures
        marked_heading(block_text(s, page) + r),
{
    lemma_block_shape(s, page);
    let h = session_heading_text(rfc3339_reading(s.0).unwrap(), page);
    let c = comment_text(s.0, s.1);
    let b = block_text(s, page);
    lemma_marked_extend(b, r);
    lemma_header_breaks(h, c, blank() + s.2);
    let nl = seq!['\n'];
    // the first line break of the block is the one after its heading
    assert(b =~= (h + nl + c) + (blank() + s.2));
    lemma_find_from_facts(h + nl + c, nl, 0);
    assert forall|k: int| 0 <= k < h.len() implies !occurs_at(b, nl, k) by {
        lemma_occurs_prefix(h + nl + c, blank() + s.2, nl, k);
    }
    lemma_occurs_prefix(h + nl + c, blank() + s.2, nl, h.len() as int);
    lemma_find_from_exact(b, nl, 0, h.len() as int);
    assert(b.subrange(0, 3) =~= h.subrange(0, 3));
    let after = b.skip(h.len() + 1int);
    assert(after.subrange(0, 13) =~= c.subrange(0, 13));
    assert(c.subrange(0, 13) =~= comment_open().subrange(0, 13)) by {
        match s.1 {
            Some(p) => {
                assert(c =~= comment_open() + (s.0 + previous_separator() + p + comment_close()));
            },
            None => {
                assert(c =~= comment_open() + (s.0 + comment_close()));
            },
        }
    }
    assert(comment_open().subrange(0, 13) =~= session_marker());
}

/// Reading a written block gives back its session, and no new block begins inside it.
#[verifier::spinoff_prover]
#[verifier::rlimit(40)]
proof fn lemma_block_reads_back(s: SessionView, first: bool, page: (int, int, int), r: Seq<char>)
    requires
        session_writable(s, first),
        block_end(r),
    ensures
        parse_block(block_text(s, page), first, page) == Ok::<SessionView, SessionError>(s),
        forall|j: int| 0 <= j < block_text(s, page).len() ==> !is_boundary(block_text(s, page) + r, j),
{
    lemma_block_shape(s, page);
    let h = session_heading_text(rfc3339_reading(s.0).unwrap(), page);
    let c = comment_text(s.0, s.1);
    let nl = seq!['\n'];
    let b = block_text(s, page);
    let x = blank() + s.2;
    let h1: int = (h.len() + 1 + c.len()) as int;
    lemma_header_breaks(h, c, x);
    lemma_header_breaks(h, c, x + r);
    // the block's header ends at the first blank line
    assert(b =~= (h + nl + c) + x);
    assert(b.subrange(h1, h1 + 2) =~= blank());
    lemma_find_from_exact(b, blank(), 0, h1);
    assert(b.subrange(0, h1) =~= h + nl + c);
    assert(b.subrange(h1 + 2, b.len() as int) =~= s.2);
    assert((h + nl + c).subrange(0, h.len() as int) =~= h);
    assert((h + nl + c).subrange(h.len() + 1int, h1) =~= c);
    lemma_stamp_reads_back(s.0, s.1);
    // no boundary inside the block
    assert forall|j: int| 0 <= j < b.len() implies !is_boundary(b + r, j) by {
        if j < h1 {
            assert(b + r =~= h + nl + c + (x + r));
        } else {
            assert((b + r).skip(h1) =~= x + r);
            lemma_boundary_skip(b + r, h1, j - h1);
            if is_boundary(x + r, j - h1) {
                lemma_boundary_extend(x, r, j - h1);
            }
        }
    }
}

} // verus!

verus! {

/// Blocks `k` to `n - 1` of `sessions`, separated by blank lines.
pub open spec fn tail_blocks(sessions: Seq<SessionView>, k: int, n: int, page: (int, int, int)) -> Seq<char>
    decreases n - k,
{
    if k >= n {
        Seq::empty()
    } else if k + 1 == n {
        block_text(sessions[k], page)
    } else {
        block_text(sessions[k], page) + (blank() + tail_blocks(sessions, k + 1, n, page))
    }
}

proof fn lemma_tail_grow(sessions: Seq<SessionView>, k: int, n: int, page: (int, int, int))
    requires
        0 <= k < n - 1,
    ensures
        tail_blocks(sessions, k, n, page) == tail_blocks(sessions, k, n - 1, page) + blank() + block_text(sessions[n - 1], page),
    decreases n - k,
{
    if k + 2 == n {
        assert(tail_blocks(sessions, k + 1, n, page) == block_text(sessions[n - 1], page));
        assert(tail_blocks(sessions, k, n - 1, page) == block_text(sessions[k], page));
        assert(tail_blocks(sessions, k, n, page) =~= tail_blocks(sessions, k, n - 1, page) + blank() + block_text(sessions[n - 1], page));
    } else {
        lemma_tail_grow(sessions, k + 1, n, page);
        assert(tail_blocks(sessions, k, n, page) =~= tail_blocks(sessions, k, n - 1, page) + blank() + block_text(sessions[n - 1], page));
    }
}

proof fn lemma_joined_is_tail(sessions: Seq<SessionView>, n: int, page: (int, int, int))
    requires
        1 <= n,
    ensures
        joined_blocks(sessions, n, page) == tail_blocks(sessions, 0, n, page),
    decreases n,
{
    if n > 1 {
        lemma_joined_is_tail(sessions, n - 1, page);
        lemma_tail_grow(sessions, 0, n, page);
    }
}

proof fn lemma_next_boundary_exact(body: Seq<char>, from: int, i: int)
    requires
        0 <= from <= i,
        i + 2 <= body.len(),
        is_boundary(body, i),
        forall|k: int| from <= k < i ==> !is_boundary(body, k),
    ensures
        next_boundary(body, from) == Some(i),
    decreases i - from,
{
    if from < i {
        lemma_next_boundary_exact(body, from + 1, i);
    }
}

proof fn lemma_next_boundary_none(body: Seq<char>, from: int)
    requires
        0 <= from,
        forall|k: int| from <= k ==> !is_boundary(body, k),
    ensures
        next_boundary(body, from) is None,
    decreases body.len() + 1 - from,
{
    if from + 2 <= body.len() {
        lemma_next_boundary_none(body, from + 1);
    }
}

proof fn lemma_last_block_reads_back(s: SessionView, first: bool, page: (int, int, int))
    requires
        session_writable(s, first),
    ensures
        next_boundary(block_text(s, page), 0) is None,
        parse_block(block_text(s, page), first, page) == Ok::<SessionView, SessionError>(s),
{
    let b = block_text(s, page);
    lemma_block_reads_back(s, first, page, Seq::empty());
    assert(b + Seq::<char>::empty() =~= b);
    assert forall|j: int| 0 <= j implies !is_boundary(b, j) by {}
    lemma_next_boundary_none(b, 0);
}

proof fn lemma_inner_block_reads_back(s: SessionView, first: bool, page: (int, int, int), t2: Seq<char>)
    requires
        session_writable(s, first),
        marked_heading(t2),
    ensures
        next_boundary(block_text(s, page) + (blank() + t2), 0) == Some(block_text(s, page).len() as int),
        parse_block(block_text(s, page), first, page) == Ok::<SessionView, SessionError>(s),
        (block_text(s, page) + (blank() + t2)).skip(block_text(s, page).len() + 2int) == t2,
        (block_text(s, page) + (blank() + t2)).subrange(0, block_text(s, page).len() as int) == block_text(s, page),
{
    let b = block_text(s, page);
    let r = blank() + t2;
    let t = b + r;
    assert(r.subrange(0, 2) =~= blank());
    lemma_block_reads_back(s, first, page, r);
    assert(t.subrange(b.len() as int, b.len() + 2int) =~= blank());
    assert(t.skip(b.len() + 2int) =~= t2);
    lemma_next_boundary_exact(t, 0, b.len() as int);
    assert(t.subrange(0, b.len() as int) =~= b);
}

proof fn lemma_next_marked(sessions: Seq<SessionView>, k: int, n: int, page: (int, int, int))
    requires
        0 <= k < n <= sessions.len(),
        forall|i: int| 0 <= i < sessions.len() ==> session_writable(#[trigger] sessions[i], i == 0),
    ensures
        marked_heading(tail_blocks(sessions, k, n, page)),
{
    assert(session_writable(sessions[k], k == 0));
    if k + 1 == n {
        lemma_block_marked(sessions[k], page, Seq::empty());
        assert(tail_blocks(sessions, k, n, page) + Seq::<char>::empty() =~= tail_blocks(sessions, k, n, page));
    } else {
        let r2 = blank() + tail_blocks(sessions, k + 1, n, page);
        assert(r2.subrange(0, 2) =~= blank());
        lemma_block_marked(sessions[k], page, r2);
    }
}

#[verifier::rlimit(30)]
proof fn lemma_tail_reads_back(sessions: Seq<SessionView>, k: int, n: int, page: (int, int, int))
    requires
        0 <= k < n <= sessions.len(),
        forall|i: int| 0 <= i < sessions.len() ==> session_writable(#[trigger] sessions[i], i == 0),
    ensures
        parse_blocks_from(tail_blocks(sessions, k, n, page), 0, k as nat, page)
            == Ok::<Seq<SessionView>, SessionError>(sessions.subrange(k, n)),
    decreases n - k,
{
    let t = tail_blocks(sessions, k, n, page);
    let s = sessions[k];
    let b = block_text(s, page);
    assert(session_writable(s, k == 0));
    if k + 1 == n {
        lemma_last_block_reads_back(s, k == 0, page);
        assert(t.subrange(0, t.len() as int) =~= t);
        assert(sessions.subrange(k, n) =~= seq![s]);
    } else {
        let t2 = tail_blocks(sessions, k + 1, n, page);
        lemma_next_marked(sessions, k + 1, n, page);
        lemma_inner_block_reads_back(s, k == 0, page, t2);
        assert(t == b + (blank() + t2));
        lemma_parse_skip(t, b.len() + 2int, 0, (k + 1) as nat, page);
        assert(t.skip(b.len() + 2int + 0) =~= t2);
        lemma_tail_reads_back(sessions, k + 1, n, page);
        assert(seq![s] + sessions.subrange(k + 1, n) =~= sessions.subrange(k, n));
    }
}

proof fn lemma_writable_renders(sessions: Seq<SessionView>, k: int)
    requires
        0 <= k,
        forall|i: int| 0 <= i < sessions.len() ==> session_writable(#[trigger] sessions[i], i == 0),
    ensures
        render_error_from(sessions, k) is None,
    decreases sessions.len() - k,
{
    if k < sessions.len() {
        assert(session_writable(sessions[k], k == 0));
        lemma_writable_renders(sessions, k + 1);
    }
}

/// Sessions round-trip: the body written for sessions that the library can write reads
/// back as exactly those sessions, with their times, boundaries and Markdown unchanged.
pub proof fn lemma_sessions_round_trip(sessions: Seq<SessionView>, page: (int, int, int))
    requires
        forall|i: int| 0 <= i < sessions.len() ==> session_writable(#[trigger] sessions[i], i == 0),
    ensures
        render_body(sessions, page) == Ok::<Seq<char>, SessionError>(body_text(sessions, page)),
        parse_body(body_text(sessions, page), page) == Ok::<Seq<SessionView>, SessionError>(sessions),
{
    lemma_writable_renders(sessions, 0);
    let n = sessions.len() as int;
    if n == 0 {
        assert(sessions =~= Seq::<SessionView>::empty());
    } else {
        lemma_joined_is_tail(sessions, n, page);
        lemma_tail_reads_back(sessions, 0, n, page);
        assert(sessions.subrange(0, n) =~= sessions);
        assert(session_writable(sessions[0], true));
        lemma_block_shape(sessions[0], page);
        if n == 1 {
        } else {
            lemma_tail_grow(sessions, 0, n, page);
        }
        assert(body_text(sessions, page).len() > 0);
    }
}

/// A text written with RFC 3339 characters only is on one line (no line feed, carriage
/// return or NUL) and cannot hold the separator that introduces a preceding end, which
/// begins with `;`.
pub proof fn lemma_rfc3339_text_fits(s: Seq<char>)
    requires
        rfc3339_chars(s),
    ensures
        single_line(s),
        crate::metadata::fits_line(s),
        !contains(s, previous_separator()),
{
    assert forall|i: int| 0 <= i < s.len() implies s[i] != '\n' && s[i] != '\r' && s[i] != '\0' by {
        assert(rfc3339_char(s[i]));
    }
    if contains(s, previous_separator()) {
        let p = choose|p: int| occurs_at(s, previous_separator(), p);
        assert(s.subrange(p, p + 16)[0] == s[p]);
        assert(rfc3339_char(s[p]));
    }
}

proof fn lemma_rendered_from(sessions: Seq<SessionView>, k: int)
    requires
        0 <= k,
        render_error_from(sessions, k) is None,
    ensures
        forall|i: int| k <= i < sessions.len() ==> {
            &&& (i == 0) == (#[trigger] sessions[i].1 is None)
            &&& rfc3339_reading(sessions[i].0) is Some
            &&& (sessions[i].1 matches Some(p) ==> rfc3339_reading(p) is Some)
        },
    decreases sessions.len() - k,
{
    if k < sessions.len() {
        lemma_rendered_from(sessions, k + 1);
    }
}

/// Sessions that render, written with RFC 3339 times, can be written so that reading gives
/// them back whenever no session's text itself begins a new session block.
pub proof fn lemma_rendered_sessions_writable(sessions: Seq<SessionView>)
    requires
        render_error_from(sessions, 0) is None,
        times_in_rfc3339_chars(sessions),
        forall|i: int| 0 <= i < sessions.len() ==> content_writable(#[trigger] sessions[i].2),
    ensures
        forall|i: int| 0 <= i < sessions.len() ==> session_writable(#[trigger] sessions[i], i == 0),
{
    lemma_rendered_from(sessions, 0);
    assert forall|i: int| 0 <= i < sessions.len() implies session_writable(#[trigger] sessions[i], i == 0) by {
        assert(rfc3339_chars(sessions[i].0));
        lemma_rfc3339_text_fits(sessions[i].0);
        assert(content_writable(sessions[i].2));
        if let Some(p) = sessions[i].1 {
            lemma_rfc3339_text_fits(p);
        }
    }
}

} // verus!
