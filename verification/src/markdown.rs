//! The photographs a page's Markdown shows: rendered images whose destination is a local
//! path inside the journal.
use vstd::prelude::*;
use crate::text::{chars_of, string_of, is_white_space, white_space, occurs_at};

verus! {

/// The character ranges of the images that pulldown-cmark finds in a Markdown text, in
/// the order of their start events; literal code is not an image.
pub uninterp spec fn markdown_image_spans(text: Seq<char>) -> Seq<(int, int)>;

/// The image spans of a Markdown text (`pulldown_cmark::Parser::into_offset_iter`, keeping
/// the ranges of `Event::Start(Tag::Image { .. })`, counted in characters).
/// Trusted: the spans are named by `markdown_image_spans`, and each lies within the text.
#[verifier::external_body]
fn image_spans(text: &str) -> (r: Vec<(usize, usize)>)
    ensures
        r@.len() == markdown_image_spans(text@).len(),
        forall|i: int| 0 <= i < r@.len() ==> (#[trigger] r@[i]).0 as int == markdown_image_spans(text@)[i].0
            && r@[i].1 as int == markdown_image_spans(text@)[i].1
            && r@[i].0 <= r@[i].1 <= text@.len(),
{
    let position = |byte: usize| text.char_indices().take_while(|(i, _)| *i < byte).count();
    pulldown_cmark::Parser::new(text)
        .into_offset_iter()
        .filter_map(|(event, span)| match event {
            pulldown_cmark::Event::Start(pulldown_cmark::Tag::Image { .. }) => Some((position(span.start), position(span.end))),
            _ => None,
        })
        .collect()
}

/// Where the caption of an image link that began its caption at `i` ends: the first `]`
/// that a backslash does not escape. A backslash escapes any character but a line break.
pub open spec fn caption_end(t: Seq<char>, i: int) -> Option<int>
    decreases t.len() - i,
{
    if i < 0 || i >= t.len() {
        None
    } else if t[i] == ']' {
        Some(i)
    } else if t[i] == '\\' {
        if i + 1 < t.len() && t[i + 1] != '\n' {
            caption_end(t, i + 2)
        } else {
            None
        }
    } else {
        caption_end(t, i + 1)
    }
}

/// A character allowed in an image destination: not whitespace and not a parenthesis.
pub open spec fn destination_char(c: char) -> bool {
    !is_white_space(c) && c != '(' && c != ')'
}

/// The destination of an image written as a whole `![caption](destination)`, as a range of
/// `t`: the whole text must be one image link with a caption of escaped characters or
/// characters other than `]` and `\`, and a destination without whitespace or parentheses.
pub open spec fn image_destination(t: Seq<char>) -> Option<(int, int)> {
    if t.len() < 2 || t[0] != '!' || t[1] != '[' {
        None
    } else {
        match caption_end(t, 2) {
            None => None,
            Some(c) => {
                if c + 3 < t.len() && t[c + 1] == '(' && t[t.len() - 1] == ')'
                    && (forall|k: int| c + 2 <= k < t.len() - 1 ==> destination_char(#[trigger] t[k])) {
                    Some((c + 2, t.len() - 1))
                } else {
                    None
                }
            },
        }
    }
}

/// A destination that stays inside the journal: no scheme or drive, no backslash, not
/// absolute, and no `..` segment.
pub open spec fn local_destination(p: Seq<char>) -> bool {
    &&& forall|k: int| 0 <= k < p.len() ==> #[trigger] p[k] != ':' && p[k] != '\\'
    &&& !(p.len() > 0 && p[0] == '/')
    &&& !exists|i: int| #[trigger] parent_segment_at(p, i)
}

/// A `..` segment of a slash-separated path begins at `i`.
pub open spec fn parent_segment_at(p: Seq<char>, i: int) -> bool {
    occurs_at(p, seq!['.', '.'], i) && (i == 0 || p[i - 1] == '/') && (i + 2 == p.len() || p[i + 2] == '/')
}

/// The reference that an image span makes to a local photograph, if it makes one: the
/// range of its destination in the whole text, and the destination.
pub open spec fn span_reference(text: Seq<char>, span: (int, int)) -> Option<(int, int, Seq<char>)> {
    let t = text.subrange(span.0, span.1);
    match image_destination(t) {
        None => None,
        Some((a, b)) => {
            let p = t.subrange(a, b);
            if local_destination(p) {
                Some((span.0 + a, span.0 + b, p))
            } else {
                None
            }
        },
    }
}

/// The references of the first `n` spans.
pub open spec fn references_upto(text: Seq<char>, spans: Seq<(int, int)>, n: int) -> Seq<(int, int, Seq<char>)>
    decreases n,
{
    if n <= 0 {
        Seq::empty()
    } else {
        let before = references_upto(text, spans, n - 1);
        match span_reference(text, spans[n - 1]) {
            Some(r) => before.push(r),
            None => before,
        }
    }
}

/// The local photographs that a Markdown text shows, in order, with their ranges.
pub open spec fn text_references(text: Seq<char>) -> Seq<(int, int, Seq<char>)> {
    let spans = markdown_image_spans(text);
    references_upto(text, spans, spans.len() as int)
}

} // verus!

verus! {

proof fn lemma_caption_end_bounds(t: Seq<char>, i: int)
    ensures
        caption_end(t, i) matches Some(c) ==> i <= c < t.len(),
    decreases t.len() - i,
{
    if i < 0 || i >= t.len() {
    } else if t[i] == ']' {
    } else if t[i] == '\\' {
        if i + 1 < t.len() && t[i + 1] != '\n' {
            lemma_caption_end_bounds(t, i + 2);
        }
    } else {
        lemma_caption_end_bounds(t, i + 1);
    }
}

fn find_caption_end(t: &[char], start: usize) -> (r: Option<usize>)
    ensures
        match caption_end(t@, start as int) {
            Some(c) => r == Some(c as usize),
            None => r is None,
        },
{
    let mut i = start;
    assert(t@.len() == t.len());
    while i < t.len()
        invariant
            start <= i,
            t@.len() == t.len(),
            caption_end(t@, start as int) == caption_end(t@, i as int),
        decreases t.len() - i,
    {
        if t[i] == ']' {
            return Some(i);
        } else if t[i] == '\\' {
            if i + 1 < t.len() && t[i + 1] != '\n' {
                i = i + 2;
            } else {
                return None;
            }
        } else {
            i = i + 1;
        }
    }
    None
}

fn destination_char_exec(c: char) -> (r: bool)
    ensures
        r == destination_char(c),
{
    !white_space(c) && c != '(' && c != ')'
}

fn find_destination(t: &[char]) -> (r: Option<(usize, usize)>)
    ensures
        match image_destination(t@) {
            Some((a, b)) => r == Some((a as usize, b as usize)),
            None => r is None,
        },
        r matches Some((a, b)) ==> a < b <= t@.len() && image_destination(t@) == Some((a as int, b as int)),
{
    assert(t@.len() == t.len());
    if t.len() < 2 || t[0] != '!' || t[1] != '[' {
        return None;
    }
    proof { lemma_caption_end_bounds(t@, 2); }
    let c = match find_caption_end(t, 2) {
        None => return None,
        Some(c) => c,
    };
    if !(c < t.len() && t.len() - c > 3 && t[c + 1] == '(' && t[t.len() - 1] == ')') {
        return None;
    }
    let mut k = c + 2;
    while k < t.len() - 1
        invariant
            c + 2 <= k <= t.len() - 1,
            t@.len() == t.len(),
            t@[0] == '!' && t@[1] == '[',
            caption_end(t@, 2) == Some(c as int),
            c + 3 < t@.len(),
            t@[c + 1] == '(',
            t@[t@.len() - 1] == ')',
            forall|j: int| c + 2 <= j < k ==> destination_char(#[trigger] t@[j]),
        decreases t.len() - 1 - k,
    {
        if !destination_char_exec(t[k]) {
            assert(!destination_char(t@[k as int]));
            assert(!(forall|j: int| c + 2 <= j < t@.len() - 1 ==> destination_char(#[trigger] t@[j])));
            return None;
        }
        k += 1;
    }
    Some((c + 2, t.len() - 1))
}

fn local_destination_exec(p: &[char]) -> (r: bool)
    ensures
        r == local_destination(p@),
{
    assert(p@.len() == p.len());
    let mut k: usize = 0;
    while k < p.len()
        invariant
            k <= p.len(),
            p@.len() == p.len(),
            forall|j: int| 0 <= j < k ==> #[trigger] p@[j] != ':' && p@[j] != '\\',
        decreases p.len() - k,
    {
        if p[k] == ':' || p[k] == '\\' {
            assert(p@[k as int] == ':' || p@[k as int] == '\\');
            return false;
        }
        k += 1;
    }
    if p.len() > 0 && p[0] == '/' {
        return false;
    }
    let dots: Vec<char> = vec!['.', '.'];
    assert(dots@ == seq!['.', '.']);
    let mut i: usize = 0;
    while i < p.len()
        invariant
            i <= p.len(),
            p@.len() == p.len(),
            dots@ == seq!['.', '.'],
            forall|j: int| 0 <= j < i ==> !parent_segment_at(p@, j),
        decreases p.len() - i,
    {
        if crate::text::matches_at(p, dots.as_slice(), i) && (i == 0 || p[i - 1] == '/') && (i + 2 == p.len() || p[i + 2] == '/') {
            assert(parent_segment_at(p@, i as int));
            return false;
        }
        i += 1;
    }
    assert forall|j: int| !parent_segment_at(p@, j) by {
        if parent_segment_at(p@, j) {
            assert(0 <= j < p.len());
        }
    }
    true
}

/// The local photographs that a Markdown text shows, in order: the range of each
/// destination in the text (in characters) and the destination.
pub fn image_references(markdown: &str) -> (r: Vec<(usize, usize, String)>)
    ensures
        r@.len() == text_references(markdown@).len(),
        forall|i: int| 0 <= i < r@.len() ==> (#[trigger] r@[i]).0 as int == text_references(markdown@)[i].0
            && r@[i].1 as int == text_references(markdown@)[i].1
            && r@[i].2@ == text_references(markdown@)[i].2,
{
    let text = chars_of(markdown);
    let spans = image_spans(markdown);
    let ghost gspans = markdown_image_spans(markdown@);
    let mut out: Vec<(usize, usize, String)> = Vec::new();
    let mut n: usize = 0;
    while n < spans.len()
        invariant
            n <= spans.len(),
            text@ == markdown@,
            gspans == markdown_image_spans(markdown@),
            spans@.len() == gspans.len(),
            forall|i: int| 0 <= i < spans@.len() ==> (#[trigger] spans@[i]).0 as int == gspans[i].0
                && spans@[i].1 as int == gspans[i].1 && spans@[i].0 <= spans@[i].1 <= markdown@.len(),
            out@.len() == references_upto(markdown@, gspans, n as int).len(),
            forall|i: int| 0 <= i < out@.len() ==> (#[trigger] out@[i]).0 as int == references_upto(markdown@, gspans, n as int)[i].0
                && out@[i].1 as int == references_upto(markdown@, gspans, n as int)[i].1
                && out@[i].2@ == references_upto(markdown@, gspans, n as int)[i].2,
        decreases spans.len() - n,
    {
        let (s, e) = spans[n];
        assert(text@.len() == text.len());
        assert(spans@[n as int].0 == s && spans@[n as int].1 == e);
        let t = &text[s..e];
        assert(t@ == markdown@.subrange(s as int, e as int));
        let ghost before = references_upto(markdown@, gspans, n as int);
        assert(gspans[n as int] == (s as int, e as int));
        assert(references_upto(markdown@, gspans, n + 1) == match span_reference(markdown@, gspans[n as int]) {
            Some(x) => before.push(x),
            None => before,
        });
        match find_destination(t) {
            None => {
                assert(span_reference(markdown@, gspans[n as int]) is None);
            },
            Some((a, b)) => {
                let p = &t[a..b];
                assert(p@ == t@.subrange(a as int, b as int));
                if local_destination_exec(p) {
                    let path = string_of(p);
                    assert(span_reference(markdown@, gspans[n as int]) == Some((s + a, s + b, p@)));
                    out.push((s + a, s + b, path));
                    assert(references_upto(markdown@, gspans, n + 1) == before.push((s + a, s + b, p@)));
                } else {
                    assert(span_reference(markdown@, gspans[n as int]) is None);
                }
            },
        }
        n += 1;
    }
    out
}

/// The local photographs that a Markdown text shows, in order.
pub fn image_paths(markdown: &str) -> (r: Vec<String>)
    ensures
        r@.len() == text_references(markdown@).len(),
        forall|i: int| 0 <= i < r@.len() ==> (#[trigger] r@[i])@ == text_references(markdown@)[i].2,
{
    let refs = image_references(markdown);
    let mut out: Vec<String> = Vec::new();
    let mut i: usize = 0;
    while i < refs.len()
        invariant
            i <= refs.len(),
            refs@.len() == text_references(markdown@).len(),
            forall|k: int| 0 <= k < refs@.len() ==> (#[trigger] refs@[k]).2@ == text_references(markdown@)[k].2,
            out@.len() == i,
            forall|k: int| 0 <= k < i ==> (#[trigger] out@[k])@ == text_references(markdown@)[k].2,
        decreases refs.len() - i,
    {
        out.push(refs[i].2.clone());
        i += 1;
    }
    out
}

} // verus!
