//! Writing sessions and the session blocks of a page body.
//!
//! A page body is a run of blocks separated by blank lines. Each block is a heading with
//! the session's local time, an HTML comment that records the session's start (and, after
//! the first session, the end of the input that preceded it), a blank line, and the text.
use vstd::prelude::*;
use crate::calendar::{CalendarDate, parse_rfc3339, rfc3339_reading};
use crate::dates_text::{session_heading, session_heading_text};
use crate::text::{chars_of, find, find_from, occurs_at, push_all, split_once, starts_with, string_of};

verus! {

/// A stretch of uninterrupted writing on a page.
#[derive(Clone, Debug)]
pub struct WritingSession {
    /// RFC 3339 time at which the session began.
    pub start: String,
    /// RFC 3339 time of the last input before this session; absent for the first session.
    pub previous_end: Option<String>,
    /// The session's Markdown.
    pub content: String,
}

/// A session as values: start, preceding end and content.
pub type SessionView = (Seq<char>, Option<Seq<char>>, Seq<char>);

pub open spec fn opt_view(o: Option<String>) -> Option<Seq<char>> {
    match o {
        Some(s) => Some(s@),
        None => None,
    }
}

impl View for WritingSession {
    type V = SessionView;

    open spec fn view(&self) -> SessionView {
        (self.start@, opt_view(self.previous_end), self.content@)
    }
}

pub open spec fn sessions_view(v: Seq<WritingSession>) -> Seq<SessionView> {
    v.map_values(|s: WritingSession| s@)
}

pub fn clone_opt_string(o: &Option<String>) -> (r: Option<String>)
    ensures
        opt_view(r) == opt_view(*o),
{
    match o {
        Some(s) => Some(s.clone()),
        None => None,
    }
}

fn same_string(a: &String, b: &String) -> (r: bool)
    ensures
        r == (a@ == b@),
{
    let x = chars_of(a.as_str());
    let y = chars_of(b.as_str());
    crate::text::same_chars(x.as_slice(), y.as_slice())
}

impl PartialEq for WritingSession {
    fn eq(&self, other: &Self) -> (r: bool) {
        let ends = match (&self.previous_end, &other.previous_end) {
            (None, None) => true,
            (Some(a), Some(b)) => same_string(a, b),
            _ => false,
        };
        same_string(&self.start, &other.start) && ends && same_string(&self.content, &other.content)
    }
}

impl vstd::std_specs::cmp::PartialEqSpecImpl for WritingSession {
    open spec fn obeys_eq_spec() -> bool {
        true
    }

    open spec fn eq_spec(&self, other: &WritingSession) -> bool {
        self@ == other@
    }
}

impl WritingSession {
    /// A copy of the session.
    pub fn duplicate(&self) -> (r: WritingSession)
        ensures
            r@ == self@,
    {
        WritingSession {
            start: self.start.clone(),
            previous_end: clone_opt_string(&self.previous_end),
            content: self.content.clone(),
        }
    }
}

/// Copies of the given sessions.
pub fn duplicate_sessions(v: &[WritingSession]) -> (r: Vec<WritingSession>)
    ensures
        sessions_view(r@) == sessions_view(v@),
{
    let mut r: Vec<WritingSession> = Vec::new();
    let mut i: usize = 0;
    while i < v.len()
        invariant
            i <= v.len(),
            sessions_view(r@) == sessions_view(v@.take(i as int)),
        decreases v.len() - i,
    {
        r.push(v[i].duplicate());
        assert(sessions_view(v@.take(i + 1)) =~= sessions_view(v@.take(i as int)).push(v@[i as int]@));
        assert(sessions_view(r@) =~= sessions_view(v@.take(i as int)).push(v@[i as int]@));
        i += 1;
    }
    assert(v@.take(v@.len() as int) =~= v@);
    r
}

/// Why a page body cannot be read as sessions.
#[derive(Clone, Copy, Debug, PartialEq, Eq, Structural)]
pub enum SessionError {
    MissingBoundary,
    MissingTimestamp,
    MalformedComment,
    MalformedTimestamp,
    HeadingMismatch,
    InvalidBoundary,
    InvalidPreviousEnd,
}

impl SessionError {
    pub open spec fn spec_message(self) -> Seq<char> {
        match self {
            SessionError::MissingBoundary => "Missing session boundary."@,
            SessionError::MissingTimestamp => "Missing session timestamp."@,
            SessionError::MalformedComment => "Malformed session comment."@,
            SessionError::MalformedTimestamp => "Malformed session timestamp."@,
            SessionError::HeadingMismatch => "Session time and timestamp disagree."@,
            SessionError::InvalidBoundary => "Invalid session boundary."@,
            SessionError::InvalidPreviousEnd => "Invalid preceding end-input time."@,
        }
    }

    /// The message shown for this error.
    pub fn message(&self) -> (r: String)
        ensures
            r@ == self.spec_message(),
    {
        match self {
            SessionError::MissingBoundary => String::from_str("Missing session boundary."),
            SessionError::MissingTimestamp => String::from_str("Missing session timestamp."),
            SessionError::MalformedComment => String::from_str("Malformed session comment."),
            SessionError::MalformedTimestamp => String::from_str("Malformed session timestamp."),
            SessionError::HeadingMismatch => String::from_str("Session time and timestamp disagree."),
            SessionError::InvalidBoundary => String::from_str("Invalid session boundary."),
            SessionError::InvalidPreviousEnd => String::from_str("Invalid preceding end-input time."),
        }
    }
}

/// A blank line between blocks.
pub open spec fn blank() -> Seq<char> {
    seq!['\n', '\n']
}

/// The start of a session heading.
pub open spec fn heading_mark() -> Seq<char> {
    seq!['#', '#', ' ']
}

/// What begins the line after a session heading.
pub open spec fn session_marker() -> Seq<char> {
    seq!['<', '!', '-', '-', ' ', 's', 'e', 's', 's', 'i', 'o', 'n', ':']
}

/// The opening of a session comment.
pub open spec fn comment_open() -> Seq<char> {
    session_marker().push(' ')
}

/// The closing of a session comment.
pub open spec fn comment_close() -> Seq<char> {
    seq![' ', '-', '-', '>']
}

/// What separates the start from the preceding end inside a session comment.
pub open spec fn previous_separator() -> Seq<char> {
    seq![';', ' ', 'p', 'r', 'e', 'v', 'i', 'o', 'u', 's', '-', 'e', 'n', 'd', ':', ' ']
}

/// `t` begins with a session heading whose next line begins a session comment.
pub open spec fn marked_heading(t: Seq<char>) -> bool {
    &&& starts_with(t, heading_mark())
    &&& match find_from(t, seq!['\n'], 0) {
        Some(j) => starts_with(t.skip(j + 1), session_marker()),
        None => false,
    }
}

/// A new block begins two characters after position `i` of `body`.
pub open spec fn is_boundary(body: Seq<char>, i: int) -> bool {
    occurs_at(body, blank(), i) && marked_heading(body.skip(i + 2))
}

/// The first block boundary at or after `from`.
pub open spec fn next_boundary(body: Seq<char>, from: int) -> Option<int>
    decreases body.len() + 1 - from,
{
    if from < 0 || from + 2 > body.len() {
        None
    } else if is_boundary(body, from) {
        Some(from)
    } else {
        next_boundary(body, from + 1)
    }
}

pub proof fn lemma_next_boundary_facts(body: Seq<char>, from: int)
    requires
        0 <= from,
    ensures
        next_boundary(body, from) matches Some(i) ==> from <= i && i + 2 <= body.len()
            && is_boundary(body, i) && forall|k: int| from <= k < i ==> !is_boundary(body, k),
        next_boundary(body, from) is None ==> forall|k: int| from <= k ==> !is_boundary(body, k),
    decreases body.len() + 1 - from,
{
    if from + 2 > body.len() {
    } else if is_boundary(body, from) {
    } else {
        lemma_next_boundary_facts(body, from + 1);
    }
}

/// The comment of a session block: its start and, if any, the preceding end.
pub open spec fn comment_text(start: Seq<char>, previous: Option<Seq<char>>) -> Seq<char> {
    match previous {
        Some(p) => comment_open() + start + previous_separator() + p + comment_close(),
        None => comment_open() + start + comment_close(),
    }
}

/// The start and preceding end recorded in a session comment.
pub open spec fn comment_stamp(comment: Seq<char>) -> Option<(Seq<char>, Option<Seq<char>>)> {
    if !(comment.len() >= comment_open().len() + comment_close().len()
        && starts_with(comment, comment_open())
        && comment.skip(comment.len() - comment_close().len()) == comment_close()) {
        None
    } else {
        let stamp = comment.subrange(comment_open().len() as int, comment.len() - comment_close().len());
        match split_once(stamp, previous_separator()) {
            Some((a, b)) => Some((a, Some(b))),
            None => Some((stamp, None)),
        }
    }
}

/// Checks a block's recorded times against its heading and position.
pub open spec fn check_stamp(start: Seq<char>, previous: Option<Seq<char>>, heading: Seq<char>, content: Seq<char>, first: bool, page: (int, int, int)) -> Result<SessionView, SessionError> {
    match rfc3339_reading(start) {
        None => Err(SessionError::MalformedTimestamp),
        Some(t) => {
            if session_heading_text(t, page) != heading {
                Err(SessionError::HeadingMismatch)
            } else if first != (previous is None) {
                Err(SessionError::InvalidBoundary)
            } else if previous matches Some(p) && rfc3339_reading(p) is None {
                Err(SessionError::InvalidPreviousEnd)
            } else {
                Ok((start, previous, content))
            }
        }
    }
}

/// Reads one block. `first` tells whether it is the page's first block.
pub open spec fn parse_block(block: Seq<char>, first: bool, page: (int, int, int)) -> Result<SessionView, SessionError> {
    match split_once(block, blank()) {
        None => Err(SessionError::MissingBoundary),
        Some((header, content)) => match split_once(header, seq!['\n']) {
            None => Err(SessionError::MissingTimestamp),
            Some((heading, comment)) => match comment_stamp(comment) {
                None => Err(SessionError::MalformedComment),
                Some((start, previous)) => check_stamp(start, previous, heading, content, first, page),
            },
        },
    }
}

pub open spec fn prepend(v: SessionView, r: Result<Seq<SessionView>, SessionError>) -> Result<Seq<SessionView>, SessionError> {
    match r {
        Ok(rest) => Ok(seq![v] + rest),
        Err(e) => Err(e),
    }
}

/// Reads the blocks of `body` that begin at `from`; `index` counts the blocks before.
pub open spec fn parse_blocks_from(body: Seq<char>, from: int, index: nat, page: (int, int, int)) -> Result<Seq<SessionView>, SessionError>
    decreases body.len() + 1 - from,
{
    if from < 0 || from > body.len() {
        Err(SessionError::MissingBoundary)
    } else {
        let end = match next_boundary(body, from) {
            Some(i) => i,
            None => body.len() as int,
        };
        match parse_block(body.subrange(from, end), index == 0, page) {
            Err(e) => Err(e),
            Ok(v) => match next_boundary(body, from) {
                None => Ok(seq![v]),
                Some(i) => {
                    proof {
                        lemma_next_boundary_facts(body, from);
                    }
                    prepend(v, parse_blocks_from(body, i + 2, index + 1, page))
                },
            },
        }
    }
}

/// The sessions that a page body records.
pub open spec fn parse_body(body: Seq<char>, page: (int, int, int)) -> Result<Seq<SessionView>, SessionError> {
    if body.len() == 0 {
        Ok(Seq::empty())
    } else {
        parse_blocks_from(body, 0, 0, page)
    }
}

} // verus!

verus! {

fn marker_chars() -> (r: Vec<char>)
    ensures
        r@ == session_marker(),
{
    vec!['<', '!', '-', '-', ' ', 's', 'e', 's', 's', 'i', 'o', 'n', ':']
}

fn separator_chars() -> (r: Vec<char>)
    ensures
        r@ == previous_separator(),
{
    vec![';', ' ', 'p', 'r', 'e', 'v', 'i', 'o', 'u', 's', '-', 'e', 'n', 'd', ':', ' ']
}

/// Whether a new block begins two characters after position `i`.
fn boundary_at(body: &[char], i: usize) -> (r: bool)
    ensures
        r == is_boundary(body@, i as int),
{
    let blank_chars: Vec<char> = vec!['\n', '\n'];
    assert(blank_chars@ == blank());
    if !crate::text::matches_at(body, blank_chars.as_slice(), i) {
        return false;
    }
    assert(i + 2 <= body@.len());
    assert(body@.len() == body.len());
    let t = i + 2;
    proof {
        crate::text::lemma_occurs_skip(body@, heading_mark(), t as int, 0);
        crate::text::lemma_find_skip(body@, seq!['\n'], t as int, 0);
    }
    let mark: Vec<char> = vec!['#', '#', ' '];
    if !crate::text::matches_at(body, mark.as_slice(), t) {
        return false;
    }
    let newline: Vec<char> = vec!['\n'];
    assert(newline@ == seq!['\n']);
    assert(mark@ == heading_mark());
    match find(body, newline.as_slice(), t) {
        None => false,
        Some(j) => {
            let marker = marker_chars();
            proof {
                crate::text::lemma_find_from_facts(body@, seq!['\n'], t as int);
                crate::text::lemma_occurs_skip(body@.skip(t as int), session_marker(), (j - t + 1) as int, 0);
                crate::text::lemma_occurs_skip(body@, session_marker(), t as int, (j - t + 1) as int);
                assert(body@.skip(t as int).skip((j - t + 1) as int) =~= body@.skip(j + 1));
            }
            crate::text::matches_at(body, marker.as_slice(), j + 1)
        },
    }
}

/// The first block boundary at or after `from`.
fn find_boundary(body: &[char], from: usize) -> (r: Option<usize>)
    ensures
        match next_boundary(body@, from as int) {
            Some(i) => r == Some(i as usize),
            None => r is None,
        },
{
    let mut i = from;
    while i < body.len() && 2 <= body.len() - i
        invariant
            from <= i,
            next_boundary(body@, from as int) == next_boundary(body@, i as int),
        decreases body.len() - i,
    {
        if boundary_at(body, i) {
            return Some(i);
        }
        i += 1;
    }
    None
}

/// The start and preceding end recorded in a session comment.
fn read_stamp(comment: &[char]) -> (r: Option<(Vec<char>, Option<Vec<char>>)>)
    ensures
        match r {
            Some((a, b)) => comment_stamp(comment@) == Some((a@, match b { Some(x) => Some(x@), None => None::<Seq<char>> })),
            None => comment_stamp(comment@) is None,
        },
{
    let mut open = marker_chars();
    open.push(' ');
    let close: Vec<char> = vec![' ', '-', '-', '>'];
    assert(open@ == comment_open());
    assert(close@ == comment_close());
    if comment.len() < 18 {
        return None;
    }
    let opened = crate::text::matches_at(comment, open.as_slice(), 0);
    let closed = crate::text::matches_at(comment, close.as_slice(), comment.len() - 4);
    proof {
        assert(comment@.skip(comment@.len() - 4) =~= comment@.subrange(comment@.len() - 4, comment@.len() as int));
    }
    if !(opened && closed) {
        return None;
    }
    let stamp = &comment[14..comment.len() - 4];
    let sep = separator_chars();
    match find(stamp, sep.as_slice(), 0) {
        Some(k) => {
            proof { crate::text::lemma_find_from_facts(stamp@, previous_separator(), 0); }
            assert(stamp@.len() == stamp.len());
            let a = crate::text::copy_chars(&stamp[0..k]);
            let b = crate::text::copy_chars(&stamp[k + 16..stamp.len()]);
            Some((a, Some(b)))
        },
        None => Some((crate::text::copy_chars(stamp), None)),
    }
}

/// Checks a block's recorded times against its heading and position.
fn check_block(start_chars: &[char], previous_chars: Option<Vec<char>>, heading: &[char], content: &[char], first: bool, page: &CalendarDate) -> (r: Result<WritingSession, SessionError>)
    ensures
        match r {
            Ok(s) => check_stamp(start_chars@, match previous_chars { Some(x) => Some(x@), None => None::<Seq<char>> }, heading@, content@, first, page@) == Ok::<SessionView, SessionError>(s@),
            Err(e) => check_stamp(start_chars@, match previous_chars { Some(x) => Some(x@), None => None::<Seq<char>> }, heading@, content@, first, page@) == Err::<SessionView, SessionError>(e),
        },
{
    let start = string_of(start_chars);
    let t = match parse_rfc3339(start.as_str()) {
        None => return Err(SessionError::MalformedTimestamp),
        Some(t) => t,
    };
    let expected = session_heading(&t, page);
    if !crate::text::same_chars(expected.as_slice(), heading) {
        return Err(SessionError::HeadingMismatch);
    }
    if first != previous_chars.is_none() {
        return Err(SessionError::InvalidBoundary);
    }
    let previous_end = match previous_chars {
        Some(p) => {
            let p = string_of(p.as_slice());
            if parse_rfc3339(p.as_str()).is_none() {
                return Err(SessionError::InvalidPreviousEnd);
            }
            Some(p)
        },
        None => None,
    };
    Ok(WritingSession { start, previous_end, content: string_of(content) })
}

/// Reads one block of a page body.
fn read_block(block: &[char], first: bool, page: &CalendarDate) -> (r: Result<WritingSession, SessionError>)
    ensures
        match r {
            Ok(s) => parse_block(block@, first, page@) == Ok::<SessionView, SessionError>(s@),
            Err(e) => parse_block(block@, first, page@) == Err::<SessionView, SessionError>(e),
        },
{
    let blank_chars: Vec<char> = vec!['\n', '\n'];
    assert(blank_chars@ == blank());
    let b = match find(block, blank_chars.as_slice(), 0) {
        None => return Err(SessionError::MissingBoundary),
        Some(b) => b,
    };
    proof { crate::text::lemma_find_from_facts(block@, blank(), 0); }
    assert(block@.len() == block.len());
    let header = &block[0..b];
    let content = &block[b + 2..block.len()];
    let newline: Vec<char> = vec!['\n'];
    assert(newline@ == seq!['\n']);
    let n = match find(header, newline.as_slice(), 0) {
        None => return Err(SessionError::MissingTimestamp),
        Some(n) => n,
    };
    proof { crate::text::lemma_find_from_facts(header@, seq!['\n'], 0); }
    assert(header@.len() == header.len());
    let heading = &header[0..n];
    let comment = &header[n + 1..header.len()];
    match read_stamp(comment) {
        None => Err(SessionError::MalformedComment),
        Some((start_chars, previous_chars)) => check_block(start_chars.as_slice(), previous_chars, heading, content, first, page),
    }
}

/// The sessions recorded in a page body, or why the body cannot be read.
pub fn parse_sessions(body: &[char], page: &CalendarDate) -> (r: Result<Vec<WritingSession>, SessionError>)
    ensures
        match r {
            Ok(v) => parse_body(body@, page@) == Ok::<Seq<SessionView>, SessionError>(sessions_view(v@)),
            Err(e) => parse_body(body@, page@) == Err::<Seq<SessionView>, SessionError>(e),
        },
{
    let mut out: Vec<WritingSession> = Vec::new();
    if body.len() == 0 {
        assert(sessions_view(out@) =~= Seq::<SessionView>::empty());
        return Ok(out);
    }
    let mut from: usize = 0;
    let mut index: usize = 0;
    loop
        invariant
            0 < body.len(),
            from <= body.len(),
            index == out@.len(),
            parse_body(body@, page@) == match parse_blocks_from(body@, from as int, index as nat, page@) {
                Ok(rest) => Ok::<Seq<SessionView>, SessionError>(sessions_view(out@) + rest),
                Err(e) => Err(e),
            },
        decreases body.len() - from,
    {
        let next = find_boundary(body, from);
        proof { lemma_next_boundary_facts(body@, from as int); }
        let end = match next {
            Some(i) => i,
            None => body.len(),
        };
        let block = read_block(&body[from..end], index == 0, page);
        match block {
            Err(e) => return Err(e),
            Ok(s) => {
                let ghost sv = s@;
                let ghost before = out@;
                out.push(s);
                assert(sessions_view(out@) =~= sessions_view(before) + seq![sv]);
                match next {
                    None => {
                        return Ok(out);
                    },
                    Some(i) => {
                        proof {
                            assert(parse_blocks_from(body@, from as int, index as nat, page@)
                                == prepend(sv, parse_blocks_from(body@, i + 2, (index + 1) as nat, page@)));
                            assert forall|r2: Seq<SessionView>| #[trigger] (sessions_view(before) + (seq![sv] + r2)) =~= sessions_view(out@) + r2 by {}
                        }
                        let count = out.len();
                        assert(index + 1 == count);
                        from = i + 2;
                        index = count;
                    },
                }
            },
        }
    }
}

} // verus!

verus! {

/// The block that records a session whose start has been read as `t`.
pub open spec fn block_text(s: SessionView, page: (int, int, int)) -> Seq<char> {
    session_heading_text(rfc3339_reading(s.0).unwrap(), page) + seq!['\n'] + comment_text(s.0, s.1) + blank() + s.2
}

/// The first `n` blocks of `sessions`, separated by blank lines.
pub open spec fn joined_blocks(sessions: Seq<SessionView>, n: int, page: (int, int, int)) -> Seq<char>
    decreases n,
{
    if n <= 0 {
        Seq::empty()
    } else if n == 1 {
        block_text(sessions[0], page)
    } else {
        joined_blocks(sessions, n - 1, page) + blank() + block_text(sessions[n - 1], page)
    }
}

/// The page body that records `sessions`.
pub open spec fn body_text(sessions: Seq<SessionView>, page: (int, int, int)) -> Seq<char> {
    joined_blocks(sessions, sessions.len() as int, page)
}

/// Why session `k` (or a later one) cannot be written, if any can't.
pub open spec fn render_error_from(sessions: Seq<SessionView>, k: int) -> Option<SessionError>
    decreases sessions.len() - k,
{
    if k < 0 || k >= sessions.len() {
        None
    } else if (k == 0) != (sessions[k].1 is None) {
        Some(SessionError::InvalidBoundary)
    } else if rfc3339_reading(sessions[k].0) is None {
        Some(SessionError::MalformedTimestamp)
    } else if sessions[k].1 matches Some(p) && rfc3339_reading(p) is None {
        Some(SessionError::InvalidPreviousEnd)
    } else {
        render_error_from(sessions, k + 1)
    }
}

/// Each start and each preceding end is written with RFC 3339 characters only.
pub open spec fn times_in_rfc3339_chars(sessions: Seq<SessionView>) -> bool {
    forall|i: int| 0 <= i < sessions.len() ==> {
        &&& crate::calendar::rfc3339_chars(#[trigger] sessions[i].0)
        &&& (sessions[i].1 matches Some(p) ==> crate::calendar::rfc3339_chars(p))
    }
}

/// The body that records the sessions, or why they cannot be written.
pub open spec fn render_body(sessions: Seq<SessionView>, page: (int, int, int)) -> Result<Seq<char>, SessionError> {
    match render_error_from(sessions, 0) {
        Some(e) => Err(e),
        None => Ok(body_text(sessions, page)),
    }
}

/// Appends the comment that records a session's start and preceding end.
fn push_comment(out: &mut Vec<char>, start: &str, previous: &Option<String>)
    ensures
        final(out)@ == old(out)@ + comment_text(start@, opt_view(*previous)),
{
    let ghost before = out@;
    let marker = marker_chars();
    push_all(out, marker.as_slice());
    out.push(' ');
    crate::text::push_str(out, start);
    match previous {
        Some(p) => {
            let sep = separator_chars();
            push_all(out, sep.as_slice());
            crate::text::push_str(out, p.as_str());
        },
        None => {},
    }
    let close: Vec<char> = vec![' ', '-', '-', '>'];
    push_all(out, close.as_slice());
    proof {
        match previous {
            Some(p) => {
                assert(out@ =~= before + (comment_open() + start@ + previous_separator() + p@ + comment_close()));
            },
            None => {
                assert(out@ =~= before + (comment_open() + start@ + comment_close()));
            },
        }
    }
}

/// The page body that records the sessions, or why a session cannot be written.
pub fn render_sessions(sessions: &[WritingSession], page: &CalendarDate) -> (r: Result<Vec<char>, SessionError>)
    ensures
        match r {
            Ok(body) => render_body(sessions_view(sessions@), page@) == Ok::<Seq<char>, SessionError>(body@),
            Err(e) => render_body(sessions_view(sessions@), page@) == Err::<Seq<char>, SessionError>(e),
        },
        r is Ok ==> times_in_rfc3339_chars(sessions_view(sessions@)),
{
    let ghost sv = sessions_view(sessions@);
    let mut out: Vec<char> = Vec::new();
    let mut k: usize = 0;
    while k < sessions.len()
        invariant
            k <= sessions.len(),
            sv == sessions_view(sessions@),
            render_error_from(sv, 0) == render_error_from(sv, k as int),
            out@ == joined_blocks(sv, k as int, page@),
            times_in_rfc3339_chars(sv.take(k as int)),
        decreases sessions.len() - k,
    {
        let s = &sessions[k];
        assert(sv[k as int] == s@);
        if (k == 0) != s.previous_end.is_none() {
            return Err(SessionError::InvalidBoundary);
        }
        let t = match parse_rfc3339(s.start.as_str()) {
            None => return Err(SessionError::MalformedTimestamp),
            Some(t) => t,
        };
        match &s.previous_end {
            Some(p) => {
                if parse_rfc3339(p.as_str()).is_none() {
                    return Err(SessionError::InvalidPreviousEnd);
                }
            },
            None => {},
        }
        let ghost before = out@;
        if k > 0 {
            out.push('\n');
            out.push('\n');
        }
        let heading = session_heading(&t, page);
        push_all(&mut out, heading.as_slice());
        out.push('\n');
        push_comment(&mut out, s.start.as_str(), &s.previous_end);
        out.push('\n');
        out.push('\n');
        crate::text::push_str(&mut out, s.content.as_str());
        proof {
            if k == 0 {
                assert(out@ =~= block_text(sv[0], page@));
            } else {
                assert(out@ =~= before + blank() + block_text(sv[k as int], page@));
            }
        }
        proof {
            assert(sv.take(k + 1) =~= sv.take(k as int).push(sv[k as int]));
        }
        k += 1;
    }
    proof {
        assert(sv.take(k as int) =~= sv);
    }
    Ok(out)
}

} // verus!
