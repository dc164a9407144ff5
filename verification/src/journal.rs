//! A journal page: its front matter, heading and sessions, and how a page text is read
//! and written.
use vstd::prelude::*;
use std::path::PathBuf;
use serde_yaml_ng::Mapping;
use crate::calendar::{CalendarDate, rfc3339_reading, parse_rfc3339};
use crate::dates_text::{heading, heading_text};
use crate::ids::{ulid_text, is_ulid, new_ulid};
use crate::metadata::{
    mapping_texts, mapping_writable, mapping_entries, yaml_entries_reading, yaml_text, fits_line, YamlNode,
    entries_has, entries_set, entries_write_back, text_of, yaml_mapping_reading, new_mapping, mapping_text,
    mapping_has, mapping_insert, read_yaml_mapping,
};
use crate::session_laws::{single_line, content_writable};
use crate::sessions::{
    WritingSession, SessionView, SessionError, sessions_view, parse_body, parse_sessions, blank,
};
use crate::text::{
    chars_of, string_of, starts_with, split_once, find, matches_at, push_all, push_str, copy_chars,
    lemma_find_skip, lemma_find_from_facts, occurs_at, find_from,
};

verus! {

#[verifier::external_type_specification]
#[verifier::external_body]
pub struct ExPathBuf(std::path::PathBuf);

/// Trusted: `PathBuf::clone` gives an equal path.
pub assume_specification[ <std::path::PathBuf as Clone>::clone ](p: &PathBuf) -> (r: PathBuf)
    ensures
        r == *p,
;

/// The line that opens and the line that closes a page's front matter.
pub open spec fn front_open() -> Seq<char> {
    seq!['-', '-', '-', '\n']
}

pub open spec fn front_close() -> Seq<char> {
    seq!['\n', '-', '-', '-', '\n']
}

/// The front matter of a page text that has one.
pub open spec fn front_matter_of(raw: Seq<char>) -> Seq<char> {
    split_front_matter(raw).unwrap().0
}

/// The front matter and the rest of a page text.
pub open spec fn split_front_matter(raw: Seq<char>) -> Option<(Seq<char>, Seq<char>)> {
    if starts_with(raw, front_open()) {
        split_once(raw.skip(4), front_close())
    } else {
        None
    }
}

/// Why the timestamps in the metadata are unusable, if they are.
pub open spec fn timestamp_fault(texts: Map<Seq<char>, Option<Seq<char>>>) -> Option<Seq<char>> {
    if text_of(texts, "created"@) is None {
        Some("Missing created."@)
    } else if rfc3339_reading(text_of(texts, "created"@).unwrap()) is None {
        Some("Invalid created timestamp."@)
    } else if text_of(texts, "updated"@) is None {
        Some("Missing updated."@)
    } else if rfc3339_reading(text_of(texts, "updated"@).unwrap()) is None {
        Some("Invalid updated timestamp."@)
    } else if texts.contains_key("last_end_input"@) && text_of(texts, "last_end_input"@) is None {
        Some("Missing last_end_input."@)
    } else if texts.contains_key("last_end_input"@) && rfc3339_reading(text_of(texts, "last_end_input"@).unwrap()) is None {
        Some("Invalid last_end_input timestamp."@)
    } else {
        None
    }
}

/// The label recorded in the metadata; empty when there is none.
pub open spec fn label_of(texts: Map<Seq<char>, Option<Seq<char>>>) -> Seq<char> {
    match text_of(texts, "label"@) {
        Some(l) => l,
        None => Seq::empty(),
    }
}

/// What comes between the front matter and the first session of a page.
pub open spec fn body_prefix(date: (int, int, int), label: Seq<char>) -> Seq<char> {
    seq!['\n'] + heading_text(date, label) + blank()
}

/// What a saved page text records: its metadata and sessions, or why it cannot be read.
pub open spec fn read_page_text(raw: Seq<char>, date: (int, int, int)) -> Result<(Map<Seq<char>, Option<Seq<char>>>, Seq<SessionView>), Seq<char>> {
    match split_front_matter(raw) {
        None => Err("This page has malformed front matter. Its original text is protected."@),
        Some((yaml, body)) => match yaml_mapping_reading(yaml) {
            Err(e) => Err("Invalid page metadata: "@ + e),
            Ok(texts) => match text_of(texts, "id"@) {
                None => Err("Missing page ID."@),
                Some(id) => {
                    if !ulid_text(id) {
                        Err("Invalid page ID."@)
                    } else {
                        match timestamp_fault(texts) {
                            Some(m) => Err(m),
                            None => {
                                let prefix = body_prefix(date, label_of(texts));
                                if !starts_with(body, prefix) {
                                    Err("The generated page heading is malformed."@)
                                } else {
                                    match parse_body(body.skip(prefix.len() as int), date) {
                                        Err(e) => Err(e.spec_message()),
                                        Ok(s) => Ok((texts, s)),
                                    }
                                }
                            },
                        }
                    }
                },
            },
        },
    }
}

/// The creation time and the end of the last input, where the metadata holds them, are
/// RFC 3339 texts.
pub open spec fn timestamps_usable(texts: Map<Seq<char>, Option<Seq<char>>>) -> bool {
    &&& texts.contains_key("created"@) ==> (text_of(texts, "created"@) matches Some(c) && rfc3339_reading(c) is Some)
    &&& texts.contains_key("last_end_input"@) ==> (text_of(texts, "last_end_input"@) matches Some(t) && rfc3339_reading(t) is Some)
}

/// The metadata keys the journal uses are different texts.
pub proof fn lemma_metadata_keys()
    ensures
        "id"@ != "created"@, "id"@ != "updated"@, "id"@ != "last_end_input"@, "id"@ != "label"@,
        "created"@ != "updated"@, "created"@ != "last_end_input"@, "created"@ != "label"@,
        "updated"@ != "last_end_input"@, "updated"@ != "label"@, "last_end_input"@ != "label"@,
{
    reveal_strlit("id");
    reveal_strlit("created");
    reveal_strlit("updated");
    reveal_strlit("last_end_input");
    reveal_strlit("label");
    assert("id"@.len() == 2 && "created"@.len() == 7 && "updated"@.len() == 7);
    assert("last_end_input"@.len() == 14 && "label"@.len() == 5);
    assert("created"@[0] != "updated"@[0]);
}

/// A given identifier that is not a ULID.
pub open spec fn rejected_id(id: Option<&str>) -> bool {
    match id {
        Some(i) => !ulid_text(i@),
        None => false,
    }
}

/// All session texts, one after another.
pub open spec fn joined_contents(s: Seq<SessionView>) -> Seq<char>
    decreases s.len(),
{
    if s.len() == 0 {
        Seq::empty()
    } else {
        joined_contents(s.drop_last()) + s.last().2
    }
}

/// One day's page of the journal.
pub struct Journal {
    root: PathBuf,
    date: CalendarDate,
    base: Option<String>,
    metadata: Mapping,
    content: String,
    sessions: Vec<WritingSession>,
}

impl Journal {
    #[verifier::type_invariant]
    spec fn inv(self) -> bool {
        &&& text_of(mapping_texts(self.metadata), "id"@) matches Some(id) && ulid_text(id)
        &&& timestamps_usable(mapping_texts(self.metadata))
        &&& mapping_writable(self.metadata)
        &&& self.content@ == joined_contents(sessions_view(self.sessions@))
    }

    pub closed spec fn root_of(self) -> PathBuf {
        self.root
    }

    pub closed spec fn date_of(self) -> (int, int, int) {
        self.date@
    }

    /// The saved text that this page was read from, if any.
    pub closed spec fn base_of(self) -> Option<Seq<char>> {
        crate::sessions::opt_view(self.base)
    }

    /// The page's metadata entries.
    pub closed spec fn texts(self) -> Map<Seq<char>, Option<Seq<char>>> {
        mapping_texts(self.metadata)
    }

    /// Everything the page's metadata holds, entry by entry.
    pub closed spec fn entries(self) -> Seq<(YamlNode, YamlNode)> {
        mapping_entries(self.metadata)
    }

    pub closed spec fn sessions_of(self) -> Seq<SessionView> {
        sessions_view(self.sessions@)
    }

    pub closed spec fn content_of(self) -> Seq<char> {
        self.content@
    }

    pub fn root(&self) -> (r: &PathBuf)
        ensures
            *r == self.root_of(),
    {
        &self.root
    }

    pub fn date(&self) -> (r: CalendarDate)
        ensures
            r@ == self.date_of(),
    {
        self.date
    }

    /// The saved text that this page was read from, if any.
    pub fn raw_base(&self) -> (r: Option<&str>)
        ensures
            match r {
                Some(s) => self.base_of() == Some(s@),
                None => self.base_of() is None,
            },
    {
        match &self.base {
            Some(s) => Some(s.as_str()),
            None => None,
        }
    }

    /// All of the page's writing.
    pub fn content(&self) -> (r: &str)
        ensures
            r@ == self.content_of(),
    {
        self.content.as_str()
    }

    /// A copy of this page.
    pub fn duplicate(&self) -> (r: Journal)
        ensures
            r.root_of() == self.root_of(),
            r.date_of() == self.date_of(),
            r.base_of() == self.base_of(),
            r.texts() == self.texts(),
            r.entries() == self.entries(),
            r.sessions_of() == self.sessions_of(),
            r.content_of() == self.content_of(),
    {
        proof { use_type_invariant(self); }
        Journal {
            root: self.root.clone(),
            date: self.date,
            base: crate::sessions::clone_opt_string(&self.base),
            metadata: crate::metadata::copy_mapping(&self.metadata),
            content: self.content.clone(),
            sessions: crate::sessions::duplicate_sessions(self.sessions.as_slice()),
        }
    }
}

} // verus!

verus! {

/// Where the front matter of a page text ends, if the text has front matter.
fn front_matter_end(raw: &[char]) -> (r: Option<usize>)
    ensures
        match r {
            Some(i) => 4 <= i && i + 5 <= raw@.len()
                && split_front_matter(raw@) == Some((raw@.subrange(4, i as int), raw@.subrange(i + 5, raw@.len() as int))),
            None => split_front_matter(raw@) is None,
        },
{
    let open: Vec<char> = vec!['-', '-', '-', '\n'];
    let close: Vec<char> = vec!['\n', '-', '-', '-', '\n'];
    assert(open@ == front_open());
    assert(close@ == front_close());
    if !matches_at(raw, open.as_slice(), 0) {
        return None;
    }
    proof {
        lemma_find_skip(raw@, front_close(), 4, 0);
        lemma_find_from_facts(raw@, front_close(), 4);
    }
    let cs = close.as_slice();
    assert(cs@ == front_close());
    assert(raw@.len() == raw.len());
    match find(raw, cs, 4) {
        Some(i) => {
            assert(find_from(raw@, front_close(), 4) == Some(i as int));
            assert(occurs_at(raw@, front_close(), i as int));
            assert(4 <= i);
            assert(raw@.skip(4).subrange(0, i - 4) =~= raw@.subrange(4, i as int));
            assert(raw@.skip(4).subrange(i - 4 + 5, raw@.len() - 4) =~= raw@.subrange(i + 5, raw@.len() as int));
            Some(i)
        },
        None => None,
    }
}

/// The text of a fixed message.
fn message(s: &str) -> (r: String)
    ensures
        r@ == s@,
{
    String::from_str(s)
}

/// Checks that a metadata entry, when required or present, is an RFC 3339 time.
fn check_timestamps(m: &Mapping) -> (r: Option<String>)
    ensures
        match r {
            Some(e) => timestamp_fault(mapping_texts(*m)) == Some(e@),
            None => timestamp_fault(mapping_texts(*m)) is None,
        },
{
    match mapping_text(m, "created") {
        None => return Some(message("Missing created.")),
        Some(t) => if parse_rfc3339(t.as_str()).is_none() {
            return Some(message("Invalid created timestamp."));
        },
    }
    match mapping_text(m, "updated") {
        None => return Some(message("Missing updated.")),
        Some(t) => if parse_rfc3339(t.as_str()).is_none() {
            return Some(message("Invalid updated timestamp."));
        },
    }
    if mapping_has(m, "last_end_input") {
        match mapping_text(m, "last_end_input") {
            None => return Some(message("Missing last_end_input.")),
            Some(t) => if parse_rfc3339(t.as_str()).is_none() {
                return Some(message("Invalid last_end_input timestamp."));
            },
        }
    }
    None
}

/// The texts of the sessions, one after another.
fn join_contents(sessions: &[WritingSession]) -> (r: String)
    ensures
        r@ == joined_contents(sessions_view(sessions@)),
{
    let mut r = String::new();
    let mut i: usize = 0;
    while i < sessions.len()
        invariant
            i <= sessions.len(),
            r@ == joined_contents(sessions_view(sessions@.take(i as int))),
        decreases sessions.len() - i,
    {
        r.append(sessions[i].content.as_str());
        assert(sessions_view(sessions@.take(i + 1)).drop_last() =~= sessions_view(sessions@.take(i as int)));
        i += 1;
    }
    assert(sessions@.take(sessions@.len() as int) =~= sessions@);
    r
}

/// Reads a saved page text as metadata and sessions.
fn read_raw(raw: &str, date: &CalendarDate) -> (r: Result<(Mapping, Vec<WritingSession>), String>)
    ensures
        match r {
            Ok((m, s)) => read_page_text(raw@, date@) == Ok::<(Map<Seq<char>, Option<Seq<char>>>, Seq<SessionView>), Seq<char>>((mapping_texts(m), sessions_view(s@)))
                && mapping_writable(m)
                && yaml_entries_reading(front_matter_of(raw@)) == Ok::<Seq<(YamlNode, YamlNode)>, ()>(mapping_entries(m)),
            Err(e) => read_page_text(raw@, date@) == Err::<(Map<Seq<char>, Option<Seq<char>>>, Seq<SessionView>), Seq<char>>(e@),
        },
{
    let chars = chars_of(raw);
    let end = match front_matter_end(chars.as_slice()) {
        None => return Err(message("This page has malformed front matter. Its original text is protected.")),
        Some(end) => end,
    };
    let yaml = string_of(&chars[4..end]);
    assert(chars@.len() == chars.len());
    let body = &chars[end + 5..chars.len()];
    let m = match read_yaml_mapping(yaml.as_str()) {
        Err(e) => {
            let mut text = message("Invalid page metadata: ");
            text.append(e.as_str());
            return Err(text);
        },
        Ok(m) => m,
    };
    match mapping_text(&m, "id") {
        None => return Err(message("Missing page ID.")),
        Some(id) => if !is_ulid(id.as_str()) {
            return Err(message("Invalid page ID."));
        },
    }
    match check_timestamps(&m) {
        Some(e) => return Err(e),
        None => {},
    }
    let label = match mapping_text(&m, "label") {
        Some(l) => l,
        None => String::new(),
    };
    let label_chars = chars_of(label.as_str());
    let mut prefix: Vec<char> = Vec::new();
    prefix.push('\n');
    let h = heading(date, label_chars.as_slice());
    push_all(&mut prefix, h.as_slice());
    prefix.push('\n');
    prefix.push('\n');
    assert(prefix@ =~= body_prefix(date@, label_of(mapping_texts(m))));
    if !matches_at(body, prefix.as_slice(), 0) {
        return Err(message("The generated page heading is malformed."));
    }
    let rest = &body[prefix.len()..body.len()];
    assert(rest@ =~= body@.skip(prefix@.len() as int));
    match parse_sessions(rest, date) {
        Err(e) => Err(e.message()),
        Ok(s) => Ok((m, s)),
    }
}

impl Journal {
    /// A page for `date` under `root`, read from the saved text `base`, or a new blank page
    /// when there is none. A given `id` must be a ULID; a new page takes it (or a fresh one)
    /// as its identifier.
    pub fn at_base(root: &PathBuf, date: CalendarDate, base: Option<String>, id: Option<&str>) -> (r: Result<Journal, String>)
        ensures
            rejected_id(id) ==> (r matches Err(e) && e@ == "Invalid page ID."@),
            !rejected_id(id) ==> match base {
                Some(raw) => match read_page_text(raw@, date@) {
                    Err(m) => r matches Err(e) && e@ == m,
                    Ok((texts, s)) => r matches Ok(j) && j.texts() == texts && j.sessions_of() == s
                        && j.base_of() == Some(raw@) && j.date_of() == date@ && j.root_of() == *root
                        && j.content_of() == joined_contents(s)
                        && yaml_entries_reading(front_matter_of(raw@)) == Ok::<Seq<(YamlNode, YamlNode)>, ()>(j.entries()),
                },
                None => r matches Ok(j) && j.sessions_of() == Seq::<SessionView>::empty()
                    && j.content_of() == Seq::<char>::empty() && j.base_of() is None
                    && j.date_of() == date@ && j.root_of() == *root
                    && j.texts().dom() == set!["id"@]
                    && (id matches Some(i) ==> j.texts()["id"@] == Some(i@))
                    && (j.texts()["id"@] matches Some(v) && ulid_text(v)
                        && j.entries() == seq![(YamlNode::Text("id"@), YamlNode::Text(v))]),
            },
    {
        if let Some(i) = id {
            if !is_ulid(i) {
                return Err(message("Invalid page ID."));
            }
        }
        match base {
            None => {
                let identifier = match id {
                    Some(i) => String::from_str(i),
                    None => new_ulid(),
                };
                let mut metadata = new_mapping();
                mapping_insert(&mut metadata, "id", identifier.as_str());
                proof { lemma_metadata_keys(); }
                assert(mapping_texts(metadata).dom() =~= set!["id"@]);
                let sessions: Vec<WritingSession> = Vec::new();
                assert(sessions_view(sessions@) =~= Seq::<SessionView>::empty());
                Ok(Journal { root: root.clone(), date, base: None, metadata, content: String::new(), sessions })
            },
            Some(raw) => {
                let (metadata, sessions) = read_raw(raw.as_str(), &date)?;
                let content = join_contents(sessions.as_slice());
                Ok(Journal { root: root.clone(), date, base: Some(raw), metadata, content, sessions })
            },
        }
    }

    /// The page recorded by `raw`, remembered as based on the saved text `base`.
    pub fn recovered(root: &PathBuf, date: CalendarDate, base: Option<String>, raw: &str) -> (r: Result<Journal, String>)
        ensures
            match read_page_text(raw@, date@) {
                Err(m) => r matches Err(e) && e@ == m,
                Ok((texts, s)) => r matches Ok(j) && j.texts() == texts && j.sessions_of() == s
                    && j.base_of() == crate::sessions::opt_view(base) && j.date_of() == date@ && j.root_of() == *root
                    && j.content_of() == joined_contents(s)
                    && yaml_entries_reading(front_matter_of(raw@)) == Ok::<Seq<(YamlNode, YamlNode)>, ()>(j.entries()),
            },
    {
        let (metadata, sessions) = read_raw(raw, &date)?;
        let content = join_contents(sessions.as_slice());
        Ok(Journal { root: root.clone(), date, base, metadata, content, sessions })
    }
}

} // verus!

verus! {

/// What the editor shows of a page.
#[derive(Clone)]
pub struct Page {
    pub id: String,
    pub base: Option<String>,
    pub recovered: Option<String>,
    pub pending: Vec<crate::recovery::PendingImage>,
    pub pending_input: Option<serde_json::Value>,
    pub sessions: Vec<WritingSession>,
    pub date: String,
    pub content: String,
    pub created: Option<String>,
    pub last_end_input: Option<String>,
    pub label: String,
    pub error: Option<String>,
}

/// The end of the last input on a page: as recorded, or else the start of its last session.
pub open spec fn last_end_of(texts: Map<Seq<char>, Option<Seq<char>>>, sessions: Seq<SessionView>) -> Option<Seq<char>> {
    match text_of(texts, "last_end_input"@) {
        Some(t) => Some(t),
        None => if sessions.len() == 0 {
            None
        } else {
            Some(sessions.last().0)
        },
    }
}

impl Journal {
    /// The page's heading for the given label.
    pub fn heading(&self, label: &str) -> (r: String)
        ensures
            r@ == heading_text(self.date_of(), label@),
    {
        let l = chars_of(label);
        let h = heading(&self.date, l.as_slice());
        string_of(h.as_slice())
    }

    /// What the editor shows of this page.
    pub fn page(&self) -> (r: Page)
        ensures
            text_of(self.texts(), "id"@) == Some(r.id@),
            crate::sessions::opt_view(r.base) == self.base_of(),
            r.recovered is None,
            r.pending@.len() == 0,
            r.pending_input is None,
            sessions_view(r.sessions@) == self.sessions_of(),
            r.date@ == crate::dates_text::date_text(self.date_of()),
            r.content@ == self.content_of(),
            crate::sessions::opt_view(r.created) == text_of(self.texts(), "created"@),
            crate::sessions::opt_view(r.last_end_input) == last_end_of(self.texts(), self.sessions_of()),
            r.label@ == label_of(self.texts()),
            r.error is None,
    {
        proof { use_type_invariant(self); }
        let id = match mapping_text(&self.metadata, "id") {
            Some(id) => id,
            None => String::new(),
        };
        let last_end_input = match mapping_text(&self.metadata, "last_end_input") {
            Some(t) => Some(t),
            None => if self.sessions.len() == 0 {
                None
            } else {
                Some(self.sessions[self.sessions.len() - 1].start.clone())
            },
        };
        let label = match mapping_text(&self.metadata, "label") {
            Some(l) => l,
            None => String::new(),
        };
        Page {
            id,
            base: crate::sessions::clone_opt_string(&self.base),
            recovered: None,
            pending: Vec::new(),
            pending_input: None,
            sessions: crate::sessions::duplicate_sessions(self.sessions.as_slice()),
            date: self.date.to_string(),
            content: self.content.clone(),
            created: mapping_text(&self.metadata, "created"),
            last_end_input,
            label,
            error: None,
        }
    }
}

} // verus!

verus! {

/// The sessions that are written: trailing sessions without writing are left out, but the
/// first session always stays.
pub open spec fn trimmed_sessions(s: Seq<SessionView>) -> Seq<SessionView>
    decreases s.len(),
{
    if s.len() > 1 && crate::text::all_white_space(s.last().2) {
        trimmed_sessions(s.drop_last())
    } else {
        s
    }
}

/// A label that fits on one line.
pub open spec fn label_fits(label: Seq<char>) -> bool {
    fits_line(label)
}

pub open spec fn opt_str_view(o: Option<&str>) -> Option<Seq<char>> {
    match o {
        Some(s) => Some(s@),
        None => None,
    }
}

/// Why the given writing cannot be drafted into a page text, if it cannot.
pub open spec fn draft_fault(sessions: Seq<SessionView>, last_end: Option<Seq<char>>, label: Seq<char>, date: (int, int, int)) -> Option<Seq<char>> {
    let t = trimmed_sessions(sessions);
    if !label_fits(label) {
        Some("A label must fit on one line."@)
    } else {
        match crate::sessions::render_body(t, date) {
            Err(e) => Some(e.spec_message()),
            Ok(_) => match last_end {
                Some(l) => if rfc3339_reading(l) is None {
                    Some("Invalid end-input time."@)
                } else {
                    None
                },
                None => if t.len() > 0 {
                    Some("Missing end-input time."@)
                } else {
                    None
                },
            },
        }
    }
}

/// The metadata a draft records: the page's own entries, a creation time if there was
/// none, the update time, the end of the last input when given, and the label.
pub open spec fn drafted_texts(texts: Map<Seq<char>, Option<Seq<char>>>, started: Seq<char>, now: Seq<char>, last_end: Option<Seq<char>>, label: Seq<char>) -> Map<Seq<char>, Option<Seq<char>>> {
    let t1 = if texts.contains_key("created"@) { texts } else { texts.insert("created"@, Some(started)) };
    let t2 = t1.insert("updated"@, Some(now));
    let t3 = match last_end {
        Some(l) => t2.insert("last_end_input"@, Some(l)),
        None => t2,
    };
    t3.insert("label"@, Some(label))
}

/// The creation time a draft records for a page without one: the first written session's
/// start, or the time of the draft when no session is written.
pub open spec fn drafted_start(t: Seq<SessionView>, clock: Seq<char>) -> Seq<char> {
    if t.len() > 0 { t[0].0 } else { clock }
}

/// The entries a draft records: the page's own entries in their order, with the creation
/// time added if there was none, the update time, the end of the last input when given,
/// and the label, each stored in place of an entry with its key or else added last.
pub open spec fn drafted_entries(entries: Seq<(YamlNode, YamlNode)>, started: Seq<char>, now: Seq<char>, last_end: Option<Seq<char>>, label: Seq<char>) -> Seq<(YamlNode, YamlNode)> {
    let e1 = if entries_has(entries, YamlNode::Text("created"@)) {
        entries
    } else {
        entries_set(entries, YamlNode::Text("created"@), YamlNode::Text(started))
    };
    let e2 = entries_set(e1, YamlNode::Text("updated"@), YamlNode::Text(now));
    let e3 = match last_end {
        Some(l) => entries_set(e2, YamlNode::Text("last_end_input"@), YamlNode::Text(l)),
        None => e2,
    };
    entries_set(e3, YamlNode::Text("label"@), YamlNode::Text(label))
}

/// What a draft wrote: `raw` is the page text whose front matter is the YAML text written
/// for `m`, the page's own mapping with the drafted entries stored in it, recorded at
/// `now` with the creation time `started` for a page without one (the first session's
/// start, or the time of the draft when there are no sessions). Whatever the metadata,
/// when no session's text begins a session block of its own, the page reads back as the
/// written sessions with whatever metadata its front matter reads as, if that holds the
/// page's identifier, usable times and the label. When the page's entries are ones that
/// read back from their YAML text, so are the drafted ones, and the page reads back as
/// exactly the drafted metadata.
pub open spec fn drafted_as(
    texts: Map<Seq<char>, Option<Seq<char>>>,
    entries: Seq<(YamlNode, YamlNode)>,
    date: (int, int, int),
    sessions: Seq<SessionView>,
    last_end: Option<Seq<char>>,
    label: Seq<char>,
    raw: Seq<char>,
    m: Mapping,
    started: Seq<char>,
    now: Seq<char>,
) -> bool {
    let t = trimmed_sessions(sessions);
    let meta = drafted_texts(texts, started, now, last_end, label);
    let body = crate::sessions::body_text(t, date);
    let front = yaml_text(m).drop_last();
    let sessions_fit = forall|i: int| 0 <= i < t.len() ==> content_writable(#[trigger] t[i].2);
    &&& raw == page_text(yaml_text(m), date, label, body)
    &&& mapping_texts(m) == meta
    &&& mapping_entries(m) == drafted_entries(entries, started, now, last_end, label)
    &&& split_front_matter(raw) == Some((front, body_prefix(date, label) + body))
    &&& rfc3339_reading(now) is Some && single_line(now)
    &&& (t.len() > 0 ==> started == t[0].0)
    &&& (t.len() == 0 ==> rfc3339_reading(started) is Some && single_line(started))
    &&& (sessions_fit ==> match yaml_mapping_reading(front) {
        Ok(read) => page_metadata_usable(read, label)
            ==> read_page_text(raw, date) == Ok::<(Map<Seq<char>, Option<Seq<char>>>, Seq<SessionView>), Seq<char>>((read, t)),
        Err(_) => true,
    })
    &&& (entries_write_back(entries) ==> entries_write_back(mapping_entries(m))
        && yaml_entries_reading(front) == Ok::<Seq<(YamlNode, YamlNode)>, ()>(mapping_entries(m)))
    &&& (entries_write_back(entries) && sessions_fit
        ==> read_page_text(raw, date) == Ok::<(Map<Seq<char>, Option<Seq<char>>>, Seq<SessionView>), Seq<char>>((meta, t)))
}

/// Metadata that a page text with the heading for `label` can be read with: a ULID as its
/// identifier, usable times, and that label.
pub open spec fn page_metadata_usable(texts: Map<Seq<char>, Option<Seq<char>>>, label: Seq<char>) -> bool {
    &&& text_of(texts, "id"@) matches Some(id) && ulid_text(id)
    &&& timestamp_fault(texts) is None
    &&& label_of(texts) == label
}

/// `raw` is a page text that a draft of the given writing at the time `clock` wrote, for
/// some drafted mapping.
pub open spec fn drafted_at_time(
    texts: Map<Seq<char>, Option<Seq<char>>>,
    entries: Seq<(YamlNode, YamlNode)>,
    date: (int, int, int),
    sessions: Seq<SessionView>,
    last_end: Option<Seq<char>>,
    label: Seq<char>,
    raw: Seq<char>,
    clock: Seq<char>,
) -> bool {
    exists|m: Mapping| #[trigger] drafted_as(texts, entries, date, sessions, last_end, label, raw, m,
        drafted_start(trimmed_sessions(sessions), clock), clock)
}

/// `raw` is a page text that a draft of the given writing wrote, for some drafted mapping
/// and recording times.
pub open spec fn drafted(
    texts: Map<Seq<char>, Option<Seq<char>>>,
    entries: Seq<(YamlNode, YamlNode)>,
    date: (int, int, int),
    sessions: Seq<SessionView>,
    last_end: Option<Seq<char>>,
    label: Seq<char>,
    raw: Seq<char>,
) -> bool {
    exists|m: Mapping, started: Seq<char>, now: Seq<char>|
        #[trigger] drafted_as(texts, entries, date, sessions, last_end, label, raw, m, started, now)
}

/// A page text: front matter holding `yaml`, the heading, and the session blocks.
pub open spec fn page_text(yaml: Seq<char>, date: (int, int, int), label: Seq<char>, body: Seq<char>) -> Seq<char> {
    front_open() + yaml + seq!['-', '-', '-', '\n'] + body_prefix(date, label) + body
}

/// What a draft writes of the sessions: the given sessions up to the last one that holds
/// writing (anything but whitespace), always keeping the first. The written sessions
/// begin the given ones, every session left out holds only whitespace, and the last
/// written session after the first holds writing.
pub proof fn lemma_trimmed_sessions(s: Seq<SessionView>)
    ensures
        trimmed_sessions(s).len() <= s.len(),
        trimmed_sessions(s) == s.take(trimmed_sessions(s).len() as int),
        s.len() > 0 ==> trimmed_sessions(s).len() >= 1,
        forall|i: int| trimmed_sessions(s).len() <= i < s.len() ==> crate::text::all_white_space(#[trigger] s[i].2),
        trimmed_sessions(s).len() > 1 ==> !crate::text::all_white_space(trimmed_sessions(s).last().2),
    decreases s.len(),
{
    if s.len() > 1 && crate::text::all_white_space(s.last().2) {
        lemma_trimmed_sessions(s.drop_last());
        let t = trimmed_sessions(s.drop_last());
        assert(s.drop_last().take(t.len() as int) =~= s.take(t.len() as int));
        assert forall|i: int| t.len() <= i < s.len() implies crate::text::all_white_space(#[trigger] s[i].2) by {
            if i < s.len() - 1 {
                assert(s[i] == s.drop_last()[i]);
            }
        }
    } else {
        assert(s.take(s.len() as int) =~= s);
    }
}

/// Whitespace as a draft tests it: an empty text holds none but whitespace, a single
/// character is whitespace as `char::is_whitespace` says, and a text holds only
/// whitespace exactly when each of two parts it is split into does.
pub proof fn lemma_white_space(a: Seq<char>, b: Seq<char>, c: char)
    ensures
        crate::text::all_white_space(Seq::<char>::empty()),
        crate::text::all_white_space(seq![c]) == crate::text::is_white_space(c),
        crate::text::all_white_space(a + b) == (crate::text::all_white_space(a) && crate::text::all_white_space(b)),
{
    assert(seq![c][0] == c);
    if crate::text::all_white_space(a) && crate::text::all_white_space(b) {
        assert forall|i: int| 0 <= i < (a + b).len() implies crate::text::is_white_space(#[trigger] (a + b)[i]) by {
            if i < a.len() {
                assert((a + b)[i] == a[i]);
            } else {
                assert((a + b)[i] == b[i - a.len()]);
            }
        }
    }
    if crate::text::all_white_space(a + b) {
        assert forall|i: int| 0 <= i < a.len() implies crate::text::is_white_space(#[trigger] a[i]) by {
            assert((a + b)[i] == a[i]);
        }
        assert forall|i: int| 0 <= i < b.len() implies crate::text::is_white_space(#[trigger] b[i]) by {
            assert((a + b)[i + a.len()] == b[i]);
        }
    }
}

/// The sessions that are written, without trailing sessions that hold no writing.
pub fn trim_sessions(sessions: &[WritingSession]) -> (r: Vec<WritingSession>)
    ensures
        sessions_view(r@) == trimmed_sessions(sessions_view(sessions@)),
        sessions_view(r@) == sessions_view(sessions@).take(r@.len() as int),
        sessions@.len() > 0 ==> r@.len() >= 1,
        forall|i: int| r@.len() <= i < sessions@.len() ==> crate::text::all_white_space(#[trigger] sessions@[i].content@),
        r@.len() > 1 ==> !crate::text::all_white_space(r@.last().content@),
{
    let mut v = crate::sessions::duplicate_sessions(sessions);
    while v.len() > 1 && crate::text::blank_text(v[v.len() - 1].content.as_str())
        invariant
            trimmed_sessions(sessions_view(v@)) == trimmed_sessions(sessions_view(sessions@)),
        decreases v.len(),
    {
        let ghost before = v@;
        assert(sessions_view(before).last() == before.last()@);
        v.pop();
        assert(sessions_view(v@) =~= sessions_view(before).drop_last());
    }
    proof {
        if v@.len() > 1 {
            assert(sessions_view(v@).last() == v@.last()@);
        }
        let sv = sessions_view(sessions@);
        lemma_trimmed_sessions(sv);
        assert(sessions_view(v@).len() == v@.len());
        assert forall|i: int| v@.len() <= i < sessions@.len() implies crate::text::all_white_space(#[trigger] sessions@[i].content@) by {
            assert(sv[i].2 == sessions@[i].content@);
        }
        if v@.len() > 1 {
            assert(sessions_view(v@).last().2 == v@.last().content@);
        }
    }
    v
}

/// Whether a label fits on one line.
pub fn fits_one_line(label: &str) -> (r: bool)
    ensures
        r == label_fits(label@),
{
    let l = chars_of(label);
    let mut i: usize = 0;
    while i < l.len()
        invariant
            l@ == label@,
            i <= l.len(),
            forall|k: int| 0 <= k < i ==> #[trigger] l@[k] != '\n' && l@[k] != '\r' && l@[k] != '\0',
        decreases l.len() - i,
    {
        if l[i] == '\n' || l[i] == '\r' || l[i] == '\0' {
            return false;
        }
        i += 1;
    }
    true
}

/// A page text: front matter holding `yaml`, the heading for `label`, and `body`.
pub fn compose_page(yaml: &str, date: &CalendarDate, label: &str, body: &[char]) -> (r: String)
    ensures
        r@ == page_text(yaml@, date@, label@, body@),
{
    let mut out: Vec<char> = Vec::new();
    push_str(&mut out, "---\n");
    push_str(&mut out, yaml);
    push_str(&mut out, "---\n");
    out.push('\n');
    let l = chars_of(label);
    let h = heading(date, l.as_slice());
    push_all(&mut out, h.as_slice());
    out.push('\n');
    out.push('\n');
    push_all(&mut out, body);
    proof {
        reveal_strlit("---\n");
        assert(out@ =~= page_text(yaml@, date@, label@, body@));
    }
    string_of(out.as_slice())
}

impl Journal {
    /// The metadata to record with a draft.
    fn draft_metadata(&self, started: &str, now: &str, last_end: Option<&str>, label: &str) -> (r: Mapping)
        ensures
            mapping_texts(r) == drafted_texts(self.texts(), started@, now@, opt_str_view(last_end), label@),
            mapping_writable(r),
            mapping_entries(r) == drafted_entries(self.entries(), started@, now@, opt_str_view(last_end), label@),
    {
        proof { use_type_invariant(self); }
        let mut meta = crate::metadata::copy_mapping(&self.metadata);
        if !mapping_has(&meta, "created") {
            mapping_insert(&mut meta, "created", started);
        }
        mapping_insert(&mut meta, "updated", now);
        match last_end {
            Some(l) => mapping_insert(&mut meta, "last_end_input", l),
            None => {},
        }
        mapping_insert(&mut meta, "label", label);
        meta
    }

    /// The page text that records the given writing: front matter, heading and session
    /// blocks. Trailing sessions without writing are left out. The page is drafted at the
    /// time the local clock reads when it is called.
    pub fn draft(&self, sessions: &[WritingSession], last_end: Option<&str>, label: &str) -> (r: Result<String, String>)
        ensures
            draft_fault(sessions_view(sessions@), opt_str_view(last_end), label@, self.date_of()) matches Some(m)
                ==> r matches Err(e) && e@ == m,
            draft_fault(sessions_view(sessions@), opt_str_view(last_end), label@, self.date_of()) is None ==> r is Ok,
            r matches Ok(raw) ==> drafted(self.texts(), self.entries(), self.date_of(), sessions_view(sessions@),
                opt_str_view(last_end), label@, raw@),
    {
        let clock = crate::calendar::now_rfc3339();
        let r = self.draft_at(sessions, last_end, label, clock.as_str());
        proof {
            if r is Ok {
                let raw = r->Ok_0;
                let t = trimmed_sessions(sessions_view(sessions@));
                assert(drafted_at_time(self.texts(), self.entries(), self.date_of(),
                    sessions_view(sessions@), opt_str_view(last_end), label@, raw@, clock@));
                let m = choose|m: Mapping| #[trigger] drafted_as(self.texts(), self.entries(), self.date_of(),
                    sessions_view(sessions@), opt_str_view(last_end), label@, raw@, m, drafted_start(t, clock@), clock@);
                assert(drafted_as(self.texts(), self.entries(), self.date_of(), sessions_view(sessions@),
                    opt_str_view(last_end), label@, raw@, m, drafted_start(t, clock@), clock@));
            }
        }
        r
    }

    /// The page text that records the given writing when drafted at the time `clock`: the
    /// metadata records `clock` as the update time, and as the creation time of a page
    /// without one when no session was written (otherwise the first session's start).
    pub fn draft_at(&self, sessions: &[WritingSession], last_end: Option<&str>, label: &str, clock: &str) -> (r: Result<String, String>)
        requires
            rfc3339_reading(clock@) is Some,
            crate::calendar::rfc3339_chars(clock@),
        ensures
            draft_fault(sessions_view(sessions@), opt_str_view(last_end), label@, self.date_of()) matches Some(m)
                ==> r matches Err(e) && e@ == m,
            draft_fault(sessions_view(sessions@), opt_str_view(last_end), label@, self.date_of()) is None ==> r is Ok,
            r matches Ok(raw) ==> drafted_at_time(self.texts(), self.entries(), self.date_of(),
                sessions_view(sessions@), opt_str_view(last_end), label@, raw@, clock@),
    {
        let trimmed = trim_sessions(sessions);
        if !fits_one_line(label) {
            return Err(message("A label must fit on one line."));
        }
        let started = if trimmed.len() > 0 {
            trimmed[0].start.clone()
        } else {
            String::from_str(clock)
        };
        let blocks = match crate::sessions::render_sessions(trimmed.as_slice(), &self.date) {
            Err(e) => return Err(e.message()),
            Ok(b) => b,
        };
        match last_end {
            Some(l) => if parse_rfc3339(l).is_none() {
                return Err(message("Invalid end-input time."));
            },
            None => if trimmed.len() > 0 {
                return Err(message("Missing end-input time."));
            },
        }
        let now = clock;
        let meta = self.draft_metadata(started.as_str(), now, last_end, label);
        let yaml = crate::metadata::write_yaml_mapping(&meta)?;
        let raw = compose_page(yaml.as_str(), &self.date, label, blocks.as_slice());
        proof {
            use_type_invariant(self);
            let t = trimmed_sessions(sessions_view(sessions@));
            let m = drafted_texts(self.texts(), started@, now@, opt_str_view(last_end), label@);
            assert(sessions_view(trimmed@) == t);
            crate::session_laws::lemma_rfc3339_text_fits(now@);
            if t.len() > 0 {
                assert(crate::calendar::rfc3339_chars(t[0].0));
            }
            crate::session_laws::lemma_rfc3339_text_fits(started@);
            match last_end {
                Some(l) => crate::session_laws::lemma_rfc3339_text_fits(l@),
                None => {},
            }
            crate::page_laws::lemma_drafted_metadata(self.texts(), started@, now@, opt_str_view(last_end), label@);
            let body = crate::sessions::body_text(t, self.date_of());
            crate::page_laws::lemma_front_matter_reads_back(yaml@, self.date_of(), label@, body);
            if forall|i: int| 0 <= i < t.len() ==> content_writable(#[trigger] t[i].2) {
                crate::session_laws::lemma_rendered_sessions_writable(t);
                match yaml_mapping_reading(yaml@.drop_last()) {
                    Ok(read) => if page_metadata_usable(read, label@) {
                        crate::page_laws::lemma_page_reads_back(yaml@, self.date_of(), label@, t, read);
                    },
                    Err(_) => {},
                }
            }
            if entries_write_back(self.entries()) {
                crate::page_laws::lemma_drafted_entries_write_back(self.entries(), started@, now@,
                    opt_str_view(last_end), label@);
            }
            if t.len() > 0 {
                assert(trimmed@[0]@ == t[0]);
            }
            assert(started@ == drafted_start(t, clock@));
            assert(drafted_as(self.texts(), self.entries(), self.date_of(), sessions_view(sessions@),
                opt_str_view(last_end), label@, raw@, meta, drafted_start(t, clock@), clock@));
            assert(drafted_at_time(self.texts(), self.entries(), self.date_of(),
                sessions_view(sessions@), opt_str_view(last_end), label@, raw@, clock@));
        }
        Ok(raw)
    }
}

} // verus!

verus! {

impl Page {
    /// The page shown for `date` when its journal page cannot be read: no writing sessions,
    /// the file's text as `content`, and the reason in `error`.
    pub fn unreadable(date: &CalendarDate, base: Option<String>, content: String, error: String) -> (r: Page)
        ensures
            r.id@ == Seq::<char>::empty(),
            crate::sessions::opt_view(r.base) == crate::sessions::opt_view(base),
            r.recovered is None,
            r.pending@.len() == 0,
            r.pending_input is None,
            r.sessions@.len() == 0,
            r.date@ == crate::dates_text::date_text(date@),
            r.content@ == content@,
            r.created is None,
            r.last_end_input is None,
            r.label@ == Seq::<char>::empty(),
            r.error matches Some(e) && e@ == error@,
    {
        Page {
            id: String::new(),
            base,
            recovered: None,
            pending: Vec::new(),
            pending_input: None,
            sessions: Vec::new(),
            date: date.to_string(),
            content,
            created: None,
            last_end_input: None,
            label: String::new(),
            error: Some(error),
        }
    }

    /// This page as restored from a recovery record made at `at`, with the photographs and
    /// input that were still waiting.
    pub fn restored(self, at: String, pending: Vec<crate::recovery::PendingImage>, pending_input: Option<serde_json::Value>) -> (r: Page)
        ensures
            r == (Page { recovered: Some(at), pending, pending_input, ..self }),
    {
        Page { recovered: Some(at), pending, pending_input, ..self }
    }
}

} // verus!
