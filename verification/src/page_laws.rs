//! What a read of a written page gives back.
use vstd::prelude::*;
use crate::ids::ulid_text;
use crate::calendar::rfc3339_reading;
use crate::journal::{
    drafted_texts, drafted_entries, timestamps_usable, label_fits, drafted, drafted_as, trimmed_sessions,
    front_matter_of,
    page_text, read_page_text, split_front_matter, front_open, front_close, body_prefix, timestamp_fault,
    label_of,
};
use crate::metadata::{
    text_of, yaml_mapping_reading, yaml_entries_reading, fits_line, YamlNode, entries_has, entries_set,
    entries_write_back, node_writes_back, ends_without_break, metadata_depth, mapping_entries, mapping_texts,
    yaml_text,
};
use serde_yaml_ng::Mapping;
use crate::session_laws::{session_writable, content_writable, lemma_sessions_round_trip};
use crate::sessions::{SessionView, body_text};
use crate::text::{contains, occurs_at, starts_with, lemma_find_from_exact, lemma_find_skip};

verus! {

proof fn lemma_close_dashes(i: int)
    requires
        1 <= i <= 3,
    ensures
        front_close()[i] == '-',
{
}

/// The front matter of a written page is the YAML text without its final line break, and
/// the rest is the heading line and the session blocks.
pub proof fn lemma_front_matter_reads_back(yaml: Seq<char>, date: (int, int, int), label: Seq<char>, body: Seq<char>)
    requires
        yaml.len() > 0,
        yaml.last() == '\n',
        !contains(yaml, front_close()),
    ensures
        split_front_matter(page_text(yaml, date, label, body))
            == Some((yaml.drop_last(), body_prefix(date, label) + body)),
{
    let raw = page_text(yaml, date, label, body);
    let tail = seq!['-', '-', '-', '\n'] + body_prefix(date, label) + body;
    assert(raw =~= front_open() + (yaml + tail));
    assert(raw.subrange(0, 4) =~= front_open());
    let s = raw.skip(4);
    assert(s =~= yaml + tail);
    let n = yaml.len() as int;
    assert forall|p: int| 0 <= p < n - 1 implies !occurs_at(s, front_close(), p) by {
        if occurs_at(s, front_close(), p) {
            if p + 5 <= n {
                assert(s.subrange(p, p + 5) =~= yaml.subrange(p, p + 5));
                assert(occurs_at(yaml, front_close(), p));
            } else {
                assert(s[n - 1] == '\n');
                assert(s.subrange(p, p + 5)[n - 1 - p] == s[n - 1]);
                lemma_close_dashes(n - 1 - p);
            }
        }
    }
    assert(s.subrange(n - 1, n + 4) =~= front_close());
    lemma_find_from_exact(s, front_close(), 0, n - 1);
    assert(s.subrange(0, n - 1) =~= yaml.drop_last());
    assert(s.subrange(n + 4, s.len() as int) =~= body_prefix(date, label) + body);
}

/// What a read gives back of a write: a page text written from sessions that the library
/// can write, with front matter whose YAML reads back as metadata holding a valid
/// identifier, usable timestamps and the page's label, reads back as that metadata and
/// exactly those sessions.
pub proof fn lemma_page_reads_back(
    yaml: Seq<char>,
    date: (int, int, int),
    label: Seq<char>,
    sessions: Seq<SessionView>,
    texts: Map<Seq<char>, Option<Seq<char>>>,
)
    requires
        yaml.len() > 0,
        yaml.last() == '\n',
        !contains(yaml, front_close()),
        yaml_mapping_reading(yaml.drop_last()) == Ok::<Map<Seq<char>, Option<Seq<char>>>, Seq<char>>(texts),
        text_of(texts, "id"@) matches Some(id) && ulid_text(id),
        timestamp_fault(texts) is None,
        label_of(texts) == label,
        forall|i: int| 0 <= i < sessions.len() ==> session_writable(#[trigger] sessions[i], i == 0),
    ensures
        read_page_text(page_text(yaml, date, label, body_text(sessions, date)), date)
            == Ok::<(Map<Seq<char>, Option<Seq<char>>>, Seq<SessionView>), Seq<char>>((texts, sessions)),
{
    let body = body_text(sessions, date);
    lemma_front_matter_reads_back(yaml, date, label, body);
    lemma_sessions_round_trip(sessions, date);
    let rest = body_prefix(date, label) + body;
    assert(rest.subrange(0, body_prefix(date, label).len() as int) =~= body_prefix(date, label));
    assert(rest.skip(body_prefix(date, label).len() as int) =~= body);
}

/// The metadata that a draft records keeps the page's identifier, holds usable times and
/// the label, given that the recorded times are RFC 3339 texts and the label fits on one
/// line.
pub proof fn lemma_drafted_metadata(
    texts: Map<Seq<char>, Option<Seq<char>>>,
    started: Seq<char>,
    now: Seq<char>,
    last_end: Option<Seq<char>>,
    label: Seq<char>,
)
    requires
        text_of(texts, "id"@) matches Some(id) && ulid_text(id),
        timestamps_usable(texts),
        rfc3339_reading(started) is Some,
        rfc3339_reading(now) is Some,
        last_end matches Some(l) ==> rfc3339_reading(l) is Some,
    ensures
        ({
            let m = drafted_texts(texts, started, now, last_end, label);
            &&& text_of(m, "id"@) == text_of(texts, "id"@)
            &&& timestamp_fault(m) is None
            &&& label_of(m) == label
        }),
{
    crate::journal::lemma_metadata_keys();
}

proof fn lemma_set_writes_back(es: Seq<(YamlNode, YamlNode)>, k: Seq<char>, v: Seq<char>)
    requires
        entries_write_back(es),
        fits_line(v),
    ensures
        entries_write_back(entries_set(es, YamlNode::Text(k), YamlNode::Text(v))),
{
    let r = entries_set(es, YamlNode::Text(k), YamlNode::Text(v));
    if v.len() > 0 {
        assert(v[v.len() - 1] != '\n');
    }
    assert(ends_without_break(YamlNode::Text(v), metadata_depth()));
    if entries_has(es, YamlNode::Text(k)) {
        let i = crate::metadata::entry_index(es, YamlNode::Text(k));
        assert forall|j: int| 0 <= j < r.len() implies node_writes_back(#[trigger] r[j].0, metadata_depth())
            && node_writes_back(r[j].1, metadata_depth()) by {
            if j != i {
                assert(r[j] == es[j]);
            }
        }
        if i != es.len() - 1 {
            assert(r.last() == es.last());
        }
    } else {
        assert(r == es.push((YamlNode::Text(k), YamlNode::Text(v))));
        assert forall|j: int| 0 <= j < r.len() implies node_writes_back(#[trigger] r[j].0, metadata_depth())
            && node_writes_back(r[j].1, metadata_depth()) by {
            if j < es.len() {
                assert(r[j] == es[j]);
            }
        }
    }
}

/// The entries that a draft records read back from their YAML text whenever the page's
/// own entries do, given that the recorded times and the label fit on one line.
pub proof fn lemma_drafted_entries_write_back(
    entries: Seq<(YamlNode, YamlNode)>,
    started: Seq<char>,
    now: Seq<char>,
    last_end: Option<Seq<char>>,
    label: Seq<char>,
)
    requires
        entries_write_back(entries),
        fits_line(started),
        fits_line(now),
        last_end matches Some(l) ==> fits_line(l),
        fits_line(label),
    ensures
        entries_write_back(drafted_entries(entries, started, now, last_end, label)),
{
    let e1 = if entries_has(entries, YamlNode::Text("created"@)) {
        entries
    } else {
        lemma_set_writes_back(entries, "created"@, started);
        entries_set(entries, YamlNode::Text("created"@), YamlNode::Text(started))
    };
    lemma_set_writes_back(e1, "updated"@, now);
    let e2 = entries_set(e1, YamlNode::Text("updated"@), YamlNode::Text(now));
    let e3 = match last_end {
        Some(l) => {
            lemma_set_writes_back(e2, "last_end_input"@, l);
            entries_set(e2, YamlNode::Text("last_end_input"@), YamlNode::Text(l))
        },
        None => e2,
    };
    lemma_set_writes_back(e3, "label"@, label);
}

/// What a read gives back of a draft: a page text that a draft wrote, for a page whose
/// entries read back from their YAML text and for sessions whose texts do not begin a
/// session block of their own, reads back as the written sessions, with metadata that
/// keeps every entry of the page's own except the recorded times and the label, holds the
/// page's identifier and creation time, the end of the last input when one was given, and
/// the label; and the page's front matter reads back as all the drafted entries, which
/// again read back from their YAML text.
pub proof fn lemma_drafted_page_reads_back(
    texts: Map<Seq<char>, Option<Seq<char>>>,
    entries: Seq<(YamlNode, YamlNode)>,
    date: (int, int, int),
    sessions: Seq<SessionView>,
    last_end: Option<Seq<char>>,
    label: Seq<char>,
    raw: Seq<char>,
)
    requires
        drafted(texts, entries, date, sessions, last_end, label, raw),
        entries_write_back(entries),
        forall|i: int| 0 <= i < trimmed_sessions(sessions).len()
            ==> content_writable(#[trigger] trimmed_sessions(sessions)[i].2),
    ensures
        read_page_text(raw, date) matches Ok((m, s)) && {
            &&& s == trimmed_sessions(sessions)
            &&& forall|k: Seq<char>| #![trigger texts.contains_key(k)] texts.contains_key(k) && k != "created"@
                && k != "updated"@ && k != "last_end_input"@ && k != "label"@ ==> m.contains_key(k) && m[k] == texts[k]
            &&& text_of(m, "id"@) == text_of(texts, "id"@)
            &&& (texts.contains_key("created"@) ==> text_of(m, "created"@) == text_of(texts, "created"@))
            &&& (last_end matches Some(l) ==> text_of(m, "last_end_input"@) == Some(l))
            &&& label_of(m) == label
        },
        exists|started: Seq<char>, now: Seq<char>|
            yaml_entries_reading(front_matter_of(raw)) == Ok::<Seq<(YamlNode, YamlNode)>, ()>(
                #[trigger] drafted_entries(entries, started, now, last_end, label))
            && entries_write_back(drafted_entries(entries, started, now, last_end, label)),
{
    let (mp, started, now) = choose|mp: Mapping, started: Seq<char>, now: Seq<char>|
        #[trigger] drafted_as(texts, entries, date, sessions, last_end, label, raw, mp, started, now);
    crate::journal::lemma_metadata_keys();
    assert(drafted_entries(entries, started, now, last_end, label) == mapping_entries(mp));
}

/// A draft made at the time `clock` records `clock` as the page's update time; it keeps
/// the creation time the page had, and otherwise records the first written session's
/// start, or `clock` itself when no session is written.
pub proof fn lemma_draft_time(
    texts: Map<Seq<char>, Option<Seq<char>>>,
    entries: Seq<(YamlNode, YamlNode)>,
    date: (int, int, int),
    sessions: Seq<SessionView>,
    last_end: Option<Seq<char>>,
    label: Seq<char>,
    raw: Seq<char>,
    clock: Seq<char>,
)
    requires
        crate::journal::drafted_at_time(texts, entries, date, sessions, last_end, label, raw, clock),
    ensures
        exists|m: Mapping| raw == page_text(#[trigger] yaml_text(m), date, label, body_text(trimmed_sessions(sessions), date)) && {
            &&& text_of(mapping_texts(m), "updated"@) == Some(clock)
            &&& text_of(mapping_texts(m), "created"@) == if texts.contains_key("created"@) {
                text_of(texts, "created"@)
            } else if trimmed_sessions(sessions).len() > 0 {
                Some(trimmed_sessions(sessions)[0].0)
            } else {
                Some(clock)
            }
        },
{
    let m = choose|m: Mapping| #[trigger] drafted_as(texts, entries, date, sessions, last_end, label, raw, m,
        crate::journal::drafted_start(trimmed_sessions(sessions), clock), clock);
    crate::journal::lemma_metadata_keys();
    assert(raw == page_text(yaml_text(m), date, label, body_text(trimmed_sessions(sessions), date)));
}

} // verus!
