use std::path::PathBuf;
use the_page::calendar::CalendarDate;
use the_page::journal::Journal;
use the_page::sessions::WritingSession;

const START: &str = "2026-09-12T09:42:03+01:00";
const LATER: &str = "2026-09-12T10:05:00.125-04:30";

fn day() -> CalendarDate {
    CalendarDate::from_ymd(2026, 9, 12).unwrap()
}

fn root() -> PathBuf {
    PathBuf::from("/journal")
}

fn one(content: &str) -> Vec<WritingSession> {
    vec![WritingSession { start: START.into(), previous_end: None, content: content.into() }]
}

fn reopen(raw: &str) -> Journal {
    Journal::at_base(&root(), day(), Some(raw.to_string()), None).unwrap()
}

fn front_matter(raw: &str) -> &str {
    let rest = raw.strip_prefix("---\n").unwrap();
    &rest[..rest.find("\n---\n").unwrap() + 1]
}

const TRICKY_LABELS: [&str; 34] = [
    "---",
    "--- after the marker",
    "...",
    ": colon first",
    "key: value",
    "# not a comment",
    "- not a list",
    "'single quoted'",
    "\"double quoted\"",
    "it's",
    "null",
    "~",
    "true",
    "no",
    "123",
    "-7",
    "1e3",
    "0x1F",
    ".inf",
    " leading space",
    "trailing space ",
    "tab\there",
    "🌿 a phrase: 🌿",
    "[list]",
    "{map}",
    "&anchor",
    "*alias",
    "!tag",
    "%directive",
    "@at",
    "|",
    ">",
    "? question",
    "a\u{2028}b",
];

#[test]
fn labels_that_look_like_yaml_read_back_exactly() {
    for label in TRICKY_LABELS {
        let blank = Journal::at_base(&root(), day(), None, None).unwrap();
        let id = blank.page().id;
        let raw = blank.draft(&one("words"), Some(LATER), label).unwrap();
        let page = reopen(&raw).page();
        assert_eq!(page.label, label, "label {:?} in {:?}", label, raw);
        assert_eq!(page.id, id);
        assert_eq!(page.created.as_deref(), Some(START));
        assert_eq!(page.last_end_input.as_deref(), Some(LATER));
        assert_eq!(page.sessions, one("words"));
        assert!(!front_matter(&raw).lines().any(|line| line == "---"));
    }
}

#[test]
fn a_long_label_reads_back_exactly() {
    let label = "a label long enough that a YAML writer could fold it across lines, \
                 with words: colons, # hashes and --- dashes in the middle of it";
    let raw = Journal::at_base(&root(), day(), None, None).unwrap().draft(&[], None, label).unwrap();
    assert_eq!(reopen(&raw).page().label, label);
}

#[test]
fn a_redraft_keeps_the_front_matter_it_read() {
    let first = Journal::at_base(&root(), day(), None, None).unwrap();
    let raw = first.draft(&one("first"), Some(START), "---").unwrap();
    let journal = reopen(&raw);
    let created = journal.page().created;
    let raw = journal.draft(&one("first"), Some(LATER), "second: label").unwrap();
    let page = reopen(&raw).page();
    assert_eq!(page.id, first.page().id);
    assert_eq!(page.created, created);
    assert_eq!(page.label, "second: label");
    assert_eq!(page.last_end_input.as_deref(), Some(LATER));
}

#[test]
fn unknown_text_metadata_is_kept_by_a_draft() {
    let raw = Journal::at_base(&root(), day(), None, None).unwrap().draft(&one("kept"), Some(START), "").unwrap();
    let raw = raw.replacen("---\n", "---\nmood: '42'\nweather: rain, then sun\n", 1);
    let raw = reopen(&raw).draft(&one("kept"), Some(START), "").unwrap();
    let yaml = front_matter(&raw);
    assert!(yaml.starts_with("mood: '42'\nweather: rain, then sun\n"), "{:?}", yaml);
    assert_eq!(reopen(&raw).page().sessions, one("kept"));
}

#[test]
fn a_draft_writes_the_entries_in_order() {
    let journal = Journal::at_base(&root(), day(), None, Some("01J0000000000000000000000A")).unwrap();
    let raw = journal.draft(&one("hello"), Some(LATER), "title").unwrap();
    let lines: Vec<&str> = front_matter(&raw).lines().collect();
    assert_eq!(lines.len(), 5);
    assert_eq!(lines[0], "id: 01J0000000000000000000000A");
    assert!(lines[1].starts_with("created: ") && lines[1].contains(START), "{:?}", lines);
    assert!(lines[2].starts_with("updated: "), "{:?}", lines);
    assert!(lines[3].starts_with("last_end_input: ") && lines[3].contains(LATER), "{:?}", lines);
    assert_eq!(lines[4], "label: title");
}

#[test]
fn session_times_in_every_rfc3339_form_read_back() {
    let starts = [
        "2026-09-12t09:42:03z",
        "2026-09-12 09:42:03.5+01:00",
        "2026-09-12T09:42:03\u{2212}02:30",
    ];
    for start in starts {
        let second = "2026-09-12T11:00:00Z";
        let sessions = vec![
            WritingSession { start: start.into(), previous_end: None, content: "first".into() },
            WritingSession { start: second.into(), previous_end: Some(start.into()), content: "second".into() },
        ];
        let raw = Journal::at_base(&root(), day(), None, None).unwrap().draft(&sessions, Some(second), "").unwrap();
        let page = reopen(&raw).page();
        assert_eq!(page.sessions, sessions, "{:?}", raw);
        assert_eq!(page.created.as_deref(), Some(start));
    }
}

fn mapping_of(yaml: &str) -> serde_yaml_ng::Mapping {
    serde_yaml_ng::from_str(yaml).unwrap()
}

#[test]
fn a_draft_keeps_every_other_entry_in_place() {
    let raw = Journal::at_base(&root(), day(), None, None).unwrap().draft(&one("kept"), Some(START), "first").unwrap();
    let extra = "custom: {nested: [one, two]}\ncount: 5\nflag: true\nnothing: null\nratio: -2.5\n1: one\n\
                 poem: |\n  a line\n  --- not a marker\n? [a, key]\n: value\n";
    let raw = raw.replacen("---\n", &format!("---\n{extra}"), 1);
    let before = mapping_of(front_matter(&raw));
    let journal = reopen(&raw);
    assert_eq!(journal.content(), "kept");
    let raw = journal.draft(&one("kept"), Some(LATER), "second").unwrap();
    let after = mapping_of(front_matter(&raw));
    let before_keys: Vec<_> = before.keys().collect();
    let after_keys: Vec<_> = after.keys().collect();
    assert_eq!(before_keys, after_keys);
    for (key, value) in &before {
        let key_text = key.as_str();
        if key_text == Some("updated") || key_text == Some("label") || key_text == Some("last_end_input") {
            continue;
        }
        assert_eq!(after.get(key), Some(value), "{:?}", key);
    }
    assert_eq!(after.get("label").and_then(|v| v.as_str()), Some("second"));
    assert_eq!(after.get("last_end_input").and_then(|v| v.as_str()), Some(LATER));
    let page = reopen(&raw).page();
    assert_eq!(page.label, "second");
    assert_eq!(page.sessions, one("kept"));
    assert_eq!(reopen(&raw).draft(&one("kept"), Some(LATER), "second").unwrap().len(), raw.len());
}
