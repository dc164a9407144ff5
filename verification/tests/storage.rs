use std::path::PathBuf;
use chrono::{Datelike, Timelike};
use the_page::calendar::{CalendarDate, Timestamp, journal_day};
use the_page::journal::{Journal, Page};
use the_page::persisting::{PersistEvent, PersistFlow, PersistStep};
use the_page::sessions::WritingSession;
use the_page::storage::{conflict_file_name, dated_page, page_location, sort_dates, temporary_prefix};

const START: &str = "2026-09-12T09:42:03+01:00";

fn day() -> CalendarDate {
    CalendarDate::from_ymd(2026, 9, 12).unwrap()
}

fn root() -> PathBuf {
    PathBuf::from("/journal")
}

fn one(content: &str) -> Vec<WritingSession> {
    vec![WritingSession { start: START.into(), previous_end: None, content: content.into() }]
}

fn blank() -> Journal {
    Journal::at_base(&root(), day(), None, None).unwrap()
}

fn reopen(raw: &str) -> Journal {
    Journal::at_base(&root(), day(), Some(raw.to_string()), None).unwrap()
}

fn instant(s: &str) -> Timestamp {
    let t = chrono::DateTime::parse_from_rfc3339(s).unwrap();
    let date = CalendarDate::from_ymd(t.year(), t.month(), t.day()).unwrap();
    Timestamp::new(date, t.hour(), t.minute()).unwrap()
}

#[test]
fn labels_and_captions_round_trip_without_changing_session_clocks() {
    let raw = blank().draft(&[], None, "quiet morning").unwrap();
    let journal = reopen(&raw);
    assert!(journal.page().sessions.is_empty());
    assert_eq!(journal.page().last_end_input, None);
    assert_eq!(journal.page().label, "quiet morning");
    let sessions = one("![the shelf](2026-09-12/photo.jpg)\n");
    let journal = reopen(&journal.draft(&sessions, Some(START), "a phrase: 🌿").unwrap());
    let raw = journal.draft(&sessions, Some(START), "new label").unwrap();
    let journal = reopen(&raw);
    assert!(journal.draft(&sessions, Some(START), "bad\nlabel").is_err());
    let reopened = journal.page();
    assert_eq!(reopened.sessions, sessions);
    assert_eq!(reopened.label, "new label");
    assert_eq!(reopened.last_end_input.as_deref(), Some(START));
    assert!(raw.contains("# Saturday, 12 September 2026 · new label"));
}

#[test]
fn history_lists_only_dated_files_in_real_year_directories() {
    let mut found = Vec::new();
    for day in (1..=17).rev() {
        found.push(dated_page("2026", &format!("2026-09-{day:02}.md")).unwrap());
    }
    found.insert(3, dated_page("2026", "2026-09-25.md").unwrap());
    for name in [".the-page-hidden.md", "2026-02-30.md", "2025-09-20.md", "2026-09-2.md"] {
        assert!(dated_page("2026", name).is_none(), "{name}");
    }
    // A year folder must name the year of its pages.
    assert!(dated_page("2025", "2026-09-01.md").is_none());
    let dates = sort_dates(found);
    assert_eq!(dates.len(), 18);
    assert_eq!(dates.first().unwrap().to_string(), "2026-09-01");
    assert_eq!(dates.last().unwrap().to_string(), "2026-09-25");
}

#[test]
fn sessions_round_trip_and_missing_clock_uses_last_session_not_updated() {
    let sessions = vec![
        WritingSession { start: START.into(), previous_end: None, content: "# Authored\n\n## 08:30\n\nFirst 😊\n".into() },
        WritingSession {
            start: "2026-09-13T01:30:00+01:00".into(),
            previous_end: Some(START.into()),
            content: "Later writing".into(),
        },
    ];
    let end = "2026-09-13T01:35:00+01:00";
    let raw = blank().draft(&sessions, Some(end), "").unwrap();
    assert!(raw.contains("## 2026-09-13 01:30\n<!-- session: 2026-09-13T01:30:00+01:00; previous-end: 2026-09-12T09:42:03+01:00 -->"));
    let journal = reopen(&raw);
    assert_eq!(journal.page().sessions, sessions);
    let mut corrected = sessions.clone();
    corrected[0].content.push_str("Correction");
    let raw = journal.draft(&corrected, Some(end), "").unwrap();
    assert_eq!(reopen(&raw).page().last_end_input.as_deref(), Some(end));
    let raw = raw.lines().filter(|line| !line.starts_with("last_end_input:")).collect::<Vec<_>>().join("\n");
    assert_eq!(reopen(&raw).page().last_end_input.as_deref(), Some(sessions[1].start.as_str()));
}

#[test]
fn empty_final_sessions_are_omitted_and_malformed_boundaries_are_protected() {
    let sessions = vec![
        WritingSession { start: START.into(), previous_end: None, content: "Words".into() },
        WritingSession { start: "2026-09-12T12:00:00+01:00".into(), previous_end: Some(START.into()), content: String::new() },
    ];
    let raw = blank().draft(&sessions, Some(&sessions[1].start), "").unwrap();
    assert_eq!(raw.matches("<!-- session:").count(), 1);
    let malformed = format!("{raw}\n\n## 12:00\n<!-- session: nonsense; previous-end: {START} -->\n\ntext");
    assert!(Journal::at_base(&root(), day(), Some(malformed), None).is_err());
}

#[test]
fn four_am_uses_calendar_date_not_elapsed_hours() {
    assert_eq!(journal_day(&instant("2026-03-29T04:00:00+01:00")).to_string(), "2026-03-29");
    assert_eq!(journal_day(&instant("2026-03-29T03:59:59+01:00")).to_string(), "2026-03-28");
    assert_eq!(journal_day(&instant("2026-10-25T04:00:00+00:00")).to_string(), "2026-10-25");
}

#[test]
fn round_trip_preserves_authored_headings_unknown_metadata_and_offsets() {
    let content = "# My heading\n\n## 08:30\n\n**Hello**\n\n末尾\n";
    let raw = blank().draft(&one(content), Some(START), "").unwrap();
    let raw = raw.replacen("---\n", "---\ncustom: {nested: [one, two]}\n", 1);
    let reopened = reopen(&raw);
    assert_eq!(reopened.content(), content);
    let raw = reopened.draft(&one(content), Some(START), "").unwrap();
    assert!(raw.contains("nested:"));
    assert!(raw.contains(START));
    assert!(raw.contains("## 08:30"));
}

#[test]
fn replacement_boundary_retains_racing_external_writes() {
    for base in [Some(b"base".to_vec()), None] {
        let (flow, step) = PersistFlow::start(base.clone());
        assert!(matches!(step, PersistStep::ReadPage));
        let (flow, step) = flow.step(PersistEvent::Read(base.clone()));
        assert!(matches!(step, PersistStep::ReadPage));
        let (flow, step) = flow.step(PersistEvent::Read(base.clone()));
        assert!(matches!(step, PersistStep::Replace(ref expected) if *expected == base));
        // The external write arrives after the last comparison.
        if base.is_some() {
            let (flow, step) = flow.step(PersistEvent::Displaced("/journal/2026/.the-page-x.md".into(), b"external".to_vec()));
            assert!(matches!(step, PersistStep::CopyConflict(ref bytes) if bytes == b"external"));
            let (_, step) = flow.step(PersistEvent::Copied(PathBuf::from("/journal/2026/page.c.conflict.md"), "/journal/2026/page.c.conflict.md".into()));
            match step {
                PersistStep::Fail(m) => assert_eq!(m, "This page changed during saving. The displaced version is retained at /journal/2026/page.c.conflict.md (and /journal/2026/.the-page-x.md). Review both files before trying again."),
                _ => panic!("the replacement should stop"),
            }
        } else {
            let (_, step) = flow.step(PersistEvent::Failed("File exists".into()));
            assert!(matches!(step, PersistStep::Fail(ref m) if m == "File exists"));
        }
    }
}

#[test]
fn present_invalid_end_input_is_not_a_missing_compatibility_field() {
    let raw = blank().draft(&one("saved words"), Some(START), "").unwrap();
    for invalid in ["42", "null", "[]", "{}", "not-a-timestamp"] {
        let malformed = raw
            .lines()
            .map(|line| if line.starts_with("last_end_input:") { format!("last_end_input: {invalid}") } else { line.to_owned() })
            .collect::<Vec<_>>()
            .join("\n");
        assert!(Journal::at_base(&root(), day(), Some(malformed), None).is_err(), "accepted {invalid}");
    }
}

#[test]
fn malformed_files_are_protected_and_conflicting_bytes_are_copied() {
    let raw = blank().draft(&one("mine"), Some(START), "").unwrap();
    let journal = reopen(&raw);
    assert!(Journal::at_base(&root(), day(), Some("external writing".into()), None).is_err());
    let next = journal.draft(&one("new mine"), Some(START), "").unwrap();
    let (flow, _) = PersistFlow::start(Some(raw.clone().into_bytes()));
    let (flow, step) = flow.step(PersistEvent::Read(Some(b"external writing".to_vec())));
    assert!(matches!(step, PersistStep::CopyConflict(ref bytes) if bytes == b"external writing"));
    let copy = PathBuf::from("/journal/2026/2026-09-12.A.conflict.md");
    let (flow, step) = flow.step(PersistEvent::Copied(copy.clone(), "copy".into()));
    assert!(matches!(step, PersistStep::ReadPage));
    let (flow, step) = flow.step(PersistEvent::Read(Some(b"external writing".to_vec())));
    assert!(matches!(step, PersistStep::Replace(Some(ref bytes)) if bytes == b"external writing"));
    let (_, step) = flow.step(PersistEvent::Displaced("old".into(), b"external writing".to_vec()));
    assert!(matches!(step, PersistStep::Finish(ref copies) if *copies == vec![copy.clone()]));
    assert_eq!(reopen(&next).content(), "new mine");
}

#[test]
fn a_changed_page_between_reads_is_preserved_and_stops_the_replacement() {
    let (flow, _) = PersistFlow::start(Some(b"base".to_vec()));
    let (flow, step) = flow.step(PersistEvent::Read(Some(b"base".to_vec())));
    assert!(matches!(step, PersistStep::ReadPage));
    let (flow, step) = flow.step(PersistEvent::Read(Some(b"late".to_vec())));
    assert!(matches!(step, PersistStep::CopyConflict(ref bytes) if bytes == b"late"));
    let (_, step) = flow.step(PersistEvent::Copied(PathBuf::from("a"), "a".into()));
    assert!(matches!(step, PersistStep::Fail(ref m) if m == "The page changed again while saving. Preserved copies: a. Try again."));

    let (flow, _) = PersistFlow::start(Some(b"base".to_vec()));
    let (flow, _) = flow.step(PersistEvent::Read(Some(b"base".to_vec())));
    let (_, step) = flow.step(PersistEvent::Read(None));
    assert!(matches!(step, PersistStep::Fail(ref m) if m == "The page changed again while saving. Preserved copies: . Try again."));
}

#[test]
fn a_missing_page_is_created_without_copies() {
    let (flow, _) = PersistFlow::start(None);
    let (flow, step) = flow.step(PersistEvent::Read(None));
    assert!(matches!(step, PersistStep::ReadPage));
    let (flow, step) = flow.step(PersistEvent::Read(None));
    assert!(matches!(step, PersistStep::Replace(None)));
    let (_, step) = flow.step(PersistEvent::Replaced);
    assert!(matches!(step, PersistStep::Finish(ref copies) if copies.is_empty()));
}

#[test]
fn page_files_are_named_by_year_and_date() {
    let (year, file) = page_location(&day());
    assert_eq!(year, "2026");
    assert_eq!(file, "2026-09-12.md");
    let (year, file) = page_location(&CalendarDate::from_ymd(987, 1, 5).unwrap());
    assert_eq!(year, "0987");
    assert_eq!(file, "0987-01-05.md");
    assert_eq!(temporary_prefix(&day()), ".the-page-2026-09-12-");
}

#[test]
fn conflict_copies_are_unique_and_never_pages() {
    let a = conflict_file_name("2026-09-12");
    let b = conflict_file_name("2026-09-12");
    assert_ne!(a, b);
    assert!(a.starts_with("2026-09-12.") && a.ends_with(".conflict.md"));
    assert_eq!(a.len(), "2026-09-12.".len() + 26 + ".conflict.md".len());
    assert!(dated_page("2026", &a).is_none());
    assert_eq!(dated_page("2026", "2026-09-12.md"), Some(day()));
}

#[test]
fn page_reading_errors_name_their_cause() {
    let fail = |raw: &str| Journal::at_base(&root(), day(), Some(raw.to_string()), None).err().unwrap();
    assert_eq!(fail("no front matter"), "This page has malformed front matter. Its original text is protected.");
    assert!(fail("---\ninvalid: [\n---\ntext").starts_with("Invalid page metadata: "));
    assert_eq!(fail("---\nlabel: x\n---\n"), "Missing page ID.");
    assert_eq!(fail("---\nid: nope\n---\n"), "Invalid page ID.");
    assert_eq!(fail("---\nid: 01J8ZQ7Y4V9W6M3K2N1P0R5S7T\n---\n"), "Missing created.");
    assert_eq!(fail("---\nid: 01J8ZQ7Y4V9W6M3K2N1P0R5S7T\ncreated: soon\n---\n"), "Invalid created timestamp.");
    assert_eq!(
        fail("---\nid: 01J8ZQ7Y4V9W6M3K2N1P0R5S7T\ncreated: 2026-09-12T09:42:03+01:00\nupdated: 2026-09-12T09:42:03+01:00\n---\n\n# Friday\n\n"),
        "The generated page heading is malformed."
    );
    assert_eq!(Journal::at_base(&root(), day(), None, Some("not an id")).err().unwrap(), "Invalid page ID.");
}

#[test]
fn drafting_errors_name_their_cause() {
    let journal = blank();
    let fail = |sessions: &[WritingSession], end: Option<&str>, label: &str| journal.draft(sessions, end, label).err().unwrap();
    assert_eq!(fail(&one("x"), Some(START), "two\nlines"), "A label must fit on one line.");
    assert_eq!(fail(&one("x"), None, ""), "Missing end-input time.");
    assert_eq!(fail(&one("x"), Some("later"), ""), "Invalid end-input time.");
    let second = WritingSession { start: "2026-09-12T10:00:00+01:00".into(), previous_end: None, content: "y".into() };
    assert_eq!(fail(&[one("x").remove(0), second], Some(START), ""), "Invalid session boundary.");
    let third = WritingSession { start: "2026-09-12T10:00:00+01:00".into(), previous_end: Some("before".into()), content: "y".into() };
    assert_eq!(fail(&[one("x").remove(0), third], Some(START), ""), "Invalid preceding end-input time.");
    let bad_start = WritingSession { start: "morning".into(), previous_end: None, content: "x".into() };
    assert_eq!(fail(&[bad_start], Some(START), ""), "Malformed session timestamp.");
}

#[test]
fn a_new_page_takes_the_given_identifier() {
    let id = "01J8ZQ7Y4V9W6M3K2N1P0R5S7T";
    let journal = Journal::at_base(&root(), day(), None, Some(id)).unwrap();
    assert_eq!(journal.page().id, id);
    assert_eq!(journal.raw_base(), None);
    assert_eq!(journal.content(), "");
    let fresh = blank().page().id;
    assert_eq!(fresh.len(), 26);
    let raw = journal.draft(&one("hello"), Some(START), "").unwrap();
    let page = reopen(&raw).page();
    assert_eq!(page.id, id);
    assert_eq!(page.date, "2026-09-12");
    assert_eq!(page.created.as_deref(), Some(START));
    assert_eq!(page.content, "hello");
}

#[test]
fn an_unreadable_page_stays_visible_with_its_error() {
    let raw = "---\ninvalid: [\n---\nlocal malformed writing";
    let error = Journal::at_base(&root(), day(), Some(raw.into()), None).err().unwrap();
    let page = Page::unreadable(&day(), None, raw.into(), error);
    assert!(page.error.is_some());
    assert!(page.content.contains("local malformed writing"));
    assert!(page.sessions.is_empty());
    assert_eq!(page.date, "2026-09-12");
}

#[test]
fn a_copied_journal_keeps_its_place_and_writing() {
    let raw = blank().draft(&one("kept"), Some(START), "label").unwrap();
    let journal = Journal::at_base(&PathBuf::from("/elsewhere/journal"), day(), Some(raw.clone()), None).unwrap();
    let copy = journal.duplicate();
    assert_eq!(copy.root(), &PathBuf::from("/elsewhere/journal"));
    assert_eq!(copy.date(), day());
    assert_eq!(copy.raw_base(), Some(raw.as_str()));
    assert_eq!(copy.content(), "kept");
    assert_eq!(copy.page().id, journal.page().id);
}

#[test]
fn a_listing_keeps_regular_page_files_in_real_year_folders() {
    let files = |names: &[(&str, bool)]| names.iter().map(|(n, f)| (n.to_string(), *f)).collect::<Vec<_>>();
    let folders = vec![
        ("2026".to_string(), true, files(&[("2026-09-12.md", true), ("2026-01-02.md", true), ("2026-03-04.md", false), ("notes.md", true)])),
        ("2025".to_string(), true, files(&[("2025-12-31.md", true), ("2026-01-01.md", true)])),
        ("2024".to_string(), false, files(&[("2024-05-05.md", true)])),
        ("photos".to_string(), true, files(&[("2023-01-01.md", true)])),
    ];
    let dates: Vec<String> = the_page::storage::listed_page_dates(&folders).iter().map(|d| d.to_string()).collect();
    assert_eq!(dates, ["2025-12-31", "2026-01-02", "2026-09-12"]);
}
