use std::path::PathBuf;
use the_page::calendar::CalendarDate;
use the_page::copying::{copy_folder, copy_paths, copy_relative, pending_asset, rewrite_references};
use the_page::journal::Journal;
use the_page::markdown::image_paths;
use the_page::persisting::{PersistEvent, PersistFlow, PersistStep};
use the_page::recovery::{
    CopyAsset, PendingImage, RecoveryStore, SaveResult, checkpoint_settled, import_path, latest_for_date,
    legacy_record_key, owns_checkpoint, recorded_paths, restored_selection, string_before, token_order,
};
use the_page::saving::{SaveEvent, SaveFlow, SaveStep, asset_folder};
use the_page::sessions::WritingSession;
use the_page::storage::{conflict_file_name, dated_page};

const START: &str = "2026-09-12T08:13:00+01:00";

fn day() -> CalendarDate {
    CalendarDate::from_ymd(2026, 9, 12).unwrap()
}

fn writing(text: &str) -> Vec<WritingSession> {
    vec![WritingSession { start: START.into(), previous_end: None, content: text.into() }]
}

fn root() -> PathBuf {
    PathBuf::from("/journal")
}

fn png() -> Vec<u8> {
    let mut png = std::io::Cursor::new(Vec::new());
    image::DynamicImage::new_rgb8(2, 3).write_to(&mut png, image::ImageFormat::Png).unwrap();
    png.into_inner()
}

/// A saved page with the writing "base" and its text.
fn setup() -> (Journal, String) {
    let blank = Journal::at_base(&root(), day(), None, None).unwrap();
    let raw = blank.draft(&writing("base"), Some(START), "label").unwrap();
    (Journal::at_base(&root(), day(), Some(raw.clone()), None).unwrap(), raw)
}

/// Starts a save of `text` and answers its steps up to the page write.
fn save_until_persist(journal: &Journal, text: &str, waiting: bool) -> (SaveFlow, SaveStep, String) {
    let raw = journal.draft(&writing(text), Some(START), "label").unwrap();
    let (flow, step) = SaveFlow::start(
        raw.clone(),
        journal.raw_base().map(str::to_owned),
        None,
        waiting,
        Vec::new(),
        2026,
        "01J8ZQ7Y4V9W6M3K2N1P0R5S7T".into(),
    );
    assert!(matches!(step, SaveStep::ReadRecords));
    let (flow, step) = flow.step(SaveEvent::Done);
    assert!(matches!(step, SaveStep::WriteCheckpoint));
    let (flow, step) = flow.step(SaveEvent::Done);
    assert!(matches!(step, SaveStep::Reload));
    let (flow, step) = flow.step(SaveEvent::Done);
    (flow, step, raw)
}

fn finished(step: SaveStep) -> SaveResult {
    match step {
        SaveStep::Finish(result) => result,
        _ => panic!("the save should be over"),
    }
}

/// Answers the cleanup steps of a save whose page was written, finding its own record.
fn clean_up(flow: SaveFlow, conflicts: Vec<PathBuf>) -> SaveResult {
    let (flow, step) = flow.step(SaveEvent::Persisted(conflicts));
    assert!(matches!(step, SaveStep::ReadCheckpoint));
    let (flow, step) = flow.step(SaveEvent::Token(Some("01J8ZQ7Y4V9W6M3K2N1P0R5S7T".into())));
    assert!(matches!(step, SaveStep::RemoveCheckpoint));
    let (_, step) = flow.step(SaveEvent::Done);
    finished(step)
}

#[test]
fn failure_at_each_write_boundary_keeps_the_canonical_page_and_truthful_recovery() {
    for point in ["recovery-write", "temporary-write", "conflict-copy", "rename"] {
        let (journal, base) = setup();
        let raw = journal.draft(&writing("local"), Some(START), "label").unwrap();
        let (flow, step) = SaveFlow::start(raw.clone(), Some(base.clone()), None, false, Vec::new(), 2026, "T".into());
        assert!(matches!(step, SaveStep::ReadRecords));
        let (flow, step) = flow.step(SaveEvent::Done);
        assert!(matches!(step, SaveStep::WriteCheckpoint));
        if point == "recovery-write" {
            let result = finished(flow.step(SaveEvent::Failed(format!("injected {point}"))).1);
            assert!(!result.saved, "{point}");
            assert!(!result.recovered, "{point}");
            assert_eq!(result.cause.as_deref(), Some("Recovery could not be written: injected recovery-write."));
            assert_eq!(result.base.as_deref(), Some(base.as_str()));
            continue;
        }
        let (flow, _) = flow.step(SaveEvent::Done);
        let (flow, step) = flow.step(SaveEvent::Done);
        assert!(matches!(step, SaveStep::Persist));
        let outcome = match point {
            "temporary-write" => format!("injected {point}"),
            _ => {
                let on_disk = if point == "conflict-copy" { b"external".to_vec() } else { base.clone().into_bytes() };
                let (page, _) = PersistFlow::start(Some(base.clone().into_bytes()));
                let (page, step) = page.step(PersistEvent::Read(Some(on_disk.clone())));
                let (page, step) = if point == "conflict-copy" {
                    assert!(matches!(step, PersistStep::CopyConflict(_)));
                    (page, step)
                } else {
                    let (page, step) = page.step(PersistEvent::Read(Some(on_disk)));
                    assert!(matches!(step, PersistStep::Replace(_)));
                    (page, step)
                };
                let _ = step;
                match page.step(PersistEvent::Failed(format!("injected {point}"))).1 {
                    PersistStep::Fail(m) => m,
                    _ => panic!("the page write should stop"),
                }
            },
        };
        let result = finished(flow.step(SaveEvent::Failed(outcome.clone())).1);
        assert!(!result.saved, "{point}");
        assert!(result.recovered, "{point}");
        assert_eq!(result.cause, Some(outcome));
        let restored = Journal::recovered(&root(), day(), Some(base.clone()), &raw).unwrap();
        assert_eq!(restored.content(), "local");
        let (flow, step, _) = save_until_persist(&restored, "local", false);
        assert!(matches!(step, SaveStep::Persist));
        assert!(clean_up(flow, Vec::new()).saved);
    }
    let (journal, _) = setup();
    let raw = journal.draft(&writing("local"), Some(START), "label").unwrap();
    let (flow, _) = SaveFlow::start(raw, journal.raw_base().map(str::to_owned), None, false, Vec::new(), 2026, "T".into());
    let result = finished(flow.step(SaveEvent::Failed("Not a directory".into())).1);
    assert!(!result.recovered && !result.saved);
    assert_eq!(result.cause.as_deref(), Some("Recovery could not be read: Not a directory."));
    assert_eq!(journal.content(), "base");
}

#[test]
fn recheck_preserves_every_observed_external_version_before_retry() {
    let (journal, base) = setup();
    let (flow, step, raw) = save_until_persist(&journal, "local", false);
    assert!(matches!(step, SaveStep::Persist));
    let (page, _) = PersistFlow::start(Some(base.into_bytes()));
    let (page, step) = page.step(PersistEvent::Read(Some(b"external one".to_vec())));
    assert!(matches!(step, PersistStep::CopyConflict(ref b) if b == b"external one"));
    let (page, step) = page.step(PersistEvent::Copied(PathBuf::from("one.conflict.md"), "one.conflict.md".into()));
    assert!(matches!(step, PersistStep::ReadPage));
    let (page, step) = page.step(PersistEvent::Read(Some(b"external two".to_vec())));
    assert!(matches!(step, PersistStep::CopyConflict(ref b) if b == b"external two"));
    let message = match page.step(PersistEvent::Copied(PathBuf::from("two.conflict.md"), "two.conflict.md".into())).1 {
        PersistStep::Fail(m) => m,
        _ => panic!("the page changed again"),
    };
    assert_eq!(message, "The page changed again while saving. Preserved copies: one.conflict.md, two.conflict.md. Try again.");
    let result = finished(flow.step(SaveEvent::Failed(message)).1);
    assert!(!result.saved && result.recovered);
    // The retry checks against the recorded base again and preserves the version now on disk.
    let restored = Journal::recovered(&root(), day(), journal.raw_base().map(str::to_owned), &raw).unwrap();
    let (flow, _, _) = save_until_persist(&restored, "local", false);
    let (page, _) = PersistFlow::start(restored.raw_base().map(|b| b.as_bytes().to_vec()));
    let (page, _) = page.step(PersistEvent::Read(Some(b"external two".to_vec())));
    let (page, _) = page.step(PersistEvent::Copied(PathBuf::from("three.conflict.md"), "three".into()));
    let (page, _) = page.step(PersistEvent::Read(Some(b"external two".to_vec())));
    let conflicts = match page.step(PersistEvent::Displaced("old".into(), b"external two".to_vec())).1 {
        PersistStep::Finish(c) => c,
        _ => panic!("the page should be replaced"),
    };
    assert!(clean_up(flow, conflicts).saved);
}

#[test]
fn stale_base_and_missing_page_restore_without_discarding_external_bytes() {
    for missing in [false, true] {
        let (journal, base) = setup();
        let raw = journal.draft(&writing("recovered"), Some(START), "label").unwrap();
        let disk: Option<Vec<u8>> = if missing { None } else { Some(b"divergent bytes".to_vec()) };
        assert!(!checkpoint_settled(true, true, disk.as_deref(), raw.as_bytes()));
        let restored = Journal::recovered(&root(), day(), Some(base.clone()), &raw).unwrap();
        assert_eq!(restored.raw_base(), Some(base.as_str()));
        assert_eq!(restored.content(), "recovered");
        let (flow, step, saved_raw) = save_until_persist(&restored, "recovered", false);
        assert!(matches!(step, SaveStep::Persist));
        let (page, _) = PersistFlow::start(Some(base.clone().into_bytes()));
        let (page, step) = page.step(PersistEvent::Read(disk.clone()));
        let copy = PathBuf::from("2026-09-12.X.conflict.md");
        let page = if missing {
            assert!(matches!(step, PersistStep::ReadPage));
            page
        } else {
            assert!(matches!(step, PersistStep::CopyConflict(ref b) if b == b"divergent bytes"));
            page.step(PersistEvent::Copied(copy.clone(), "copy".into())).0
        };
        let (page, step) = page.step(PersistEvent::Read(disk.clone()));
        assert!(matches!(step, PersistStep::Replace(ref e) if *e == disk));
        let event = match &disk {
            Some(b) => PersistEvent::Displaced("old".into(), b.clone()),
            None => PersistEvent::Replaced,
        };
        let conflicts = match page.step(event).1 {
            PersistStep::Finish(c) => c,
            _ => panic!("the page should be replaced"),
        };
        let result = clean_up(flow, conflicts);
        assert!(result.saved);
        if !missing {
            assert_eq!(result.conflicts[0], copy);
        }
        assert_eq!(result.base.as_deref(), Some(saved_raw.as_str()));
        let reopened = Journal::at_base(&root(), day(), Some(saved_raw), None).unwrap();
        assert_eq!(reopened.page().last_end_input.as_deref(), Some(START));
    }
}

#[test]
fn older_completion_never_deletes_a_newer_checkpoint_and_cleanup_failure_is_not_data_loss() {
    for newer in [true, false] {
        let (journal, _) = setup();
        let (flow, step, raw) = save_until_persist(&journal, "first", false);
        assert!(matches!(step, SaveStep::Persist));
        let (flow, step) = flow.step(SaveEvent::Persisted(Vec::new()));
        assert!(matches!(step, SaveStep::ReadCheckpoint));
        let result = if newer {
            finished(flow.step(SaveEvent::Token(Some("01J8ZQ7Y4V9W6M3K2N1P0R5S7V".into()))).1)
        } else {
            finished(flow.step(SaveEvent::Failed("cannot remove recovery".into())).1)
        };
        assert!(result.saved);
        assert_eq!(result.recovered, !newer);
        if !newer {
            assert_eq!(result.cause.as_deref(), Some("Saved to the journal; an older recovery copy remains: cannot remove recovery"));
        } else {
            assert_eq!(result.cause, None);
        }
        assert_eq!(Journal::at_base(&root(), day(), result.base, None).unwrap().content(), "first");
        assert!(raw.contains("first"));
    }
}

#[test]
fn pending_bytes_and_rollover_ownership_are_in_the_recovery_record() {
    let (journal, _) = setup();
    let pending = PendingImage { bytes: png(), from: 4, to: 4, at: START.into(), corrected: true };
    let input: serde_json::Value = serde_json::from_str(
        r#"{"from":4,"to":7,"batch":{"date":"2026-09-13","at":"2026-09-13T04:00:00+01:00","lastEnd":"2026-09-13T04:00:00+01:00","completed":false}}"#,
    )
    .unwrap();
    let (_, step, raw) = save_until_persist(&journal, "basenew", true);
    let result = finished(step);
    assert!(result.recovered && !result.saved);
    assert_eq!(result.cause.as_deref(), Some("Photographs are still waiting to be inserted. Try again."));
    let page = Journal::recovered(&root(), day(), journal.raw_base().map(str::to_owned), &raw)
        .unwrap()
        .page()
        .restored(START.into(), vec![pending.clone()], Some(input.clone()));
    assert_eq!(page.pending[0].bytes, pending.bytes);
    assert_eq!(page.pending[0].from, 4);
    assert_eq!(page.pending_input, Some(input));
    assert_eq!(page.recovered.as_deref(), Some(START));
    assert_eq!(journal.content(), "base");
}

/// Exports a copy of `raw` as the library lays it out: the photographs each once, in the
/// order visited, and the text pointing at them.
fn export(journal: &Journal, raw: &str, pending: &[CopyAsset], bytes: &dyn Fn(&str) -> Vec<u8>) -> (String, Vec<(String, Vec<u8>)>) {
    let snapshot = Journal::recovered(&root(), day(), journal.raw_base().map(str::to_owned), raw).unwrap();
    let page = snapshot.page();
    let contents: Vec<String> = page.sessions.iter().map(|s| s.content.clone()).collect();
    let order = copy_paths(&contents);
    let folder = copy_folder();
    let mut relatives = Vec::new();
    let mut files = Vec::new();
    for (n, path) in order.iter().enumerate() {
        let data = match pending_asset(pending, path) {
            Some(i) => pending[i].bytes.clone(),
            None => bytes(path),
        };
        let (extension, _) = the_page::photographs::format(&data).unwrap();
        let relative = copy_relative(&folder, n, extension);
        files.push((relative.clone(), data));
        relatives.push(relative);
    }
    let sessions: Vec<WritingSession> = page
        .sessions
        .iter()
        .map(|s| WritingSession {
            start: s.start.clone(),
            previous_end: s.previous_end.clone(),
            content: rewrite_references(&s.content, &order, &relatives).unwrap(),
        })
        .collect();
    (snapshot.draft(&sessions, page.last_end_input.as_deref(), &page.label).unwrap(), files)
}

#[test]
fn export_is_usable_with_pending_photographs_and_leaves_recovery_untouched() {
    let (journal, _) = setup();
    let image = CopyAsset { path: "2026-09-12/pending.png".into(), bytes: png() };
    let raw = journal
        .draft(&writing(&format!("base\n![caption]({})\n[link](https://example.com)", image.path)), Some(START), "label")
        .unwrap();
    let (copied, files) = export(&journal, &raw, &[image], &|_| panic!("only the pending photograph is copied"));
    let paths = image_paths(&copied);
    assert_eq!(paths.len(), 1);
    assert!(!paths[0].contains(' '));
    assert_eq!(files, vec![(paths[0].clone(), png())]);
    assert!(copied.contains(START));
    assert!(copied.contains("[link](https://example.com)"));
    assert_eq!(journal.content(), "base");
}

#[test]
fn inline_and_quoted_images_are_exported_but_literal_examples_are_not_assets() {
    let (journal, _) = setup();
    let path = import_path(&day(), &png()).unwrap();
    for content in [format!("Memory ![caption]({path})"), format!("> ![caption]({path})")] {
        let raw = journal.draft(&writing(&content), Some(START), "label").unwrap();
        let (copied, files) = export(&journal, &raw, &[], &|_| png());
        assert!(!copied.contains(&path), "export did not rewrite {content}");
        let relative = copied.split("](photographs-").nth(1).unwrap().split(')').next().unwrap();
        assert_eq!(files, vec![(format!("photographs-{relative}"), png())]);
    }
    for content in ["```md\n![example](2026-09-12/missing.png)\n```", "`![example](2026-09-12/missing.png)`", "    ![example](2026-09-12/missing.png)"] {
        assert!(recorded_paths(&[content.to_string()]).is_empty(), "literal code blocked save: {content}");
        let (_, step, _) = save_until_persist(&journal, content, false);
        assert!(matches!(step, SaveStep::Persist));
    }
}

#[test]
fn export_rewrites_only_rendered_images_and_parses_each_session_independently() {
    let (journal, _) = setup();
    let path = import_path(&day(), &png()).unwrap();
    let mut sessions = writing("```md\n![literal](2026-09-12/missing.png)");
    sessions.push(WritingSession {
        start: "2026-09-12T09:00:00+01:00".into(),
        previous_end: Some(START.into()),
        content: format!("![actual]({path})\n\n```md\n![example]({path})\n```\n\n[ordinary link]({path})"),
    });
    let contents: Vec<String> = sessions.iter().map(|s| s.content.clone()).collect();
    assert_eq!(recorded_paths(&contents), vec![path.clone()]);
    let raw = journal.draft(&sessions, Some(START), "label").unwrap();
    let (copied, _) = export(&journal, &raw, &[], &|_| png());
    assert!(copied.contains("![actual](photographs-"));
    assert!(copied.contains(&format!("![example]({path})")));
    assert!(copied.contains(&format!("[ordinary link]({path})")));
    assert!(copied.contains("![literal](2026-09-12/missing.png)"));
}

#[test]
fn records_are_read_in_token_order_and_equal_tokens_keep_their_order() {
    let tokens: Vec<String> = ["01B", "01A", "01C", "01A", ""].iter().map(|t| t.to_string()).collect();
    assert_eq!(token_order(&tokens), vec![4, 1, 3, 0, 2]);
    assert!(string_before("01A", "01B"));
    assert!(string_before("01", "01A"));
    assert!(!string_before("01B", "01A"));
    assert!(!string_before("01A", "01A"));
}

#[test]
fn only_the_latest_record_of_a_date_is_restored() {
    let d12 = day();
    let d13 = CalendarDate::from_ymd(2026, 9, 13).unwrap();
    let dates = vec![d12, d13, d12, d13];
    assert_eq!(restored_selection(&dates, &[true, true, true, false]), vec![1, 2]);
    assert_eq!(restored_selection(&dates, &[true, false, false, false]), vec![0]);
    assert_eq!(restored_selection(&dates, &[false, false, false, false]), Vec::<usize>::new());
    assert_eq!(latest_for_date(&dates, &d13), Some(3));
    assert_eq!(latest_for_date(&dates, &CalendarDate::from_ymd(2026, 9, 14).unwrap()), None);
}

#[test]
fn a_record_is_settled_only_when_the_page_on_disk_is_its_text() {
    assert!(checkpoint_settled(true, true, Some(b"text"), b"text"));
    assert!(!checkpoint_settled(true, true, Some(b"text"), b"texts"));
    assert!(!checkpoint_settled(true, true, None, b"text"));
    assert!(!checkpoint_settled(false, true, Some(b"text"), b"text"));
    assert!(!checkpoint_settled(true, false, Some(b"text"), b"text"));
    assert!(owns_checkpoint(Some("01A"), "01A"));
    assert!(!owns_checkpoint(Some("01B"), "01A"));
    assert!(!owns_checkpoint(None, "01A"));
}

#[test]
fn recorded_photographs_are_each_listed_once_in_order() {
    let contents = vec![
        "![b](2026-09-12/b.png) ![a](2026-09-12/a.png)".to_string(),
        "![again](2026-09-12/b.png)\n\n[link](2026-09-12/c.png)".to_string(),
    ];
    assert_eq!(recorded_paths(&contents), vec!["2026-09-12/a.png".to_string(), "2026-09-12/b.png".to_string()]);
    assert_eq!(
        copy_paths(&contents),
        vec!["2026-09-12/a.png".to_string(), "2026-09-12/b.png".to_string()]
    );
}

#[test]
fn photographs_are_stored_in_a_dated_folder_of_the_journal_year() {
    assert_eq!(asset_folder("2026-09-12/a.png", 2026).unwrap(), day());
    assert_eq!(asset_folder("2026-01-02/x/y.png", 2026).unwrap(), CalendarDate::from_ymd(2026, 1, 2).unwrap());
    assert_eq!(asset_folder("photos/a.png", 2026).err().unwrap(), "Invalid photograph directory.");
    assert_eq!(asset_folder("2025-12-31/a.png", 2026).err().unwrap(), "Photograph directory is outside this journal year.");
    let (_, step) = SaveFlow::start(String::new(), None, None, false, vec!["2025-12-31/a.png".into()], 2026, "T".into());
    assert!(matches!(step, SaveStep::ReadRecords));
}

#[test]
fn stored_photographs_come_before_the_page_and_stop_the_save_when_misplaced() {
    let paths = vec!["2026-09-12/a.png".to_string(), "2025-12-31/b.png".to_string()];
    let (flow, _) = SaveFlow::start("raw".into(), Some("base".into()), None, false, paths.clone(), 2026, "T".into());
    let (flow, _) = flow.step(SaveEvent::Done);
    let (flow, _) = flow.step(SaveEvent::Done);
    let (flow, step) = flow.step(SaveEvent::Done);
    assert!(matches!(step, SaveStep::StoreAsset(0, d) if d == day()));
    let result = finished(flow.step(SaveEvent::Done).1);
    assert!(!result.saved && result.recovered);
    assert_eq!(result.cause.as_deref(), Some("Photograph directory is outside this journal year."));
    assert_eq!(result.base.as_deref(), Some("base"));

    let (flow, _) = SaveFlow::start("raw".into(), None, Some("disk full".into()), false, paths, 2026, "T".into());
    let (flow, _) = flow.step(SaveEvent::Done);
    let (flow, _) = flow.step(SaveEvent::Done);
    let result = finished(flow.step(SaveEvent::Done).1);
    assert_eq!(result.cause.as_deref(), Some("Writing is in recovery, but an image could not be copied: disk full"));
    assert!(result.recovered && !result.saved);

    let (flow, _) = SaveFlow::start("raw".into(), None, None, false, Vec::new(), 2026, "T".into());
    let (flow, _) = flow.step(SaveEvent::Done);
    let (flow, _) = flow.step(SaveEvent::Done);
    match flow.step(SaveEvent::Failed("malformed".into())).1 {
        SaveStep::Fail(m) => assert_eq!(m, "malformed"),
        _ => panic!("a failed reload ends the save with its error"),
    }
}

#[test]
fn a_new_store_keeps_its_folder() {
    let store = RecoveryStore::new(PathBuf::from("/support/recovery"));
    assert_eq!(store.directory, PathBuf::from("/support/recovery"));
}

#[test]
fn legacy_page_recovery_migrates_once_without_reviving_after_acknowledgement() {
    let (journal, base) = setup();
    let raw = journal.draft(&writing("legacy local"), Some(START), "label").unwrap();
    // A record whose text is not the page on disk still needs restoring.
    assert!(!checkpoint_settled(true, true, Some(base.as_bytes()), raw.as_bytes()));
    let restored = Journal::recovered(&root(), day(), Some(base), &raw).unwrap();
    assert_eq!(restored.content(), "legacy local");
    let (flow, step, saved) = save_until_persist(&restored, "legacy local", false);
    assert!(matches!(step, SaveStep::Persist));
    assert!(clean_up(flow, Vec::new()).saved);
    // Once the page holds the text and the checkpoint holds no record, nothing is restored.
    assert!(checkpoint_settled(true, true, Some(saved.as_bytes()), saved.as_bytes()));
    assert!(restored_selection(&[], &[]).is_empty());
}

#[test]
fn conflicts_preserve_each_disk_version_and_never_become_daily_pages() {
    let (mut journal, mut base) = setup();
    let mut copies = Vec::new();
    for external in ["external one", "external two"] {
        let name = conflict_file_name("2026-09-12");
        let copy = PathBuf::from(format!("/journal/2026/{name}"));
        let (flow, _, raw) = save_until_persist(&journal, "local", false);
        let (page, _) = PersistFlow::start(Some(base.clone().into_bytes()));
        let (page, step) = page.step(PersistEvent::Read(Some(external.as_bytes().to_vec())));
        assert!(matches!(step, PersistStep::CopyConflict(ref b) if b == external.as_bytes()));
        let (page, _) = page.step(PersistEvent::Copied(copy.clone(), copy.display().to_string()));
        let (page, step) = page.step(PersistEvent::Read(Some(external.as_bytes().to_vec())));
        assert!(matches!(step, PersistStep::Replace(Some(ref b)) if b == external.as_bytes()));
        let conflicts = match page.step(PersistEvent::Displaced("old".into(), external.as_bytes().to_vec())).1 {
            PersistStep::Finish(c) => c,
            _ => panic!("the page should be replaced"),
        };
        let result = clean_up(flow, conflicts);
        assert!(result.saved);
        assert_eq!(result.conflicts, vec![copy]);
        copies.push(name);
        journal = Journal::at_base(&root(), day(), Some(raw.clone()), None).unwrap();
        base = raw;
    }
    assert_ne!(copies[0], copies[1]);
    for name in &copies {
        assert!(dated_page("2026", name).is_none());
    }
    assert_eq!(dated_page("2026", "2026-09-12.md"), Some(day()));
}

#[test]
fn legacy_record_files_are_keyed_by_their_name_without_json() {
    assert_eq!(legacy_record_key("2026-09-12.json").as_deref(), Some("2026-09-12"));
    assert_eq!(legacy_record_key("x..json").as_deref(), Some("x."));
    assert_eq!(legacy_record_key("a.b.json").as_deref(), Some("a.b"));
    assert_eq!(legacy_record_key(".json"), None);
    assert_eq!(legacy_record_key("json"), None);
    assert_eq!(legacy_record_key("page.json.tmp"), None);
    assert_eq!(legacy_record_key("page.JSON"), None);
    assert_eq!(legacy_record_key("journals"), None);
}

#[test]
fn a_failed_checkpoint_ends_the_save_before_anything_is_written() {
    let (journal, base) = setup();
    for fail_at in [0, 1] {
        let raw = journal.draft(&writing("new"), Some(START), "label").unwrap();
        let (flow, step) = SaveFlow::start(raw, Some(base.clone()), None, false, Vec::new(), 2026, "T".into());
        assert!(matches!(step, SaveStep::ReadRecords));
        let (flow, step) = if fail_at == 0 {
            flow.step(SaveEvent::Failed("unreadable".into()))
        } else {
            let (flow, step) = flow.step(SaveEvent::Done);
            assert!(matches!(step, SaveStep::WriteCheckpoint));
            flow.step(SaveEvent::Failed("disk full".into()))
        };
        let _ = flow;
        let result = finished(step);
        assert!(!result.saved && !result.recovered && result.conflicts.is_empty());
        assert_eq!(result.base.as_deref(), Some(base.as_str()));
        let cause = result.cause.unwrap();
        if fail_at == 0 {
            assert_eq!(cause, "Recovery could not be read: unreadable.");
        } else {
            assert_eq!(cause, "Recovery could not be written: disk full.");
        }
    }
}

#[test]
fn the_restore_plan_takes_the_latest_unsettled_record_of_each_date() {
    let d = |day: u32| CalendarDate::from_ymd(2026, 9, day).unwrap();
    let tokens: Vec<String> = ["c", "a", "d", "b", "e"].iter().map(|t| t.to_string()).collect();
    let dates = vec![d(12), d(12), d(13), d(12), d(14)];
    let settled = vec![false, false, false, true, true];
    let (order, picks) = the_page::recovery::restore_plan(&tokens, &dates, &settled);
    assert_eq!(order, vec![1, 3, 0, 2, 4]);
    let chosen: Vec<usize> = picks.iter().map(|&p| order[p]).collect();
    assert_eq!(chosen, vec![0, 2]);
}
