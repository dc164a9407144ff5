use sha2::Digest;
use the_page::calendar::{CalendarDate, Timestamp, journal_day};
use the_page::copying::{copy_relative, rewrite_references};
use the_page::markdown::{image_paths, image_references};
use the_page::recovery_names::{asset_file_name, checkpoint_file_name};
use the_page::sessions::{SessionError, WritingSession, parse_sessions, render_sessions};

fn day() -> CalendarDate {
    CalendarDate::from_ymd(2026, 9, 12).unwrap()
}

fn chars(s: &str) -> Vec<char> {
    s.chars().collect()
}

#[test]
fn sessions_render_and_parse_back() {
    let sessions = vec![
        WritingSession { start: "2026-09-12T08:13:00+01:00".into(), previous_end: None, content: "One\n\n## not a session".into() },
        WritingSession {
            start: "2026-09-13T00:05:00+01:00".into(),
            previous_end: Some("2026-09-12T08:20:00+01:00".into()),
            content: "Two".into(),
        },
    ];
    let body: String = render_sessions(&sessions, &day()).unwrap().into_iter().collect();
    assert_eq!(
        body,
        "## 08:13\n<!-- session: 2026-09-12T08:13:00+01:00 -->\n\nOne\n\n## not a session\n\n## 2026-09-13 00:05\n<!-- session: 2026-09-13T00:05:00+01:00; previous-end: 2026-09-12T08:20:00+01:00 -->\n\nTwo"
    );
    assert_eq!(parse_sessions(&chars(&body), &day()).unwrap(), sessions);
    assert_eq!(parse_sessions(&[], &day()).unwrap(), Vec::<WritingSession>::new());
}

#[test]
fn each_session_error_has_its_message() {
    let parse = |body: &str| parse_sessions(&chars(body), &day()).err().unwrap();
    assert_eq!(parse("## 08:13\n<!-- session: 2026-09-12T08:13:00+01:00 -->"), SessionError::MissingBoundary);
    assert_eq!(parse("## 08:13\n\ntext"), SessionError::MissingTimestamp);
    assert_eq!(parse("## 08:13\n<!-- start -->\n\ntext"), SessionError::MalformedComment);
    assert_eq!(parse("## 08:13\n<!-- session: eight -->\n\ntext"), SessionError::MalformedTimestamp);
    assert_eq!(parse("## 09:13\n<!-- session: 2026-09-12T08:13:00+01:00 -->\n\ntext"), SessionError::HeadingMismatch);
    assert_eq!(
        parse("## 08:13\n<!-- session: 2026-09-12T08:13:00+01:00; previous-end: 2026-09-12T08:00:00+01:00 -->\n\ntext"),
        SessionError::InvalidBoundary
    );
    assert_eq!(
        parse("## 08:13\n<!-- session: 2026-09-12T08:13:00+01:00 -->\n\na\n\n## 09:00\n<!-- session: 2026-09-12T09:00:00+01:00; previous-end: soon -->\n\nb"),
        SessionError::InvalidPreviousEnd
    );
    assert_eq!(SessionError::MissingBoundary.message(), "Missing session boundary.");
    assert_eq!(SessionError::MissingTimestamp.message(), "Missing session timestamp.");
    assert_eq!(SessionError::MalformedComment.message(), "Malformed session comment.");
    assert_eq!(SessionError::MalformedTimestamp.message(), "Malformed session timestamp.");
    assert_eq!(SessionError::HeadingMismatch.message(), "Session time and timestamp disagree.");
    assert_eq!(SessionError::InvalidBoundary.message(), "Invalid session boundary.");
    assert_eq!(SessionError::InvalidPreviousEnd.message(), "Invalid preceding end-input time.");
}

#[test]
fn dates_read_and_write_as_chrono_does() {
    assert_eq!(day().to_string(), "2026-09-12");
    assert_eq!(day().year_string(), "2026");
    assert!(CalendarDate::from_ymd(2026, 2, 30).is_none());
    assert!(CalendarDate::from_ymd(2024, 2, 29).is_some());
    assert!(CalendarDate::from_ymd(2100, 2, 29).is_none());
    let first = CalendarDate::from_ymd(2026, 1, 1).unwrap();
    let t = Timestamp::new(first, 3, 59).unwrap();
    assert_eq!(journal_day(&t).to_string(), "2025-12-31");
    assert!(Timestamp::new(first, 24, 0).is_none());
    assert!(Timestamp::new(first, 23, 60).is_none());
}

#[test]
fn only_rendered_local_images_are_photographs() {
    let text = "![a](2026-09-12/a.png) ![remote](https://example.com/b.png) ![up](../c.png) ![abs](/d.png)\n\n`![code](e.png)`\n\n[link](f.png) ![spaced](g h.png) ![x](2026-09-12/..)";
    assert_eq!(image_paths(text), vec!["2026-09-12/a.png".to_string()]);
    let refs = image_references("Hi ![a](x/1.png) and ![b](y/2.png)");
    assert_eq!(refs, vec![(8, 15, "x/1.png".to_string()), (26, 33, "y/2.png".to_string())]);
    let refs = image_references("é ![a](p.png)");
    assert_eq!(refs, vec![(7, 12, "p.png".to_string())]);
}

#[test]
fn copies_point_at_their_new_places() {
    let relative = copy_relative("photographs-X", 3, "png");
    assert_eq!(relative, "photographs-X/3.png");
    let text = "![a](p.png) then ![b](q.png) and ![c](p.png) and [d](p.png)";
    let paths = vec!["p.png".to_string(), "q.png".to_string()];
    let relatives = vec!["P/0.png".to_string(), "P/1.png".to_string()];
    assert_eq!(
        rewrite_references(text, &paths, &relatives).unwrap(),
        "![a](P/0.png) then ![b](P/1.png) and ![c](P/0.png) and [d](p.png)"
    );
    assert_eq!(rewrite_references(text, &[], &[]).unwrap(), text);
}

#[test]
fn recovery_files_are_named_by_a_digest_of_their_key() {
    let a = checkpoint_file_name("/Users/me/Journal");
    let b = checkpoint_file_name("/Users/me/Other");
    assert_eq!(a.len(), 64 + ".json".len());
    assert!(a.ends_with(".json"));
    assert!(a[..64].chars().all(|c| c.is_ascii_hexdigit() && !c.is_ascii_uppercase()));
    assert_ne!(a, b);
    assert_eq!(a, checkpoint_file_name("/Users/me/Journal"));
    let key = serde_json::to_vec("/Users/me/Journal").unwrap();
    let expected: String = sha2::Sha256::digest(&key).iter().map(|b| format!("{b:02x}")).collect();
    assert_eq!(a, format!("{expected}.json"));
    let photo = asset_file_name("/Users/me/Journal", &day(), "2026-09-12/a.png");
    let key = serde_json::to_vec(&("/Users/me/Journal", "2026-09-12", "2026-09-12/a.png")).unwrap();
    let expected: String = sha2::Sha256::digest(&key).iter().map(|b| format!("{b:02x}")).collect();
    assert_eq!(photo, format!("{expected}.json"));
}

#[test]
fn headings_name_the_weekday_of_the_proleptic_calendar() {
    let cases = [
        ((2026, 9, 12), "# Saturday, 12 September 2026"),
        ((2000, 2, 29), "# Tuesday, 29 February 2000"),
        ((1900, 3, 1), "# Thursday, 1 March 1900"),
        ((1, 1, 1), "# Monday, 1 January 0001"),
        ((0, 1, 1), "# Saturday, 1 January 0000"),
        ((-1, 12, 31), "# Friday, 31 December -0001"),
        ((10000, 1, 1), "# Saturday, 1 January +10000"),
    ];
    for ((y, m, d), expected) in cases {
        let date = CalendarDate::from_ymd(y, m, d).unwrap();
        let heading: String = the_page::dates_text::heading(&date, &[]).into_iter().collect();
        assert_eq!(heading, expected);
    }
}

fn digest_name(key: &[u8]) -> String {
    let hex: String = sha2::Sha256::digest(key).iter().map(|b| format!("{b:02x}")).collect();
    format!("{hex}.json")
}

#[test]
fn recovery_keys_escape_their_texts_as_json_strings() {
    let root = "/a\"b\\c\u{1}\u{7f}é🌿\t";
    let key = "\"/a\\\"b\\\\c\\u0001\u{7f}é🌿\\t\"";
    assert_eq!(checkpoint_file_name(root), digest_name(key.as_bytes()));
    let date = CalendarDate::from_ymd(-5, 3, 7).unwrap();
    let key = format!("[{key},\"-0005-03-07\",\"p\\n\\r\\u0008\\u000c.png\"]");
    let key = key.replace("\\u0008", "\\b").replace("\\u000c", "\\f");
    assert_eq!(asset_file_name(root, &date, "p\n\r\u{8}\u{c}.png"), digest_name(key.as_bytes()));
    let far = CalendarDate::from_ymd(12345, 1, 2).unwrap();
    assert_eq!(asset_file_name("/", &far, "x"), digest_name(b"[\"/\",\"+12345-01-02\",\"x\"]"));
}
