use base64::Engine;
use std::io::Cursor;
use the_page::calendar::CalendarDate;
use the_page::photographs::{data_url, photograph_path_parts, stored_outcome, stored_path};
use the_page::press::validate;
use the_page::recovery::{import_outcome, import_path};

fn day() -> CalendarDate {
    CalendarDate::from_ymd(2026, 9, 12).unwrap()
}

fn png() -> Vec<u8> {
    let mut bytes = Cursor::new(Vec::new());
    image::DynamicImage::new_rgb8(3, 2).write_to(&mut bytes, image::ImageFormat::Png).unwrap();
    bytes.into_inner()
}

fn jpeg() -> Vec<u8> {
    let mut bytes = Cursor::new(Vec::new());
    image::DynamicImage::new_rgb8(3, 2).write_to(&mut bytes, image::ImageFormat::Jpeg).unwrap();
    bytes.into_inner()
}

#[test]
fn imports_keep_original_bytes_and_never_replace_other_images() {
    let bytes = png();
    let a = import_path(&day(), &bytes).unwrap();
    let b = import_path(&day(), &bytes).unwrap();
    assert_ne!(a, b);
    assert!(a.starts_with("2026-09-12/") && a.ends_with(".png"));
    assert_eq!(a.len(), "2026-09-12/".len() + 26 + ".png".len());
    assert!(data_url(&bytes).unwrap().starts_with("data:image/png;base64,"));
    assert!(the_page::photographs::format(b"not an image").is_err());
    assert!(the_page::photographs::format(&bytes[..20]).is_err());
    assert_eq!(import_path(&day(), b"not an image").err().unwrap(), "Unsupported photograph. Use a PNG or JPEG photograph.");
}

#[test]
fn remote_traversal_symlinks_and_failed_writes_are_rejected() {
    for path in ["https://example.com/a.png", "../outside.png", "/tmp/a.png", "2026-09-12/../../a.png"] {
        assert!(photograph_path_parts(path).is_err(), "{path}");
    }
    assert_eq!(photograph_path_parts("escape/a.png").unwrap(), vec!["escape".to_string(), "a.png".to_string()]);
    assert_eq!(photograph_path_parts("link.png").unwrap(), vec!["link.png".to_string()]);
}

#[test]
fn only_valid_card_pngs_reach_the_chosen_destination_and_cancel_writes_nothing() {
    let mut card = Cursor::new(Vec::new());
    image::DynamicImage::new_rgba8(1200, 2000).write_to(&mut card, image::ImageFormat::Png).unwrap();
    assert!(validate(card.get_ref()).is_ok());
    assert_eq!(validate(b"not a PNG").err().unwrap(), "Expected a pressed-card PNG.");
    let mut small = Cursor::new(Vec::new());
    image::DynamicImage::new_rgba8(12, 20).write_to(&mut small, image::ImageFormat::Png).unwrap();
    assert_eq!(validate(small.get_ref()).err().unwrap(), "Pressed cards must be 1200 × 2000 pixels.");
    assert_eq!(validate(&jpeg()).err().unwrap(), "Expected a pressed-card PNG.");
}

#[test]
fn photograph_formats_and_data_urls() {
    assert_eq!(the_page::photographs::format(&png()).unwrap(), ("png", "image/png"));
    assert_eq!(the_page::photographs::format(&jpeg()).unwrap(), ("jpg", "image/jpeg"));
    assert_eq!(the_page::photographs::format(b"GIF89a").err().unwrap(), "Use a PNG or JPEG photograph.");
    let truncated = png();
    assert!(the_page::photographs::format(&truncated[..40]).err().unwrap().starts_with("Cannot decode this photograph: "));
    let large = vec![0u8; 32 * 1024 * 1024 + 1];
    assert_eq!(the_page::photographs::format(&large).err().unwrap(), "Photographs must be at most 32 MB.");
    let bytes = jpeg();
    let expected = format!("data:image/jpeg;base64,{}", base64::engine::general_purpose::STANDARD.encode(&bytes));
    assert_eq!(data_url(&bytes).unwrap(), expected);
    assert_eq!(data_url(b"plain").err().unwrap(), "Use a PNG or JPEG photograph.");
}

#[test]
fn photograph_paths_split_into_their_folders() {
    assert_eq!(photograph_path_parts("2026-09-12/a.png").unwrap(), vec!["2026-09-12".to_string(), "a.png".to_string()]);
    assert_eq!(photograph_path_parts("2026-09-12//./a.png").unwrap(), vec!["2026-09-12".to_string(), "a.png".to_string()]);
    assert_eq!(photograph_path_parts("a:b.png").err().unwrap(), "Photographs must use a local path inside the journal.");
    assert_eq!(photograph_path_parts("a\\b.png").err().unwrap(), "Photographs must use a local path inside the journal.");
    assert_eq!(photograph_path_parts("./a.png").err().unwrap(), "Photograph paths cannot escape the journal.");
    assert_eq!(photograph_path_parts("").err().unwrap(), "Missing photograph path.");
    assert_eq!(photograph_path_parts("a/..").err().unwrap(), "Photograph paths cannot escape the journal.");
}

#[test]
fn stored_photographs_are_named_by_day_identifier_and_extension() {
    assert_eq!(stored_path(&day(), "01J8ZQ7Y4V9W6M3K2N1P0R5S7T", "jpg"), "2026-09-12/01J8ZQ7Y4V9W6M3K2N1P0R5S7T.jpg");
    assert_eq!(import_outcome("p".into(), Ok(()), Err("j".into())).unwrap(), "p");
    assert_eq!(import_outcome("p".into(), Err("r".into()), Ok(())).unwrap(), "p");
    assert_eq!(
        import_outcome("p".into(), Err("no space".into()), Err("read-only".into())).err().unwrap(),
        "Journal: read-only. Recovery: no space. The image remains in memory."
    );
}

#[test]
fn a_damaged_card_is_refused_with_the_decoder_error() {
    let mut card = Cursor::new(Vec::new());
    image::DynamicImage::new_rgba8(1200, 2000).write_to(&mut card, image::ImageFormat::Png).unwrap();
    let bytes = card.into_inner();
    assert!(validate(&bytes[..60]).err().unwrap().starts_with("Cannot read the pressed image: "));
}

#[test]
fn a_taken_photograph_name_is_accepted_only_for_the_same_data() {
    assert!(stored_outcome(None, b"abc").is_ok());
    assert!(stored_outcome(Some(b"abc"), b"abc").is_ok());
    assert_eq!(stored_outcome(Some(b"abd"), b"abc").unwrap_err(), "Another photograph already uses this name.");
    assert_eq!(stored_outcome(Some(b"ab"), b"abc").unwrap_err(), "Another photograph already uses this name.");
}
