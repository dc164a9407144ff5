//! A daily journal kept as Markdown pages in a folder: how pages are read and written,
//! which files are pages, how photographs are referenced, checked and named, and how a
//! save keeps a recovery copy of the writing until the page itself is safely replaced.
pub mod text;
pub mod calendar;
pub mod dates_text;
pub mod ids;
pub mod sessions;
pub mod session_laws;
pub mod metadata;
pub mod journal;
pub mod page_laws;
pub mod storage;
pub mod storage_laws;
pub mod persisting;
pub mod markdown;
pub mod photographs;
pub mod press;
pub mod recovery;
pub mod recovery_names;
pub mod saving;
pub mod copying;
