//! The file names of recovery checkpoints and cached photographs: the SHA-256 digest of
//! a JSON key, written in lower-case hexadecimal.
use vstd::prelude::*;
use sha2::Digest;
use crate::calendar::CalendarDate;
use crate::text::{string_of};

verus! {

/// The SHA-256 digest of data.
pub uninterp spec fn sha256_digest(data: Seq<u8>) -> Seq<u8>;

/// The UTF-8 encoding of a character.
pub open spec fn utf8(c: char) -> Seq<u8> {
    let v = c as int;
    if v < 0x80 {
        seq![v as u8]
    } else if v < 0x800 {
        seq![(0xC0 + v / 64) as u8, (0x80 + v % 64) as u8]
    } else if v < 0x10000 {
        seq![(0xE0 + v / 4096) as u8, (0x80 + (v / 64) % 64) as u8, (0x80 + v % 64) as u8]
    } else {
        seq![(0xF0 + v / 262144) as u8, (0x80 + (v / 4096) % 64) as u8, (0x80 + (v / 64) % 64) as u8,
            (0x80 + v % 64) as u8]
    }
}

/// A lower-case hexadecimal digit of a value below sixteen, as an ASCII byte.
pub open spec fn hex_byte(v: int) -> u8 {
    if v < 10 { (48 + v) as u8 } else { (87 + v) as u8 }
}

/// How a character is written inside a JSON string: a quote, a backslash and the ASCII
/// control characters are escaped (`\b`, `\t`, `\n`, `\f`, `\r`, or `\u00` and two
/// lower-case hexadecimal digits); every other character is its UTF-8 encoding.
pub open spec fn json_char(c: char) -> Seq<u8> {
    let v = c as int;
    if c == '"' {
        seq![92u8, 34u8]
    } else if c == '\\' {
        seq![92u8, 92u8]
    } else if v == 8 {
        seq![92u8, 98u8]
    } else if v == 9 {
        seq![92u8, 116u8]
    } else if v == 10 {
        seq![92u8, 110u8]
    } else if v == 12 {
        seq![92u8, 102u8]
    } else if v == 13 {
        seq![92u8, 114u8]
    } else if v < 32 {
        seq![92u8, 117u8, 48u8, 48u8, hex_byte(v / 16), hex_byte(v % 16)]
    } else {
        utf8(c)
    }
}

/// The characters of a text as written inside a JSON string.
pub open spec fn json_chars(s: Seq<char>) -> Seq<u8>
    decreases s.len(),
{
    if s.len() == 0 {
        Seq::empty()
    } else {
        json_chars(s.drop_last()) + json_char(s.last())
    }
}

/// A text as a JSON string, in quotes.
pub open spec fn json_string(s: Seq<char>) -> Seq<u8> {
    seq![34u8] + json_chars(s) + seq![34u8]
}

/// The JSON key of a cached photograph: the array of the folder path, the date written
/// `YYYY-MM-DD` and the photograph path, with no spaces.
pub open spec fn json_asset_key(root: Seq<char>, date: (int, int, int), path: Seq<char>) -> Seq<u8> {
    seq![91u8] + json_string(root) + seq![44u8] + json_string(crate::dates_text::date_text(date)) + seq![44u8]
        + json_string(path) + seq![93u8]
}

/// The SHA-256 digest of data (`sha2::Sha256::digest`).
/// Trusted: the result is named by `sha256_digest`.
#[verifier::external_body]
fn sha256(data: &[u8]) -> (r: Vec<u8>)
    ensures
        r@ == sha256_digest(data@),
{
    sha2::Sha256::digest(data).to_vec()
}

/// The JSON key of a journal folder (`serde_json::to_vec` of the path text).
/// Trusted: serde_json writes a string in quotes, escaping as `json_char` says, and
/// writing a string cannot fail.
#[verifier::external_body]
fn root_key(root: &str) -> (r: Vec<u8>)
    ensures
        r@ == json_string(root@),
{
    serde_json::to_vec(root).unwrap_or_default()
}

/// The JSON key of a cached photograph (`serde_json::to_vec` of the folder path, the date
/// and the photograph path). Trusted: serde_json writes a tuple as an array with `,`
/// between its elements and no spaces; chrono writes a date as a string, `YYYY-MM-DD`
/// with a sign and at least four digits for a year outside 0 to 9999 (`date_text`); a
/// calendar date is one that chrono can hold, and writing cannot fail.
#[verifier::external_body]
fn asset_key(root: &str, date: &CalendarDate, path: &str) -> (r: Vec<u8>)
    ensures
        r@ == json_asset_key(root@, date@, path@),
{
    let day = chrono::NaiveDate::from_ymd_opt(date.year(), date.month(), date.day());
    serde_json::to_vec(&(root, day, path)).unwrap_or_default()
}

/// The lower-case hexadecimal digit of a value below sixteen.
pub open spec fn hex_digit(v: int) -> char {
    if v < 10 { (48 + v) as char } else { (97 + v - 10) as char }
}

/// Data written as two lower-case hexadecimal digits per byte.
pub open spec fn lower_hex(data: Seq<u8>) -> Seq<char>
    decreases data.len(),
{
    if data.len() == 0 {
        Seq::empty()
    } else {
        lower_hex(data.drop_last()) + seq![hex_digit(data.last() as int / 16), hex_digit(data.last() as int % 16)]
    }
}

fn hex_char(v: u8) -> (c: char)
    requires
        v < 16,
    ensures
        c == hex_digit(v as int),
{
    if v < 10 { (48u8 + v) as char } else { (97u8 + v - 10) as char }
}

/// The file name for a key: its digest in hexadecimal, with the `.json` extension.
pub open spec fn digest_file_name(key: Seq<u8>) -> Seq<char> {
    lower_hex(sha256_digest(key)) + seq!['.', 'j', 's', 'o', 'n']
}

fn digest_name(key: &[u8]) -> (r: String)
    ensures
        r@ == digest_file_name(key@),
{
    let digest = sha256(key);
    let mut out: Vec<char> = Vec::new();
    let mut i: usize = 0;
    while i < digest.len()
        invariant
            i <= digest.len(),
            out@ == lower_hex(digest@.take(i as int)),
        decreases digest.len() - i,
    {
        let b = digest[i];
        out.push(hex_char(b / 16));
        out.push(hex_char(b % 16));
        assert(digest@.take(i + 1).drop_last() =~= digest@.take(i as int));
        i += 1;
    }
    assert(digest@.take(digest@.len() as int) =~= digest@);
    out.push('.');
    out.push('j');
    out.push('s');
    out.push('o');
    out.push('n');
    assert(out@ =~= digest_file_name(key@));
    string_of(out.as_slice())
}

/// The name of the recovery checkpoint of the journal in the folder `root`.
pub fn checkpoint_file_name(root: &str) -> (r: String)
    ensures
        r@ == digest_file_name(json_string(root@)),
{
    let key = root_key(root);
    digest_name(key.as_slice())
}

/// The name of the cached copy of the photograph `path` of the page for `date` in the
/// journal folder `root`.
pub fn asset_file_name(root: &str, date: &CalendarDate, path: &str) -> (r: String)
    ensures
        r@ == digest_file_name(json_asset_key(root@, date@, path@)),
{
    let key = asset_key(root, date, path);
    digest_name(key.as_slice())
}

} // verus!
