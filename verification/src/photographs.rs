//! Photographs: which bytes are accepted, how they are shown, and which paths may name them.
use vstd::prelude::*;
use base64::Engine;
use crate::calendar::CalendarDate;
use crate::dates_text::date_text;
use crate::text::{chars_of, string_of, push_str, push_all};

verus! {

/// The largest photograph accepted, in bytes.
pub const MAX_BYTES: usize = 33554432;

/// The format that image data announces by its first bytes.
#[derive(Clone, Copy, Debug, PartialEq, Eq, Structural)]
pub enum GuessedFormat {
    Png,
    Jpeg,
    Other,
    Unknown,
}

/// What `image::guess_format` recognises in image data.
pub uninterp spec fn guessed_format(bytes: Seq<u8>) -> GuessedFormat;

/// What decoding image data as PNG (`png` true) or JPEG gives under the given limits on
/// width, height and allocation: the image's width and height, or the decoder's error text.
pub uninterp spec fn decoded_dimensions(bytes: Seq<u8>, png: bool, max_width: int, max_height: int, max_alloc: int) -> Result<(int, int), Seq<char>>;

/// The format of image data (`image::guess_format`), as PNG, JPEG, another format, or none.
/// Trusted: the result is named by `guessed_format`.
#[verifier::external_body]
pub(crate) fn guess_format(bytes: &[u8]) -> (r: GuessedFormat)
    ensures
        r == guessed_format(bytes@),
{
    match image::guess_format(bytes) {
        Ok(image::ImageFormat::Png) => GuessedFormat::Png,
        Ok(image::ImageFormat::Jpeg) => GuessedFormat::Jpeg,
        Ok(_) => GuessedFormat::Other,
        Err(_) => GuessedFormat::Unknown,
    }
}

/// Decodes image data as PNG or JPEG under limits (`image::ImageReader::decode`) and gives
/// the image's width and height. Trusted: the result is named by `decoded_dimensions`.
#[verifier::external_body]
pub(crate) fn decode_dimensions(bytes: &[u8], png: bool, max_width: u32, max_height: u32, max_alloc: u64) -> (r: Result<(u32, u32), String>)
    ensures
        match r {
            Ok((w, h)) => decoded_dimensions(bytes@, png, max_width as int, max_height as int, max_alloc as int)
                == Ok::<(int, int), Seq<char>>((w as int, h as int)),
            Err(e) => decoded_dimensions(bytes@, png, max_width as int, max_height as int, max_alloc as int)
                == Err::<(int, int), Seq<char>>(e@),
        },
{
    let format = if png { image::ImageFormat::Png } else { image::ImageFormat::Jpeg };
    let mut reader = image::ImageReader::with_format(std::io::Cursor::new(bytes), format);
    let mut limits = image::Limits::default();
    limits.max_image_width = Some(max_width);
    limits.max_image_height = Some(max_height);
    limits.max_alloc = Some(max_alloc);
    reader.limits(limits);
    reader.decode().map(|image| (image.width(), image.height())).map_err(|e| e.to_string())
}

/// The character that stands for a six-bit value in standard base 64.
pub open spec fn base64_char(v: int) -> char {
    if v < 26 {
        (65 + v) as char
    } else if v < 52 {
        (97 + v - 26) as char
    } else if v < 62 {
        (48 + v - 52) as char
    } else if v == 62 {
        '+'
    } else {
        '/'
    }
}

/// Standard base 64 with padding: each three bytes become four characters, and a final
/// one or two bytes become four characters ending in `=` padding.
pub open spec fn base64_text(b: Seq<u8>) -> Seq<char>
    decreases b.len(),
{
    if b.len() == 0 {
        Seq::empty()
    } else {
        let b0 = b[0] as int;
        let b1 = if b.len() > 1 { b[1] as int } else { 0 };
        let b2 = if b.len() > 2 { b[2] as int } else { 0 };
        if b.len() == 1 {
            seq![base64_char(b0 / 4), base64_char((b0 % 4) * 16), '=', '=']
        } else if b.len() == 2 {
            seq![base64_char(b0 / 4), base64_char((b0 % 4) * 16 + b1 / 16), base64_char((b1 % 16) * 4), '=']
        } else {
            seq![base64_char(b0 / 4), base64_char((b0 % 4) * 16 + b1 / 16),
                base64_char((b1 % 16) * 4 + b2 / 64), base64_char(b2 % 64)] + base64_text(b.skip(3))
        }
    }
}

/// Standard base 64 of data (`base64::engine::general_purpose::STANDARD.encode`).
/// Trusted: the crate's standard engine writes RFC 4648 base 64 with padding, as stated.
#[verifier::external_body]
pub(crate) fn encode_base64(bytes: &[u8]) -> (r: String)
    requires
        bytes@.len() <= MAX_BYTES,
    ensures
        r@ == base64_text(bytes@),
{
    base64::engine::general_purpose::STANDARD.encode(bytes)
}

} // verus!

verus! {

/// The file extension and media type of accepted photograph data, or why it is refused.
pub open spec fn photograph_format(bytes: Seq<u8>) -> Result<(Seq<char>, Seq<char>), Seq<char>> {
    if bytes.len() > MAX_BYTES {
        Err("Photographs must be at most 32 MB."@)
    } else {
        match guessed_format(bytes) {
            GuessedFormat::Png => match decoded_dimensions(bytes, true, 16384, 16384, 268435456) {
                Err(e) => Err("Cannot decode this photograph: "@ + e),
                Ok(_) => Ok(("png"@, "image/png"@)),
            },
            GuessedFormat::Jpeg => match decoded_dimensions(bytes, false, 16384, 16384, 268435456) {
                Err(e) => Err("Cannot decode this photograph: "@ + e),
                Ok(_) => Ok(("jpg"@, "image/jpeg"@)),
            },
            _ => Err("Use a PNG or JPEG photograph."@),
        }
    }
}

/// The file extension and media type of photograph data: PNG or JPEG data of at most
/// 32 MB that decodes within 16384 pixels a side and 256 MB of decoder allocation.
pub fn format(bytes: &[u8]) -> (r: Result<(&'static str, &'static str), String>)
    ensures
        match r {
            Ok((ext, mime)) => photograph_format(bytes@) == Ok::<(Seq<char>, Seq<char>), Seq<char>>((ext@, mime@)),
            Err(e) => photograph_format(bytes@) == Err::<(Seq<char>, Seq<char>), Seq<char>>(e@),
        },
{
    if bytes.len() > MAX_BYTES {
        return Err(String::from_str("Photographs must be at most 32 MB."));
    }
    let kind = guess_format(bytes);
    let png = match kind {
        GuessedFormat::Png => true,
        GuessedFormat::Jpeg => false,
        _ => return Err(String::from_str("Use a PNG or JPEG photograph.")),
    };
    match decode_dimensions(bytes, png, 16384, 16384, 268435456) {
        Err(e) => {
            let mut m = String::from_str("Cannot decode this photograph: ");
            m.append(e.as_str());
            Err(m)
        },
        Ok(_) => if png {
            Ok(("png", "image/png"))
        } else {
            Ok(("jpg", "image/jpeg"))
        },
    }
}

/// How the editor shows photograph data: a `data:` URL with its media type and base 64.
pub open spec fn photograph_data_url(bytes: Seq<u8>) -> Result<Seq<char>, Seq<char>> {
    match photograph_format(bytes) {
        Err(e) => Err(e),
        Ok((_, mime)) => Ok("data:"@ + mime + ";base64,"@ + base64_text(bytes)),
    }
}

/// The `data:` URL of accepted photograph data, or why the data is refused.
pub fn data_url(bytes: &[u8]) -> (r: Result<String, String>)
    ensures
        match r {
            Ok(u) => photograph_data_url(bytes@) == Ok::<Seq<char>, Seq<char>>(u@),
            Err(e) => photograph_data_url(bytes@) == Err::<Seq<char>, Seq<char>>(e@),
        },
{
    let (_, mime) = format(bytes)?;
    let mut out = String::from_str("data:");
    out.append(mime);
    out.append(";base64,");
    let encoded = encode_base64(bytes);
    out.append(encoded.as_str());
    Ok(out)
}

/// The slash-separated segments of `p` from position `start`, as path components:
/// empty segments and `.` segments vanish, except that a leading `.` and any `..`
/// leave the journal.
pub open spec fn parts_from(p: Seq<char>, start: int, first: bool) -> Option<Seq<Seq<char>>>
    decreases p.len() + 1 - start,
{
    if start < 0 || start > p.len() {
        Some(Seq::empty())
    } else {
        let end = match crate::text::find_from(p, seq!['/'], start) {
            Some(i) => i,
            None => p.len() as int,
        };
        let seg = p.subrange(start, end);
        if seg == seq!['.', '.'] {
            None
        } else if seg == seq!['.'] && first {
            None
        } else {
            let rest = if end < p.len() {
                proof { crate::text::lemma_find_from_facts(p, seq!['/'], start); }
                parts_from(p, end + 1, false)
            } else {
                Some(Seq::empty())
            };
            match rest {
                None => None,
                Some(r) => if seg.len() == 0 || seg == seq!['.'] {
                    Some(r)
                } else {
                    Some(seq![seg] + r)
                },
            }
        }
    }
}

/// A character that may not appear in a photograph path.
pub open spec fn forbidden_path_char(c: char) -> bool {
    c == ':' || c == '\\' || c == '\0'
}

/// The components of a photograph path inside the day's year folder, or why the path is
/// refused.
pub open spec fn photograph_parts(relative: Seq<char>) -> Result<Seq<Seq<char>>, Seq<char>> {
    if (exists|i: int| 0 <= i < relative.len() && forbidden_path_char(#[trigger] relative[i]))
        || (relative.len() > 0 && relative[0] == '/') {
        Err("Photographs must use a local path inside the journal."@)
    } else {
        match parts_from(relative, 0, true) {
            None => Err("Photograph paths cannot escape the journal."@),
            Some(parts) => if parts.len() == 0 {
                Err("Missing photograph path."@)
            } else {
                Ok(parts)
            },
        }
    }
}

} // verus!

verus! {

pub open spec fn strings_view(v: Seq<String>) -> Seq<Seq<char>> {
    v.map_values(|s: String| s@)
}

pub open spec fn after_parts(prefix: Seq<Seq<char>>, r: Option<Seq<Seq<char>>>) -> Option<Seq<Seq<char>>> {
    match r {
        None => None,
        Some(x) => Some(prefix + x),
    }
}

/// The components of a photograph path inside the day's year folder, or why the path is
/// refused: it must be relative, without `:`, `\` or NUL, and may not leave the folder.
pub fn photograph_path_parts(relative: &str) -> (r: Result<Vec<String>, String>)
    ensures
        match r {
            Ok(v) => photograph_parts(relative@) == Ok::<Seq<Seq<char>>, Seq<char>>(strings_view(v@)),
            Err(e) => photograph_parts(relative@) == Err::<Seq<Seq<char>>, Seq<char>>(e@),
        },
{
    let p = chars_of(relative);
    assert(p@.len() == p.len());
    let mut k: usize = 0;
    while k < p.len()
        invariant
            k <= p.len(),
            p@ == relative@,
            p@.len() == p.len(),
            forall|j: int| 0 <= j < k ==> !forbidden_path_char(#[trigger] p@[j]),
        decreases p.len() - k,
    {
        if p[k] == ':' || p[k] == '\\' || p[k] == '\0' {
            assert(forbidden_path_char(p@[k as int]));
            return Err(String::from_str("Photographs must use a local path inside the journal."));
        }
        k += 1;
    }
    if p.len() > 0 && p[0] == '/' {
        return Err(String::from_str("Photographs must use a local path inside the journal."));
    }
    let slash: Vec<char> = vec!['/'];
    let dots: Vec<char> = vec!['.', '.'];
    let dot: Vec<char> = vec!['.'];
    assert(slash@ == seq!['/']);
    assert(dots@ == seq!['.', '.']);
    assert(dot@ == seq!['.']);
    let mut parts: Vec<String> = Vec::new();
    let mut start: usize = 0;
    let mut first = true;
    loop
        invariant_except_break
            start <= p.len(),
            start == 0 ==> first,
            parts_from(p@, 0, true) == after_parts(strings_view(parts@), parts_from(p@, start as int, first)),
        invariant
            p@ == relative@,
            p@.len() == p.len(),
            slash@ == seq!['/'],
            dots@ == seq!['.', '.'],
            dot@ == seq!['.'],
            forall|j: int| 0 <= j < p.len() ==> !forbidden_path_char(#[trigger] p@[j]),
            !(p@.len() > 0 && p@[0] == '/'),
        ensures
            parts_from(p@, 0, true) == Some(strings_view(parts@)),
        decreases p.len() - start,
    {
        proof { crate::text::lemma_find_from_facts(p@, seq!['/'], start as int); }
        let end = match crate::text::find(p.as_slice(), slash.as_slice(), start) {
            Some(i) => i,
            None => p.len(),
        };
        let seg = &p[start..end];
        if crate::text::same_chars(seg, dots.as_slice()) {
            return Err(String::from_str("Photograph paths cannot escape the journal."));
        }
        let is_dot = crate::text::same_chars(seg, dot.as_slice());
        if is_dot && first {
            return Err(String::from_str("Photograph paths cannot escape the journal."));
        }
        let ghost before = parts@;
        if !(seg.len() == 0 || is_dot) {
            parts.push(string_of(seg));
            assert(strings_view(parts@) =~= strings_view(before) + seq![seg@]);
        }
        if end < p.len() {
            proof {
                match parts_from(p@, end + 1, false) {
                    None => {},
                    Some(x) => {
                        assert(strings_view(before) + (seq![seg@] + x) =~= strings_view(before) + seq![seg@] + x);
                    },
                }
            }
            start = end + 1;
            first = false;
        } else {
            proof {
                assert(strings_view(before) + seq![seg@] + Seq::<Seq<char>>::empty() =~= strings_view(before) + seq![seg@]);
                assert(strings_view(before) + Seq::<Seq<char>>::empty() =~= strings_view(before));
            }
            break;
        }
    }
    if parts.len() == 0 {
        return Err(String::from_str("Missing photograph path."));
    }
    Ok(parts)
}

/// Where a stored photograph is found inside the year folder: its day's folder and a
/// file named by its identifier and extension.
pub open spec fn stored_path_text(date: (int, int, int), id: Seq<char>, extension: Seq<char>) -> Seq<char> {
    date_text(date) + seq!['/'] + id + seq!['.'] + extension
}

/// The path, inside the year folder, of a photograph stored for `date` under the
/// identifier `id` with the given extension.
pub fn stored_path(date: &CalendarDate, id: &str, extension: &str) -> (r: String)
    ensures
        r@ == stored_path_text(date@, id@, extension@),
{
    let mut out: Vec<char> = Vec::new();
    crate::dates_text::push_date(&mut out, date);
    out.push('/');
    push_str(&mut out, id);
    out.push('.');
    push_str(&mut out, extension);
    assert(out@ =~= stored_path_text(date@, id@, extension@));
    string_of(out.as_slice())
}

} // verus!

verus! {

/// A path component that names an entry of its folder: not empty, not `.` or `..`, and
/// without a slash or a forbidden character.
pub open spec fn plain_name(s: Seq<char>) -> bool {
    &&& s.len() > 0
    &&& s != seq!['.']
    &&& s != seq!['.', '.']
    &&& forall|j: int| 0 <= j < s.len() ==> #[trigger] s[j] != '/' && !forbidden_path_char(s[j])
}

proof fn lemma_parts_from_plain(p: Seq<char>, start: int, first: bool)
    requires
        forall|i: int| 0 <= i < p.len() ==> !forbidden_path_char(#[trigger] p[i]),
    ensures
        parts_from(p, start, first) matches Some(r) ==> forall|k: int| 0 <= k < r.len() ==> plain_name(#[trigger] r[k]),
    decreases p.len() + 1 - start,
{
    if 0 <= start <= p.len() {
        crate::text::lemma_find_from_facts(p, seq!['/'], start);
        let end = match crate::text::find_from(p, seq!['/'], start) {
            Some(i) => i,
            None => p.len() as int,
        };
        if end < p.len() {
            lemma_parts_from_plain(p, end + 1, false);
        }
        let seg = p.subrange(start, end);
        assert forall|j: int| 0 <= j < seg.len() implies #[trigger] seg[j] != '/' && !forbidden_path_char(seg[j]) by {
            assert(seg[j] == p[start + j]);
            assert(!crate::text::occurs_at(p, seq!['/'], start + j));
            if p[start + j] == '/' {
                assert(p.subrange(start + j, start + j + 1) =~= seq!['/']);
            }
        }
        if let Some(r) = parts_from(p, start, first) {
            if seg.len() > 0 && seg != seq!['.'] && seg != seq!['.', '.'] {
                let rest = if end < p.len() { parts_from(p, end + 1, false) } else { Some(Seq::empty()) };
                assert(r == seq![seg] + rest.unwrap());
                assert forall|k: int| 0 <= k < r.len() implies plain_name(#[trigger] r[k]) by {
                    if k > 0 {
                        assert(r[k] == rest.unwrap()[k - 1]);
                    }
                }
            }
        }
    }
}

/// A photograph path that is accepted is a list of plain names: no component is empty,
/// `.` or `..`, or holds a slash, `:`, `\` or NUL, so opening the components one folder at
/// a time from the year folder stays inside it.
pub proof fn lemma_accepted_paths_stay_inside(relative: Seq<char>)
    ensures
        photograph_parts(relative) matches Ok(parts) ==> parts.len() > 0
            && forall|k: int| 0 <= k < parts.len() ==> plain_name(#[trigger] parts[k]),
{
    if photograph_parts(relative) is Ok {
        lemma_parts_from_plain(relative, 0, true);
    }
}

} // verus!

verus! {

/// A new place for photograph data inside the journal's year folder: its day's folder and
/// a file named by a fresh ULID with the data's extension; or why the data is refused.
pub fn fresh_path(date: &CalendarDate, bytes: &[u8]) -> (r: Result<String, String>)
    ensures
        match photograph_format(bytes@) {
            Err(e) => r matches Err(m) && m@ == e,
            Ok((ext, _)) => r matches Ok(p) && exists|id: Seq<char>| crate::ids::ulid_text(id)
                && p@ == stored_path_text(date@, id, ext),
        },
{
    let (ext, _) = format(bytes)?;
    let id = crate::ids::new_ulid();
    Ok(stored_path(date, id.as_str(), ext))
}

} // verus!

verus! {

/// How storing photograph data under a name ends, given what the attempt to create the
/// file found: a new file (`existing` is `None`), or a file already there with these
/// bytes. A photograph never replaces another: a taken name is accepted only when it
/// already holds exactly the same data.
pub fn stored_outcome(existing: Option<&[u8]>, bytes: &[u8]) -> (r: Result<(), String>)
    ensures
        r is Ok <==> (existing matches Some(e) ==> e@ == bytes@),
        r matches Err(m) ==> m@ == "Another photograph already uses this name."@,
{
    match existing {
        None => Ok(()),
        Some(e) => {
            if e.len() == bytes.len() {
                let mut i: usize = 0;
                while i < e.len()
                    invariant
                        i <= e.len(),
                        e@.len() == bytes@.len(),
                        existing == Some(e),
                        forall|k: int| 0 <= k < i ==> e@[k] == bytes@[k],
                    decreases e.len() - i,
                {
                    if e[i] != bytes[i] {
                        assert(e@ != bytes@) by {
                            if e@ == bytes@ {
                                assert(e@[i as int] == bytes@[i as int]);
                            }
                        }
                        return Err(String::from_str("Another photograph already uses this name."));
                    }
                    i += 1;
                }
                assert(e@ =~= bytes@);
                Ok(())
            } else {
                Err(String::from_str("Another photograph already uses this name."))
            }
        },
    }
}

} // verus!
