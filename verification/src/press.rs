//! Pressed cards: the PNG images of a passage that the editor exports.
use vstd::prelude::*;
use crate::photographs::{GuessedFormat, guessed_format, decoded_dimensions, guess_format, decode_dimensions};

verus! {

/// The largest pressed card accepted, in bytes.
pub const MAX_CARD_BYTES: usize = 16777216;

/// Whether card data is a pressed card, or why it is not: a PNG of at most 16 MB that
/// decodes within 1200 × 2000 pixels and 16 MB of allocation, and is exactly that size.
pub open spec fn card_check(bytes: Seq<u8>) -> Result<(), Seq<char>> {
    if bytes.len() > MAX_CARD_BYTES || guessed_format(bytes) != GuessedFormat::Png {
        Err("Expected a pressed-card PNG."@)
    } else {
        match decoded_dimensions(bytes, true, 1200, 2000, 16777216) {
            Err(e) => Err("Cannot read the pressed image: "@ + e),
            Ok((w, h)) => if w != 1200 || h != 2000 {
                Err("Pressed cards must be 1200 × 2000 pixels."@)
            } else {
                Ok(())
            },
        }
    }
}

/// Checks that data is a pressed card: a 1200 × 2000 PNG of at most 16 MB.
pub fn validate(bytes: &[u8]) -> (r: Result<(), String>)
    ensures
        match r {
            Ok(()) => card_check(bytes@) == Ok::<(), Seq<char>>(()),
            Err(e) => card_check(bytes@) == Err::<(), Seq<char>>(e@),
        },
{
    if bytes.len() > MAX_CARD_BYTES || guess_format(bytes) != GuessedFormat::Png {
        return Err(String::from_str("Expected a pressed-card PNG."));
    }
    match decode_dimensions(bytes, true, 1200, 2000, 16777216) {
        Err(e) => {
            let mut m = String::from_str("Cannot read the pressed image: ");
            m.append(e.as_str());
            Err(m)
        },
        Ok((w, h)) => if w != 1200 || h != 2000 {
            Err(String::from_str("Pressed cards must be 1200 × 2000 pixels."))
        } else {
            Ok(())
        },
    }
}

} // verus!
