//! Page identifiers: ULIDs written in Crockford base 32.
use vstd::prelude::*;

verus! {

/// A character of the ULID alphabet, in either case.
pub open spec fn ulid_char(c: char) -> bool {
    ('0' <= c <= '9')
        || ('A' <= c <= 'Z' && c != 'I' && c != 'L' && c != 'O' && c != 'U')
        || ('a' <= c <= 'z' && c != 'i' && c != 'l' && c != 'o' && c != 'u')
}

/// A text that `ulid::Ulid::from_string` accepts: twenty-six characters of the alphabet.
pub open spec fn ulid_text(s: Seq<char>) -> bool {
    s.len() == 26 && forall|i: int| 0 <= i < s.len() ==> ulid_char(#[trigger] s[i])
}

/// Whether a text is a ULID (`ulid::Ulid::from_string`).
/// Trusted: the crate accepts exactly twenty-six bytes, each one of the alphabet's
/// characters in upper or lower case (its lookup table), and rejects everything else.
#[verifier::external_body]
pub(crate) fn is_ulid(s: &str) -> (r: bool)
    ensures
        r == ulid_text(s@),
{
    ulid::Ulid::from_string(s).is_ok()
}

/// A fresh ULID as text (`ulid::Ulid::new` and its `Display`).
/// Trusted: the crate writes twenty-six upper-case characters of its alphabet; which
/// identifier comes out depends on the clock and on chance and is left unsaid.
#[verifier::external_body]
pub(crate) fn new_ulid() -> (r: String)
    ensures
        ulid_text(r@),
{
    ulid::Ulid::new().to_string()
}

} // verus!
