//! What the drivers take from the standard library beyond strings and vectors.
use vstd::prelude::*;
use vstd::utf8::*;

verus! {

/// What [`String::from_utf8_lossy`] makes of a byte sequence.
pub uninterp spec fn utf8_lossy(bytes: Seq<u8>) -> Seq<char>;

/// Calls `String::from_utf8_lossy`. Valid UTF-8 is decoded as it stands; in any
/// other input the invalid parts come out as replacement characters, and the
/// outcome is named by [`utf8_lossy`].
#[verifier::external_body]
pub(crate) fn text_from_utf8_lossy(bytes: &[u8]) -> (r: String)
    ensures
        r@ == utf8_lossy(bytes@),
        valid_utf8(bytes@) ==> r@ == decode_utf8(bytes@),
{
    String::from_utf8_lossy(bytes).into_owned()
}

/// What [`str::to_lowercase`] makes of a text.
pub uninterp spec fn lowercase(s: Seq<char>) -> Seq<char>;

/// The lower case of an ASCII letter; any other character stays as it is.
pub open spec fn ascii_lower(c: char) -> char {
    if 'A' <= c <= 'Z' {
        (c as u32 + 32) as char
    } else {
        c
    }
}

/// Calls `str::to_lowercase`, which maps the text to lower case by the Unicode
/// rules; the outcome is named by [`lowercase`]. Of an ASCII text it is the same
/// text with the letters `A` to `Z` in lower case.
#[verifier::external_body]
pub(crate) fn to_lowercase(s: &str) -> (r: String)
    ensures
        r@ == lowercase(s@),
        is_ascii_chars(s@) ==> r@ == s@.map_values(|c: char| ascii_lower(c)),
{
    s.to_lowercase()
}

/// The text in double quotes with escapes, as the `{:?}` format writes it.
pub uninterp spec fn debug_text(s: Seq<char>) -> Seq<char>;

/// Formats a string with `{:?}`: the text in double quotes, with the characters
/// escaped that do not print. The outcome is named by [`debug_text`].
#[verifier::external_body]
pub(crate) fn quoted(s: &str) -> (r: String)
    ensures
        r@ == debug_text(s@),
{
    format!("{s:?}")
}

/// Calls `std::path::Path::exists`. Nothing is promised of the answer: it
/// depends on what is on disk at the time of the call.
#[verifier::external_body]
pub(crate) fn path_exists(path: &str) -> bool {
    std::path::Path::new(path).exists()
}

/// Whether `found` is an answer of [`path_exists`] for this path. Nothing says
/// which answer that is; only a look at this very path gives one.
pub closed spec fn looked_for(path: Seq<char>, found: bool) -> bool {
    exists|p: &str| p@ == path && #[trigger] call_ensures(path_exists, (p,), found)
}

/// Looks whether a path exists.
pub(crate) fn look_for(path: &str) -> (found: bool)
    ensures
        looked_for(path@, found),
{
    path_exists(path)
}

} // verus!
