//! What the standard library knows of text encodings and character classes.

use vstd::prelude::*;
use vstd::utf8::{decode_utf8, valid_utf8};

verus! {

/// The text that bytes stand for, replacement characters standing in for
/// whatever is not UTF-8.
pub uninterp spec fn utf8_text(b: Seq<u8>) -> Seq<char>;

/// The text that UTF-16 units stand for, replacement characters standing in
/// for unpaired surrogates.
pub uninterp spec fn utf16_text(w: Seq<u16>) -> Seq<char>;

/// The lower-case form of a text.
pub uninterp spec fn lowered(s: Seq<char>) -> Seq<char>;

/// The property `Alphabetic` of Unicode.
pub uninterp spec fn alphabetic(c: char) -> bool;

/// The property `White_Space` of Unicode, as its character database lists it.
#[verifier::opaque]
pub open spec fn white(c: char) -> bool {
    ||| '\u{9}' <= c <= '\u{D}'
    ||| c == ' '
    ||| c == '\u{85}'
    ||| c == '\u{A0}'
    ||| c == '\u{1680}'
    ||| '\u{2000}' <= c <= '\u{200A}'
    ||| '\u{2028}' <= c <= '\u{2029}'
    ||| c == '\u{202F}'
    ||| c == '\u{205F}'
    ||| c == '\u{3000}'
}

/// `String::from_utf8_lossy`: the text depends on the bytes alone, and bytes
/// that are UTF-8 are decoded as they stand.
#[verifier::external_body]
pub(crate) fn utf8_lossy(b: &[u8]) -> (res: String)
    ensures
        res@ == utf8_text(b@),
        valid_utf8(b@) ==> res@ == decode_utf8(b@),
{
    String::from_utf8_lossy(b).into_owned()
}

/// `String::from_utf16_lossy`: the text depends on the units alone.
#[verifier::external_body]
pub(crate) fn utf16_lossy(w: &[u16]) -> (res: String)
    ensures
        res@ == utf16_text(w@),
{
    String::from_utf16_lossy(w)
}

/// `str::to_lowercase`: the result depends on the text alone.
#[verifier::external_body]
pub(crate) fn lowercase(s: &str) -> (res: String)
    ensures
        res@ == lowered(s@),
{
    s.to_lowercase()
}

/// `char::is_alphabetic` decides the property `Alphabetic`, which depends on
/// the character alone.
pub assume_specification[ char::is_alphabetic ](c: char) -> (res: bool)
    ensures
        res == alphabetic(c),
;

/// Whether a character has the property `White_Space`.
pub fn is_white(c: char) -> (res: bool)
    ensures
        res == white(c),
{
    proof {
        reveal(white);
    }
    ('\u{9}' <= c && c <= '\u{D}') || c == ' ' || c == '\u{85}' || c == '\u{A0}' || c == '\u{1680}'
        || ('\u{2000}' <= c && c <= '\u{200A}') || ('\u{2028}' <= c && c <= '\u{2029}') || c
        == '\u{202F}' || c == '\u{205F}' || c == '\u{3000}'
}

} // verus!
