//! What the standard library knows about text that is not spelled out here.

use vstd::prelude::*;
use vstd::utf8::*;

use crate::text::ascii_lowered;

verus! {

/// The text that `String::from_utf8_lossy` makes of bytes.
pub uninterp spec fn lossy_text(bytes: Seq<u8>) -> Seq<char>;

/// The text that `str::to_lowercase` makes of a text.
pub uninterp spec fn lowercase(text: Seq<char>) -> Seq<char>;

/// The characters that `char::to_uppercase` gives for a character.
pub uninterp spec fn uppercase(c: char) -> Seq<char>;

/// `String::from_utf8_lossy`: bytes as text, with what is not UTF-8 replaced.
/// Bytes that are UTF-8 become the text they encode. Where the replacements go
/// otherwise is not said.
#[verifier::external_body]
pub(crate) fn lossy(bytes: &[u8]) -> (text: String)
    ensures
        text@ == lossy_text(bytes@),
        valid_utf8(bytes@) ==> text@ == decode_utf8(bytes@),
{
    String::from_utf8_lossy(bytes).into_owned()
}

/// `str::to_lowercase`: a text in lowercase. ASCII text has its ASCII letters
/// made small. What other characters become is not said.
#[verifier::external_body]
pub(crate) fn lower(text: &str) -> (small: String)
    ensures
        small@ == lowercase(text@),
        is_ascii_chars(text@) ==> small@ == ascii_lowered(text@),
{
    text.to_lowercase()
}

/// `char::to_uppercase`: a character in uppercase. A small ASCII letter becomes
/// the capital, and every other ASCII character stays what it is. What other
/// characters become is not said.
#[verifier::external_body]
pub(crate) fn upper(c: char) -> (large: String)
    ensures
        large@ == uppercase(c),
        'a' <= c <= 'z' ==> large@ == seq![((c as u8) - 32) as char],
        c <= '\u{7f}' && !('a' <= c <= 'z') ==> large@ == seq![c],
{
    c.to_uppercase().to_string()
}

} // verus!
