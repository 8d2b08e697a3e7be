//! Input text encoding: UTF-8 is kept; anything else is transcoded from the encoding
//! that chardetng guesses (ISO-8859-1 and the like), with encoding_rs.
use vstd::prelude::*;

use crate::text::{chars_of, lit_eq};
use vstd::utf8::{decode_utf8, valid_utf8};

verus! {

/// Calls `String::from_utf8`: the text of the bytes when they are UTF-8 (vstd's
/// `valid_utf8` / `decode_utf8`), nothing otherwise.
#[verifier::external_body]
fn utf8_string(b: &[u8]) -> (r: Option<String>)
    ensures
        if valid_utf8(b@) {
            r matches Some(s) && s@ == decode_utf8(b@)
        } else {
            r is None
        },
{
    String::from_utf8(b.to_vec()).ok()
}

/// The text `String::from_utf8_lossy` makes of bytes (invalid sequences replaced by
/// U+FFFD).
pub uninterp spec fn utf8_lossy(b: Seq<u8>) -> Seq<char>;

/// Calls `String::from_utf8_lossy`; the text is named by `utf8_lossy`.
#[verifier::external_body]
fn lossy_string(b: &[u8]) -> (r: String)
    ensures
        r@ == utf8_lossy(b@),
{
    String::from_utf8_lossy(b).into_owned()
}

/// The name of the encoding that chardetng guesses for a whole input (UTF-8 not
/// preferred, no top-level domain hint).
pub uninterp spec fn chardet_guess(b: Seq<u8>) -> Seq<char>;

/// Calls `chardetng::EncodingDetector::feed` (the whole input, as the last chunk) and
/// `guess(None, false)`; the name of the guessed encoding is named by `chardet_guess`.
#[verifier::external_body]
fn guess_encoding_name(b: &[u8]) -> (r: &'static str)
    ensures
        r@ == chardet_guess(b@),
{
    let mut detector = chardetng::EncodingDetector::new();
    detector.feed(b, true);
    detector.guess(None, false).name()
}

/// The text that encoding_rs decodes from bytes (BOM sniffing first, replacement
/// characters where the bytes are malformed) with the encoding that has this label; `None`
/// where no encoding has it.
pub uninterp spec fn decoded_as(label: Seq<char>, b: Seq<u8>) -> Option<Seq<char>>;

/// Calls `encoding_rs::Encoding::for_label` and `decode`; the text is named by
/// `decoded_as`.
#[verifier::external_body]
fn decode_labelled(label: &str, b: &[u8]) -> (r: Option<String>)
    ensures
        match decoded_as(label@, b@) {
            Some(t) => r matches Some(x) && x@ == t,
            None => r is None,
        },
{
    match encoding_rs::Encoding::for_label(label.as_bytes()) {
        Some(e) => Some(e.decode(b).0.into_owned()),
        None => None,
    }
}

/// The text of an input: its UTF-8 reading when valid; otherwise the guessed encoding's
/// decoding, or the lossy UTF-8 reading when the guess is UTF-8 after all (or names no
/// encoding that encoding_rs knows).
pub open spec fn spec_ensure_utf8(b: Seq<u8>) -> Seq<char> {
    if valid_utf8(b) {
        decode_utf8(b)
    } else if chardet_guess(b) == "UTF-8"@ {
        utf8_lossy(b)
    } else {
        match decoded_as(chardet_guess(b), b) {
            Some(t) => t,
            None => utf8_lossy(b),
        }
    }
}

/// Makes sure the input is UTF-8 text, transcoding it when needed.
pub fn ensure_utf8(input: &[u8]) -> (r: String)
    ensures
        r@ == spec_ensure_utf8(input@),
{
    match utf8_string(input) {
        Some(s) => s,
        None => {
            let name = guess_encoding_name(input);
            if lit_eq(&chars_of(name), "UTF-8") {
                lossy_string(input)
            } else {
                match decode_labelled(name, input) {
                    Some(t) => t,
                    None => lossy_string(input),
                }
            }
        },
    }
}

/// Valid UTF-8 is passed through unchanged: its bytes are the UTF-8 encoding of the text.
pub proof fn law_utf8_passthrough(chars: Seq<char>)
    ensures
        spec_ensure_utf8(vstd::utf8::encode_utf8(chars)) == chars,
{
    vstd::utf8::encode_utf8_valid_utf8(chars);
    vstd::utf8::encode_utf8_decode_utf8(chars);
}

} // verus!
