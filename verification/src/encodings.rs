//! Bytes into text, by the encodings that documents come in.

use vstd::prelude::*;
use vstd::utf8::{decode_utf8, valid_utf8};
use crate::doc_text::{chars_are_readable, decode_utf16le_chars, is_readable, utf16le_text};
use crate::text::{chars_of, string_of};

verus! {

/// The text that the decoder of Windows-1252 makes of bytes, or nothing
/// where it meets a fault. The decoder looks for a byte-order mark first:
/// bytes that begin with the mark of UTF-8 or of UTF-16 are read in that
/// encoding, without the mark, and only the others as Windows-1252.
pub uninterp spec fn windows_1252_text(bytes: Seq<u8>) -> Option<Seq<char>>;

/// The text that the decoder of Windows-1256 makes of bytes, or nothing
/// where it meets a fault. The decoder looks for a byte-order mark first:
/// bytes that begin with the mark of UTF-8 or of UTF-16 are read in that
/// encoding, without the mark, and only the others as Windows-1256.
pub uninterp spec fn windows_1256_text(bytes: Seq<u8>) -> Option<Seq<char>>;

/// The text that bytes spell in UTF-8 with every fault replaced by the
/// replacement character.
pub uninterp spec fn lossy_utf8_text(bytes: Seq<u8>) -> Seq<char>;

/// `encoding_rs::WINDOWS_1252.decode`: the text, unless the decoder met a
/// fault. It reads bytes behind a byte-order mark in the encoding of the
/// mark. The outcome depends on the bytes alone; what it is, is not stated.
#[verifier::external_body]
pub(crate) fn decode_windows1252(bytes: &[u8]) -> (r: Option<String>)
    ensures
        match r {
            Some(text) => windows_1252_text(bytes@) == Some(text@),
            None => windows_1252_text(bytes@) is None,
        },
{
    let (decoded, _, had_errors) = encoding_rs::WINDOWS_1252.decode(bytes);
    if had_errors {
        None
    } else {
        Some(decoded.into_owned())
    }
}

/// `encoding_rs::WINDOWS_1256.decode`: the text, unless the decoder met a
/// fault. It reads bytes behind a byte-order mark in the encoding of the
/// mark. The outcome depends on the bytes alone; what it is, is not stated.
#[verifier::external_body]
pub(crate) fn decode_windows1256(bytes: &[u8]) -> (r: Option<String>)
    ensures
        match r {
            Some(text) => windows_1256_text(bytes@) == Some(text@),
            None => windows_1256_text(bytes@) is None,
        },
{
    let (decoded, _, had_errors) = encoding_rs::WINDOWS_1256.decode(bytes);
    if had_errors {
        None
    } else {
        Some(decoded.into_owned())
    }
}

/// `std::str::from_utf8`: the text of bytes that are UTF-8, and nothing for
/// bytes that are not.
#[verifier::external_body]
pub(crate) fn decode_utf8_strict(bytes: &[u8]) -> (r: Option<String>)
    ensures
        r is Some <==> valid_utf8(bytes@),
        r matches Some(text) ==> text@ == decode_utf8(bytes@),
{
    match std::str::from_utf8(bytes) {
        Ok(text) => Some(text.to_string()),
        Err(_) => None,
    }
}

/// `String::from_utf8_lossy`: the text of the bytes with every fault
/// replaced. The outcome depends on the bytes alone; what it is, is not
/// stated.
#[verifier::external_body]
pub(crate) fn decode_utf8_lossy(bytes: &[u8]) -> (r: String)
    ensures
        r@ == lossy_utf8_text(bytes@),
{
    String::from_utf8_lossy(bytes).into_owned()
}

/// The text that bytes of an unknown encoding spell: the first of UTF-16,
/// UTF-8 and the decoder of Windows-1256 that gives readable text, and else
/// what the decoder of Windows-1252 gives.
pub open spec fn decoded_text(bytes: Seq<u8>) -> Option<Seq<char>> {
    if utf16le_text(bytes) is Some && is_readable(utf16le_text(bytes)->0) {
        utf16le_text(bytes)
    } else if valid_utf8(bytes) && is_readable(decode_utf8(bytes)) {
        Some(decode_utf8(bytes))
    } else if windows_1256_text(bytes) is Some && is_readable(windows_1256_text(bytes)->0) {
        windows_1256_text(bytes)
    } else {
        windows_1252_text(bytes)
    }
}

/// Decodes bytes of an unknown encoding, as [`decoded_text`] says.
pub fn decode_text(bytes: &[u8]) -> (r: Option<String>)
    ensures
        match r {
            Some(text) => decoded_text(bytes@) == Some(text@),
            None => decoded_text(bytes@) is None,
        },
{
    match decode_utf16le_chars(bytes) {
        Some(chars) => {
            if chars_are_readable(&chars) {
                return Some(string_of(&chars));
            }
        },
        None => {},
    }
    match decode_utf8_strict(bytes) {
        Some(text) => {
            if chars_are_readable(&chars_of(text.as_str())) {
                return Some(text);
            }
        },
        None => {},
    }
    match decode_windows1256(bytes) {
        Some(text) => {
            if chars_are_readable(&chars_of(text.as_str())) {
                return Some(text);
            }
        },
        None => {},
    }
    decode_windows1252(bytes)
}

} // verus!
