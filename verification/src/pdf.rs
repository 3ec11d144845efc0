//! What is made of the text that was pulled out of a PDF.
//!
//! Only documents that carry their text are served: a scan of paper gives
//! little or nothing, and nothing is read off its pictures.

use vstd::prelude::*;
use crate::doc_text::{trim_chars, trimmed_text};
use crate::text::{byte_len, chars_of, chars_take_more_bytes, string_of};

verus! {

/// From this many bytes of text on, strictly more, a PDF counts as one that
/// carries its text.
pub const PDF_TEXT_THRESHOLD: usize = 50;

/// From this many bytes on, strictly more, a PDF counts as large.
pub const LARGE_PDF_BYTES: u64 = 10 * 1024 * 1024;

/// The text of a PDF: what was pulled out of it without the blanks at its
/// ends, or nothing where nothing was pulled out or only blanks.
pub open spec fn pdf_text(raw: Option<Seq<char>>) -> Option<Seq<char>> {
    match raw {
        Some(text) => if trimmed_text(text).len() > 0 {
            Some(trimmed_text(text))
        } else {
            None
        },
        None => None,
    }
}

/// The text of a PDF from what the extraction gave, as [`pdf_text`] says.
/// `raw` is `None` where the file could not be read or the extraction failed.
pub fn extract_pdf(raw: Option<&str>) -> (r: Option<String>)
    ensures
        match r {
            Some(text) => pdf_text(
                match raw {
                    Some(t) => Some(t@),
                    None => None,
                },
            ) == Some(text@),
            None => pdf_text(
                match raw {
                    Some(t) => Some(t@),
                    None => None,
                },
            ) is None,
        },
{
    match raw {
        Some(text) => {
            let tidy = trim_chars(&chars_of(text));
            if tidy.len() > 0 {
                Some(string_of(&tidy))
            } else {
                None
            }
        },
        None => None,
    }
}

/// Whether a text takes more than `limit` bytes.
pub fn takes_more_bytes(text: &str, limit: usize) -> (r: bool)
    ensures
        r == (byte_len(text@) > limit),
{
    chars_take_more_bytes(&chars_of(text), limit)
}

/// Whether a PDF carries its text: what was pulled out of it, without the
/// blanks at its ends, takes more than fifty bytes.
pub fn pdf_has_text(raw: Option<&str>) -> (r: bool)
    ensures
        r == match pdf_text(
            match raw {
                Some(t) => Some(t@),
                None => None,
            },
        ) {
            Some(text) => byte_len(text) > PDF_TEXT_THRESHOLD,
            None => false,
        },
{
    match extract_pdf(raw) {
        Some(text) => takes_more_bytes(text.as_str(), PDF_TEXT_THRESHOLD),
        None => false,
    }
}

/// Whether a PDF of this size takes long to read: more than ten megabytes.
/// A file whose size is not known does not count as large.
pub fn is_large_pdf(size: Option<u64>) -> (r: bool)
    ensures
        r == (size matches Some(n) && n > LARGE_PDF_BYTES),
{
    match size {
        Some(n) => n > LARGE_PDF_BYTES,
        None => false,
    }
}

} // verus!
