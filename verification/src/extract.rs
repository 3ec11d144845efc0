//! Text out of a file of any kind that is indexed.

use vstd::prelude::*;
use vstd::utf8::{decode_utf8, valid_utf8};
use crate::doc::{doc_text, extract_doc};
use crate::encodings::decode_utf8_strict;
use crate::extensions::{extension_of, file_extension};
use crate::folders::{name_chars, name_of};
use crate::office::{
    extract_docx, extract_pptx, extract_xlsx, is_docx_text, is_pptx_text, is_xlsx_text,
    text_view,
};
use crate::text::{chars_of, lowercase_of, spells, str_to_lowercase, string_of};

verus! {

/// The text of a plain text file: the text that its bytes spell in UTF-8,
/// and nothing where they spell none.
pub open spec fn plain_text(file: Seq<u8>) -> Option<Seq<char>> {
    if valid_utf8(file) {
        Some(decode_utf8(file))
    } else {
        None
    }
}

/// Reads a plain text file, given its bytes.
pub fn extract_text(file: &[u8]) -> (r: Option<String>)
    ensures
        text_view(r) == plain_text(file@),
{
    decode_utf8_strict(file)
}

/// Whether `text` is what a file with the extension `ext` gives. The
/// extension is taken as it is written: `txt` and `md` are plain text,
/// `doc`, `docx`, `pptx` and `xlsx` the kinds of document, and every other
/// extension gives nothing.
pub open spec fn is_content(file: Seq<u8>, ext: Seq<char>, text: Option<Seq<char>>) -> bool {
    if ext == "txt"@ || ext == "md"@ {
        text == plain_text(file)
    } else if ext == "doc"@ {
        text == doc_text(file)
    } else if ext == "docx"@ {
        is_docx_text(file, text)
    } else if ext == "pptx"@ {
        is_pptx_text(file, text)
    } else if ext == "xlsx"@ {
        is_xlsx_text(file, text)
    } else {
        text is None
    }
}

/// Pulls the text out of a file, given its bytes and its extension.
pub fn extract_content(file: &[u8], ext: &str) -> (r: Option<String>)
    ensures
        is_content(file@, ext@, text_view(r)),
{
    let e = chars_of(ext);
    if spells(&e, "txt") || spells(&e, "md") {
        extract_text(file)
    } else if spells(&e, "doc") {
        let r = extract_doc(file);
        proof {
            assert(text_view(r) == doc_text(file@));
        }
        r
    } else if spells(&e, "docx") {
        extract_docx(file)
    } else if spells(&e, "pptx") {
        extract_pptx(file)
    } else if spells(&e, "xlsx") {
        extract_xlsx(file)
    } else {
        None
    }
}

/// The extension by which a file at `path` is read: that of its last
/// component, in lower case, and the empty one where it has none.
pub open spec fn reading_extension(path: Seq<char>) -> Seq<char> {
    match extension_of(name_of(path)) {
        Some(ext) => lowercase_of(ext),
        None => Seq::empty(),
    }
}

/// Computes [`reading_extension`].
pub fn extension_for_reading(path: &str) -> (r: String)
    ensures
        r@ == reading_extension(path@),
{
    let name = string_of(&name_chars(&chars_of(path)));
    match file_extension(name.as_str()) {
        Some(ext) => str_to_lowercase(ext.as_str()),
        None => String::new(),
    }
}

/// The text of the file at `file_path` for showing it, given the bytes of
/// the file: what its kind of file gives, or the complaint that nothing
/// could be pulled out of it.
pub fn extract_file_content(file_path: &str, file: &[u8]) -> (r: Result<String, String>)
    ensures
        match r {
            Ok(text) => is_content(file@, reading_extension(file_path@), Some(text@)),
            Err(complaint) => is_content(file@, reading_extension(file_path@), None)
                && complaint@ == "Failed to extract content"@,
        },
{
    let ext = extension_for_reading(file_path);
    match extract_content(file, ext.as_str()) {
        Some(text) => Ok(text),
        None => Err(string_of(&chars_of("Failed to extract content"))),
    }
}

} // verus!
