//! Text out of a word-processor document in the old binary format.
//!
//! Such a document is a compound file. Its stream `WordDocument` begins
//! with a block of numbers that say where the text lies. Four ways are
//! tried in turn, and the first that gives text that is not blank is taken:
//! the text that the block points to by way of the table stream, the text
//! between the two bounds of the block, the stream `Text`, and last a scan
//! of the whole stream for runs of characters.

use vstd::prelude::*;
use crate::archive::{compound_stream, compound_stream_content, is_stream_path};
use crate::bytes::{read_u16_le, read_u32_le, slice_bytes, u16_le_at, u32_le_at};
use crate::doc_text::{
    chars_are_readable, clean_chars, cleaned_text, decode_utf16le_chars, is_readable,
    is_text_unit, is_valid_utf16_char, utf16le_text,
};
use crate::encodings::{decode_text, decode_windows1252, decoded_text, windows_1252_text};
use crate::text::{
    append_chars, byte_len, chars_are_blank, chars_of, chars_take_more_bytes, is_blank,
    string_of,
};

verus! {

/// The shortest `WordDocument` stream that holds the whole block of numbers.
pub const MIN_WORD_STREAM: usize = 1472;

/// A scan or a decoding counts as text from this many bytes on, strictly more.
pub const MIN_TEXT_BYTES: usize = 50;

// ---------------------------------------------------------------------------
// The scan for runs of characters
// ---------------------------------------------------------------------------

/// Where the run of text units that begins at `i` ends: the first place,
/// two bytes at a time, where no whole unit is left or the unit is none of
/// running text.
pub open spec fn run_end(data: Seq<u8>, i: int) -> int
    decreases data.len() - i,
{
    if 0 <= i && i + 1 < data.len() && is_text_unit(u16_le_at(data, i) as u16) {
        run_end(data, i + 2)
    } else {
        i
    }
}

/// `acc` made ready for the next run: with a blank at its end, unless it is
/// empty or ends in a blank or a line feed.
pub open spec fn with_separator(acc: Seq<char>) -> Seq<char> {
    if acc.len() > 0 && acc.last() != '\n' && acc.last() != ' ' {
        acc.push(' ')
    } else {
        acc
    }
}

/// The text that the scan gathers from `i` on, behind `acc`: every run of
/// more than two text units, decoded, with a blank between runs.
pub open spec fn scan_runs(data: Seq<u8>, i: int, acc: Seq<char>) -> Seq<char>
    decreases data.len() - i,
{
    if i < 0 || i + 1 >= data.len() {
        acc
    } else if !is_text_unit(u16_le_at(data, i) as u16) {
        scan_runs(data, i + 1, acc)
    } else {
        let end = run_end(data, i);
        let run = utf16le_text(data.subrange(i, end));
        proof {
            lemma_run_end(data, i);
        }
        scan_runs(
            data,
            end,
            if end > i + 4 && run is Some {
                with_separator(acc) + run->0
            } else {
                acc
            },
        )
    }
}

pub proof fn lemma_run_end(data: Seq<u8>, i: int)
    requires
        0 <= i,
    ensures
        i <= run_end(data, i) <= data.len() || run_end(data, i) == i,
        i + 1 < data.len() && is_text_unit(u16_le_at(data, i) as u16) ==> i + 2 <= run_end(data, i)
            <= data.len(),
    decreases data.len() - i,
{
    if i + 1 < data.len() && is_text_unit(u16_le_at(data, i) as u16) {
        lemma_run_end(data, i + 2);
    }
}

/// What the scan of a whole stream gives: the stream decoded as one text
/// and cleaned, where that takes more than fifty bytes; else the runs of
/// the scan, cleaned, where they take more than fifty bytes; else nothing.
pub open spec fn fallback_text(data: Seq<u8>) -> Option<Seq<char>> {
    if utf16le_text(data) is Some && byte_len(cleaned_text(utf16le_text(data)->0))
        > MIN_TEXT_BYTES {
        Some(cleaned_text(utf16le_text(data)->0))
    } else if byte_len(scan_runs(data, 0, Seq::empty())) > MIN_TEXT_BYTES {
        Some(cleaned_text(scan_runs(data, 0, Seq::empty())))
    } else {
        None
    }
}

fn unit_is_text(data: &[u8], i: usize) -> (r: bool)
    requires
        i + 1 < data.len(),
    ensures
        r == is_text_unit(u16_le_at(data@, i as int) as u16),
{
    is_valid_utf16_char(read_u16_le(data, i))
}

/// Scans a stream for text, as [`fallback_text`] says.
pub fn extract_text_fallback(data: &[u8]) -> (r: Option<String>)
    ensures
        match r {
            Some(text) => fallback_text(data@) == Some(text@),
            None => fallback_text(data@) is None,
        },
{
    match decode_utf16le_chars(data) {
        Some(text) => {
            let cleaned = clean_chars(&text);
            if chars_take_more_bytes(&cleaned, MIN_TEXT_BYTES) {
                return Some(string_of(&cleaned));
            }
        },
        None => {},
    }
    let mut result: Vec<char> = Vec::new();
    let mut i: usize = 0;
    let n = data.len();
    while i < n && n - i > 1
        invariant
            i <= n,
            n == data.len(),
            scan_runs(data@, 0, Seq::empty()) == scan_runs(data@, i as int, result@),
        decreases n - i,
    {
        if unit_is_text(data, i) {
            let start = i;
            while i < n && n - i > 1 && unit_is_text(data, i)
                invariant
                    start <= i <= n,
                    n == data.len(),
                    run_end(data@, start as int) == run_end(data@, i as int),
                decreases n - i,
            {
                i += 2;
            }
            proof {
                lemma_run_end(data@, start as int);
            }
            if i - start > 4 {
                match decode_utf16le_chars(slice_bytes(data, start, i).as_slice()) {
                    Some(text) => {
                        if result.len() > 0 && result[result.len() - 1] != '\n' && result[result.len()
                            - 1] != ' ' {
                            result.push(' ');
                        }
                        append_chars(&mut result, &text);
                    },
                    None => {},
                }
            }
        } else {
            i += 1;
        }
    }
    if chars_take_more_bytes(&result, MIN_TEXT_BYTES) {
        Some(string_of(&clean_chars(&result)))
    } else {
        None
    }
}

// ---------------------------------------------------------------------------
// The text between the bounds
// ---------------------------------------------------------------------------

/// Where the first bound of the text stands in the block of numbers.
pub const FC_MIN_AT: usize = 0x0018;

/// Where the second bound of the text stands.
pub const FC_MAC_AT: usize = 0x001C;

/// Where the number of characters of the main text stands.
pub const CCP_TEXT_AT: usize = 0x004C;

/// Where the flags stand.
pub const FLAGS_AT: usize = 0x000A;

/// Where the offset of the piece table stands.
pub const FC_CLX_AT: usize = 0x01A2;

/// Where the length of the piece table stands.
pub const LCB_CLX_AT: usize = 0x01A6;

/// A decoding of a region that counts: cleaned it is not empty and reads
/// as text.
pub open spec fn good_text(decoded: Option<Seq<char>>) -> bool {
    decoded is Some && cleaned_text(decoded->0).len() > 0 && is_readable(cleaned_text(decoded->0))
}

/// The text between the two bounds of the block: decoded as UTF-16, or
/// else as Windows-1252, whichever first gives text that counts, and
/// cleaned. Where the bounds make no sense, the stream is scanned.
pub open spec fn direct_text(data: Seq<u8>) -> Option<Seq<char>> {
    let fc_min = u32_le_at(data, FC_MIN_AT as int);
    let fc_mac = u32_le_at(data, FC_MAC_AT as int);
    if fc_min == 0 || fc_mac <= fc_min || fc_mac > data.len() {
        fallback_text(data)
    } else {
        let region = data.subrange(fc_min, fc_mac);
        if good_text(utf16le_text(region)) {
            Some(cleaned_text(utf16le_text(region)->0))
        } else if good_text(windows_1252_text(region)) {
            Some(cleaned_text(windows_1252_text(region)->0))
        } else {
            None
        }
    }
}

fn cleaned_if_good(decoded: Option<Vec<char>>) -> (r: Option<String>)
    ensures
        match r {
            Some(text) => good_text(
                match decoded {
                    Some(d) => Some(d@),
                    None => None,
                },
            ) && text@ == cleaned_text(decoded->0@),
            None => !good_text(
                match decoded {
                    Some(d) => Some(d@),
                    None => None,
                },
            ),
        },
{
    match decoded {
        Some(text) => {
            let cleaned = clean_chars(&text);
            if cleaned.len() > 0 && chars_are_readable(&cleaned) {
                Some(string_of(&cleaned))
            } else {
                None
            }
        },
        None => None,
    }
}

/// Takes the text between the bounds, as [`direct_text`] says.
pub fn extract_text_direct(word_doc_data: &[u8]) -> (r: Option<String>)
    ensures
        match r {
            Some(text) => direct_text(word_doc_data@) == Some(text@),
            None => direct_text(word_doc_data@) is None,
        },
{
    let fc_min = read_u32_le(word_doc_data, FC_MIN_AT) as usize;
    let fc_mac = read_u32_le(word_doc_data, FC_MAC_AT) as usize;
    if fc_min == 0 || fc_mac <= fc_min || fc_mac > word_doc_data.len() {
        return extract_text_fallback(word_doc_data);
    }
    let region = slice_bytes(word_doc_data, fc_min, fc_mac);
    match cleaned_if_good(decode_utf16le_chars(region.as_slice())) {
        Some(text) => {
            return Some(text);
        },
        None => {},
    }
    let western = match decode_windows1252(region.as_slice()) {
        Some(text) => Some(chars_of(text.as_str())),
        None => None,
    };
    cleaned_if_good(western)
}

// ---------------------------------------------------------------------------
// The text by way of the table stream
// ---------------------------------------------------------------------------

/// The text that the block points to, given the table stream: nothing
/// where the block names no piece table, where the table stream is missing
/// or shorter than the offset of the table, or where the block gives no
/// start or no length of the text. Else the characters from the start on,
/// as many as the block counts and the stream holds, decoded as UTF-16 and
/// cleaned; where they cannot be decoded, the empty text.
pub open spec fn clx_text(
    table: Option<Seq<u8>>,
    fc_clx: u32,
    lcb_clx: u32,
    data: Seq<u8>,
) -> Option<Seq<char>> {
    let ccp_text = u32_le_at(data, CCP_TEXT_AT as int);
    let fc_min = u32_le_at(data, FC_MIN_AT as int);
    if lcb_clx == 0 || table is None || fc_clx >= table->0.len() || ccp_text == 0 || fc_min == 0 {
        None
    } else if fc_min + 2 <= data.len() {
        let span = if 2 * ccp_text < data.len() - fc_min {
            2 * ccp_text
        } else {
            data.len() - fc_min
        };
        match utf16le_text(data.subrange(fc_min, fc_min + span)) {
            Some(text) => Some(cleaned_text(text)),
            None => Some(cleaned_text(Seq::empty())),
        }
    } else {
        Some(cleaned_text(Seq::empty()))
    }
}

/// Takes the text that the block points to, as [`clx_text`] says.
/// `table_data` is the table stream, if the document has it.
pub fn extract_text_via_clx(
    table_data: Option<&[u8]>,
    fc_clx: u32,
    lcb_clx: u32,
    word_doc_data: &[u8],
) -> (r: Option<String>)
    ensures
        match r {
            Some(text) => clx_text(
                match table_data {
                    Some(t) => Some(t@),
                    None => None,
                },
                fc_clx,
                lcb_clx,
                word_doc_data@,
            ) == Some(text@),
            None => clx_text(
                match table_data {
                    Some(t) => Some(t@),
                    None => None,
                },
                fc_clx,
                lcb_clx,
                word_doc_data@,
            ) is None,
        },
{
    if lcb_clx == 0 {
        return None;
    }
    let table = match table_data {
        Some(t) => t,
        None => {
            return None;
        },
    };
    if fc_clx as usize >= table.len() {
        return None;
    }
    let ccp_text = read_u32_le(word_doc_data, CCP_TEXT_AT) as usize;
    let fc_min = read_u32_le(word_doc_data, FC_MIN_AT) as usize;
    if ccp_text == 0 || fc_min == 0 {
        return None;
    }
    let n = word_doc_data.len();
    let mut text: Vec<char> = Vec::new();
    if n >= 2 && fc_min <= n - 2 {
        let room = n - fc_min;
        let span: usize = if ccp_text < room / 2 || (ccp_text == room / 2 && room % 2 == 1) {
            2 * ccp_text
        } else {
            room
        };
        match decode_utf16le_chars(slice_bytes(word_doc_data, fc_min, fc_min + span).as_slice()) {
            Some(decoded) => {
                text = decoded;
            },
            None => {},
        }
    }
    Some(string_of(&clean_chars(&text)))
}

// ---------------------------------------------------------------------------
// The document
// ---------------------------------------------------------------------------

/// A text that was found and is not blank.
pub open spec fn counts(found: Option<Seq<char>>) -> bool {
    found is Some && !is_blank(found->0)
}

/// The stream of a compound file, if it has it and it can be read.
pub open spec fn stream_of(file: Seq<u8>, name: Seq<char>) -> Option<Seq<u8>> {
    match compound_stream_content(file, name) {
        Some(Some(data)) => Some(data),
        _ => None,
    }
}

/// The name of the table stream that the flags point to.
pub open spec fn table_name(flags: u16) -> Seq<char> {
    if flags & 0x0200 != 0 {
        "/1Table"@
    } else {
        "/0Table"@
    }
}

/// The text of a document in the old binary format: nothing where the file
/// is no compound file, has no `WordDocument` stream or one that is too
/// short for the block of numbers; else the first of the four ways that
/// gives text that is not blank.
pub open spec fn doc_text(file: Seq<u8>) -> Option<Seq<char>> {
    match stream_of(file, "/WordDocument"@) {
        None => None,
        Some(data) => if data.len() < MIN_WORD_STREAM {
            None
        } else {
            let by_table = clx_text(
                stream_of(file, table_name(u16_le_at(data, FLAGS_AT as int) as u16)),
                u32_le_at(data, FC_CLX_AT as int) as u32,
                u32_le_at(data, LCB_CLX_AT as int) as u32,
                data,
            );
            let by_stream = match stream_of(file, "/Text"@) {
                Some(text) => decoded_text(text),
                None => None,
            };
            if counts(by_table) {
                by_table
            } else if counts(direct_text(data)) {
                direct_text(data)
            } else if counts(by_stream) {
                by_stream
            } else if counts(fallback_text(data)) {
                fallback_text(data)
            } else {
                None
            }
        },
    }
}

fn read_stream(file: &[u8], name: &str) -> (r: Option<Vec<u8>>)
    requires
        is_stream_path(name@),
    ensures
        match r {
            Some(data) => stream_of(file@, name@) == Some(data@),
            None => stream_of(file@, name@) is None,
        },
{
    match compound_stream(file, name) {
        Some(Some(data)) => Some(data),
        _ => None,
    }
}

fn if_counts(found: Option<String>) -> (r: Option<String>)
    ensures
        match r {
            Some(text) => found == Some(text) && !is_blank(text@),
            None => found is None || is_blank(found->0@),
        },
{
    match found {
        Some(text) => {
            if chars_are_blank(&chars_of(text.as_str())) {
                None
            } else {
                Some(text)
            }
        },
        None => None,
    }
}

/// Pulls the text out of a document in the old binary format, given the
/// bytes of the file, as [`doc_text`] says.
pub fn extract_doc(file: &[u8]) -> (r: Option<String>)
    ensures
        match r {
            Some(text) => doc_text(file@) == Some(text@),
            None => doc_text(file@) is None,
        },
{
    proof {
        reveal_strlit("/WordDocument");
        reveal_strlit("/1Table");
        reveal_strlit("/0Table");
        reveal_strlit("/Text");
        assert(is_stream_path("/WordDocument"@));
        assert(is_stream_path("/1Table"@));
        assert(is_stream_path("/0Table"@));
        assert(is_stream_path("/Text"@));
    }
    let data = match read_stream(file, "/WordDocument") {
        Some(data) => data,
        None => {
            return None;
        },
    };
    if data.len() < MIN_WORD_STREAM {
        return None;
    }
    let word = data.as_slice();
    let fc_clx = read_u32_le(word, FC_CLX_AT);
    let lcb_clx = read_u32_le(word, LCB_CLX_AT);
    let flags = read_u16_le(word, FLAGS_AT);
    let table = if flags & 0x0200 != 0 {
        read_stream(file, "/1Table")
    } else {
        read_stream(file, "/0Table")
    };
    let by_table = match &table {
        Some(t) => extract_text_via_clx(Some(t.as_slice()), fc_clx, lcb_clx, word),
        None => extract_text_via_clx(None, fc_clx, lcb_clx, word),
    };
    match if_counts(by_table) {
        Some(text) => {
            return Some(text);
        },
        None => {},
    }
    match if_counts(extract_text_direct(word)) {
        Some(text) => {
            return Some(text);
        },
        None => {},
    }
    let by_stream = match read_stream(file, "/Text") {
        Some(text) => decode_text(text.as_slice()),
        None => None,
    };
    match if_counts(by_stream) {
        Some(text) => {
            return Some(text);
        },
        None => {},
    }
    if_counts(extract_text_fallback(word))
}

} // verus!
