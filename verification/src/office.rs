//! Text out of the documents that are ZIP archives of XML: word-processor
//! documents, presentations and spreadsheets.
//!
//! What the archive holds and what events a part gives is the matter of the
//! crates that read them. What is made of the events is stated here, over
//! the events as values.

use vstd::prelude::*;
use crate::archive::{zip_entry, zip_entry_content};
use crate::doc_text::{trim_chars, trimmed_text};
use crate::text::{append_chars, chars_of, string_of};
use crate::xml::{event_views, events_read, read_events, EventView, XmlEvent};

verus! {

/// A text that may be missing, as a mathematical value.
pub open spec fn text_view(text: Option<String>) -> Option<Seq<char>> {
    match text {
        Some(t) => Some(t@),
        None => None,
    }
}

// ---------------------------------------------------------------------------
// From events to text
// ---------------------------------------------------------------------------

/// All text of the events, each piece followed by `after`.
pub open spec fn text_of_events(events: Seq<XmlEvent>, after: Option<char>) -> Seq<char>
    decreases events.len(),
{
    if events.len() == 0 {
        Seq::empty()
    } else {
        let before = text_of_events(events.drop_last(), after);
        match events.last() {
            XmlEvent::Text(Some(text)) => match after {
                Some(c) => before + text@ + seq![c],
                None => before + text@,
            },
            _ => before,
        }
    }
}

/// Gathers the text of the events, as [`text_of_events`] says, with a blank
/// behind each piece.
pub fn gather_text(events: &Vec<XmlEvent>) -> (r: Vec<char>)
    ensures
        r@ == text_of_events(events@, Some(' ')),
{
    let mut out: Vec<char> = Vec::new();
    let mut i: usize = 0;
    proof {
        assert(events@.take(0) =~= Seq::<XmlEvent>::empty());
    }
    while i < events.len()
        invariant
            i <= events.len(),
            out@ == text_of_events(events@.take(i as int), Some(' ')),
        decreases events.len() - i,
    {
        proof {
            assert(events@.take(i + 1).drop_last() =~= events@.take(i as int));
        }
        match &events[i] {
            XmlEvent::Text(Some(text)) => {
                let ghost before = out@;
                append_chars(&mut out, &chars_of(text.as_str()));
                out.push(' ');
                proof {
                    assert(out@ =~= before + text@ + seq![' ']);
                }
            },
            _ => {},
        }
        i += 1;
    }
    proof {
        assert(events@.take(events@.len() as int) =~= events@);
    }
    out
}

/// What is handed out of the gathered text: nothing where none was
/// gathered, else the text without the blanks at its ends.
pub open spec fn finished_text(content: Seq<char>) -> Option<Seq<char>> {
    if content.len() == 0 {
        None
    } else {
        Some(trimmed_text(content))
    }
}

/// Computes [`finished_text`].
pub fn finish_text(content: &Vec<char>) -> (r: Option<String>)
    ensures
        match r {
            Some(text) => finished_text(content@) == Some(text@),
            None => finished_text(content@) is None,
        },
{
    if content.len() == 0 {
        None
    } else {
        Some(string_of(&trim_chars(content)))
    }
}

// ---------------------------------------------------------------------------
// Word-processor documents
// ---------------------------------------------------------------------------

/// The text of a word-processor document from the events of its main part:
/// all text, a blank behind each piece, without the blanks at the ends.
pub open spec fn docx_text(events: Seq<XmlEvent>) -> Option<Seq<char>> {
    finished_text(text_of_events(events, Some(' ')))
}

/// Computes [`docx_text`].
pub fn docx_text_from_events(events: &Vec<XmlEvent>) -> (r: Option<String>)
    ensures
        match r {
            Some(text) => docx_text(events@) == Some(text@),
            None => docx_text(events@) is None,
        },
{
    finish_text(&gather_text(events))
}

/// The events of the part `name` of the archive `file`: those that are read
/// of the bytes of the part, and none where the file is no archive or has
/// no such part.
pub open spec fn events_of_part(file: Seq<u8>, name: Seq<char>) -> Seq<EventView> {
    match zip_entry_content(file, name) {
        Some(Some(xml)) => events_read(xml),
        _ => Seq::empty(),
    }
}

/// Whether `text` is what a word-processor document gives: nothing for a
/// file that is no archive or has no main part, and else [`docx_text`] of
/// the events that are read of the main part.
pub open spec fn is_docx_text(file: Seq<u8>, text: Option<Seq<char>>) -> bool {
    match zip_entry_content(file, "word/document.xml"@) {
        Some(Some(xml)) => exists|events: Seq<XmlEvent>|
            event_views(events) == events_read(xml) && #[trigger] docx_text(events) == text,
        _ => text is None,
    }
}

/// Pulls the text out of a word-processor document, given the bytes of the
/// file. A file that is no archive or has no main part gives nothing; else
/// the result is [`docx_text`] of the events that the main part gives.
pub fn extract_docx(file: &[u8]) -> (r: Option<String>)
    ensures
        is_docx_text(file@, text_view(r)),
{
    match zip_entry(file, "word/document.xml") {
        Some(Some(xml)) => {
            let events = read_events(xml.as_slice());
            let r = docx_text_from_events(&events);
            proof {
                assert(docx_text(events@) == text_view(r));
            }
            r
        },
        _ => None,
    }
}

// ---------------------------------------------------------------------------
// Spreadsheets
// ---------------------------------------------------------------------------

/// What the reader of the shared strings holds between two events.
pub struct SharedStrings {
    /// Whether a string item is open.
    pub in_item: bool,
    /// The text gathered so far.
    pub content: Seq<char>,
}

/// Whether a name is `si`, the name of a string item.
pub open spec fn is_string_item(local_name: Seq<u8>) -> bool {
    local_name == seq![0x73u8, 0x69u8]
}

/// The reader of the shared strings after the events: a start tag `si`
/// opens an item, text within an open item is gathered, and the end of an
/// item closes it and puts a blank behind it.
pub open spec fn shared_strings(events: Seq<XmlEvent>) -> SharedStrings
    decreases events.len(),
{
    if events.len() == 0 {
        SharedStrings { in_item: false, content: Seq::empty() }
    } else {
        let before = shared_strings(events.drop_last());
        match events.last() {
            XmlEvent::Start(tag) => if is_string_item(tag.local_name@) {
                SharedStrings { in_item: true, ..before }
            } else {
                before
            },
            XmlEvent::End { name, local_name } => if is_string_item(local_name@) {
                SharedStrings { in_item: false, content: before.content.push(' ') }
            } else {
                before
            },
            XmlEvent::Text(Some(text)) => if before.in_item {
                SharedStrings { content: before.content + text@, ..before }
            } else {
                before
            },
            _ => before,
        }
    }
}

/// The text of a spreadsheet from the events of its shared strings.
pub open spec fn xlsx_text(events: Seq<XmlEvent>) -> Option<Seq<char>> {
    finished_text(shared_strings(events).content)
}

fn names_string_item(local_name: &Vec<u8>) -> (r: bool)
    ensures
        r == is_string_item(local_name@),
{
    let r = local_name.len() == 2 && local_name[0] == 0x73 && local_name[1] == 0x69;
    proof {
        if r {
            assert(local_name@ =~= seq![0x73u8, 0x69u8]);
        }
    }
    r
}

/// Computes [`xlsx_text`].
pub fn xlsx_text_from_events(events: &Vec<XmlEvent>) -> (r: Option<String>)
    ensures
        match r {
            Some(text) => xlsx_text(events@) == Some(text@),
            None => xlsx_text(events@) is None,
        },
{
    let mut in_item = false;
    let mut content: Vec<char> = Vec::new();
    let mut i: usize = 0;
    proof {
        assert(events@.take(0) =~= Seq::<XmlEvent>::empty());
    }
    while i < events.len()
        invariant
            i <= events.len(),
            in_item == shared_strings(events@.take(i as int)).in_item,
            content@ == shared_strings(events@.take(i as int)).content,
        decreases events.len() - i,
    {
        proof {
            assert(events@.take(i + 1).drop_last() =~= events@.take(i as int));
        }
        match &events[i] {
            XmlEvent::Start(tag) => {
                if names_string_item(&tag.local_name) {
                    in_item = true;
                }
            },
            XmlEvent::End { name, local_name } => {
                if names_string_item(local_name) {
                    in_item = false;
                    content.push(' ');
                }
            },
            XmlEvent::Text(Some(text)) => {
                if in_item {
                    append_chars(&mut content, &chars_of(text.as_str()));
                }
            },
            _ => {},
        }
        i += 1;
    }
    proof {
        assert(events@.take(events@.len() as int) =~= events@);
    }
    finish_text(&content)
}

/// Whether `text` is what a spreadsheet gives: nothing for a file that is
/// no archive or has no shared strings, and else [`xlsx_text`] of the
/// events that are read of the shared strings.
pub open spec fn is_xlsx_text(file: Seq<u8>, text: Option<Seq<char>>) -> bool {
    match zip_entry_content(file, "xl/sharedStrings.xml"@) {
        Some(Some(xml)) => exists|events: Seq<XmlEvent>|
            event_views(events) == events_read(xml) && #[trigger] xlsx_text(events) == text,
        _ => text is None,
    }
}

/// Pulls the text out of a spreadsheet, given the bytes of the file. A file
/// that is no archive or has no shared strings gives nothing; else the
/// result is [`xlsx_text`] of the events that the shared strings give.
pub fn extract_xlsx(file: &[u8]) -> (r: Option<String>)
    ensures
        is_xlsx_text(file@, text_view(r)),
{
    match zip_entry(file, "xl/sharedStrings.xml") {
        Some(Some(xml)) => {
            let events = read_events(xml.as_slice());
            let r = xlsx_text_from_events(&events);
            proof {
                assert(xlsx_text(events@) == text_view(r));
            }
            r
        },
        _ => None,
    }
}

// ---------------------------------------------------------------------------
// Presentations
// ---------------------------------------------------------------------------

/// The digit of a number below ten.
pub open spec fn digit_char(d: int) -> char {
    ((48 + d) as u8) as char
}

/// A number written in digits.
pub open spec fn decimal(n: nat) -> Seq<char>
    decreases n,
{
    if n < 10 {
        seq![digit_char(n as int)]
    } else {
        decimal(n / 10).push(digit_char((n % 10) as int))
    }
}

/// Writes a number in digits.
pub fn push_decimal(out: &mut Vec<char>, n: u32)
    ensures
        final(out)@ == old(out)@ + decimal(n as nat),
    decreases n,
{
    if n < 10 {
        let d: u8 = 48 + n as u8;
        out.push(d as char);
        proof {
            assert(out@ =~= old(out)@ + decimal(n as nat));
        }
    } else {
        push_decimal(out, n / 10);
        let d: u8 = 48 + (n % 10) as u8;
        out.push(d as char);
        proof {
            assert(out@ =~= old(out)@ + decimal(n as nat));
        }
    }
}

/// The name under which the archive of a presentation holds slide `n`.
pub open spec fn slide_name(n: nat) -> Seq<char> {
    "ppt/slides/slide"@ + decimal(n) + ".xml"@
}

/// Computes [`slide_name`].
pub fn slide_entry_name(n: u32) -> (r: String)
    ensures
        r@ == slide_name(n as nat),
{
    let mut name = chars_of("ppt/slides/slide");
    push_decimal(&mut name, n);
    append_chars(&mut name, &chars_of(".xml"));
    string_of(&name)
}

/// The text of one slide from its events: all text, a blank behind each
/// piece, and a line feed at the end.
pub open spec fn slide_text(events: Seq<XmlEvent>) -> Seq<char> {
    text_of_events(events, Some(' ')).push('\n')
}

/// Computes [`slide_text`].
pub fn slide_text_from_events(events: &Vec<XmlEvent>) -> (r: Vec<char>)
    ensures
        r@ == slide_text(events@),
{
    let mut text = gather_text(events);
    text.push('\n');
    text
}

/// The texts of the slides, one after the other.
pub open spec fn slides_text(slides: Seq<Vec<XmlEvent>>) -> Seq<char>
    decreases slides.len(),
{
    if slides.len() == 0 {
        Seq::empty()
    } else {
        slides_text(slides.drop_last()) + slide_text(slides.last()@)
    }
}

/// The text of a presentation from the events of its slides.
pub open spec fn pptx_text(slides: Seq<Vec<XmlEvent>>) -> Option<Seq<char>> {
    finished_text(slides_text(slides))
}

/// Computes [`pptx_text`].
pub fn pptx_text_from_slides(slides: &Vec<Vec<XmlEvent>>) -> (r: Option<String>)
    ensures
        match r {
            Some(text) => pptx_text(slides@) == Some(text@),
            None => pptx_text(slides@) is None,
        },
{
    let mut content: Vec<char> = Vec::new();
    let mut i: usize = 0;
    proof {
        assert(slides@.take(0) =~= Seq::<Vec<XmlEvent>>::empty());
    }
    while i < slides.len()
        invariant
            i <= slides.len(),
            content@ == slides_text(slides@.take(i as int)),
        decreases slides.len() - i,
    {
        proof {
            assert(slides@.take(i + 1).drop_last() =~= slides@.take(i as int));
        }
        let text = slide_text_from_events(&slides[i]);
        append_chars(&mut content, &text);
        i += 1;
    }
    proof {
        assert(slides@.take(slides@.len() as int) =~= slides@);
    }
    finish_text(&content)
}

/// The largest number of a slide that is looked for.
pub const LAST_SLIDE: u32 = 0x7FFF_FFFF;

/// Whether the archive holds slide `n`.
pub open spec fn has_slide(file: Seq<u8>, n: nat) -> bool {
    zip_entry_content(file, slide_name(n)) matches Some(Some(_))
}

/// Whether `slides` are the slides of the presentation `file`: the events
/// that are read of slide 1, of slide 2 and so on, up to the first number
/// that the archive has no slide of.
pub open spec fn are_slides_of(slides: Seq<Vec<XmlEvent>>, file: Seq<u8>) -> bool {
    &&& slides.len() <= LAST_SLIDE
    &&& forall|n: nat| 1 <= n <= slides.len() ==> has_slide(file, n)
    &&& forall|n: nat|
        1 <= n <= slides.len() ==> event_views(#[trigger] slides[n - 1]@) == events_of_part(
            file,
            slide_name(n),
        )
    &&& slides.len() < LAST_SLIDE ==> !has_slide(file, (slides.len() + 1) as nat)
}

/// The events of the slides of a presentation, given the bytes of the
/// file: those of slide 1, slide 2 and so on, up to the first number that
/// the archive has no slide of.
pub fn read_slides(file: &[u8]) -> (r: Vec<Vec<XmlEvent>>)
    ensures
        are_slides_of(r@, file@),
{
    let mut slides: Vec<Vec<XmlEvent>> = Vec::new();
    let mut read: u32 = 0;
    while read < LAST_SLIDE
        invariant
            read <= LAST_SLIDE,
            read == slides.len(),
            forall|n: nat| 1 <= n <= read ==> has_slide(file@, n),
            forall|n: nat|
                1 <= n <= read ==> event_views(#[trigger] slides@[n - 1]@) == events_of_part(
                    file@,
                    slide_name(n),
                ),
        ensures
            read == slides.len(),
            read <= LAST_SLIDE,
            forall|n: nat| 1 <= n <= read ==> has_slide(file@, n),
            forall|n: nat|
                1 <= n <= read ==> event_views(#[trigger] slides@[n - 1]@) == events_of_part(
                    file@,
                    slide_name(n),
                ),
            read < LAST_SLIDE ==> !has_slide(file@, (read + 1) as nat),
        decreases LAST_SLIDE - read,
    {
        let name = slide_entry_name(read + 1);
        match zip_entry(file, name.as_str()) {
            Some(Some(xml)) => {
                slides.push(read_events(xml.as_slice()));
                read = read + 1;
            },
            _ => {
                break ;
            },
        }
    }
    slides
}

/// Whether `text` is what a presentation gives: [`pptx_text`] of the
/// events that are read of its slides, one list for each slide that the
/// archive holds without a gap from slide 1 on.
pub open spec fn is_pptx_text(file: Seq<u8>, text: Option<Seq<char>>) -> bool {
    exists|slides: Seq<Vec<XmlEvent>>|
        are_slides_of(slides, file) && #[trigger] pptx_text(slides) == text
}

/// Pulls the text out of a presentation, given the bytes of the file: the
/// result is [`pptx_text`] of the events that its slides give. A file
/// without a first slide gives nothing.
pub fn extract_pptx(file: &[u8]) -> (r: Option<String>)
    ensures
        is_pptx_text(file@, text_view(r)),
        !has_slide(file@, 1) ==> r is None,
{
    let slides = read_slides(file);
    let r = pptx_text_from_slides(&slides);
    proof {
        assert(pptx_text(slides@) == text_view(r));
        if !has_slide(file@, 1) {
            assert(slides@.len() == 0);
        }
    }
    r
}

} // verus!
