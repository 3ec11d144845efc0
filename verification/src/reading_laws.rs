//! What is read of a document is one thing.
//!
//! The readers say of their result that it is made of events whose values
//! are those that the reader of XML gives. Here it is shown that the
//! result depends on those values alone, so that a file has one text and
//! one structure.

use vstd::prelude::*;
use crate::archive::zip_entry_content;
use crate::office::{
    are_slides_of, docx_text, has_slide, is_docx_text, is_pptx_text, is_xlsx_text, pptx_text,
    shared_strings, slide_text, slides_text, text_of_events, xlsx_text,
};
use crate::docx::{
    after_close, after_event, after_events, after_open, count_values, docx_sections, kind_by_style,
    last_colour, last_value, style_level, DocxState, StyleInfo,
};
use crate::extract::is_content;
use crate::structured::{
    are_styles_of, docx_document, is_docx_document, is_made_of_parts, is_pptx_document,
    is_structured_content, pptx_document, pptx_sections, properties_state, slide_state,
    style_views, styles_state, DocumentView,
};
use crate::content::SectionView;
use crate::xml::{attribute_views, event_views, events_read, XmlAttribute, XmlEvent, XmlTag};

verus! {

// ---------------------------------------------------------------------------
// Events of the same values
// ---------------------------------------------------------------------------

/// Lists of events of the same values are as long as each other, their last
/// events have the same value, and what stands before them has the same
/// values again.
pub proof fn lemma_same_values_step(a: Seq<XmlEvent>, b: Seq<XmlEvent>)
    requires
        event_views(a) == event_views(b),
        a.len() > 0,
    ensures
        b.len() == a.len(),
        a.last()@ == b.last()@,
        event_views(a.drop_last()) == event_views(b.drop_last()),
{
    assert(event_views(a).len() == a.len());
    assert(event_views(b).len() == b.len());
    assert(event_views(a)[a.len() - 1] == a.last()@);
    assert(event_views(b)[b.len() - 1] == b.last()@);
    assert(event_views(a.drop_last()) =~= event_views(a).drop_last());
    assert(event_views(b.drop_last()) =~= event_views(b).drop_last());
}

// ---------------------------------------------------------------------------
// Text
// ---------------------------------------------------------------------------

/// The text of events depends on their values alone.
pub proof fn lemma_text_of_same_values(a: Seq<XmlEvent>, b: Seq<XmlEvent>, after: Option<char>)
    requires
        event_views(a) == event_views(b),
    ensures
        text_of_events(a, after) == text_of_events(b, after),
    decreases a.len(),
{
    assert(event_views(a).len() == a.len());
    assert(event_views(b).len() == b.len());
    if a.len() > 0 {
        lemma_same_values_step(a, b);
        lemma_text_of_same_values(a.drop_last(), b.drop_last(), after);
    }
}

/// The shared strings of events depend on their values alone.
pub proof fn lemma_shared_strings_of_same_values(a: Seq<XmlEvent>, b: Seq<XmlEvent>)
    requires
        event_views(a) == event_views(b),
    ensures
        shared_strings(a) == shared_strings(b),
    decreases a.len(),
{
    assert(event_views(a).len() == a.len());
    assert(event_views(b).len() == b.len());
    if a.len() > 0 {
        lemma_same_values_step(a, b);
        lemma_shared_strings_of_same_values(a.drop_last(), b.drop_last());
    }
}

/// Two lists of slides of one file are as long as each other.
pub proof fn lemma_slides_are_as_many(a: Seq<Vec<XmlEvent>>, b: Seq<Vec<XmlEvent>>, file: Seq<u8>)
    requires
        are_slides_of(a, file),
        are_slides_of(b, file),
    ensures
        a.len() == b.len(),
{
    if a.len() < b.len() {
        assert(has_slide(file, (a.len() + 1) as nat));
    }
    if b.len() < a.len() {
        assert(has_slide(file, (b.len() + 1) as nat));
    }
}

/// The text of slides depends on the values of their events alone.
pub proof fn lemma_slides_text_of_same_values(a: Seq<Vec<XmlEvent>>, b: Seq<Vec<XmlEvent>>)
    requires
        a.len() == b.len(),
        forall|i: int| 0 <= i < a.len() ==> event_views(a[i]@) == event_views(b[i]@),
    ensures
        slides_text(a) == slides_text(b),
    decreases a.len(),
{
    if a.len() > 0 {
        lemma_slides_text_of_same_values(a.drop_last(), b.drop_last());
        lemma_text_of_same_values(a.last()@, b.last()@, Some(' '));
        assert(slide_text(a.last()@) == slide_text(b.last()@));
    }
}

/// The slides of one file have events of the same values, slide by slide.
pub proof fn lemma_slides_have_same_values(
    a: Seq<Vec<XmlEvent>>,
    b: Seq<Vec<XmlEvent>>,
    file: Seq<u8>,
)
    requires
        are_slides_of(a, file),
        are_slides_of(b, file),
    ensures
        a.len() == b.len(),
        forall|i: int| 0 <= i < a.len() ==> event_views(a[i]@) == event_views(b[i]@),
{
    lemma_slides_are_as_many(a, b, file);
    assert forall|i: int| 0 <= i < a.len() implies event_views(a[i]@) == event_views(b[i]@) by {
        let n = (i + 1) as nat;
        assert(a[n - 1] == a[i]);
        assert(b[n - 1] == b[i]);
    }
}

/// A word-processor document has one text.
pub proof fn law_one_docx_text(file: Seq<u8>, first: Option<Seq<char>>, second: Option<Seq<char>>)
    requires
        is_docx_text(file, first),
        is_docx_text(file, second),
    ensures
        first == second,
{
    match zip_entry_content(file, "word/document.xml"@) {
        Some(Some(xml)) => {
            let a = choose|events: Seq<XmlEvent>|
                event_views(events) == events_read(xml) && #[trigger] docx_text(events) == first;
            let b = choose|events: Seq<XmlEvent>|
                event_views(events) == events_read(xml) && #[trigger] docx_text(events) == second;
            lemma_text_of_same_values(a, b, Some(' '));
        },
        _ => {},
    }
}

/// A spreadsheet has one text.
pub proof fn law_one_xlsx_text(file: Seq<u8>, first: Option<Seq<char>>, second: Option<Seq<char>>)
    requires
        is_xlsx_text(file, first),
        is_xlsx_text(file, second),
    ensures
        first == second,
{
    match zip_entry_content(file, "xl/sharedStrings.xml"@) {
        Some(Some(xml)) => {
            let a = choose|events: Seq<XmlEvent>|
                event_views(events) == events_read(xml) && #[trigger] xlsx_text(events) == first;
            let b = choose|events: Seq<XmlEvent>|
                event_views(events) == events_read(xml) && #[trigger] xlsx_text(events) == second;
            lemma_shared_strings_of_same_values(a, b);
        },
        _ => {},
    }
}

/// A presentation has one text.
pub proof fn law_one_pptx_text(file: Seq<u8>, first: Option<Seq<char>>, second: Option<Seq<char>>)
    requires
        is_pptx_text(file, first),
        is_pptx_text(file, second),
    ensures
        first == second,
{
    let a = choose|slides: Seq<Vec<XmlEvent>>|
        are_slides_of(slides, file) && #[trigger] pptx_text(slides) == first;
    let b = choose|slides: Seq<Vec<XmlEvent>>|
        are_slides_of(slides, file) && #[trigger] pptx_text(slides) == second;
    lemma_slides_have_same_values(a, b, file);
    lemma_slides_text_of_same_values(a, b);
}

// ---------------------------------------------------------------------------
// Attributes and styles
// ---------------------------------------------------------------------------

/// Lists of attributes of the same values are as long as each other, their
/// last attributes have the same value, and what stands before them has the
/// same values again.
pub proof fn lemma_same_attributes_step(
    a: Seq<Option<XmlAttribute>>,
    b: Seq<Option<XmlAttribute>>,
)
    requires
        attribute_views(a) == attribute_views(b),
        a.len() > 0,
    ensures
        b.len() == a.len(),
        a.last() is Some <==> b.last() is Some,
        a.last() is Some ==> a.last()->0@ == b.last()->0@,
        attribute_views(a.drop_last()) == attribute_views(b.drop_last()),
{
    assert(attribute_views(a).len() == a.len());
    assert(attribute_views(b).len() == b.len());
    let last_a = attribute_views(a)[a.len() - 1];
    let last_b = attribute_views(b)[b.len() - 1];
    assert(last_a == last_b);
    assert(attribute_views(a.drop_last()) =~= attribute_views(a).drop_last());
    assert(attribute_views(b.drop_last()) =~= attribute_views(b).drop_last());
}

/// The value under a key depends on the values of the attributes alone.
pub proof fn lemma_last_value_of_same_values(
    a: Seq<Option<XmlAttribute>>,
    b: Seq<Option<XmlAttribute>>,
    key: Seq<char>,
)
    requires
        attribute_views(a) == attribute_views(b),
    ensures
        last_value(a, key) == last_value(b, key),
    decreases a.len(),
{
    assert(attribute_views(a).len() == a.len());
    assert(attribute_views(b).len() == b.len());
    if a.len() > 0 {
        lemma_same_attributes_step(a, b);
        lemma_last_value_of_same_values(a.drop_last(), b.drop_last(), key);
    }
}

/// How often a key has a value depends on the values of the attributes
/// alone.
pub proof fn lemma_count_values_of_same_values(
    a: Seq<Option<XmlAttribute>>,
    b: Seq<Option<XmlAttribute>>,
    key: Seq<char>,
    value: Seq<char>,
)
    requires
        attribute_views(a) == attribute_views(b),
    ensures
        count_values(a, key, value) == count_values(b, key, value),
    decreases a.len(),
{
    assert(attribute_views(a).len() == a.len());
    assert(attribute_views(b).len() == b.len());
    if a.len() > 0 {
        lemma_same_attributes_step(a, b);
        lemma_count_values_of_same_values(a.drop_last(), b.drop_last(), key, value);
    }
}

/// The colour of a highlight depends on the values of the attributes alone.
pub proof fn lemma_last_colour_of_same_values(
    a: Seq<Option<XmlAttribute>>,
    b: Seq<Option<XmlAttribute>>,
)
    requires
        attribute_views(a) == attribute_views(b),
    ensures
        last_colour(a) == last_colour(b),
    decreases a.len(),
{
    assert(attribute_views(a).len() == a.len());
    assert(attribute_views(b).len() == b.len());
    if a.len() > 0 {
        lemma_same_attributes_step(a, b);
        lemma_last_colour_of_same_values(a.drop_last(), b.drop_last());
    }
}

/// The level of a style depends on the values of the styles alone.
pub proof fn lemma_style_level_of_same_values(a: Seq<StyleInfo>, b: Seq<StyleInfo>, id: Seq<char>)
    requires
        style_views(a) == style_views(b),
    ensures
        style_level(a, id) == style_level(b, id),
    decreases a.len(),
{
    assert(style_views(a).len() == a.len());
    assert(style_views(b).len() == b.len());
    if a.len() > 0 {
        let last_a = style_views(a)[a.len() - 1];
        let last_b = style_views(b)[b.len() - 1];
        assert(last_a == last_b);
        assert(style_views(a.drop_last()) =~= style_views(a).drop_last());
        assert(style_views(b.drop_last()) =~= style_views(b).drop_last());
        lemma_style_level_of_same_values(a.drop_last(), b.drop_last(), id);
    }
}

// ---------------------------------------------------------------------------
// Word-processor documents
// ---------------------------------------------------------------------------

/// What a tag does to the reader depends on the value of the tag alone.
pub proof fn lemma_after_open_of_same_values(state: DocxState, a: XmlTag, b: XmlTag)
    requires
        a@ == b@,
    ensures
        after_open(state, a) == after_open(state, b),
{
    lemma_last_value_of_same_values(a.attributes@, b.attributes@, "val"@);
    lemma_count_values_of_same_values(a.attributes@, b.attributes@, "val"@, "false"@);
    lemma_count_values_of_same_values(a.attributes@, b.attributes@, "val"@, "0"@);
    lemma_count_values_of_same_values(a.attributes@, b.attributes@, "val"@, "none"@);
    lemma_count_values_of_same_values(a.attributes@, b.attributes@, "type"@, "page"@);
    lemma_last_colour_of_same_values(a.attributes@, b.attributes@);
}

/// What the end of an element does to the reader depends on the values of
/// the styles alone.
pub proof fn lemma_after_close_of_same_values(
    state: DocxState,
    name: Seq<u8>,
    a: Seq<StyleInfo>,
    b: Seq<StyleInfo>,
)
    requires
        style_views(a) == style_views(b),
    ensures
        after_close(state, name, a) == after_close(state, name, b),
{
    if state.paragraph_style is Some {
        lemma_style_level_of_same_values(a, b, state.paragraph_style->0);
    }
    assert(kind_by_style(a, state.paragraph_style) == kind_by_style(b, state.paragraph_style));
}

/// What an event does to the reader depends on the value of the event and
/// on the values of the styles alone.
pub proof fn lemma_after_event_of_same_values(
    state: DocxState,
    a: XmlEvent,
    b: XmlEvent,
    styles_a: Seq<StyleInfo>,
    styles_b: Seq<StyleInfo>,
)
    requires
        a@ == b@,
        style_views(styles_a) == style_views(styles_b),
    ensures
        after_event(state, a, styles_a) == after_event(state, b, styles_b),
{
    match (a, b) {
        (XmlEvent::Start(s), XmlEvent::Start(t)) => {
            lemma_after_open_of_same_values(state, s, t);
        },
        (XmlEvent::Empty(s), XmlEvent::Empty(t)) => {
            lemma_after_open_of_same_values(state, s, t);
        },
        (XmlEvent::End { local_name, .. }, XmlEvent::End { .. }) => {
            lemma_after_close_of_same_values(state, local_name@, styles_a, styles_b);
        },
        _ => {},
    }
}

/// The sections of a document depend on the values of its events and of
/// its styles alone.
pub proof fn lemma_sections_of_same_values(
    a: Seq<XmlEvent>,
    b: Seq<XmlEvent>,
    styles_a: Seq<StyleInfo>,
    styles_b: Seq<StyleInfo>,
)
    requires
        event_views(a) == event_views(b),
        style_views(styles_a) == style_views(styles_b),
    ensures
        after_events(a, styles_a) == after_events(b, styles_b),
        docx_sections(a, styles_a) == docx_sections(b, styles_b),
    decreases a.len(),
{
    assert(event_views(a).len() == a.len());
    assert(event_views(b).len() == b.len());
    if a.len() > 0 {
        lemma_same_values_step(a, b);
        lemma_sections_of_same_values(a.drop_last(), b.drop_last(), styles_a, styles_b);
        lemma_after_event_of_same_values(
            after_events(a.drop_last(), styles_a),
            a.last(),
            b.last(),
            styles_a,
            styles_b,
        );
    }
}

/// The styles that events give depend on the values of the events alone.
pub proof fn lemma_styles_of_same_values(a: Seq<XmlEvent>, b: Seq<XmlEvent>)
    requires
        event_views(a) == event_views(b),
    ensures
        styles_state(a) == styles_state(b),
    decreases a.len(),
{
    assert(event_views(a).len() == a.len());
    assert(event_views(b).len() == b.len());
    if a.len() > 0 {
        lemma_same_values_step(a, b);
        lemma_styles_of_same_values(a.drop_last(), b.drop_last());
        match (a.last(), b.last()) {
            (XmlEvent::Start(s), XmlEvent::Start(t)) => {
                lemma_last_value_of_same_values(s.attributes@, t.attributes@, "styleId"@);
                lemma_last_value_of_same_values(s.attributes@, t.attributes@, "val"@);
            },
            (XmlEvent::Empty(s), XmlEvent::Empty(t)) => {
                lemma_last_value_of_same_values(s.attributes@, t.attributes@, "styleId"@);
                lemma_last_value_of_same_values(s.attributes@, t.attributes@, "val"@);
            },
            _ => {},
        }
    }
}

/// The metadata that events give depend on the values of the events alone.
pub proof fn lemma_properties_of_same_values(a: Seq<XmlEvent>, b: Seq<XmlEvent>)
    requires
        event_views(a) == event_views(b),
    ensures
        properties_state(a) == properties_state(b),
    decreases a.len(),
{
    assert(event_views(a).len() == a.len());
    assert(event_views(b).len() == b.len());
    if a.len() > 0 {
        lemma_same_values_step(a, b);
        lemma_properties_of_same_values(a.drop_last(), b.drop_last());
    }
}

/// A word-processor document has one structure.
pub proof fn law_one_docx_document(
    file: Seq<u8>,
    first: Option<DocumentView>,
    second: Option<DocumentView>,
)
    requires
        is_docx_document(file, first),
        is_docx_document(file, second),
    ensures
        first == second,
{
    if zip_entry_content(file, "word/document.xml"@) is Some {
        let (main_a, listed_a, styles_a, properties_a) = choose|
            main: Seq<XmlEvent>,
            listed: Seq<XmlEvent>,
            styles: Seq<StyleInfo>,
            properties: Seq<XmlEvent>,
        |
            is_made_of_parts(first, file, main, listed, styles, properties);
        let (main_b, listed_b, styles_b, properties_b) = choose|
            main: Seq<XmlEvent>,
            listed: Seq<XmlEvent>,
            styles: Seq<StyleInfo>,
            properties: Seq<XmlEvent>,
        |
            is_made_of_parts(second, file, main, listed, styles, properties);
        lemma_styles_of_same_values(listed_a, listed_b);
        assert(are_styles_of(styles_a, listed_a));
        assert(are_styles_of(styles_b, listed_b));
        lemma_sections_of_same_values(main_a, main_b, styles_a, styles_b);
        lemma_properties_of_same_values(properties_a, properties_b);
        assert(docx_document(main_a, styles_a, properties_a) == docx_document(
            main_b,
            styles_b,
            properties_b,
        ));
    }
}

// ---------------------------------------------------------------------------
// Presentations
// ---------------------------------------------------------------------------

/// The paragraphs of a slide depend on the values of its events alone.
pub proof fn lemma_slide_of_same_values(
    a: Seq<XmlEvent>,
    b: Seq<XmlEvent>,
    before: Seq<SectionView>,
)
    requires
        event_views(a) == event_views(b),
    ensures
        slide_state(a, before) == slide_state(b, before),
    decreases a.len(),
{
    assert(event_views(a).len() == a.len());
    assert(event_views(b).len() == b.len());
    if a.len() > 0 {
        lemma_same_values_step(a, b);
        lemma_slide_of_same_values(a.drop_last(), b.drop_last(), before);
    }
}

/// The sections of a presentation depend on the values of the events of
/// its slides alone.
pub proof fn lemma_slides_of_same_values(a: Seq<Vec<XmlEvent>>, b: Seq<Vec<XmlEvent>>)
    requires
        a.len() == b.len(),
        forall|i: int| 0 <= i < a.len() ==> event_views(a[i]@) == event_views(b[i]@),
    ensures
        pptx_sections(a) == pptx_sections(b),
    decreases a.len(),
{
    if a.len() > 0 {
        lemma_slides_of_same_values(a.drop_last(), b.drop_last());
        lemma_slide_of_same_values(
            a.last()@,
            b.last()@,
            pptx_sections(a.drop_last()).push(crate::structured::slide_break(a.len() as u32)),
        );
    }
}

/// A presentation has one structure.
pub proof fn law_one_pptx_document(
    file: Seq<u8>,
    first: Option<DocumentView>,
    second: Option<DocumentView>,
)
    requires
        is_pptx_document(file, first),
        is_pptx_document(file, second),
    ensures
        first == second,
{
    if zip_entry_content(file, crate::structured::slide_name_one()) is Some {
        let a = choose|slides: Seq<Vec<XmlEvent>>|
            are_slides_of(slides, file) && first == Some(#[trigger] pptx_document(slides));
        let b = choose|slides: Seq<Vec<XmlEvent>>|
            are_slides_of(slides, file) && second == Some(#[trigger] pptx_document(slides));
        lemma_slides_have_same_values(a, b, file);
        lemma_slides_of_same_values(a, b);
    }
}

// ---------------------------------------------------------------------------
// Any kind of document
// ---------------------------------------------------------------------------

/// A file has one text under an extension.
pub proof fn law_one_content(
    file: Seq<u8>,
    ext: Seq<char>,
    first: Option<Seq<char>>,
    second: Option<Seq<char>>,
)
    requires
        is_content(file, ext, first),
        is_content(file, ext, second),
    ensures
        first == second,
{
    if ext == "txt"@ || ext == "md"@ || ext == "doc"@ {
    } else if ext == "docx"@ {
        law_one_docx_text(file, first, second);
    } else if ext == "pptx"@ {
        law_one_pptx_text(file, first, second);
    } else if ext == "xlsx"@ {
        law_one_xlsx_text(file, first, second);
    }
}

/// A file has one structure under an extension.
pub proof fn law_one_structured_content(
    file: Seq<u8>,
    ext: Seq<char>,
    first: Option<DocumentView>,
    second: Option<DocumentView>,
)
    requires
        is_structured_content(file, ext, first),
        is_structured_content(file, ext, second),
    ensures
        first == second,
{
    if ext == "docx"@ {
        law_one_docx_document(file, first, second);
    } else if ext == "doc"@ {
    } else if ext == "pptx"@ {
        law_one_pptx_document(file, first, second);
    }
}

} // verus!
