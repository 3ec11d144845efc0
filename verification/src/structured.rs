//! Documents of every kind taken apart for showing them.

use vstd::prelude::*;
use crate::archive::{zip_entry, zip_entry_content};
use crate::content::{
    opt_text, section_view, section_views, ContentSection, DocumentContent, DocumentMetadata,
    SectionKind, SectionType, SectionView,
};
use crate::doc::{doc_text, extract_doc};
use crate::doc_text::{trim_chars, trimmed_text};
use crate::docx::{
    docx_sections, is_name, last_attribute, last_value, names, parse_document_events, StyleInfo,
};
use crate::encodings::{decode_utf8_lossy, lossy_utf8_text};
use crate::extract::{extension_for_reading, extract_text, plain_text, reading_extension};
use crate::headings::{detect_heading_level, heading_level};
use crate::office::{are_slides_of, events_of_part, slide_entry_name, text_view, LAST_SLIDE};
use crate::text::{
    append_chars, chars_are_blank, chars_of, is_blank, same_chars, string_of,
};
use crate::xml::{event_views, read_events, XmlEvent};

verus! {

// ---------------------------------------------------------------------------
// Views
// ---------------------------------------------------------------------------

/// A [`DocumentMetadata`] as a mathematical value.
pub struct MetadataView {
    pub title: Option<Seq<char>>,
    pub author: Option<Seq<char>>,
    pub created: Option<Seq<char>>,
    pub modified: Option<Seq<char>>,
    pub page_count: Option<usize>,
    pub slide_count: Option<usize>,
    pub sheet_count: Option<usize>,
}

impl MetadataView {
    /// Nothing known.
    pub open spec fn none() -> MetadataView {
        MetadataView {
            title: None,
            author: None,
            created: None,
            modified: None,
            page_count: None,
            slide_count: None,
            sheet_count: None,
        }
    }
}

impl View for DocumentMetadata {
    type V = MetadataView;

    open spec fn view(&self) -> MetadataView {
        MetadataView {
            title: opt_text(self.title),
            author: opt_text(self.author),
            created: opt_text(self.created),
            modified: opt_text(self.modified),
            page_count: self.page_count,
            slide_count: self.slide_count,
            sheet_count: self.sheet_count,
        }
    }
}

/// A [`DocumentContent`] as a mathematical value.
pub struct DocumentView {
    pub doc_type: Seq<char>,
    pub sections: Seq<SectionView>,
    pub metadata: MetadataView,
}

impl View for DocumentContent {
    type V = DocumentView;

    open spec fn view(&self) -> DocumentView {
        DocumentView {
            doc_type: self.doc_type@,
            sections: section_views(self.sections@),
            metadata: self.metadata@,
        }
    }
}

/// A document that may be missing, as a mathematical value.
pub open spec fn document_view(document: Option<DocumentContent>) -> Option<DocumentView> {
    match document {
        Some(d) => Some(d@),
        None => None,
    }
}

// ---------------------------------------------------------------------------
// The styles of a word-processor document
// ---------------------------------------------------------------------------

/// What the reader of the styles holds between two events.
pub struct StylesState {
    pub in_style: bool,
    pub id: Seq<char>,
    pub name: Seq<char>,
    pub styles: Seq<StyleView>,
}

/// A [`StyleInfo`] as a mathematical value.
pub struct StyleView {
    pub id: Seq<char>,
    pub name: Seq<char>,
    pub heading_level: Option<u8>,
}

/// The styles as mathematical values.
pub open spec fn style_views(styles: Seq<StyleInfo>) -> Seq<StyleView> {
    Seq::new(
        styles.len(),
        |i: int|
            StyleView {
                id: styles[i].id@,
                name: styles[i].name@,
                heading_level: styles[i].heading_level,
            },
    )
}

/// The reader of the styles after an event. A tag `style` opens a style
/// and may give its id; within a style a tag `name` may give its name; and
/// the end of a style files it, with the level of heading that id and name
/// stand for, unless it has no id.
pub open spec fn styles_after(state: StylesState, event: XmlEvent) -> StylesState {
    match event {
        XmlEvent::Start(tag) | XmlEvent::Empty(tag) => if is_name(tag.local_name@, "style"@) {
            StylesState {
                in_style: true,
                id: match last_value(tag.attributes@, "styleId"@) {
                    Some(v) => lossy_utf8_text(v),
                    None => state.id,
                },
                ..state
            }
        } else if is_name(tag.local_name@, "name"@) && state.in_style {
            StylesState {
                name: match last_value(tag.attributes@, "val"@) {
                    Some(v) => lossy_utf8_text(v),
                    None => state.name,
                },
                ..state
            }
        } else {
            state
        },
        XmlEvent::End { name, local_name } => if is_name(local_name@, "style"@) && state.in_style {
            StylesState {
                in_style: false,
                id: Seq::empty(),
                name: Seq::empty(),
                styles: if state.id.len() > 0 {
                    state.styles.push(
                        StyleView {
                            id: state.id,
                            name: state.name,
                            heading_level: heading_level(state.id, state.name),
                        },
                    )
                } else {
                    state.styles
                },
            }
        } else {
            state
        },
        _ => state,
    }
}

/// The reader of the styles after the events.
pub open spec fn styles_state(events: Seq<XmlEvent>) -> StylesState
    decreases events.len(),
{
    if events.len() == 0 {
        StylesState {
            in_style: false,
            id: Seq::empty(),
            name: Seq::empty(),
            styles: Seq::empty(),
        }
    } else {
        styles_after(styles_state(events.drop_last()), events.last())
    }
}

/// Reads the styles off the events of the styles part.
pub fn parse_styles(events: &Vec<XmlEvent>) -> (r: Vec<StyleInfo>)
    ensures
        style_views(r@) == styles_state(events@).styles,
{
    let mut styles: Vec<StyleInfo> = Vec::new();
    let mut in_style = false;
    let mut id: String = String::new();
    let mut name: String = String::new();
    let mut i: usize = 0;
    proof {
        assert(events@.take(0) =~= Seq::<XmlEvent>::empty());
        assert(style_views(styles@) =~= Seq::<StyleView>::empty());
    }
    while i < events.len()
        invariant
            i <= events.len(),
            styles_state(events@.take(i as int)) == (StylesState {
                in_style,
                id: id@,
                name: name@,
                styles: style_views(styles@),
            }),
        decreases events.len() - i,
    {
        proof {
            assert(events@.take(i + 1).drop_last() =~= events@.take(i as int));
        }
        match &events[i] {
            XmlEvent::Start(tag) | XmlEvent::Empty(tag) => {
                if names(&tag.local_name, "style") {
                    in_style = true;
                    match last_attribute(&tag.attributes, "styleId") {
                        Some(v) => {
                            id = v;
                        },
                        None => {},
                    }
                } else if names(&tag.local_name, "name") && in_style {
                    match last_attribute(&tag.attributes, "val") {
                        Some(v) => {
                            name = v;
                        },
                        None => {},
                    }
                }
            },
            XmlEvent::End { name: _, local_name } => {
                if names(local_name, "style") && in_style {
                    if !id.as_str().is_empty() {
                        let level = detect_heading_level(id.as_str(), name.as_str());
                        let ghost before = style_views(styles@);
                        let ghost filed = StyleView {
                            id: id@,
                            name: name@,
                            heading_level: level,
                        };
                        styles.push(StyleInfo { id, name, heading_level: level });
                        proof {
                            assert(style_views(styles@) =~= before.push(filed));
                        }
                    }
                    id = String::new();
                    name = String::new();
                    in_style = false;
                }
            },
            _ => {},
        }
        i += 1;
    }
    proof {
        assert(events@.take(events@.len() as int) =~= events@);
    }
    styles
}

// ---------------------------------------------------------------------------
// The metadata of a word-processor document
// ---------------------------------------------------------------------------

/// What the reader of the properties holds between two events: the name of
/// the element that was opened last, and what is known so far.
pub struct PropertiesState {
    pub element: Seq<char>,
    pub metadata: MetadataView,
}

/// The reader of the properties after an event: a start tag names the
/// element, and a text is the title, the author, or the day of making or
/// of change, where the element is `title`, `creator`, `created` or
/// `modified`.
pub open spec fn properties_after(state: PropertiesState, event: XmlEvent) -> PropertiesState {
    match event {
        XmlEvent::Start(tag) => PropertiesState {
            element: lossy_utf8_text(tag.local_name@),
            ..state
        },
        XmlEvent::Text(Some(text)) => if state.element == "title"@ {
            PropertiesState {
                metadata: MetadataView { title: Some(text@), ..state.metadata },
                ..state
            }
        } else if state.element == "creator"@ {
            PropertiesState {
                metadata: MetadataView { author: Some(text@), ..state.metadata },
                ..state
            }
        } else if state.element == "created"@ {
            PropertiesState {
                metadata: MetadataView { created: Some(text@), ..state.metadata },
                ..state
            }
        } else if state.element == "modified"@ {
            PropertiesState {
                metadata: MetadataView { modified: Some(text@), ..state.metadata },
                ..state
            }
        } else {
            state
        },
        _ => state,
    }
}

/// The reader of the properties after the events.
pub open spec fn properties_state(events: Seq<XmlEvent>) -> PropertiesState
    decreases events.len(),
{
    if events.len() == 0 {
        PropertiesState { element: Seq::empty(), metadata: MetadataView::none() }
    } else {
        properties_after(properties_state(events.drop_last()), events.last())
    }
}

/// Reads the metadata off the events of the properties part.
pub fn parse_metadata(events: &Vec<XmlEvent>) -> (r: DocumentMetadata)
    ensures
        r@ == properties_state(events@).metadata,
{
    let mut metadata = DocumentMetadata::default();
    let mut element: Vec<char> = Vec::new();
    let mut i: usize = 0;
    proof {
        assert(events@.take(0) =~= Seq::<XmlEvent>::empty());
    }
    while i < events.len()
        invariant
            i <= events.len(),
            properties_state(events@.take(i as int)) == (PropertiesState {
                element: element@,
                metadata: metadata@,
            }),
        decreases events.len() - i,
    {
        proof {
            assert(events@.take(i + 1).drop_last() =~= events@.take(i as int));
        }
        match &events[i] {
            XmlEvent::Start(tag) => {
                element = chars_of(decode_utf8_lossy(tag.local_name.as_slice()).as_str());
            },
            XmlEvent::Text(Some(text)) => {
                if same_chars(&element, &chars_of("title")) {
                    metadata.title = Some(text.clone());
                } else if same_chars(&element, &chars_of("creator")) {
                    metadata.author = Some(text.clone());
                } else if same_chars(&element, &chars_of("created")) {
                    metadata.created = Some(text.clone());
                } else if same_chars(&element, &chars_of("modified")) {
                    metadata.modified = Some(text.clone());
                }
            },
            _ => {},
        }
        i += 1;
    }
    proof {
        assert(events@.take(events@.len() as int) =~= events@);
    }
    metadata
}

// ---------------------------------------------------------------------------
// Word-processor documents
// ---------------------------------------------------------------------------

/// The events of a part of an archive, if the archive has the part.
fn part_events(file: &[u8], name: &str) -> (r: Vec<XmlEvent>)
    ensures
        event_views(r@) == events_of_part(file@, name@),
{
    match zip_entry(file, name) {
        Some(Some(xml)) => read_events(xml.as_slice()),
        _ => {
            let none: Vec<XmlEvent> = Vec::new();
            proof {
                assert(event_views(none@) =~= Seq::empty());
            }
            none
        },
    }
}

/// Whether `styles` are the styles that the events `listed` of a styles
/// part give.
pub open spec fn are_styles_of(styles: Seq<StyleInfo>, listed: Seq<XmlEvent>) -> bool {
    style_views(styles) == styles_state(listed).styles
}

/// Whether `document` is made of the parts of the archive `file`: of the
/// events `main` of its main part, the styles that the events `listed` of
/// its styles part give, and the events `properties` of its properties. The
/// events of a part are those that are read of it; a part that the archive
/// does not have gives no events.
pub open spec fn is_made_of_parts(
    document: Option<DocumentView>,
    file: Seq<u8>,
    main: Seq<XmlEvent>,
    listed: Seq<XmlEvent>,
    styles: Seq<StyleInfo>,
    properties: Seq<XmlEvent>,
) -> bool {
    &&& event_views(main) == events_of_part(file, "word/document.xml"@)
    &&& event_views(listed) == events_of_part(file, "word/styles.xml"@)
    &&& event_views(properties) == events_of_part(file, "docProps/core.xml"@)
    &&& are_styles_of(styles, listed)
    &&& document == docx_document(main, styles, properties)
}

/// Whether `document` is what a word-processor document gives: nothing for
/// a file that is no archive, and else the sections that the events of the
/// main part give under the styles that the events of the styles part
/// give, with the metadata that the events of the properties give; and
/// nothing where there are no sections.
pub open spec fn is_docx_document(file: Seq<u8>, document: Option<DocumentView>) -> bool {
    if zip_entry_content(file, "word/document.xml"@) is None {
        document is None
    } else {
        exists|
            main: Seq<XmlEvent>,
            listed: Seq<XmlEvent>,
            styles: Seq<StyleInfo>,
            properties: Seq<XmlEvent>,
        |
            is_made_of_parts(document, file, main, listed, styles, properties)
    }
}

/// The document that the events of the three parts give.
pub open spec fn docx_document(
    main: Seq<XmlEvent>,
    styles: Seq<StyleInfo>,
    properties: Seq<XmlEvent>,
) -> Option<DocumentView> {
    if docx_sections(main, styles).len() == 0 {
        None
    } else {
        Some(
            DocumentView {
                doc_type: "word"@,
                sections: docx_sections(main, styles),
                metadata: properties_state(properties).metadata,
            },
        )
    }
}

/// Puts together the document that the events of the parts give.
pub fn docx_document_from_events(
    main: &Vec<XmlEvent>,
    styles: &Vec<StyleInfo>,
    properties: &Vec<XmlEvent>,
) -> (r: Option<DocumentContent>)
    ensures
        document_view(r) == docx_document(main@, styles@, properties@),
{
    let sections = parse_document_events(main, styles);
    let metadata = parse_metadata(properties);
    if sections.len() == 0 {
        None
    } else {
        Some(DocumentContent { doc_type: string_of(&chars_of("word")), sections, metadata })
    }
}

/// Takes a word-processor document apart, given the bytes of the file.
pub fn extract_docx_structured(file: &[u8]) -> (r: Option<DocumentContent>)
    ensures
        is_docx_document(file@, document_view(r)),
{
    match zip_entry(file, "word/document.xml") {
        None => None,
        found => {
            let main = match found {
                Some(Some(xml)) => read_events(xml.as_slice()),
                _ => Vec::new(),
            };
            let listed = part_events(file, "word/styles.xml");
            let styles = parse_styles(&listed);
            let properties = part_events(file, "docProps/core.xml");
            let r = docx_document_from_events(&main, &styles, &properties);
            proof {
                assert(event_views(main@) =~= events_of_part(file@, "word/document.xml"@));
                assert(is_made_of_parts(
                    document_view(r),
                    file@,
                    main@,
                    listed@,
                    styles@,
                    properties@,
                ));
            }
            r
        },
    }
}

// ---------------------------------------------------------------------------
// Presentations
// ---------------------------------------------------------------------------

/// What the reader of a slide holds between two events.
pub struct SlideState {
    pub in_paragraph: bool,
    pub text: Seq<char>,
    pub sections: Seq<SectionView>,
}

/// A paragraph that is its text and nothing else.
pub open spec fn plain_paragraph(text: Seq<char>) -> SectionView {
    SectionView {
        kind: SectionKind::Paragraph,
        content: Some(text),
        runs: None,
        children: None,
        has_properties: false,
    }
}

/// The reader of a slide after an event. A start tag `a:p` opens a
/// paragraph; a text within one that is not blank is gathered with a blank
/// behind it; and the end of a paragraph files what was gathered, without
/// the blanks at its ends, unless nothing was.
pub open spec fn slide_after(state: SlideState, event: XmlEvent) -> SlideState {
    match event {
        XmlEvent::Start(tag) => if is_name(tag.name@, "a:p"@) {
            SlideState { in_paragraph: true, text: Seq::empty(), ..state }
        } else {
            state
        },
        XmlEvent::End { name, local_name } => if is_name(name@, "a:p"@) {
            if state.text.len() > 0 {
                SlideState {
                    in_paragraph: false,
                    text: Seq::empty(),
                    sections: state.sections.push(plain_paragraph(trimmed_text(state.text))),
                }
            } else {
                SlideState { in_paragraph: false, ..state }
            }
        } else {
            state
        },
        XmlEvent::Text(Some(text)) => if state.in_paragraph && !is_blank(text@) {
            SlideState { text: state.text + text@ + seq![' '], ..state }
        } else {
            state
        },
        _ => state,
    }
}

/// The reader of a slide after the events, from the sections `before`.
pub open spec fn slide_state(events: Seq<XmlEvent>, before: Seq<SectionView>) -> SlideState
    decreases events.len(),
{
    if events.len() == 0 {
        SlideState { in_paragraph: false, text: Seq::empty(), sections: before }
    } else {
        slide_after(slide_state(events.drop_last(), before), events.last())
    }
}

/// The section that marks the beginning of slide `n`.
pub open spec fn slide_break(n: u32) -> SectionView {
    SectionView {
        kind: SectionKind::SlideBreak { slide_number: n },
        content: None,
        runs: None,
        children: None,
        has_properties: false,
    }
}

/// The sections of a presentation whose slides give the events: for each
/// slide its mark and then its paragraphs.
pub open spec fn pptx_sections(slides: Seq<Vec<XmlEvent>>) -> Seq<SectionView>
    decreases slides.len(),
{
    if slides.len() == 0 {
        Seq::empty()
    } else {
        slide_state(
            slides.last()@,
            pptx_sections(slides.drop_last()).push(slide_break(slides.len() as u32)),
        ).sections
    }
}

/// The document that the slides give.
pub open spec fn pptx_document(slides: Seq<Vec<XmlEvent>>) -> DocumentView {
    DocumentView {
        doc_type: "powerpoint"@,
        sections: pptx_sections(slides),
        metadata: MetadataView { slide_count: Some(slides.len() as usize), ..MetadataView::none() },
    }
}

fn paragraph_of(text: String) -> (r: ContentSection)
    ensures
        section_view(r) == plain_paragraph(text@),
{
    ContentSection {
        section_type: SectionType::Paragraph,
        content: Some(text),
        runs: None,
        children: None,
        properties: None,
    }
}

fn read_slide(sections: &mut Vec<ContentSection>, events: &Vec<XmlEvent>)
    ensures
        section_views(final(sections)@) == slide_state(
            events@,
            section_views(old(sections)@),
        ).sections,
{
    let mut in_paragraph = false;
    let mut text: Vec<char> = Vec::new();
    let mut i: usize = 0;
    let ghost before = section_views(sections@);
    proof {
        assert(events@.take(0) =~= Seq::<XmlEvent>::empty());
    }
    while i < events.len()
        invariant
            i <= events.len(),
            slide_state(events@.take(i as int), before) == (SlideState {
                in_paragraph,
                text: text@,
                sections: section_views(sections@),
            }),
        decreases events.len() - i,
    {
        proof {
            assert(events@.take(i + 1).drop_last() =~= events@.take(i as int));
        }
        match &events[i] {
            XmlEvent::Start(tag) => {
                if names(&tag.name, "a:p") {
                    text = Vec::new();
                    in_paragraph = true;
                }
            },
            XmlEvent::End { name, local_name: _ } => {
                if names(name, "a:p") {
                    if text.len() > 0 {
                        let ghost held = section_views(sections@);
                        let paragraph = paragraph_of(string_of(&trim_chars(&text)));
                        sections.push(paragraph);
                        proof {
                            assert(section_views(sections@) =~= held.push(section_view(paragraph)));
                        }
                        text = Vec::new();
                    }
                    in_paragraph = false;
                }
            },
            XmlEvent::Text(Some(piece)) => {
                let chars = chars_of(piece.as_str());
                if in_paragraph && !chars_are_blank(&chars) {
                    let ghost held = text@;
                    append_chars(&mut text, &chars);
                    text.push(' ');
                    proof {
                        assert(text@ =~= held + piece@ + seq![' ']);
                    }
                }
            },
            _ => {},
        }
        i += 1;
    }
    proof {
        assert(events@.take(events@.len() as int) =~= events@);
    }
}

/// Puts together the document that the slides give.
pub fn pptx_document_from_slides(slides: &Vec<Vec<XmlEvent>>) -> (r: DocumentContent)
    requires
        slides.len() <= LAST_SLIDE,
    ensures
        r@ == pptx_document(slides@),
{
    let mut sections: Vec<ContentSection> = Vec::new();
    let mut i: usize = 0;
    proof {
        assert(slides@.take(0) =~= Seq::<Vec<XmlEvent>>::empty());
        assert(section_views(sections@) =~= Seq::<SectionView>::empty());
    }
    while i < slides.len()
        invariant
            i <= slides.len() <= LAST_SLIDE,
            section_views(sections@) == pptx_sections(slides@.take(i as int)),
        decreases slides.len() - i,
    {
        proof {
            assert(slides@.take(i + 1).drop_last() =~= slides@.take(i as int));
        }
        let ghost held = section_views(sections@);
        let mark = ContentSection {
            section_type: SectionType::SlideBreak { slide_number: (i + 1) as u32 },
            content: None,
            runs: None,
            children: None,
            properties: None,
        };
        sections.push(mark);
        proof {
            assert(section_views(sections@) =~= held.push(slide_break((i + 1) as u32)));
        }
        read_slide(&mut sections, &slides[i]);
        i += 1;
    }
    proof {
        assert(slides@.take(slides@.len() as int) =~= slides@);
    }
    let mut metadata = DocumentMetadata::default();
    metadata.slide_count = Some(slides.len());
    DocumentContent { doc_type: string_of(&chars_of("powerpoint")), sections, metadata }
}

/// Whether `document` is what a presentation gives: nothing for a file that
/// is no archive, and else [`pptx_document`] of the events that are read of
/// its slides, one list for each slide that the archive holds without a gap
/// from slide 1 on.
pub open spec fn is_pptx_document(file: Seq<u8>, document: Option<DocumentView>) -> bool {
    if zip_entry_content(file, slide_name_one()) is None {
        document is None
    } else {
        exists|slides: Seq<Vec<XmlEvent>>|
            are_slides_of(slides, file) && document == Some(#[trigger] pptx_document(slides))
    }
}

/// The name of the first slide.
pub open spec fn slide_name_one() -> Seq<char> {
    crate::office::slide_name(1)
}

/// Takes a presentation apart, given the bytes of the file.
pub fn extract_pptx_structured(file: &[u8]) -> (r: Option<DocumentContent>)
    ensures
        is_pptx_document(file@, document_view(r)),
{
    let first = slide_entry_name(1);
    match zip_entry(file, first.as_str()) {
        None => None,
        _ => {
            let slides = crate::office::read_slides(file);
            let document = pptx_document_from_slides(&slides);
            proof {
                assert(document@ == pptx_document(slides@));
            }
            Some(document)
        },
    }
}

// ---------------------------------------------------------------------------
// Any kind of document
// ---------------------------------------------------------------------------

/// A document that is one paragraph of text.
pub open spec fn one_paragraph(doc_type: Seq<char>, text: Option<Seq<char>>) -> Option<
    DocumentView,
> {
    match text {
        Some(t) => Some(
            DocumentView {
                doc_type,
                sections: seq![plain_paragraph(t)],
                metadata: MetadataView::none(),
            },
        ),
        None => None,
    }
}

fn wrap_text(doc_type: &str, text: Option<String>) -> (r: Option<DocumentContent>)
    ensures
        document_view(r) == one_paragraph(doc_type@, text_view(text)),
{
    match text {
        Some(t) => {
            let mut sections: Vec<ContentSection> = Vec::new();
            let paragraph = paragraph_of(t);
            sections.push(paragraph);
            proof {
                assert(section_views(sections@) =~= seq![plain_paragraph(t@)]);
            }
            Some(
                DocumentContent {
                    doc_type: string_of(&chars_of(doc_type)),
                    sections,
                    metadata: DocumentMetadata::default(),
                },
            )
        },
        None => None,
    }
}

/// Whether `document` is what a file with the extension `ext` gives when
/// it is taken apart: word-processor documents and presentations in their
/// parts, old binary documents and plain text as one paragraph, and every
/// other file nothing.
pub open spec fn is_structured_content(
    file: Seq<u8>,
    ext: Seq<char>,
    document: Option<DocumentView>,
) -> bool {
    if ext == "docx"@ {
        is_docx_document(file, document)
    } else if ext == "doc"@ {
        document == one_paragraph("doc"@, doc_text(file))
    } else if ext == "pptx"@ {
        is_pptx_document(file, document)
    } else if ext == "txt"@ || ext == "md"@ {
        document == one_paragraph("text"@, plain_text(file))
    } else {
        document is None
    }
}

/// Takes a file apart, given its bytes and its extension.
pub fn extract_content_structured(file: &[u8], ext: &str) -> (r: Option<DocumentContent>)
    ensures
        is_structured_content(file@, ext@, document_view(r)),
{
    let e = chars_of(ext);
    if same_chars(&e, &chars_of("docx")) {
        extract_docx_structured(file)
    } else if same_chars(&e, &chars_of("doc")) {
        let text = extract_doc(file);
        proof {
            assert(text_view(text) == doc_text(file@));
        }
        wrap_text("doc", text)
    } else if same_chars(&e, &chars_of("pptx")) {
        extract_pptx_structured(file)
    } else if same_chars(&e, &chars_of("txt")) || same_chars(&e, &chars_of("md")) {
        wrap_text("text", extract_text(file))
    } else {
        None
    }
}

/// The file at `file_path` taken apart for showing it, given the bytes of
/// the file, or the complaint that it could not be.
pub fn extract_file_content_structured(file_path: &str, file: &[u8]) -> (r: Result<
    DocumentContent,
    String,
>)
    ensures
        match r {
            Ok(document) => is_structured_content(
                file@,
                reading_extension(file_path@),
                Some(document@),
            ),
            Err(complaint) => is_structured_content(file@, reading_extension(file_path@), None)
                && complaint@ == "Failed to extract structured content"@,
        },
{
    let ext = extension_for_reading(file_path);
    match extract_content_structured(file, ext.as_str()) {
        Some(document) => Ok(document),
        None => Err(string_of(&chars_of("Failed to extract structured content"))),
    }
}

} // verus!
