//! Documents taken apart for showing them: sections, runs of text and
//! their styles.

use vstd::prelude::*;
use crate::text::views;

verus! {

/// What is known about a document beside its text.
#[derive(Debug)]
pub struct DocumentMetadata {
    pub title: Option<String>,
    pub author: Option<String>,
    pub created: Option<String>,
    pub modified: Option<String>,
    pub page_count: Option<usize>,
    pub slide_count: Option<usize>,
    pub sheet_count: Option<usize>,
}

impl Default for DocumentMetadata {
    fn default() -> (r: Self)
        ensures
            r.title is None,
            r.author is None,
            r.created is None,
            r.modified is None,
            r.page_count is None,
            r.slide_count is None,
            r.sheet_count is None,
    {
        DocumentMetadata {
            title: None,
            author: None,
            created: None,
            modified: None,
            page_count: None,
            slide_count: None,
            sheet_count: None,
        }
    }
}

/// The kinds of section.
#[derive(Debug, PartialEq, Eq)]
pub enum SectionType {
    /// A heading of a level from 1 to 6.
    Heading { level: u8 },
    /// A paragraph.
    Paragraph,
    /// An item of a list.
    ListItem { ordered: bool, depth: u8 },
    /// A table; its children are rows.
    Table,
    /// A row of a table; its children are cells.
    TableRow,
    /// A cell of a table.
    TableCell,
    /// A picture.
    Image,
    /// The place where a page ends.
    PageBreak,
    /// The place where a slide begins.
    SlideBreak { slide_number: u32 },
    /// Text set as it is written.
    CodeBlock,
    /// A rule across the page.
    HorizontalRule,
    /// A link.
    Link { url: String },
}

/// A [`SectionType`] as a mathematical value.
pub enum SectionKind {
    Heading { level: u8 },
    Paragraph,
    ListItem { ordered: bool, depth: u8 },
    Table,
    TableRow,
    TableCell,
    Image,
    PageBreak,
    SlideBreak { slide_number: u32 },
    CodeBlock,
    HorizontalRule,
    Link { url: Seq<char> },
}

impl View for SectionType {
    type V = SectionKind;

    open spec fn view(&self) -> SectionKind {
        match *self {
            SectionType::Heading { level } => SectionKind::Heading { level },
            SectionType::Paragraph => SectionKind::Paragraph,
            SectionType::ListItem { ordered, depth } => SectionKind::ListItem { ordered, depth },
            SectionType::Table => SectionKind::Table,
            SectionType::TableRow => SectionKind::TableRow,
            SectionType::TableCell => SectionKind::TableCell,
            SectionType::Image => SectionKind::Image,
            SectionType::PageBreak => SectionKind::PageBreak,
            SectionType::SlideBreak { slide_number } => SectionKind::SlideBreak { slide_number },
            SectionType::CodeBlock => SectionKind::CodeBlock,
            SectionType::HorizontalRule => SectionKind::HorizontalRule,
            SectionType::Link { url } => SectionKind::Link { url: url@ },
        }
    }
}

/// How a run of text is set. The size of the type is counted in half
/// points, as documents store it.
#[derive(Debug)]
pub struct TextStyle {
    pub bold: bool,
    pub italic: bool,
    pub underline: bool,
    pub strikethrough: bool,
    pub superscript: bool,
    pub subscript: bool,
    pub highlight: Option<String>,
    pub color: Option<String>,
    pub font_size: Option<u32>,
}

/// A [`TextStyle`] as a mathematical value.
pub struct TextStyleView {
    pub bold: bool,
    pub italic: bool,
    pub underline: bool,
    pub strikethrough: bool,
    pub superscript: bool,
    pub subscript: bool,
    pub highlight: Option<Seq<char>>,
    pub color: Option<Seq<char>>,
    pub font_size: Option<u32>,
}

/// A text that may be missing, as a mathematical value.
pub open spec fn opt_text(text: Option<String>) -> Option<Seq<char>> {
    match text {
        Some(t) => Some(t@),
        None => None,
    }
}

impl TextStyleView {
    /// The style of text that nothing was said about.
    pub open spec fn plain() -> TextStyleView {
        TextStyleView {
            bold: false,
            italic: false,
            underline: false,
            strikethrough: false,
            superscript: false,
            subscript: false,
            highlight: None,
            color: None,
            font_size: None,
        }
    }
}

impl View for TextStyle {
    type V = TextStyleView;

    open spec fn view(&self) -> TextStyleView {
        TextStyleView {
            bold: self.bold,
            italic: self.italic,
            underline: self.underline,
            strikethrough: self.strikethrough,
            superscript: self.superscript,
            subscript: self.subscript,
            highlight: opt_text(self.highlight),
            color: opt_text(self.color),
            font_size: self.font_size,
        }
    }
}

impl Default for TextStyle {
    fn default() -> (r: Self)
        ensures
            r@ == TextStyleView::plain(),
    {
        TextStyle {
            bold: false,
            italic: false,
            underline: false,
            strikethrough: false,
            superscript: false,
            subscript: false,
            highlight: None,
            color: None,
            font_size: None,
        }
    }
}

impl Clone for TextStyle {
    fn clone(&self) -> (r: Self)
        ensures
            r@ == self@,
    {
        TextStyle {
            bold: self.bold,
            italic: self.italic,
            underline: self.underline,
            strikethrough: self.strikethrough,
            superscript: self.superscript,
            subscript: self.subscript,
            highlight: match &self.highlight {
                Some(h) => Some(h.clone()),
                None => None,
            },
            color: match &self.color {
                Some(c) => Some(c.clone()),
                None => None,
            },
            font_size: self.font_size,
        }
    }
}

/// A run of text that is set in one style.
#[derive(Debug)]
pub struct TextRun {
    pub text: String,
    pub style: TextStyle,
}

/// A [`TextRun`] as a mathematical value.
pub struct TextRunView {
    pub text: Seq<char>,
    pub style: TextStyleView,
}

impl View for TextRun {
    type V = TextRunView;

    open spec fn view(&self) -> TextRunView {
        TextRunView { text: self.text@, style: self.style@ }
    }
}

impl Clone for TextRun {
    fn clone(&self) -> (r: Self)
        ensures
            r@ == self@,
    {
        TextRun { text: self.text.clone(), style: self.style.clone() }
    }
}

/// The runs as mathematical values.
pub open spec fn run_views(runs: Seq<TextRun>) -> Seq<TextRunView> {
    Seq::new(runs.len(), |i: int| runs[i]@)
}

/// What belongs to a table or a picture: the widths of the columns in
/// twentieths of a point, the data of the picture and the text that stands
/// for it, and its width and height in pixels.
#[derive(Debug)]
pub struct SectionProperties {
    pub column_widths: Option<Vec<u32>>,
    pub image_data: Option<String>,
    pub alt_text: Option<String>,
    pub width: Option<u32>,
    pub height: Option<u32>,
}

/// A section of a document.
#[derive(Debug)]
pub struct ContentSection {
    pub section_type: SectionType,
    pub content: Option<String>,
    pub runs: Option<Vec<TextRun>>,
    pub children: Option<Vec<ContentSection>>,
    pub properties: Option<SectionProperties>,
}

/// A [`ContentSection`] as a mathematical value. Of the properties only
/// their presence is kept.
pub struct SectionView {
    pub kind: SectionKind,
    pub content: Option<Seq<char>>,
    pub runs: Option<Seq<TextRunView>>,
    pub children: Option<Seq<SectionView>>,
    pub has_properties: bool,
}

/// The section as a mathematical value.
pub open spec fn section_view(section: ContentSection) -> SectionView
    decreases section,
{
    SectionView {
        kind: section.section_type@,
        content: opt_text(section.content),
        runs: match section.runs {
            Some(runs) => Some(run_views(runs@)),
            None => None,
        },
        children: match section.children {
            Some(children) => Some(
                Seq::new(
                    children.len() as nat,
                    |i: int|
                        if 0 <= i < children.len() {
                            section_view(children[i])
                        } else {
                            arbitrary()
                        },
                ),
            ),
            None => None,
        },
        has_properties: section.properties is Some,
    }
}

/// The sections as mathematical values.
pub open spec fn section_views(sections: Seq<ContentSection>) -> Seq<SectionView> {
    Seq::new(sections.len(), |i: int| section_view(sections[i]))
}

/// A document taken apart.
#[derive(Debug)]
pub struct DocumentContent {
    /// The kind of document: `word`, `powerpoint`, `doc` or `text`.
    pub doc_type: String,
    pub sections: Vec<ContentSection>,
    pub metadata: DocumentMetadata,
}

} // verus!
