//! A word-processor document taken apart for showing it: its paragraphs
//! with their runs and styles, its lists, tables and page breaks.
//!
//! The main part of the document is read event by event. What each event
//! does to what has been read so far is stated as a function of the state
//! and the event; the sections of a document are what a state holds after
//! the events of its main part.

use vstd::prelude::*;
use crate::archive::{zip_entry, zip_entry_content};
use crate::content::{
    opt_text, run_views, section_view, section_views, ContentSection, DocumentContent,
    DocumentMetadata, SectionKind, SectionType, SectionView, TextRun, TextRunView, TextStyle,
    TextStyleView,
};
use crate::encodings::{decode_utf8_lossy, lossy_utf8_text};
use crate::headings::{detect_heading_level, heading_level};
use crate::text::{
    append_chars, chars_of, number_in, parse_number, same_chars, string_of,
};
use crate::xml::{read_events, XmlAttribute, XmlEvent, XmlTag};

verus! {

// ---------------------------------------------------------------------------
// Names and attributes
// ---------------------------------------------------------------------------

/// Whether the bytes of a name spell `word`.
pub open spec fn is_name(name: Seq<u8>, word: Seq<char>) -> bool {
    &&& name.len() == word.len()
    &&& forall|i: int| 0 <= i < name.len() ==> name[i] as u32 == #[trigger] word[i] as u32
}

/// Computes [`is_name`].
pub fn names(name: &Vec<u8>, word: &str) -> (r: bool)
    ensures
        r == is_name(name@, word@),
{
    let chars = chars_of(word);
    if name.len() != chars.len() {
        return false;
    }
    let mut i: usize = 0;
    while i < name.len()
        invariant
            i <= name.len(),
            name.len() == chars.len(),
            chars@ == word@,
            forall|k: int| 0 <= k < i ==> name@[k] as u32 == #[trigger] word@[k] as u32,
        decreases name.len() - i,
    {
        let c: u32 = chars[i] as u32;
        if name[i] as u32 != c {
            return false;
        }
        i += 1;
    }
    true
}

/// Whether an attribute could be read and has the key `key`.
pub open spec fn has_key(attribute: Option<XmlAttribute>, key: Seq<char>) -> bool {
    attribute is Some && is_name(attribute->0.key@, key)
}

/// The value of the last attribute with the key `key`, if there is one.
pub open spec fn last_value(attributes: Seq<Option<XmlAttribute>>, key: Seq<char>) -> Option<
    Seq<u8>,
>
    decreases attributes.len(),
{
    if attributes.len() == 0 {
        None
    } else if has_key(attributes.last(), key) {
        Some(attributes.last()->0.value@)
    } else {
        last_value(attributes.drop_last(), key)
    }
}

/// Computes [`last_value`], as text.
pub fn last_attribute(attributes: &Vec<Option<XmlAttribute>>, key: &str) -> (r: Option<String>)
    ensures
        opt_text(r) == (match last_value(attributes@, key@) {
            Some(value) => Some(lossy_utf8_text(value)),
            None => None,
        }),
{
    let mut n: usize = attributes.len();
    proof {
        assert(attributes@.take(n as int) =~= attributes@);
    }
    while n > 0
        invariant
            n <= attributes.len(),
            last_value(attributes@.take(n as int), key@) == last_value(attributes@, key@),
        decreases n,
    {
        proof {
            assert(attributes@.take(n as int).drop_last() =~= attributes@.take(n - 1));
        }
        match &attributes[n - 1] {
            Some(attribute) => {
                if names(&attribute.key, key) {
                    return Some(decode_utf8_lossy(attribute.value.as_slice()));
                }
            },
            None => {},
        }
        n -= 1;
    }
    None
}

/// How many attributes have the key `key` and the value `value`.
pub open spec fn count_values(
    attributes: Seq<Option<XmlAttribute>>,
    key: Seq<char>,
    value: Seq<char>,
) -> nat
    decreases attributes.len(),
{
    if attributes.len() == 0 {
        0
    } else if has_key(attributes.last(), key) && is_name(attributes.last()->0.value@, value) {
        count_values(attributes.drop_last(), key, value) + 1
    } else {
        count_values(attributes.drop_last(), key, value)
    }
}

/// Computes [`count_values`].
pub fn count_attribute_values(attributes: &Vec<Option<XmlAttribute>>, key: &str, value: &str) -> (r:
    usize)
    ensures
        r == count_values(attributes@, key@, value@),
{
    let mut count: usize = 0;
    let mut i: usize = 0;
    proof {
        assert(attributes@.take(0) =~= Seq::<Option<XmlAttribute>>::empty());
    }
    while i < attributes.len()
        invariant
            i <= attributes.len(),
            count == count_values(attributes@.take(i as int), key@, value@),
            count <= i,
        decreases attributes.len() - i,
    {
        proof {
            assert(attributes@.take(i + 1).drop_last() =~= attributes@.take(i as int));
        }
        match &attributes[i] {
            Some(attribute) => {
                if names(&attribute.key, key) && names(&attribute.value, value) {
                    count += 1;
                }
            },
            None => {},
        }
        i += 1;
    }
    proof {
        assert(attributes@.take(attributes@.len() as int) =~= attributes@);
    }
    count
}

/// The value of the last attribute `val` that is not `none`, if there is
/// one.
pub open spec fn last_colour(attributes: Seq<Option<XmlAttribute>>) -> Option<Seq<u8>>
    decreases attributes.len(),
{
    if attributes.len() == 0 {
        None
    } else if has_key(attributes.last(), "val"@) && !is_name(
        attributes.last()->0.value@,
        "none"@,
    ) {
        Some(attributes.last()->0.value@)
    } else {
        last_colour(attributes.drop_last())
    }
}

fn last_colour_of(attributes: &Vec<Option<XmlAttribute>>) -> (r: Option<String>)
    ensures
        opt_text(r) == (match last_colour(attributes@) {
            Some(value) => Some(lossy_utf8_text(value)),
            None => None,
        }),
{
    let mut n: usize = attributes.len();
    proof {
        assert(attributes@.take(n as int) =~= attributes@);
    }
    while n > 0
        invariant
            n <= attributes.len(),
            last_colour(attributes@.take(n as int)) == last_colour(attributes@),
        decreases n,
    {
        proof {
            assert(attributes@.take(n as int).drop_last() =~= attributes@.take(n - 1));
        }
        match &attributes[n - 1] {
            Some(attribute) => {
                if names(&attribute.key, "val") && !names(&attribute.value, "none") {
                    return Some(decode_utf8_lossy(attribute.value.as_slice()));
                }
            },
            None => {},
        }
        n -= 1;
    }
    None
}

/// Whether a switch of a run is turned off: an attribute `val` says
/// `false` or `0`.
pub open spec fn is_switched_off(attributes: Seq<Option<XmlAttribute>>) -> bool {
    count_values(attributes, "val"@, "false"@) > 0 || count_values(attributes, "val"@, "0"@) > 0
}

// ---------------------------------------------------------------------------
// Numbers
// ---------------------------------------------------------------------------

/// The depth of a list item that a text spells: a number up to 255 in
/// digits, with or without `+` before it; every other text spells 0.
pub open spec fn list_depth_of(text: Seq<char>) -> u8 {
    match number_in(text, 255) {
        Some(v) => v as u8,
        None => 0,
    }
}

/// Computes [`list_depth_of`].
pub fn parse_list_depth(text: &str) -> (r: u8)
    ensures
        r == list_depth_of(text@),
{
    match parse_number(text, 255) {
        Some(v) => v as u8,
        None => 0,
    }
}

// ---------------------------------------------------------------------------
// Styles
// ---------------------------------------------------------------------------

/// A style of a document: its id, its name, and the level of heading that
/// it stands for, if it is one.
#[derive(Debug)]
pub struct StyleInfo {
    pub id: String,
    pub name: String,
    pub heading_level: Option<u8>,
}

/// The level of heading of the style `id`: that of the last style with
/// this id in the list; `None` where the list has no such style.
pub open spec fn style_level(styles: Seq<StyleInfo>, id: Seq<char>) -> Option<Option<u8>>
    decreases styles.len(),
{
    if styles.len() == 0 {
        None
    } else if styles.last().id@ == id {
        Some(styles.last().heading_level)
    } else {
        style_level(styles.drop_last(), id)
    }
}

fn find_style_level(styles: &Vec<StyleInfo>, id: &String) -> (r: Option<Option<u8>>)
    ensures
        r == style_level(styles@, id@),
{
    let wanted = chars_of(id.as_str());
    let mut n: usize = styles.len();
    proof {
        assert(styles@.take(n as int) =~= styles@);
    }
    while n > 0
        invariant
            n <= styles.len(),
            wanted@ == id@,
            style_level(styles@.take(n as int), id@) == style_level(styles@, id@),
        decreases n,
    {
        proof {
            assert(styles@.take(n as int).drop_last() =~= styles@.take(n - 1));
        }
        if same_chars(&chars_of(styles[n - 1].id.as_str()), &wanted) {
            return Some(styles[n - 1].heading_level);
        }
        n -= 1;
    }
    None
}

/// The kind of section that a paragraph of the style `style` is: a heading
/// where the style is one, by the list of styles or, for a style that the
/// list does not have, by its id; else a paragraph.
pub open spec fn kind_by_style(styles: Seq<StyleInfo>, style: Option<Seq<char>>) -> SectionKind {
    match style {
        None => SectionKind::Paragraph,
        Some(id) => {
            let level = match style_level(styles, id) {
                Some(level) => level,
                None => heading_level(id, Seq::empty()),
            };
            match level {
                Some(level) => SectionKind::Heading { level },
                None => SectionKind::Paragraph,
            }
        },
    }
}

// ---------------------------------------------------------------------------
// The state of the reader
// ---------------------------------------------------------------------------

/// What the reader of the main part holds between two events.
pub struct DocxReader {
    pub sections: Vec<ContentSection>,
    pub in_paragraph: bool,
    pub in_run: bool,
    pub in_text: bool,
    pub in_table: bool,
    pub in_table_row: bool,
    pub in_table_cell: bool,
    pub in_list_item: bool,
    pub paragraph_style: Option<String>,
    pub runs: Vec<TextRun>,
    pub text: Vec<char>,
    pub style: TextStyle,
    pub list_depth: u8,
    pub table_rows: Vec<ContentSection>,
    pub row_cells: Vec<ContentSection>,
}

/// A [`DocxReader`] as a mathematical value.
pub struct DocxState {
    pub sections: Seq<SectionView>,
    pub in_paragraph: bool,
    pub in_run: bool,
    pub in_text: bool,
    pub in_table: bool,
    pub in_table_row: bool,
    pub in_table_cell: bool,
    pub in_list_item: bool,
    pub paragraph_style: Option<Seq<char>>,
    pub runs: Seq<TextRunView>,
    pub text: Seq<char>,
    pub style: TextStyleView,
    pub list_depth: u8,
    pub table_rows: Seq<SectionView>,
    pub row_cells: Seq<SectionView>,
}

impl View for DocxReader {
    type V = DocxState;

    open spec fn view(&self) -> DocxState {
        DocxState {
            sections: section_views(self.sections@),
            in_paragraph: self.in_paragraph,
            in_run: self.in_run,
            in_text: self.in_text,
            in_table: self.in_table,
            in_table_row: self.in_table_row,
            in_table_cell: self.in_table_cell,
            in_list_item: self.in_list_item,
            paragraph_style: opt_text(self.paragraph_style),
            runs: run_views(self.runs@),
            text: self.text@,
            style: self.style@,
            list_depth: self.list_depth,
            table_rows: section_views(self.table_rows@),
            row_cells: section_views(self.row_cells@),
        }
    }
}

impl DocxState {
    /// The reader before the first event.
    pub open spec fn start() -> DocxState {
        DocxState {
            sections: Seq::empty(),
            in_paragraph: false,
            in_run: false,
            in_text: false,
            in_table: false,
            in_table_row: false,
            in_table_cell: false,
            in_list_item: false,
            paragraph_style: None,
            runs: Seq::empty(),
            text: Seq::empty(),
            style: TextStyleView::plain(),
            list_depth: 0,
            table_rows: Seq::empty(),
            row_cells: Seq::empty(),
        }
    }

    /// With a run of the text `text` in the style of the open run, where a
    /// run is open.
    pub open spec fn with_run(self, text: Seq<char>) -> DocxState {
        if self.in_run {
            DocxState { runs: self.runs.push(TextRunView { text, style: self.style }), ..self }
        } else {
            self
        }
    }

    /// With one more section behind the others.
    pub open spec fn with_section(self, section: SectionView) -> DocxState {
        DocxState { sections: self.sections.push(section), ..self }
    }
}

/// A section that is nothing but its kind.
pub open spec fn bare_section(kind: SectionKind) -> SectionView {
    SectionView { kind, content: None, runs: None, children: None, has_properties: false }
}

/// A section that holds other sections.
pub open spec fn group_section(kind: SectionKind, children: Seq<SectionView>) -> SectionView {
    SectionView { kind, content: None, runs: None, children: Some(children), has_properties: false }
}

/// A section of text: its runs, and their texts joined.
pub open spec fn text_section(kind: SectionKind, runs: Seq<TextRunView>) -> SectionView {
    SectionView {
        kind,
        content: Some(joined_runs(runs)),
        runs: Some(runs),
        children: None,
        has_properties: false,
    }
}

/// The texts of the runs, one behind the other.
pub open spec fn joined_runs(runs: Seq<TextRunView>) -> Seq<char>
    decreases runs.len(),
{
    if runs.len() == 0 {
        Seq::empty()
    } else {
        joined_runs(runs.drop_last()) + runs.last().text
    }
}

/// `state` with as many page breaks behind its sections as `count` says.
pub open spec fn with_page_breaks(state: DocxState, count: nat) -> DocxState
    decreases count,
{
    if count == 0 {
        state
    } else {
        with_page_breaks(state, (count - 1) as nat).with_section(
            bare_section(SectionKind::PageBreak),
        )
    }
}

// ---------------------------------------------------------------------------
// What an event does
// ---------------------------------------------------------------------------

/// The reader after a start tag or an empty element.
pub open spec fn after_open(state: DocxState, tag: XmlTag) -> DocxState {
    let name = tag.local_name@;
    let attributes = tag.attributes@;
    if is_name(name, "p"@) {
        DocxState { in_paragraph: true, paragraph_style: None, runs: Seq::empty(), ..state }
    } else if is_name(name, "pStyle"@) {
        if state.in_paragraph && last_value(attributes, "val"@) is Some {
            DocxState {
                paragraph_style: Some(lossy_utf8_text(last_value(attributes, "val"@)->0)),
                ..state
            }
        } else {
            state
        }
    } else if is_name(name, "numPr"@) {
        DocxState { in_list_item: true, ..state }
    } else if is_name(name, "ilvl"@) {
        if state.in_list_item && last_value(attributes, "val"@) is Some {
            DocxState {
                list_depth: list_depth_of(lossy_utf8_text(last_value(attributes, "val"@)->0)),
                ..state
            }
        } else {
            state
        }
    } else if is_name(name, "r"@) {
        DocxState { in_run: true, style: TextStyleView::plain(), ..state }
    } else if is_name(name, "b"@) {
        if state.in_run && !is_switched_off(attributes) {
            DocxState { style: TextStyleView { bold: true, ..state.style }, ..state }
        } else {
            state
        }
    } else if is_name(name, "i"@) {
        if state.in_run && !is_switched_off(attributes) {
            DocxState { style: TextStyleView { italic: true, ..state.style }, ..state }
        } else {
            state
        }
    } else if is_name(name, "u"@) {
        if state.in_run && count_values(attributes, "val"@, "none"@) == 0 {
            DocxState { style: TextStyleView { underline: true, ..state.style }, ..state }
        } else {
            state
        }
    } else if is_name(name, "strike"@) {
        if state.in_run && !is_switched_off(attributes) {
            DocxState { style: TextStyleView { strikethrough: true, ..state.style }, ..state }
        } else {
            state
        }
    } else if is_name(name, "highlight"@) {
        if state.in_run && last_colour(attributes) is Some {
            DocxState {
                style: TextStyleView {
                    highlight: Some(lossy_utf8_text(last_colour(attributes)->0)),
                    ..state.style
                },
                ..state
            }
        } else {
            state
        }
    } else if is_name(name, "t"@) {
        DocxState { in_text: true, text: Seq::empty(), ..state }
    } else if is_name(name, "tbl"@) {
        DocxState { in_table: true, table_rows: Seq::empty(), ..state }
    } else if is_name(name, "tr"@) {
        if state.in_table {
            DocxState { in_table_row: true, row_cells: Seq::empty(), ..state }
        } else {
            state
        }
    } else if is_name(name, "tc"@) {
        if state.in_table_row {
            DocxState { in_table_cell: true, ..state }
        } else {
            state
        }
    } else if is_name(name, "lastRenderedPageBreak"@) || is_name(name, "pageBreakBefore"@) {
        state.with_section(bare_section(SectionKind::PageBreak))
    } else if is_name(name, "br"@) {
        let breaks = count_values(attributes, "type"@, "page"@);
        if breaks > 0 {
            with_page_breaks(state, breaks)
        } else if state.in_text {
            DocxState { text: state.text.push('\n'), ..state }
        } else {
            state.with_run(seq!['\n'])
        }
    } else if is_name(name, "tab"@) {
        state.with_run(seq!['\t'])
    } else if is_name(name, "noBreakHyphen"@) {
        state.with_run(seq!['-'])
    } else if is_name(name, "softHyphen"@) {
        state.with_run(seq!['\u{00AD}'])
    } else if is_name(name, "cr"@) {
        state.with_run(seq!['\n'])
    } else {
        state
    }
}

/// The reader after a text.
pub open spec fn after_text(state: DocxState, text: Option<String>) -> DocxState {
    match text {
        Some(t) => if state.in_text {
            DocxState { text: state.text + t@, ..state }
        } else {
            state
        },
        None => state,
    }
}

/// The kind of section that the paragraph at its end is.
pub open spec fn paragraph_kind(state: DocxState, styles: Seq<StyleInfo>) -> SectionKind {
    if state.in_list_item {
        SectionKind::ListItem { ordered: false, depth: state.list_depth }
    } else {
        kind_by_style(styles, state.paragraph_style)
    }
}

/// The reader after an end tag.
pub open spec fn after_close(state: DocxState, name: Seq<u8>, styles: Seq<StyleInfo>) -> DocxState {
    if is_name(name, "t"@) {
        let kept = if state.in_text && state.text.len() > 0 {
            DocxState {
                runs: state.runs.push(TextRunView { text: state.text, style: state.style }),
                ..state
            }
        } else {
            state
        };
        DocxState { in_text: false, ..kept }
    } else if is_name(name, "r"@) {
        DocxState { in_run: false, ..state }
    } else if is_name(name, "p"@) {
        let filed = if state.in_paragraph && state.runs.len() > 0 {
            if state.in_table_cell {
                DocxState {
                    row_cells: state.row_cells.push(
                        text_section(SectionKind::TableCell, state.runs),
                    ),
                    ..state
                }
            } else {
                state.with_section(text_section(paragraph_kind(state, styles), state.runs))
            }
        } else {
            state
        };
        DocxState {
            in_paragraph: false,
            in_list_item: false,
            list_depth: 0,
            runs: Seq::empty(),
            ..filed
        }
    } else if is_name(name, "tc"@) {
        DocxState { in_table_cell: false, ..state }
    } else if is_name(name, "tr"@) {
        let filed = if state.in_table_row && state.row_cells.len() > 0 {
            DocxState {
                table_rows: state.table_rows.push(
                    group_section(SectionKind::TableRow, state.row_cells),
                ),
                ..state
            }
        } else {
            state
        };
        DocxState { in_table_row: false, row_cells: Seq::empty(), ..filed }
    } else if is_name(name, "tbl"@) {
        let filed = if state.in_table && state.table_rows.len() > 0 {
            state.with_section(group_section(SectionKind::Table, state.table_rows))
        } else {
            state
        };
        DocxState { in_table: false, table_rows: Seq::empty(), ..filed }
    } else {
        state
    }
}

/// The reader after one event.
pub open spec fn after_event(state: DocxState, event: XmlEvent, styles: Seq<StyleInfo>) -> DocxState {
    match event {
        XmlEvent::Start(tag) => after_open(state, tag),
        XmlEvent::Empty(tag) => after_open(state, tag),
        XmlEvent::Text(text) => after_text(state, text),
        XmlEvent::End { name, local_name } => after_close(state, local_name@, styles),
        XmlEvent::Other => state,
    }
}

/// The reader after the events, one after the other.
pub open spec fn after_events(events: Seq<XmlEvent>, styles: Seq<StyleInfo>) -> DocxState
    decreases events.len(),
{
    if events.len() == 0 {
        DocxState::start()
    } else {
        after_event(after_events(events.drop_last(), styles), events.last(), styles)
    }
}

/// The sections of a document whose main part gives the events.
pub open spec fn docx_sections(events: Seq<XmlEvent>, styles: Seq<StyleInfo>) -> Seq<SectionView> {
    after_events(events, styles).sections
}

// ---------------------------------------------------------------------------
// Reading
// ---------------------------------------------------------------------------

fn page_break() -> (r: ContentSection)
    ensures
        section_view(r) == bare_section(SectionKind::PageBreak),
{
    ContentSection {
        section_type: SectionType::PageBreak,
        content: None,
        runs: None,
        children: None,
        properties: None,
    }
}

fn group(section_type: SectionType, children: Vec<ContentSection>) -> (r: ContentSection)
    ensures
        section_view(r) == group_section(section_type@, section_views(children@)),
{
    let r = ContentSection {
        section_type,
        content: None,
        runs: None,
        children: Some(children),
        properties: None,
    };
    proof {
        assert(section_view(r).children->0 =~= section_views(children@));
    }
    r
}

fn join_runs(runs: &Vec<TextRun>) -> (r: String)
    ensures
        r@ == joined_runs(run_views(runs@)),
{
    let mut out: Vec<char> = Vec::new();
    let mut i: usize = 0;
    let ghost all = run_views(runs@);
    proof {
        assert(all.take(0) =~= Seq::<TextRunView>::empty());
    }
    while i < runs.len()
        invariant
            i <= runs.len(),
            all == run_views(runs@),
            out@ == joined_runs(all.take(i as int)),
        decreases runs.len() - i,
    {
        proof {
            assert(all.take(i + 1).drop_last() =~= all.take(i as int));
            assert(all.take(i + 1).last().text == runs@[i as int].text@);
        }
        append_chars(&mut out, &chars_of(runs[i].text.as_str()));
        i += 1;
    }
    proof {
        assert(all.take(all.len() as int) =~= all);
    }
    string_of(&out)
}

fn text_of_runs(section_type: SectionType, runs: Vec<TextRun>) -> (r: ContentSection)
    ensures
        section_view(r) == text_section(section_type@, run_views(runs@)),
{
    let content = join_runs(&runs);
    ContentSection {
        section_type,
        content: Some(content),
        runs: Some(runs),
        children: None,
        properties: None,
    }
}

impl DocxReader {
    /// The reader before the first event.
    pub fn new() -> (r: Self)
        ensures
            r@ == DocxState::start(),
    {
        let r = DocxReader {
            sections: Vec::new(),
            in_paragraph: false,
            in_run: false,
            in_text: false,
            in_table: false,
            in_table_row: false,
            in_table_cell: false,
            in_list_item: false,
            paragraph_style: None,
            runs: Vec::new(),
            text: Vec::new(),
            style: TextStyle::default(),
            list_depth: 0,
            table_rows: Vec::new(),
            row_cells: Vec::new(),
        };
        proof {
            assert(r@.sections =~= Seq::<SectionView>::empty());
            assert(r@.runs =~= Seq::<TextRunView>::empty());
            assert(r@.table_rows =~= Seq::<SectionView>::empty());
            assert(r@.row_cells =~= Seq::<SectionView>::empty());
        }
        r
    }

    fn add_section(&mut self, section: ContentSection)
        ensures
            final(self)@ == old(self)@.with_section(section_view(section)),
    {
        self.sections.push(section);
        proof {
            assert(self@.sections =~= old(self)@.sections.push(section_view(section)));
        }
    }

    fn add_run(&mut self, text: Vec<char>)
        ensures
            final(self)@ == old(self)@.with_run(text@),
    {
        if self.in_run {
            let run = TextRun { text: string_of(&text), style: self.style.clone() };
            self.runs.push(run);
            proof {
                assert(self@.runs =~= old(self)@.runs.push(
                    TextRunView { text: text@, style: old(self)@.style },
                ));
            }
        }
    }

    fn add_one_char_run(&mut self, c: char)
        ensures
            final(self)@ == old(self)@.with_run(seq![c]),
    {
        let mut text: Vec<char> = Vec::new();
        text.push(c);
        proof {
            assert(text@ =~= seq![c]);
        }
        self.add_run(text);
    }

    fn add_page_breaks(&mut self, count: usize)
        ensures
            final(self)@ == with_page_breaks(old(self)@, count as nat),
    {
        let mut i: usize = 0;
        while i < count
            invariant
                i <= count,
                self@ == with_page_breaks(old(self)@, i as nat),
            decreases count - i,
        {
            self.add_section(page_break());
            i += 1;
        }
    }

    fn clear_runs(&mut self)
        ensures
            final(self)@ == (DocxState { runs: Seq::empty(), ..old(self)@ }),
    {
        self.runs = Vec::new();
        proof {
            assert(self@.runs =~= Seq::<TextRunView>::empty());
        }
    }

    fn clear_text(&mut self)
        ensures
            final(self)@ == (DocxState { text: Seq::empty(), ..old(self)@ }),
    {
        self.text = Vec::new();
    }

    fn clear_rows(&mut self)
        ensures
            final(self)@ == (DocxState { table_rows: Seq::empty(), ..old(self)@ }),
    {
        self.table_rows = Vec::new();
        proof {
            assert(self@.table_rows =~= Seq::<SectionView>::empty());
        }
    }

    fn clear_cells(&mut self)
        ensures
            final(self)@ == (DocxState { row_cells: Seq::empty(), ..old(self)@ }),
    {
        self.row_cells = Vec::new();
        proof {
            assert(self@.row_cells =~= Seq::<SectionView>::empty());
        }
    }

    /// Takes in a tag of the run properties: the switches and the highlight.
    fn open_in_run(&mut self, tag: &XmlTag) -> (handled: bool)
        requires
            !(is_name(tag.local_name@, "p"@) || is_name(tag.local_name@, "pStyle"@) || is_name(
                tag.local_name@,
                "numPr"@,
            ) || is_name(tag.local_name@, "ilvl"@) || is_name(tag.local_name@, "r"@)),
        ensures
            handled == (is_name(tag.local_name@, "b"@) || is_name(tag.local_name@, "i"@)
                || is_name(tag.local_name@, "u"@) || is_name(tag.local_name@, "strike"@)
                || is_name(tag.local_name@, "highlight"@)),
            handled ==> final(self)@ == after_open(old(self)@, *tag),
            !handled ==> final(self)@ == old(self)@,
    {
        let name = &tag.local_name;
        if names(name, "b") {
            if self.in_run && !self.switched_off(tag) {
                self.style.bold = true;
            }
            true
        } else if names(name, "i") {
            if self.in_run && !self.switched_off(tag) {
                self.style.italic = true;
            }
            true
        } else if names(name, "u") {
            if self.in_run && count_attribute_values(&tag.attributes, "val", "none") == 0 {
                self.style.underline = true;
            }
            true
        } else if names(name, "strike") {
            if self.in_run && !self.switched_off(tag) {
                self.style.strikethrough = true;
            }
            true
        } else if names(name, "highlight") {
            if self.in_run {
                match last_colour_of(&tag.attributes) {
                    Some(colour) => {
                        self.style.highlight = Some(colour);
                    },
                    None => {},
                }
            }
            true
        } else {
            false
        }
    }

    fn switched_off(&self, tag: &XmlTag) -> (r: bool)
        ensures
            r == is_switched_off(tag.attributes@),
    {
        count_attribute_values(&tag.attributes, "val", "false") > 0 || count_attribute_values(
            &tag.attributes,
            "val",
            "0",
        ) > 0
    }

    /// Takes in a tag that opens or shapes a paragraph or a run.
    fn open_in_paragraph(&mut self, tag: &XmlTag) -> (handled: bool)
        ensures
            handled == (is_name(tag.local_name@, "p"@) || is_name(tag.local_name@, "pStyle"@)
                || is_name(tag.local_name@, "numPr"@) || is_name(tag.local_name@, "ilvl"@)
                || is_name(tag.local_name@, "r"@)),
            handled ==> final(self)@ == after_open(old(self)@, *tag),
            !handled ==> final(self)@ == old(self)@,
    {
        let name = &tag.local_name;
        if names(name, "p") {
            self.in_paragraph = true;
            self.paragraph_style = None;
            self.clear_runs();
            true
        } else if names(name, "pStyle") {
            if self.in_paragraph {
                match last_attribute(&tag.attributes, "val") {
                    Some(style) => {
                        self.paragraph_style = Some(style);
                    },
                    None => {},
                }
            }
            true
        } else if names(name, "numPr") {
            self.in_list_item = true;
            true
        } else if names(name, "ilvl") {
            if self.in_list_item {
                match last_attribute(&tag.attributes, "val") {
                    Some(level) => {
                        self.list_depth = parse_list_depth(level.as_str());
                    },
                    None => {},
                }
            }
            true
        } else if names(name, "r") {
            self.in_run = true;
            self.style = TextStyle::default();
            true
        } else {
            false
        }
    }

    /// Takes in a tag of a text, a table or a break.
    fn open_other(&mut self, tag: &XmlTag)
        requires
            !(is_name(tag.local_name@, "p"@) || is_name(tag.local_name@, "pStyle"@) || is_name(
                tag.local_name@,
                "numPr"@,
            ) || is_name(tag.local_name@, "ilvl"@) || is_name(tag.local_name@, "r"@)),
            !(is_name(tag.local_name@, "b"@) || is_name(tag.local_name@, "i"@) || is_name(
                tag.local_name@,
                "u"@,
            ) || is_name(tag.local_name@, "strike"@) || is_name(tag.local_name@, "highlight"@)),
        ensures
            final(self)@ == after_open(old(self)@, *tag),
    {
        let name = &tag.local_name;
        if names(name, "t") {
            self.in_text = true;
            self.clear_text();
        } else if names(name, "tbl") {
            self.in_table = true;
            self.clear_rows();
        } else if names(name, "tr") {
            if self.in_table {
                self.in_table_row = true;
                self.clear_cells();
            }
        } else if names(name, "tc") {
            if self.in_table_row {
                self.in_table_cell = true;
            }
        } else if names(name, "lastRenderedPageBreak") || names(name, "pageBreakBefore") {
            self.add_section(page_break());
        } else if names(name, "br") {
            let breaks = count_attribute_values(&tag.attributes, "type", "page");
            if breaks > 0 {
                self.add_page_breaks(breaks);
            } else if self.in_text {
                self.text.push('\n');
            } else {
                self.add_one_char_run('\n');
            }
        } else if names(name, "tab") {
            self.add_one_char_run('\t');
        } else if names(name, "noBreakHyphen") {
            self.add_one_char_run('-');
        } else if names(name, "softHyphen") {
            self.add_one_char_run('\u{00AD}');
        } else if names(name, "cr") {
            self.add_one_char_run('\n');
        }
    }

    /// Takes in a start tag or an empty element.
    pub fn open(&mut self, tag: &XmlTag)
        ensures
            final(self)@ == after_open(old(self)@, *tag),
    {
        if self.open_in_paragraph(tag) {
            return ;
        }
        if self.open_in_run(tag) {
            return ;
        }
        self.open_other(tag);
    }

    /// Takes in a text.
    pub fn text(&mut self, text: &Option<String>)
        ensures
            final(self)@ == after_text(old(self)@, *text),
    {
        match text {
            Some(t) => {
                if self.in_text {
                    append_chars(&mut self.text, &chars_of(t.as_str()));
                }
            },
            None => {},
        }
    }

    fn kind_of_paragraph(&self, styles: &Vec<StyleInfo>) -> (r: SectionType)
        ensures
            r@ == paragraph_kind(self@, styles@),
    {
        if self.in_list_item {
            return SectionType::ListItem { ordered: false, depth: self.list_depth };
        }
        match &self.paragraph_style {
            None => SectionType::Paragraph,
            Some(id) => {
                let level = match find_style_level(styles, id) {
                    Some(level) => level,
                    None => detect_heading_level(id.as_str(), ""),
                };
                proof {
                    reveal_strlit("");
                    assert(""@ =~= Seq::<char>::empty());
                }
                match level {
                    Some(level) => SectionType::Heading { level },
                    None => SectionType::Paragraph,
                }
            },
        }
    }

    fn close_paragraph(&mut self, styles: &Vec<StyleInfo>)
        ensures
            final(self)@ == (DocxState {
                in_paragraph: false,
                in_list_item: false,
                list_depth: 0,
                runs: Seq::empty(),
                ..(if old(self)@.in_paragraph && old(self)@.runs.len() > 0 {
                    if old(self)@.in_table_cell {
                        DocxState {
                            row_cells: old(self)@.row_cells.push(
                                text_section(SectionKind::TableCell, old(self)@.runs),
                            ),
                            ..old(self)@
                        }
                    } else {
                        old(self)@.with_section(
                            text_section(paragraph_kind(old(self)@, styles@), old(self)@.runs),
                        )
                    }
                } else {
                    old(self)@
                })
            }),
    {
        if self.in_paragraph && self.runs.len() > 0 {
            let kind = self.kind_of_paragraph(styles);
            let mut runs: Vec<TextRun> = Vec::new();
            std::mem::swap(&mut runs, &mut self.runs);
            if self.in_table_cell {
                let cell = text_of_runs(SectionType::TableCell, runs);
                self.row_cells.push(cell);
                proof {
                    assert(self@.row_cells =~= old(self)@.row_cells.push(section_view(cell)));
                }
            } else {
                let section = text_of_runs(kind, runs);
                self.sections.push(section);
                proof {
                    assert(self@.sections =~= old(self)@.sections.push(section_view(section)));
                }
            }
        }
        self.in_paragraph = false;
        self.in_list_item = false;
        self.list_depth = 0;
        self.clear_runs();
    }

    fn close_row(&mut self)
        ensures
            final(self)@ == (DocxState {
                in_table_row: false,
                row_cells: Seq::empty(),
                ..(if old(self)@.in_table_row && old(self)@.row_cells.len() > 0 {
                    DocxState {
                        table_rows: old(self)@.table_rows.push(
                            group_section(SectionKind::TableRow, old(self)@.row_cells),
                        ),
                        ..old(self)@
                    }
                } else {
                    old(self)@
                })
            }),
    {
        if self.in_table_row && self.row_cells.len() > 0 {
            let mut cells: Vec<ContentSection> = Vec::new();
            std::mem::swap(&mut cells, &mut self.row_cells);
            let row = group(SectionType::TableRow, cells);
            self.table_rows.push(row);
            proof {
                assert(self@.table_rows =~= old(self)@.table_rows.push(section_view(row)));
            }
        }
        self.in_table_row = false;
        self.clear_cells();
    }

    fn close_table(&mut self)
        ensures
            final(self)@ == (DocxState {
                in_table: false,
                table_rows: Seq::empty(),
                ..(if old(self)@.in_table && old(self)@.table_rows.len() > 0 {
                    old(self)@.with_section(
                        group_section(SectionKind::Table, old(self)@.table_rows),
                    )
                } else {
                    old(self)@
                })
            }),
    {
        if self.in_table && self.table_rows.len() > 0 {
            let mut rows: Vec<ContentSection> = Vec::new();
            std::mem::swap(&mut rows, &mut self.table_rows);
            let table = group(SectionType::Table, rows);
            self.sections.push(table);
            proof {
                assert(self@.sections =~= old(self)@.sections.push(section_view(table)));
            }
        }
        self.in_table = false;
        self.clear_rows();
    }

    fn close_text(&mut self)
        ensures
            final(self)@ == (DocxState {
                in_text: false,
                ..(if old(self)@.in_text && old(self)@.text.len() > 0 {
                    DocxState {
                        runs: old(self)@.runs.push(
                            TextRunView { text: old(self)@.text, style: old(self)@.style },
                        ),
                        ..old(self)@
                    }
                } else {
                    old(self)@
                })
            }),
    {
        if self.in_text && self.text.len() > 0 {
            let run = TextRun { text: string_of(&self.text), style: self.style.clone() };
            self.runs.push(run);
            proof {
                assert(self@.runs =~= old(self)@.runs.push(
                    TextRunView { text: old(self)@.text, style: old(self)@.style },
                ));
            }
        }
        self.in_text = false;
    }

    /// Takes in an end tag.
    pub fn close(&mut self, local_name: &Vec<u8>, styles: &Vec<StyleInfo>)
        ensures
            final(self)@ == after_close(old(self)@, local_name@, styles@),
    {
        if names(local_name, "t") {
            self.close_text();
        } else if names(local_name, "r") {
            self.in_run = false;
        } else if names(local_name, "p") {
            self.close_paragraph(styles);
        } else if names(local_name, "tc") {
            self.in_table_cell = false;
        } else if names(local_name, "tr") {
            self.close_row();
        } else if names(local_name, "tbl") {
            self.close_table();
        }
    }

    /// Takes in an event.
    pub fn step(&mut self, event: &XmlEvent, styles: &Vec<StyleInfo>)
        ensures
            final(self)@ == after_event(old(self)@, *event, styles@),
    {
        match event {
            XmlEvent::Start(tag) => self.open(tag),
            XmlEvent::Empty(tag) => self.open(tag),
            XmlEvent::Text(text) => self.text(text),
            XmlEvent::End { name, local_name } => self.close(local_name, styles),
            XmlEvent::Other => {},
        }
    }
}

/// Reads the sections off the events of the main part of a document, with
/// the styles of the document at hand.
pub fn parse_document_events(events: &Vec<XmlEvent>, styles: &Vec<StyleInfo>) -> (r: Vec<
    ContentSection,
>)
    ensures
        section_views(r@) == docx_sections(events@, styles@),
{
    let mut reader = DocxReader::new();
    let mut i: usize = 0;
    proof {
        assert(events@.take(0) =~= Seq::<XmlEvent>::empty());
    }
    while i < events.len()
        invariant
            i <= events.len(),
            reader@ == after_events(events@.take(i as int), styles@),
        decreases events.len() - i,
    {
        proof {
            assert(events@.take(i + 1).drop_last() =~= events@.take(i as int));
        }
        reader.step(&events[i], styles);
        i += 1;
    }
    proof {
        assert(events@.take(events@.len() as int) =~= events@);
    }
    reader.sections
}

} // verus!
