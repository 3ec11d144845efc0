//! The events of an XML document, as plain values.
//!
//! A document is read by `quick_xml`; each event is turned into a value of
//! this crate as it comes, so that what is made of the events can be
//! stated and proved. Only what the readers of this crate look at is kept
//! of an event. Which events a document has is the reader's matter: they
//! have a name here, [`xml_events`], and nothing is said of them but that
//! they depend on the bytes of the document alone.

use vstd::prelude::*;

verus! {

// ---------------------------------------------------------------------------
// The outside types
// ---------------------------------------------------------------------------

#[verifier::external_type_specification]
#[verifier::external_body]
#[verifier::reject_recursive_types(R)]
pub struct ExXmlReader<R>(quick_xml::reader::Reader<R>);

#[verifier::external_type_specification]
#[verifier::external_body]
pub struct ExXmlEvent<'a>(quick_xml::events::Event<'a>);

// ---------------------------------------------------------------------------
// Events as values
// ---------------------------------------------------------------------------

/// The kinds of event that the readers tell apart.
#[derive(Clone, Copy, Debug, PartialEq, Eq, Structural)]
pub enum XmlEventKind {
    Start,
    Empty,
    End,
    Text,
    Eof,
    Other,
}

/// An attribute of a tag: the local part of its name, and its value as it
/// stands in the document.
#[derive(Debug)]
pub struct XmlAttribute {
    pub key: Vec<u8>,
    pub value: Vec<u8>,
}

/// A start tag or an empty element: its name with and without the prefix,
/// and its attributes in their order. An attribute that could not be read
/// stands as `None`.
#[derive(Debug)]
pub struct XmlTag {
    pub name: Vec<u8>,
    pub local_name: Vec<u8>,
    pub attributes: Vec<Option<XmlAttribute>>,
}

/// One event of a document.
#[derive(Debug)]
pub enum XmlEvent {
    /// A start tag.
    Start(XmlTag),
    /// An element without content.
    Empty(XmlTag),
    /// An end tag, by its name with and without the prefix.
    End { name: Vec<u8>, local_name: Vec<u8> },
    /// Text between tags, with its escapes resolved; `None` where they
    /// could not be resolved.
    Text(Option<String>),
    /// Anything else: comments, declarations, instructions, CDATA.
    Other,
}

/// An attribute as a mathematical value.
pub struct AttributeView {
    pub key: Seq<u8>,
    pub value: Seq<u8>,
}

impl View for XmlAttribute {
    type V = AttributeView;

    open spec fn view(&self) -> AttributeView {
        AttributeView { key: self.key@, value: self.value@ }
    }
}

/// The attributes of a tag as mathematical values.
pub open spec fn attribute_views(attributes: Seq<Option<XmlAttribute>>) -> Seq<
    Option<AttributeView>,
> {
    Seq::new(
        attributes.len(),
        |i: int|
            match attributes[i] {
                Some(attribute) => Some(attribute@),
                None => None,
            },
    )
}

/// A tag as a mathematical value.
pub struct TagView {
    pub name: Seq<u8>,
    pub local_name: Seq<u8>,
    pub attributes: Seq<Option<AttributeView>>,
}

impl View for XmlTag {
    type V = TagView;

    open spec fn view(&self) -> TagView {
        TagView {
            name: self.name@,
            local_name: self.local_name@,
            attributes: attribute_views(self.attributes@),
        }
    }
}

/// An event as a mathematical value.
pub enum EventView {
    Start(TagView),
    Empty(TagView),
    End { name: Seq<u8>, local_name: Seq<u8> },
    Text(Option<Seq<char>>),
    Other,
}

impl View for XmlEvent {
    type V = EventView;

    open spec fn view(&self) -> EventView {
        match *self {
            XmlEvent::Start(tag) => EventView::Start(tag@),
            XmlEvent::Empty(tag) => EventView::Empty(tag@),
            XmlEvent::End { name, local_name } => EventView::End {
                name: name@,
                local_name: local_name@,
            },
            XmlEvent::Text(Some(text)) => EventView::Text(Some(text@)),
            XmlEvent::Text(None) => EventView::Text(None),
            XmlEvent::Other => EventView::Other,
        }
    }
}

/// Events as mathematical values.
pub open spec fn event_views(events: Seq<XmlEvent>) -> Seq<EventView> {
    Seq::new(events.len(), |i: int| events[i]@)
}

// ---------------------------------------------------------------------------
// What the reader gives, by name
// ---------------------------------------------------------------------------

/// The events that a reader gives for a document, one after the other, up
/// to the end of the document or to the first fault of the reader. The
/// reader is set to trim the blanks around text.
pub uninterp spec fn xml_events(xml: Seq<u8>) -> Seq<EventView>;

/// The events that a reader has still to give, up to the end of its
/// document or to its first fault.
pub uninterp spec fn events_ahead(reader: quick_xml::reader::Reader<&[u8]>) -> Seq<EventView>;

/// Which kind of event the reader gave.
pub uninterp spec fn kind_seen(event: quick_xml::events::Event) -> XmlEventKind;

/// The name in a tag that the reader gave; empty for other events. One
/// name for the start tag, the empty element and the end tag: an event is
/// of one kind only, so that for each event one method of the reader
/// stands behind it.
pub uninterp spec fn name_seen(event: quick_xml::events::Event) -> Seq<u8>;

/// The name without its prefix in a tag that the reader gave; empty for
/// other events. One name for the start tag, the empty element and the end
/// tag: an event is of one kind only, so that for each event one method of
/// the reader stands behind it.
pub uninterp spec fn local_name_seen(event: quick_xml::events::Event) -> Seq<u8>;

/// The attributes in a tag that the reader gave; none for other events.
pub uninterp spec fn attributes_seen(event: quick_xml::events::Event) -> Seq<
    Option<AttributeView>,
>;

/// The text of a text event that the reader gave, where its escapes could
/// be resolved.
pub uninterp spec fn text_seen(event: quick_xml::events::Event) -> Option<Seq<char>>;

/// What is kept of an event that the reader gave.
pub open spec fn seen(event: quick_xml::events::Event) -> EventView {
    match kind_seen(event) {
        XmlEventKind::Start => EventView::Start(
            TagView {
                name: name_seen(event),
                local_name: local_name_seen(event),
                attributes: attributes_seen(event),
            },
        ),
        XmlEventKind::Empty => EventView::Empty(
            TagView {
                name: name_seen(event),
                local_name: local_name_seen(event),
                attributes: attributes_seen(event),
            },
        ),
        XmlEventKind::End => EventView::End {
            name: name_seen(event),
            local_name: local_name_seen(event),
        },
        XmlEventKind::Text => EventView::Text(text_seen(event)),
        _ => EventView::Other,
    }
}

/// The first `limit` of the events, or all of them where they are fewer.
pub open spec fn first_events(events: Seq<EventView>, limit: nat) -> Seq<EventView> {
    if events.len() <= limit {
        events
    } else {
        events.take(limit as int)
    }
}

/// The events that are read of a document: those that the reader gives, and
/// no more of them than the document has bytes.
pub open spec fn events_read(xml: Seq<u8>) -> Seq<EventView> {
    first_events(xml_events(xml), xml.len())
}

// ---------------------------------------------------------------------------
// Reading
// ---------------------------------------------------------------------------

/// `quick_xml::Reader::from_reader` over the bytes, set to trim the blanks
/// around text (`Config::trim_text`). The events that the reader will give
/// depend on the bytes alone; what they are, is not stated.
#[verifier::external_body]
fn open_reader<'a>(xml: &'a [u8]) -> (reader: quick_xml::reader::Reader<&'a [u8]>)
    ensures
        events_ahead(reader) == xml_events(xml@),
{
    let mut reader = quick_xml::reader::Reader::from_reader(xml);
    reader.config_mut().trim_text(true);
    reader
}

/// `Reader::read_event`: the next event, or nothing where the reader met a
/// fault. An event other than the end of the document is the first of those
/// that the reader had to give, and the reader is left with the rest; at
/// the end of the document and at a fault it had none to give.
#[verifier::external_body]
fn next_event<'a>(reader: &mut quick_xml::reader::Reader<&'a [u8]>) -> (r: Option<
    quick_xml::events::Event<'a>,
>)
    ensures
        match r {
            Some(event) => if kind_seen(event) == XmlEventKind::Eof {
                events_ahead(*old(reader)).len() == 0
            } else {
                &&& events_ahead(*old(reader)).len() > 0
                &&& events_ahead(*old(reader))[0] == seen(event)
                &&& events_ahead(*final(reader)) == events_ahead(*old(reader)).skip(1)
            },
            None => events_ahead(*old(reader)).len() == 0,
        },
{
    reader.read_event().ok()
}

/// Which variant of `quick_xml::events::Event` an event is. The answer
/// depends on the event alone.
#[verifier::external_body]
fn kind_of_event(event: &quick_xml::events::Event<'_>) -> (r: XmlEventKind)
    ensures
        r == kind_seen(*event),
{
    match event {
        quick_xml::events::Event::Start(_) => XmlEventKind::Start,
        quick_xml::events::Event::Empty(_) => XmlEventKind::Empty,
        quick_xml::events::Event::End(_) => XmlEventKind::End,
        quick_xml::events::Event::Text(_) => XmlEventKind::Text,
        quick_xml::events::Event::Eof => XmlEventKind::Eof,
        _ => XmlEventKind::Other,
    }
}

/// The name of a start tag, an empty element or an end tag
/// (`BytesStart::name`, `BytesEnd::name`); empty for other events. The
/// name depends on the event alone; what it is, is not stated.
#[verifier::external_body]
fn name_of_event(event: &quick_xml::events::Event<'_>) -> (r: Vec<u8>)
    ensures
        r@ == name_seen(*event),
{
    match event {
        quick_xml::events::Event::Start(e) => e.name().as_ref().to_vec(),
        quick_xml::events::Event::Empty(e) => e.name().as_ref().to_vec(),
        quick_xml::events::Event::End(e) => e.name().as_ref().to_vec(),
        _ => Vec::new(),
    }
}

/// The name without its prefix (`BytesStart::local_name`,
/// `BytesEnd::local_name`); empty for other events. The name depends on
/// the event alone; what it is, is not stated.
#[verifier::external_body]
fn local_name_of_event(event: &quick_xml::events::Event<'_>) -> (r: Vec<u8>)
    ensures
        r@ == local_name_seen(*event),
{
    match event {
        quick_xml::events::Event::Start(e) => e.local_name().as_ref().to_vec(),
        quick_xml::events::Event::Empty(e) => e.local_name().as_ref().to_vec(),
        quick_xml::events::Event::End(e) => e.local_name().as_ref().to_vec(),
        _ => Vec::new(),
    }
}

/// The attributes of a start tag or an empty element
/// (`BytesStart::attributes`), each with the local part of its key and its
/// value; none for other events. They depend on the event alone; what they
/// are, is not stated.
#[verifier::external_body]
fn attributes_of_event(event: &quick_xml::events::Event<'_>) -> (r: Vec<Option<XmlAttribute>>)
    ensures
        attribute_views(r@) == attributes_seen(*event),
{
    let tag = match event {
        quick_xml::events::Event::Start(e) => e,
        quick_xml::events::Event::Empty(e) => e,
        _ => return Vec::new(),
    };
    tag.attributes().map(|a| a.ok().map(|a| XmlAttribute {
        key: a.key.local_name().as_ref().to_vec(),
        value: a.value.to_vec(),
    })).collect()
}

/// The text of a text event with its escapes resolved
/// (`BytesText::unescape`); nothing where that fails, and for other events.
/// The text depends on the event alone; what it is, is not stated.
#[verifier::external_body]
fn text_of_event(event: &quick_xml::events::Event<'_>) -> (r: Option<String>)
    ensures
        match r {
            Some(text) => text_seen(*event) == Some(text@),
            None => text_seen(*event) is None,
        },
{
    match event {
        quick_xml::events::Event::Text(e) => e.unescape().ok().map(|t| t.into_owned()),
        _ => None,
    }
}

/// The events of a document, up to its end or to the first fault of the
/// reader, as [`events_read`] says. What they are is the reader's matter;
/// here each is turned into a value as it comes. No more events are taken
/// than the document has bytes.
pub fn read_events(xml: &[u8]) -> (r: Vec<XmlEvent>)
    ensures
        event_views(r@) == events_read(xml@),
        r.len() <= xml.len(),
{
    let mut reader = open_reader(xml);
    let mut events: Vec<XmlEvent> = Vec::new();
    proof {
        assert(event_views(events@) + events_ahead(reader) =~= xml_events(xml@));
    }
    while events.len() < xml.len()
        invariant_except_break
            event_views(events@) + events_ahead(reader) == xml_events(xml@),
        invariant
            events.len() <= xml.len(),
        ensures
            event_views(events@) == events_read(xml@),
        decreases xml.len() - events.len(),
    {
        let ghost ahead = events_ahead(reader);
        let ghost before = events@;
        let event = match next_event(&mut reader) {
            Some(event) => event,
            None => {
                proof {
                    assert(event_views(events@) =~= xml_events(xml@));
                }
                break ;
            },
        };
        let found = match kind_of_event(&event) {
            XmlEventKind::Eof => {
                proof {
                    assert(event_views(events@) =~= xml_events(xml@));
                }
                break ;
            },
            XmlEventKind::Start => XmlEvent::Start(
                XmlTag {
                    name: name_of_event(&event),
                    local_name: local_name_of_event(&event),
                    attributes: attributes_of_event(&event),
                },
            ),
            XmlEventKind::Empty => XmlEvent::Empty(
                XmlTag {
                    name: name_of_event(&event),
                    local_name: local_name_of_event(&event),
                    attributes: attributes_of_event(&event),
                },
            ),
            XmlEventKind::End => XmlEvent::End {
                name: name_of_event(&event),
                local_name: local_name_of_event(&event),
            },
            XmlEventKind::Text => XmlEvent::Text(text_of_event(&event)),
            XmlEventKind::Other => XmlEvent::Other,
        };
        assert(found@ == ahead[0]);
        events.push(found);
        proof {
            assert(event_views(events@) + events_ahead(reader) =~= event_views(before) + ahead);
            if events.len() == xml.len() {
                let all = xml_events(xml@);
                if all.len() > xml.len() {
                    assert(event_views(events@) =~= all.take(xml.len() as int));
                } else {
                    assert(event_views(events@) =~= all);
                }
            }
        }
    }
    events
}

} // verus!
