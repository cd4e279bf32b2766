//! XML documents as sequences of events, read with `quick_xml`.

use crate::text::{begins, option_view};
use quick_xml::events::{BytesStart, Event};
use quick_xml::Reader;
use vstd::prelude::*;

verus! {

/// `quick_xml::Reader`: a pull parser that hands out the events of a document one by one.
#[verifier::external_type_specification]
#[verifier::external_body]
#[verifier::reject_recursive_types(R)]
pub struct ExReader<R>(quick_xml::Reader<R>);

/// One attribute of a start tag, its value as written.
#[derive(Debug, Clone)]
pub struct XmlAttribute {
    pub key: String,
    pub value: String,
}

/// An event of an XML document.
#[derive(Debug, Clone)]
pub enum XmlEvent {
    /// A start tag with the attributes that could be read.
    Start { name: String, attributes: Vec<XmlAttribute> },
    /// An end tag.
    End { name: String },
    /// Text with its entities resolved, or nothing where an entity cannot be resolved.
    Text { content: Option<String> },
    /// The end of the document.
    Eof,
    /// Anything else: comments, declarations, empty elements.
    Other,
    /// The document is not well formed here.
    Malformed { position: u64, detail: String },
}

/// What an attribute says.
#[verifier::ext_equal]
pub struct AttributeView {
    pub key: Seq<char>,
    pub value: Seq<char>,
}

/// What an event says.
#[verifier::ext_equal]
pub enum EventView {
    Start { name: Seq<char>, attributes: Seq<AttributeView> },
    End { name: Seq<char> },
    Text { content: Option<Seq<char>> },
    Eof,
    Other,
    Malformed { position: u64, detail: Seq<char> },
}

/// An event as the parser hands it out: a start tag is the text between its brackets.
pub enum RawEvent {
    Start { name: String, tag: String },
    End { name: String },
    Text { content: Option<String> },
    Eof,
    Other,
    Malformed { position: u64, detail: String },
}

/// What a raw event says.
#[verifier::ext_equal]
pub enum RawView {
    Start { name: Seq<char>, tag: Seq<char> },
    End { name: Seq<char> },
    Text { content: Option<Seq<char>> },
    Eof,
    Other,
    Malformed { position: u64, detail: Seq<char> },
}

impl XmlAttribute {
    pub open spec fn view(&self) -> AttributeView {
        AttributeView { key: self.key@, value: self.value@ }
    }
}

/// What each attribute says.
pub open spec fn attributes_view(s: Seq<XmlAttribute>) -> Seq<AttributeView> {
    s.map_values(|a: XmlAttribute| a@)
}

impl XmlEvent {
    pub open spec fn view(&self) -> EventView {
        match *self {
            XmlEvent::Start { name, attributes } => EventView::Start {
                name: name@,
                attributes: attributes_view(attributes@),
            },
            XmlEvent::End { name } => EventView::End { name: name@ },
            XmlEvent::Text { content } => EventView::Text {
                content: option_view(content),
            },
            XmlEvent::Eof => EventView::Eof,
            XmlEvent::Other => EventView::Other,
            XmlEvent::Malformed { position, detail } => EventView::Malformed {
                position,
                detail: detail@,
            },
        }
    }
}

/// What each event says.
pub open spec fn events_view(s: Seq<XmlEvent>) -> Seq<EventView> {
    s.map_values(|e: XmlEvent| e@)
}

impl RawEvent {
    pub open spec fn view(&self) -> RawView {
        match *self {
            RawEvent::Start { name, tag } => RawView::Start { name: name@, tag: tag@ },
            RawEvent::End { name } => RawView::End { name: name@ },
            RawEvent::Text { content } => RawView::Text {
                content: option_view(content),
            },
            RawEvent::Eof => RawView::Eof,
            RawEvent::Other => RawView::Other,
            RawEvent::Malformed { position, detail } => RawView::Malformed {
                position,
                detail: detail@,
            },
        }
    }
}

/// The raw events of a document, up to its end or to the first place where it is malformed.
pub uninterp spec fn raw_events(document: Seq<char>) -> Seq<RawView>;

/// The raw events that a reader has not handed out yet.
pub uninterp spec fn unread(reader: quick_xml::Reader<&[u8]>) -> Seq<RawView>;

/// The attributes of the start tag `tag`, whose element name is `name`, in order; nothing
/// where an attribute is malformed.
pub uninterp spec fn tag_attributes(tag: Seq<char>, name: Seq<char>) -> Seq<Option<AttributeView>>;

/// Whether reading stops at an event.
pub open spec fn is_stop(e: RawView) -> bool {
    e is Eof || e is Malformed
}

/// Whether `s` ends with its first stop.
pub open spec fn ends_with_stop(s: Seq<RawView>) -> bool {
    &&& s.len() > 0
    &&& forall|i: int| 0 <= i < s.len() ==> (is_stop(#[trigger] s[i]) <==> i == s.len() - 1)
}

/// `quick_xml::Reader::from_str`: a reader before the first event of the document. The document
/// has finitely many events, the last of which is its end or its first malformed place.
#[verifier::external_body]
fn open(document: &str) -> (r: Reader<&[u8]>)
    ensures
        unread(r) == raw_events(document@),
        ends_with_stop(unread(r)),
{
    Reader::from_str(document)
}

/// `quick_xml::Reader::read_event`: the next event. Tags and names are parts of the document, a
/// start tag begins with its name, and text has its entities resolved by `BytesText::unescape`.
#[verifier::external_body]
fn read_event(reader: &mut Reader<&[u8]>) -> (r: RawEvent)
    requires
        unread(*old(reader)).len() > 0,
    ensures
        r@ == unread(*old(reader))[0],
        match r {
            RawEvent::Start { name, tag } => begins(tag@, name@),
            _ => true,
        },
        unread(*final(reader)) == unread(*old(reader)).drop_first(),
{
    let text = |b: &[u8]| String::from_utf8_lossy(b).into_owned();
    match reader.read_event() {
        Ok(Event::Start(e)) => RawEvent::Start { name: text(e.name().as_ref()), tag: text(&e) },
        Ok(Event::End(e)) => RawEvent::End { name: text(e.name().as_ref()) },
        Ok(Event::Text(e)) => RawEvent::Text { content: e.unescape().ok().map(|t| t.into_owned()) },
        Ok(Event::Eof) => RawEvent::Eof,
        Ok(_) => RawEvent::Other,
        Err(e) => {
            RawEvent::Malformed { position: reader.error_position(), detail: e.to_string() }
        },
    }
}

/// `quick_xml::events::BytesStart::attributes`: the attribute at `index` of a start tag, or
/// `Some(None)` where that attribute is malformed. The tag has to begin with the name, behind which
/// the attributes are looked for. Each attribute takes up part of the tag, so there are fewer of
/// them than a `usize` can count.
#[verifier::external_body]
fn attribute_at(tag: &str, name: &str, index: usize) -> (r: Option<Option<XmlAttribute>>)
    requires
        begins(tag@, name@),
    ensures
        match r {
            Some(Some(a)) => index < tag_attributes(tag@, name@).len() && tag_attributes(
                tag@,
                name@,
            )[index as int] == Some(a@),
            Some(None) => index < tag_attributes(tag@, name@).len() && tag_attributes(
                tag@,
                name@,
            )[index as int] is None,
            None => index >= tag_attributes(tag@, name@).len(),
        },
        r is Some ==> index < usize::MAX,
{
    let text = |b: &[u8]| String::from_utf8_lossy(b).into_owned();
    let start = BytesStart::from_content(tag, name.len());
    start.attributes().nth(index).map(
        |a| a.ok().map(|a| XmlAttribute { key: text(a.key.as_ref()), value: text(&a.value) }),
    )
}

/// The attributes that could be read, in order.
pub open spec fn readable(s: Seq<Option<AttributeView>>) -> Seq<AttributeView>
    decreases s.len(),
{
    if s.len() == 0 {
        Seq::empty()
    } else {
        match s.last() {
            Some(a) => readable(s.drop_last()).push(a),
            None => readable(s.drop_last()),
        }
    }
}

/// A raw event with the attributes of its start tag.
pub open spec fn with_attributes(e: RawView) -> EventView {
    match e {
        RawView::Start { name, tag } => EventView::Start {
            name,
            attributes: readable(tag_attributes(tag, name)),
        },
        RawView::End { name } => EventView::End { name },
        RawView::Text { content } => EventView::Text { content },
        RawView::Eof => EventView::Eof,
        RawView::Other => EventView::Other,
        RawView::Malformed { position, detail } => EventView::Malformed { position, detail },
    }
}

/// The events of a document, up to its end or to the first place where it is malformed.
pub open spec fn xml_events(document: Seq<char>) -> Seq<EventView> {
    raw_events(document).map_values(|e: RawView| with_attributes(e))
}

/// The attributes of a start tag that could be read.
fn attributes_of(tag: &str, name: &str) -> (r: Vec<XmlAttribute>)
    requires
        begins(tag@, name@),
    ensures
        attributes_view(r@) == readable(tag_attributes(tag@, name@)),
{
    let ghost all = tag_attributes(tag@, name@);
    let mut r: Vec<XmlAttribute> = Vec::new();
    let mut i: usize = 0;
    proof {
        assert(attributes_view(r@) =~= readable(all.subrange(0, 0)));
    }
    loop
        invariant
            begins(tag@, name@),
            all == tag_attributes(tag@, name@),
            i <= all.len(),
            attributes_view(r@) == readable(all.subrange(0, i as int)),
        decreases all.len() - i,
    {
        let a = attribute_at(tag, name, i);
        match a {
            None => {
                proof {
                    assert(all.subrange(0, i as int) =~= all);
                }
                return r;
            },
            Some(found) => {
                let ghost done = r@;
                proof {
                    let next = all.subrange(0, i + 1);
                    assert(next.drop_last() =~= all.subrange(0, i as int));
                    assert(next.last() == all[i as int]);
                }
                if let Some(attribute) = found {
                    let ghost av = attribute@;
                    r.push(attribute);
                    proof {
                        assert(attributes_view(r@) =~= attributes_view(done).push(av));
                    }
                }
                i = i + 1;
            },
        }
    }
}

/// The events of a document, up to its end or to the first place where it is malformed.
pub fn read_document(document: &str) -> (r: Vec<XmlEvent>)
    ensures
        events_view(r@) == xml_events(document@),
{
    let mut reader = open(document);
    let ghost raw = raw_events(document@);
    let ghost all = xml_events(document@);
    let mut r: Vec<XmlEvent> = Vec::new();
    let ghost mut i: int = 0;
    proof {
        assert(raw.subrange(0, raw.len() as int) =~= raw);
        assert(events_view(r@) =~= all.subrange(0, 0));
    }
    loop
        invariant
            raw == raw_events(document@),
            all == xml_events(document@),
            0 <= i < raw.len(),
            ends_with_stop(raw),
            unread(reader) == raw.subrange(i, raw.len() as int),
            events_view(r@) == all.subrange(0, i),
        decreases raw.len() - i,
    {
        let raw_event = read_event(&mut reader);
        let ghost seen = raw_event@;
        proof {
            assert(seen == raw[i]);
            assert(raw.subrange(i, raw.len() as int).drop_first() =~= raw.subrange(
                i + 1,
                raw.len() as int,
            ));
        }
        let stop: bool = match &raw_event {
            RawEvent::Eof => true,
            RawEvent::Malformed { .. } => true,
            _ => false,
        };
        let event = match raw_event {
            RawEvent::Start { name, tag } => {
                let attributes = attributes_of(&tag, &name);
                XmlEvent::Start { name, attributes }
            },
            RawEvent::End { name } => XmlEvent::End { name },
            RawEvent::Text { content } => XmlEvent::Text { content },
            RawEvent::Eof => XmlEvent::Eof,
            RawEvent::Other => XmlEvent::Other,
            RawEvent::Malformed { position, detail } => XmlEvent::Malformed { position, detail },
        };
        let ghost done = r@;
        let ghost ev = event@;
        r.push(event);
        proof {
            assert(ev == all[i]);
            assert(events_view(r@) =~= events_view(done).push(ev));
            assert(all.subrange(0, i + 1) =~= all.subrange(0, i).push(all[i]));
            i = i + 1;
        }
        if stop {
            proof {
                assert(all.subrange(0, i) =~= all);
            }
            return r;
        }
    }
}

/// The attributes that can be read are taken in order, and no others.
pub proof fn lemma_readable(s: Seq<Option<AttributeView>>, a: AttributeView)
    ensures
        readable(s.push(Some(a))) == readable(s).push(a),
        readable(s.push(None)) == readable(s),
        readable(Seq::empty()).len() == 0,
{
    assert(s.push(Some(a)).drop_last() =~= s);
    assert(s.push(None).drop_last() =~= s);
}

} // verus!
