//! The XML event stream.
//!
//! The pull-parser of the `quick_xml` crate tokenizes a part's bytes; this
//! module narrows its events to the plain shapes the decoders interpret:
//! element open/close with raw local names, attributes with raw bytes for
//! their values, and character data as text.  Everything downstream of
//! [`tokenize`] works on these plain values and is verified.

use quick_xml::events::Event;
use vstd::prelude::*;

use crate::error::Error;

verus! {

/// One attribute: its local name and its normalized value, both as raw
/// bytes.
#[derive(Debug)]
pub struct XmlAttr {
    pub name: Vec<u8>,
    pub value: Vec<u8>,
}

/// Mathematical view of an [`XmlAttr`].
pub struct AttrV {
    pub name: Seq<u8>,
    pub value: Seq<u8>,
}

impl View for XmlAttr {
    type V = AttrV;

    open spec fn view(&self) -> AttrV {
        AttrV { name: self.name@, value: self.value@ }
    }
}

impl DeepView for XmlAttr {
    type V = AttrV;

    open spec fn deep_view(&self) -> AttrV {
        self.view()
    }
}

/// One event of a part's XML stream, reduced to plain values.
#[derive(Debug)]
pub enum XmlEvent {
    /// `<name ...>`.
    Open { name: Vec<u8>, attrs: Vec<XmlAttr> },
    /// `<name ... />`.
    SelfClosed { name: Vec<u8>, attrs: Vec<XmlAttr> },
    /// `</name>`.
    Close { name: Vec<u8> },
    /// Character data, entity references already resolved.
    Text { text: String },
    /// Markup the decoders do not interpret (declarations, comments, ...).
    Skip,
    /// End of the part.
    Eof,
    /// The tokenizer cannot continue.
    Malformed,
}

/// Mathematical view of an [`XmlEvent`].
pub enum EventV {
    Open { name: Seq<u8>, attrs: Seq<AttrV> },
    SelfClosed { name: Seq<u8>, attrs: Seq<AttrV> },
    Close { name: Seq<u8> },
    Text { text: Seq<char> },
    Skip,
    Eof,
    Malformed,
}

impl View for XmlEvent {
    type V = EventV;

    open spec fn view(&self) -> EventV {
        match self {
            XmlEvent::Open { name, attrs } => EventV::Open {
                name: name@,
                attrs: attrs.deep_view(),
            },
            XmlEvent::SelfClosed { name, attrs } => EventV::SelfClosed {
                name: name@,
                attrs: attrs.deep_view(),
            },
            XmlEvent::Close { name } => EventV::Close { name: name@ },
            XmlEvent::Text { text } => EventV::Text { text: text@ },
            XmlEvent::Skip => EventV::Skip,
            XmlEvent::Eof => EventV::Eof,
            XmlEvent::Malformed => EventV::Malformed,
        }
    }
}

impl DeepView for XmlEvent {
    type V = EventV;

    open spec fn deep_view(&self) -> EventV {
        self.view()
    }
}

#[verifier::external_type_specification]
#[verifier::external_body]
#[verifier::reject_recursive_types(R)]
pub struct ExReader<R>(quick_xml::Reader<R>);

#[verifier::external_type_specification]
#[verifier::external_body]
#[verifier::reject_recursive_types(T)]
pub struct ExCursor<T>(std::io::Cursor<T>);

#[verifier::external_type_specification]
#[verifier::external_body]
pub struct ExBytesStart<'a>(quick_xml::events::BytesStart<'a>);

#[verifier::external_type_specification]
#[verifier::external_body]
pub struct ExBytesRef<'a>(quick_xml::events::BytesRef<'a>);

/// An event that ends a part's stream: the end of input, or a tokenizer
/// failure after which no further event is read.
pub open spec fn is_terminal(ev: EventV) -> bool {
    ev is Eof || ev is Malformed
}

/// The event stream the pull-parser yields for a part's bytes, up to and
/// including its first terminal event.  Over an in-memory cursor the
/// parser is deterministic, so the stream is a function of the bytes
/// alone; what it is on given bytes is not stated here — the decoders
/// take the events as arguments and are verified for every value of them.
pub uninterp spec fn xml_events_of(bytes: Seq<u8>) -> Seq<EventV>;

/// The token list of a part that tokenizes whole: its full event stream,
/// closed by `Eof`; absent when the stream ends in a tokenizer failure
/// instead.
pub open spec fn tokens_of(bytes: Seq<u8>) -> Option<Seq<EventV>> {
    let stream = xml_events_of(bytes);
    if stream.len() >= 1 && stream.last() is Eof {
        Some(stream)
    } else {
        None
    }
}

/// What one read of the pull-parser guarantees: the stream of the source
/// bytes is non-empty, exactly its last event is terminal, and the read
/// at position `k` (when the terminal end has not been passed) yields the
/// stream's event there.
pub open spec fn stream_yields(stream: Seq<EventV>, k: int, event: EventV) -> bool {
    &&& stream.len() >= 1
    &&& is_terminal(stream.last())
    &&& (forall|j: int| 0 <= j < stream.len() - 1 ==> !is_terminal(#[trigger] stream[j]))
    &&& (k < stream.len() ==> event == stream[k])
}

/// A pull-parser positioned inside one part's bytes, carrying the bytes
/// it was opened over and how many events it has already yielded.
pub struct XmlReader {
    inner: quick_xml::Reader<std::io::Cursor<Vec<u8>>>,
    source: Ghost<Seq<u8>>,
    emitted: Ghost<int>,
}

impl XmlReader {
    /// The part bytes this reader walks.
    pub closed spec fn source(self) -> Seq<u8> {
        self.source@
    }

    /// How many events have been yielded so far.
    pub closed spec fn emitted(self) -> int {
        self.emitted@
    }
}

/// Relies on `quick_xml::Reader::from_reader` over an in-memory cursor.
/// End-tag name checking is relaxed, matching the tolerant handling these
/// documents get elsewhere.
#[verifier::external_body]
fn reader_over(bytes: Vec<u8>) -> (reader: XmlReader)
    ensures
        reader.source() == bytes@,
        reader.emitted() == 0,
{
    let ghost src = bytes@;
    let mut inner = quick_xml::Reader::from_reader(std::io::Cursor::new(bytes));
    inner.config_mut().check_end_names = false;
    inner.config_mut().allow_unmatched_ends = true;
    XmlReader { inner, source: Ghost(src), emitted: Ghost(0) }
}

/// Relies on `BytesStart::local_name`: the tag name without a namespace
/// prefix, as raw bytes; the whole element event, attributes included.
#[verifier::external_body]
fn element_event(start: &quick_xml::events::BytesStart<'_>, self_closed: bool) -> (event: XmlEvent) {
    let name = start.local_name().as_ref().as_bytes().to_vec();
    let attrs = attrs_of(start);
    if self_closed {
        XmlEvent::SelfClosed { name, attrs }
    } else {
        XmlEvent::Open { name, attrs }
    }
}

/// Relies on `BytesStart::attributes` and `Attribute::normalized_value`:
/// each well-formed attribute, its key without a namespace prefix and its
/// value with entity references resolved (raw when that fails), in
/// document order.
#[verifier::external_body]
fn attrs_of(start: &quick_xml::events::BytesStart<'_>) -> (attrs: Vec<XmlAttr>) {
    start.attributes().filter_map(|a| a.ok()).map(
        |a| XmlAttr {
            name: a.key.local_name().as_ref().as_bytes().to_vec(),
            value: match a.normalized_value(quick_xml::XmlVersion::Implicit1_0) {
                Ok(v) => v.into_owned().into_bytes(),
                Err(_) => a.value.as_bytes().to_vec(),
            },
        },
    ).collect()
}

/// Relies on `BytesRef::resolve_char_ref` and
/// `quick_xml::escape::resolve_predefined_entity`: a character or
/// predefined entity reference becomes the text it denotes; anything else
/// is malformed.
#[verifier::external_body]
fn resolve_reference(general_ref: &quick_xml::events::BytesRef<'_>) -> (event: XmlEvent) {
    match general_ref.resolve_char_ref() {
        Ok(Some(c)) => XmlEvent::Text { text: c.to_string() },
        Ok(None) => match quick_xml::escape::resolve_predefined_entity(general_ref.as_ref()) {
            Some(t) => XmlEvent::Text { text: t.to_string() },
            None => XmlEvent::Malformed,
        },
        Err(_) => XmlEvent::Malformed,
    }
}

/// Relies on `quick_xml::Reader::read_event_into`: the next event of the
/// part's stream, each variant narrowed to plain values.  Over an
/// in-memory cursor the parser is deterministic — repeated reads walk the
/// one stream [`xml_events_of`] names — and the stream is finite and ends
/// in exactly one terminal event: every event before that consumes input,
/// and at the end of input the parser reports `Eof` (or an error, here
/// `Malformed`, after which nothing more is read).
#[verifier::external_body]
fn next_event(reader: &mut XmlReader) -> (event: XmlEvent)
    ensures
        final(reader).source() == old(reader).source(),
        final(reader).emitted() == old(reader).emitted() + 1,
        stream_yields(xml_events_of(old(reader).source()), old(reader).emitted(), event@),
{
    let mut buf: Vec<u8> = Vec::new();
    match reader.inner.read_event_into(&mut buf) {
        Ok(Event::Start(s)) => element_event(&s, false),
        Ok(Event::Empty(s)) => element_event(&s, true),
        Ok(Event::End(e)) => XmlEvent::Close { name: e.local_name().as_ref().as_bytes().to_vec() },
        Ok(Event::Text(t)) => XmlEvent::Text { text: t.xml10_content().into_owned() },
        Ok(Event::CData(c)) => XmlEvent::Text { text: c.xml10_content().into_owned() },
        Ok(Event::GeneralRef(g)) => resolve_reference(&g),
        Ok(Event::Eof) => XmlEvent::Eof,
        Ok(_) => XmlEvent::Skip,
        Err(_) => XmlEvent::Malformed,
    }
}

/// Reads every event of one part: exactly the token list [`tokens_of`]
/// names when the part tokenizes whole, and [`Error::MalformedXml`] when
/// its stream ends in a tokenizer failure instead.
pub fn tokenize(bytes: Vec<u8>) -> (result: Result<Vec<XmlEvent>, Error>)
    ensures
        match result {
            Ok(events) => tokens_of(bytes@) == Some(events.deep_view()),
            Err(e) => e == Error::MalformedXml && tokens_of(bytes@) is None,
        },
{
    let ghost src = bytes@;
    let ghost stream = xml_events_of(bytes@);
    let mut reader = reader_over(bytes);
    let mut events: Vec<XmlEvent> = Vec::new();
    proof {
        assert(events.deep_view() =~= stream.take(0));
    }
    loop
        invariant
            src == bytes@,
            reader.source() == src,
            stream == xml_events_of(src),
            reader.emitted() == events@.len(),
            events@.len() <= stream.len(),
            events.deep_view() == stream.take(events@.len() as int),
            forall|k: int| 0 <= k < events@.len() ==> !is_terminal(#[trigger] stream[k]),
        decreases stream.len() - reader.emitted(),
    {
        let ghost e0 = reader.emitted();
        let event = next_event(&mut reader);
        proof {
            // Everything yielded so far was non-terminal, so the stream's
            // terminal end has not been passed yet.
            if e0 >= stream.len() {
                assert(!is_terminal(stream[stream.len() - 1]));
                assert(false);
            }
            assert(event@ == stream[e0]);
        }
        match &event {
            XmlEvent::Eof => {
                proof {
                    assert(e0 == stream.len() - 1);
                    assert(stream.last() is Eof);
                }
                events.push(event);
                proof {
                    assert(events.deep_view() =~= stream.take(e0).push(stream[e0]));
                    assert(events.deep_view() =~= stream);
                }
                return Ok(events);
            },
            XmlEvent::Malformed => {
                proof {
                    assert(e0 == stream.len() - 1);
                    assert(!(stream.last() is Eof));
                }
                return Err(Error::MalformedXml);
            },
            _ => {
                proof {
                    assert(!is_terminal(event@));
                    assert(e0 < stream.len() - 1);
                }
                events.push(event);
                proof {
                    assert(events.deep_view() =~= stream.take(e0).push(stream[e0]));
                    assert(events.deep_view() =~= stream.take(e0 + 1));
                }
            },
        }
    }
}

/// The value of the first attribute with the given ASCII name, if any.
pub open spec fn attr_named(attrs: Seq<AttrV>, name: Seq<char>) -> Option<Seq<u8>>
    decreases attrs.len(),
{
    if attrs.len() == 0 {
        None
    } else if crate::text::is_tag(attrs[0].name, name) {
        Some(attrs[0].value)
    } else {
        attr_named(attrs.drop_first(), name)
    }
}

/// Finds the first attribute with the given name and hands out its value.
pub fn find_attr<'a>(attrs: &'a Vec<XmlAttr>, name: &str) -> (result: Option<&'a Vec<u8>>)
    ensures
        match result {
            Some(v) => attr_named(attrs.deep_view(), name@) == Some(v@),
            None => attr_named(attrs.deep_view(), name@) is None,
        },
{
    let n = attrs.len();
    proof {
        assert(attrs.deep_view().skip(0) =~= attrs.deep_view());
    }
    let mut i: usize = 0;
    while i < n
        invariant
            n == attrs@.len(),
            0 <= i <= n,
            attr_named(attrs.deep_view(), name@) == attr_named(
                attrs.deep_view().skip(i as int),
                name@,
            ),
        decreases n - i,
    {
        let a = &attrs[i];
        proof {
            assert(attrs.deep_view().skip(i as int).drop_first() =~= attrs.deep_view().skip(
                i + 1,
            ));
            assert(attrs.deep_view().skip(i as int)[0] == attrs@[i as int].deep_view());
        }
        if crate::text::tag_matches(a.name.as_slice(), name) {
            return Some(&a.value);
        }
        i = i + 1;
    }
    proof {
        assert(attrs.deep_view().skip(n as int) =~= Seq::<AttrV>::empty());
    }
    None
}

} // verus!
