//! Event-by-event reading of XML text with `quick_xml`, as values of the
//! library's own event type.

use vstd::prelude::*;
use quick_xml::events::Event as XEvent;
use quick_xml::events::{BytesDecl, BytesEnd, BytesStart, BytesText};
use quick_xml::Reader as XReader;
use quick_xml::Writer as XWriter;
use std::io::Cursor;

verus! {

#[verifier::external_type_specification]
#[verifier::external_body]
#[verifier::reject_recursive_types(R)]
pub struct ExXmlReader<R>(quick_xml::Reader<R>);

#[verifier::external_type_specification]
#[verifier::external_body]
#[verifier::reject_recursive_types(W)]
pub struct ExXmlWriter<W>(quick_xml::Writer<W>);

#[verifier::external_type_specification]
#[verifier::external_body]
pub struct ExBytesStart<'a>(quick_xml::events::BytesStart<'a>);

/// A start or empty-element tag: its qualified name and its well-formed
/// attributes (key, raw value), in document order.
pub struct XmlTag {
    /// Qualified tag name.
    pub name: String,
    /// Attributes as (key, raw value) pairs.
    pub attributes: Vec<(String, String)>,
}

/// One event of an XML document.
pub enum XmlEvent {
    /// `<name attr="v">`
    Start(XmlTag),
    /// `<name attr="v"/>`
    Empty(XmlTag),
    /// Character data between tags (raw, still escaped), trimmed.
    Text(String),
    /// `</name>`
    End(String),
    /// End of the document.
    Eof,
    /// A syntax error, with its message.
    Error(String),
    /// Any other event (declaration, comment, CDATA, processing
    /// instruction, doctype).
    Other,
}

/// The view of an [`XmlTag`].
pub struct XmlTagView {
    /// Qualified tag name.
    pub name: Seq<char>,
    /// Attributes as (key, raw value) pairs.
    pub attributes: Seq<(Seq<char>, Seq<char>)>,
}

/// The view of an [`XmlEvent`].
pub enum XmlEventView {
    /// Start tag.
    Start(XmlTagView),
    /// Empty-element tag.
    Empty(XmlTagView),
    /// Character data.
    Text(Seq<char>),
    /// End tag.
    End(Seq<char>),
    /// End of the document.
    Eof,
    /// A syntax error, with its message.
    Error(Seq<char>),
    /// Any other event.
    Other,
}

impl View for XmlTag {
    type V = XmlTagView;

    open spec fn view(&self) -> XmlTagView {
        XmlTagView {
            name: self.name@,
            attributes: self.attributes@.map_values(|p: (String, String)| (p.0@, p.1@)),
        }
    }
}

impl View for XmlEvent {
    type V = XmlEventView;

    open spec fn view(&self) -> XmlEventView {
        match self {
            XmlEvent::Start(t) => XmlEventView::Start(t@),
            XmlEvent::Empty(t) => XmlEventView::Empty(t@),
            XmlEvent::Text(s) => XmlEventView::Text(s@),
            XmlEvent::End(s) => XmlEventView::End(s@),
            XmlEvent::Eof => XmlEventView::Eof,
            XmlEvent::Error(s) => XmlEventView::Error(s@),
            XmlEvent::Other => XmlEventView::Other,
        }
    }
}

/// An event that ends reading: end of document or error.
pub open spec fn is_final_event(e: XmlEventView) -> bool {
    e is Eof || e is Error
}

/// Reading `xml` stops at its `n`-th event (its first end or error).
pub open spec fn xml_stops_at(xml: Seq<char>, n: nat) -> bool {
    &&& forall|i: nat| i < n ==> !is_final_event(#[trigger] xml_event_at(xml, i))
    &&& is_final_event(xml_event_at(xml, n))
}

/// Reading stops at one event only.
pub proof fn lemma_stops_at_unique(xml: Seq<char>, n: nat, m: nat)
    requires
        xml_stops_at(xml, n),
        xml_stops_at(xml, m),
    ensures
        n == m,
{
    if m < n {
        assert(!is_final_event(xml_event_at(xml, m)));
    } else if n < m {
        assert(!is_final_event(xml_event_at(xml, n)));
    }
}

/// The `i`-th event that `quick_xml` reads from `xml` with text trimming
/// on.
pub uninterp spec fn xml_event_at(xml: Seq<char>, i: nat) -> XmlEventView;

/// The text a reader was opened on.
pub uninterp spec fn xml_source(r: XReader<&[u8]>) -> Seq<char>;

/// The number of events a reader has returned so far.
pub uninterp spec fn xml_events_read(r: XReader<&[u8]>) -> nat;

/// The byte position of a reader in its text (`Reader::buffer_position`).
pub uninterp spec fn xml_position(r: XReader<&[u8]>) -> nat;

/// `quick_xml::Reader::from_str` followed by `trim_text(true)`: a reader
/// over `xml` at its start, which has returned no event yet.
#[verifier::external_body]
pub fn open_xml(xml: &str) -> (r: XReader<&[u8]>)
    ensures
        xml_source(r) == xml@,
        xml_events_read(r) == 0,
        xml_position(r) == 0,
{
    let mut r = XReader::from_str(xml);
    r.config_mut().trim_text(true);
    r
}

/// `quick_xml::Reader::read_event`: returns the next event, converted to
/// an [`XmlEvent`] (names and values decoded as UTF-8, attributes that fail
/// to parse skipped). The event is the one `xml_event_at` names for the
/// reader's text and count; an event other than end of document or error
/// moves the reader's position forward, and the position never passes the
/// end of the text.
#[verifier::external_body]
pub fn next_xml_event(r: &mut XReader<&[u8]>) -> (ev: XmlEvent)
    ensures
        xml_source(*final(r)) == xml_source(*old(r)),
        xml_events_read(*final(r)) == xml_events_read(*old(r)) + 1,
        ev@ == xml_event_at(xml_source(*old(r)), xml_events_read(*old(r))),
        !is_final_event(ev@) ==> xml_position(*old(r)) < xml_position(*final(r)),
        xml_position(*final(r)) <= vstd::utf8::encode_utf8(xml_source(*old(r))).len(),
{
    match r.read_event() {
        Ok(XEvent::Start(e)) => XmlEvent::Start(xml_tag(&e)),
        Ok(XEvent::Empty(e)) => XmlEvent::Empty(xml_tag(&e)),
        Ok(XEvent::Text(t)) => XmlEvent::Text(String::from_utf8_lossy(&t).into_owned()),
        Ok(XEvent::End(e)) => XmlEvent::End(String::from_utf8_lossy(e.name().as_ref()).into_owned()),
        Ok(XEvent::Eof) => XmlEvent::Eof,
        Ok(_) => XmlEvent::Other,
        Err(e) => XmlEvent::Error(e.to_string()),
    }
}

/// A start or empty tag of `quick_xml` as an [`XmlTag`]: its name and its
/// well-formed attributes (`attributes().flatten()`), decoded as UTF-8.
#[verifier::external_body]
fn xml_tag(e: &BytesStart) -> (t: XmlTag) {
    let lossy = |b: &[u8]| String::from_utf8_lossy(b).into_owned();
    XmlTag {
        name: lossy(e.name().as_ref()),
        attributes: e.attributes().flatten().map(|a| (lossy(a.key.as_ref()), lossy(&a.value))).collect(),
    }
}

/// What `quick_xml::escape::unescape` makes of `raw`: the text with its
/// character and entity references resolved, or `None` when a reference is
/// malformed or unknown.
pub uninterp spec fn xml_unescaped(raw: Seq<char>) -> Option<Seq<char>>;

/// `quick_xml::escape::unescape`: resolves the entity and character
/// references of `raw`; `None` on a malformed or unknown reference.
#[verifier::external_body]
pub fn xml_unescape(raw: &str) -> (r: Option<String>)
    ensures
        match r {
            Some(s) => xml_unescaped(raw@) == Some(s@),
            None => xml_unescaped(raw@) is None,
        },
{
    quick_xml::escape::unescape(raw).ok().map(|c| c.into_owned())
}

/// The value of the first attribute of `tag` whose key is `key`.
pub open spec fn attribute_value(attrs: Seq<(Seq<char>, Seq<char>)>, key: Seq<char>) -> Option<
    Seq<char>,
>
    decreases attrs.len(),
{
    if attrs.len() == 0 {
        None
    } else if attrs[0].0 == key {
        Some(attrs[0].1)
    } else {
        attribute_value(attrs.drop_first(), key)
    }
}

/// The value of the first attribute in `attrs` whose key is `key`.
pub fn find_attribute(attrs: &Vec<(String, String)>, key: &str) -> (r: Option<String>)
    ensures
        match r {
            Some(v) => attribute_value(
                attrs@.map_values(|p: (String, String)| (p.0@, p.1@)),
                key@,
            ) == Some(v@),
            None => attribute_value(
                attrs@.map_values(|p: (String, String)| (p.0@, p.1@)),
                key@,
            ) is None,
        },
{
    let ghost av = attrs@.map_values(|p: (String, String)| (p.0@, p.1@));
    let mut i: usize = 0;
    let k = key.to_owned();
    assert(av.subrange(0, av.len() as int) =~= av);
    while i < attrs.len()
        invariant
            i <= attrs@.len(),
            k@ == key@,
            av == attrs@.map_values(|p: (String, String)| (p.0@, p.1@)),
            attribute_value(av, key@) == attribute_value(av.subrange(i as int, av.len() as int), key@),
        decreases attrs@.len() - i,
    {
        let ghost rest = av.subrange(i as int, av.len() as int);
        assert(rest[0] == (attrs@[i as int].0@, attrs@[i as int].1@));
        if attrs[i].0 == k {
            return Some(attrs[i].1.clone());
        }
        assert(rest.drop_first() =~= av.subrange(i + 1, av.len() as int));
        i = i + 1;
    }
    assert(av.subrange(i as int, av.len() as int) =~= Seq::<(Seq<char>, Seq<char>)>::empty());
    None
}


/// An event to write. Names, keys and the declaration's values are written
/// as given; attribute values and text are escaped by the writer.
pub enum XmlOut {
    /// `<?xml version=".." encoding=".."?>`
    Decl(String, Option<String>),
    /// A start tag with its (key, value) attributes.
    Start(String, Vec<(String, String)>),
    /// An empty-element tag with its (key, value) attributes.
    Empty(String, Vec<(String, String)>),
    /// Character data.
    Text(String),
    /// An end tag.
    End(String),
}

/// The view of an [`XmlOut`].
pub enum XmlOutView {
    /// Declaration (version, encoding).
    Decl(Seq<char>, Option<Seq<char>>),
    /// Start tag.
    Start(Seq<char>, Seq<(Seq<char>, Seq<char>)>),
    /// Empty-element tag.
    Empty(Seq<char>, Seq<(Seq<char>, Seq<char>)>),
    /// Character data.
    Text(Seq<char>),
    /// End tag.
    End(Seq<char>),
}

impl View for XmlOut {
    type V = XmlOutView;

    open spec fn view(&self) -> XmlOutView {
        match self {
            XmlOut::Decl(v, e) => XmlOutView::Decl(
                v@,
                match e {
                    Some(x) => Some(x@),
                    None => None,
                },
            ),
            XmlOut::Start(n, a) => XmlOutView::Start(
                n@,
                a@.map_values(|p: (String, String)| (p.0@, p.1@)),
            ),
            XmlOut::Empty(n, a) => XmlOutView::Empty(
                n@,
                a@.map_values(|p: (String, String)| (p.0@, p.1@)),
            ),
            XmlOut::Text(t) => XmlOutView::Text(t@),
            XmlOut::End(n) => XmlOutView::End(n@),
        }
    }
}

/// The bytes a `quick_xml::Writer` without indentation writes for `ev`.
pub uninterp spec fn xml_out_bytes(ev: XmlOutView) -> Seq<u8>;

/// The bytes written so far into a writer's buffer.
pub uninterp spec fn xml_written(w: XWriter<Cursor<Vec<u8>>>) -> Seq<u8>;

/// `quick_xml::Writer::new` over an empty in-memory buffer (no
/// indentation).
#[verifier::external_body]
pub fn new_xml_writer() -> (w: XWriter<Cursor<Vec<u8>>>)
    ensures
        xml_written(w) == Seq::<u8>::empty(),
{
    XWriter::new(Cursor::new(Vec::new()))
}

/// `quick_xml::Writer::write_event` with the `quick_xml` event for `ev`:
/// the buffer grows by the bytes `xml_out_bytes` names for the event.
/// Writing into a `Vec` buffer does not fail.
#[verifier::external_body]
pub fn write_xml(w: &mut XWriter<Cursor<Vec<u8>>>, ev: &XmlOut)
    ensures
        xml_written(*final(w)) == xml_written(*old(w)) + xml_out_bytes(ev@),
{
    let tag = |n: &String, a: &Vec<(String, String)>| {
        BytesStart::new(n.clone()).with_attributes(a.iter().map(|p| (p.0.as_str(), p.1.as_str())))
    };
    let e = match ev {
        XmlOut::Decl(v, enc) => XEvent::Decl(BytesDecl::new(v, enc.as_deref(), None)),
        XmlOut::Start(n, a) => XEvent::Start(tag(n, a)),
        XmlOut::Empty(n, a) => XEvent::Empty(tag(n, a)),
        XmlOut::Text(t) => XEvent::Text(BytesText::new(t)),
        XmlOut::End(n) => XEvent::End(BytesEnd::new(n.clone())),
    };
    w.write_event(e).ok();
}

/// `quick_xml::Writer::into_inner`, then `Cursor::into_inner`: the bytes
/// written.
#[verifier::external_body]
pub fn written_bytes(w: XWriter<Cursor<Vec<u8>>>) -> (r: Vec<u8>)
    ensures
        r@ == xml_written(w),
{
    w.into_inner().into_inner()
}

/// `String::from_utf8`: the text the bytes encode when they are valid
/// UTF-8, `None` otherwise.
#[verifier::external_body]
pub fn utf8_string(bytes: Vec<u8>) -> (r: Option<String>)
    ensures
        match r {
            Some(s) => vstd::utf8::valid_utf8(bytes@) && s@ == vstd::utf8::decode_utf8(bytes@),
            None => !vstd::utf8::valid_utf8(bytes@),
        },
{
    String::from_utf8(bytes).ok()
}

} // verus!
