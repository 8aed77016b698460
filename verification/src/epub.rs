//! EPUB reading: the error type, metadata and chapter records, parsing of
//! `META-INF/container.xml` and of the OPF package document, and the
//! reader that resolves the spine to chapter documents in the archive.

use vstd::prelude::*;
use vstd::string::StringExecFns;
use crate::archive::{open_zip, read_entry_text, zip_archive_bytes, zip_entry_read, zip_open_error, ZipEntry, ZipEntryView};
use crate::chars::{chars_of, decimal, push_decimal, string_from_chars, trim, trimmed_string};
use std::io::Cursor;
use zip::ZipArchive;
use crate::xml::{
    attribute_value, find_attribute, is_final_event, lemma_stops_at_unique, next_xml_event,
    open_xml, xml_event_at, xml_stops_at,
    xml_events_read, xml_position, xml_source, xml_unescape, xml_unescaped, XmlEvent,
    XmlEventView, XmlTagView,
};

verus! {

/// Errors of the EPUB layer.
#[derive(Debug, Clone, PartialEq, Eq)]
pub enum EpubError {
    /// An I/O failure, such as an archive entry that is not valid UTF-8.
    Io(String),
    /// The bytes are not a readable zip archive.
    Zip(String),
    /// The OPF or container XML could not be parsed.
    Xml(String),
    /// A filename attempting directory traversal was rejected.
    UnsafeFilename(String),
    /// A required entry (container, OPF, chapter, manifest item) is missing.
    MissingEntry(String),
}

/// The view of an [`EpubError`].
pub enum EpubErrorView {
    /// I/O failure.
    Io(Seq<char>),
    /// Unreadable archive.
    Zip(Seq<char>),
    /// XML parse failure.
    Xml(Seq<char>),
    /// Rejected filename.
    UnsafeFilename(Seq<char>),
    /// Missing entry.
    MissingEntry(Seq<char>),
}

impl View for EpubError {
    type V = EpubErrorView;

    open spec fn view(&self) -> EpubErrorView {
        match self {
            EpubError::Io(m) => EpubErrorView::Io(m@),
            EpubError::Zip(m) => EpubErrorView::Zip(m@),
            EpubError::Xml(m) => EpubErrorView::Xml(m@),
            EpubError::UnsafeFilename(m) => EpubErrorView::UnsafeFilename(m@),
            EpubError::MissingEntry(m) => EpubErrorView::MissingEntry(m@),
        }
    }
}

/// The display text of an EPUB error.
pub open spec fn epub_error_text(e: EpubErrorView) -> Seq<char> {
    match e {
        EpubErrorView::Io(m) => "io error: "@ + m,
        EpubErrorView::Zip(m) => "zip error: "@ + m,
        EpubErrorView::Xml(m) => "opf xml parse error: "@ + m,
        EpubErrorView::UnsafeFilename(m) => "unsafe filename rejected: "@ + m,
        EpubErrorView::MissingEntry(m) => "missing entry in epub: "@ + m,
    }
}

impl EpubError {
    /// The human-readable message of this error.
    pub fn message(&self) -> (r: String)
        ensures
            r@ == epub_error_text(self@),
    {
        let (prefix, m) = match self {
            EpubError::Io(m) => ("io error: ", m),
            EpubError::Zip(m) => ("zip error: ", m),
            EpubError::Xml(m) => ("opf xml parse error: ", m),
            EpubError::UnsafeFilename(m) => ("unsafe filename rejected: ", m),
            EpubError::MissingEntry(m) => ("missing entry in epub: ", m),
        };
        let mut r = String::from_str(prefix);
        r.append(m.as_str());
        r
    }
}

/// Metadata from the OPF `<metadata>` element; `total_chapters` is the
/// number of spine items.
#[derive(Debug, Clone, PartialEq, Eq, Default)]
pub struct EpubMetadata {
    /// `<dc:title>` value (empty when absent; a book opened from a file
    /// falls back to the file's stem, see [`title_or_stem`]).
    pub title: String,
    /// `<dc:creator>` value (empty when absent).
    pub author: String,
    /// Number of spine items.
    pub total_chapters: usize,
}

/// One chapter: its spine index, a title, and the raw HTML text of its
/// content document.
#[derive(Debug, Clone, PartialEq, Eq)]
pub struct Chapter {
    /// Zero-based index into the OPF spine.
    pub idx: usize,
    /// Human-readable chapter title.
    pub title: String,
    /// Raw HTML text of the chapter content document.
    pub html_text: String,
}

/// Whether `s` has exactly the characters of `lit`.
pub fn is_text(s: &String, lit: &str) -> (r: bool)
    ensures
        r == (s@ == lit@),
{
    *s == String::from_str(lit)
}

/// The rootfile path that a container event names: the `full-path`
/// attribute of a `rootfile` start or empty tag.
pub open spec fn rootfile_of(e: XmlEventView) -> Option<Seq<char>> {
    match e {
        XmlEventView::Start(t) => if t.name == "rootfile"@ {
            attribute_value(t.attributes, "full-path"@)
        } else {
            None
        },
        XmlEventView::Empty(t) => if t.name == "rootfile"@ {
            attribute_value(t.attributes, "full-path"@)
        } else {
            None
        },
        _ => None,
    }
}

/// Reading the container stops at this event.
pub open spec fn container_stop(e: XmlEventView) -> bool {
    is_final_event(e) || rootfile_of(e) is Some
}

/// Reading the container `xml` stops at its `n`-th event.
pub open spec fn container_stops_at(xml: Seq<char>, n: nat) -> bool {
    &&& forall|i: nat| i < n ==> !container_stop(#[trigger] xml_event_at(xml, i))
    &&& container_stop(xml_event_at(xml, n))
}

/// The outcome of reading the container when it stops at event `e`.
pub open spec fn container_outcome(e: XmlEventView) -> Result<Seq<char>, EpubErrorView> {
    match e {
        XmlEventView::Error(m) => Err(EpubErrorView::Xml(m)),
        XmlEventView::Eof => Err(EpubErrorView::MissingEntry("no <rootfile> in container.xml"@)),
        _ => Ok(rootfile_of(e).unwrap()),
    }
}

/// The outcome of reading the container `xml`: that of the event at which
/// reading stops.
pub open spec fn container_parse(xml: Seq<char>) -> Result<Seq<char>, EpubErrorView> {
    container_outcome(xml_event_at(xml, choose|n: nat| container_stops_at(xml, n)))
}

/// Reading the container stops at one event only: where it stops at `n`,
/// the outcome is that of event `n`.
proof fn lemma_container_stop_unique(xml: Seq<char>, n: nat)
    requires
        container_stops_at(xml, n),
    ensures
        container_parse(xml) == container_outcome(xml_event_at(xml, n)),
{
    let m = choose|m: nat| container_stops_at(xml, m);
    assert(container_stops_at(xml, m));
    if m < n {
        assert(!container_stop(xml_event_at(xml, m)));
    } else if n < m {
        assert(!container_stop(xml_event_at(xml, n)));
    }
}

/// The view of a string result of the EPUB layer.
pub open spec fn string_result(r: Result<String, EpubError>) -> Result<Seq<char>, EpubErrorView> {
    match r {
        Ok(s) => Ok(s@),
        Err(e) => Err(e@),
    }
}

/// Parse `META-INF/container.xml` and return the path of the OPF rootfile:
/// the `full-path` of the first `rootfile` tag that has one.
pub fn parse_container_rootfile(xml: &str) -> (r: Result<String, EpubError>)
    ensures
        exists|n: nat| #[trigger] container_stops_at(xml@, n),
        string_result(r) == container_parse(xml@),
{
    let mut reader = open_xml(xml);
    let ghost len = vstd::utf8::encode_utf8(xml@).len();
    loop
        invariant
            xml_source(reader) == xml@,
            len == vstd::utf8::encode_utf8(xml@).len(),
            xml_position(reader) <= len,
            forall|i: nat|
                i < xml_events_read(reader) ==> !container_stop(#[trigger] xml_event_at(xml@, i)),
        decreases len - xml_position(reader),
    {
        let ghost k = xml_events_read(reader);
        let ev = next_xml_event(&mut reader);
        assert(ev@ == xml_event_at(xml@, k));
        match ev {
            XmlEvent::Start(t) => {
                if is_text(&t.name, "rootfile") {
                    if let Some(v) = find_attribute(&t.attributes, "full-path") {
                        proof { lemma_container_stop_unique(xml@, k); }
                        return Ok(v);
                    }
                }
            },
            XmlEvent::Empty(t) => {
                if is_text(&t.name, "rootfile") {
                    if let Some(v) = find_attribute(&t.attributes, "full-path") {
                        proof { lemma_container_stop_unique(xml@, k); }
                        return Ok(v);
                    }
                }
            },
            XmlEvent::Eof => {
                proof { lemma_container_stop_unique(xml@, k); }
                return Err(EpubError::MissingEntry(String::from_str("no <rootfile> in container.xml")));
            },
            XmlEvent::Error(m) => {
                proof { lemma_container_stop_unique(xml@, k); }
                return Err(EpubError::Xml(m));
            },
            _ => {},
        }
        assert forall|i: nat| i < xml_events_read(reader) implies !container_stop(
            #[trigger] xml_event_at(xml@, i),
        ) by {
            if i < k {
            }
        }
    }
}


/// The part of a qualified name after its last `:` (the whole name when
/// it has none).
pub open spec fn local_part(q: Seq<char>) -> Seq<char>
    decreases q.len(),
{
    if q.len() == 0 {
        q
    } else if q.last() == ':' {
        Seq::empty()
    } else {
        local_part(q.drop_last()).push(q.last())
    }
}

/// The local name of a qualified XML name: the part after its last `:`.
pub fn local_name(qname: &str) -> (r: String)
    ensures
        r@ == local_part(qname@),
{
    let cs = chars_of(qname);
    let n = cs.len();
    let mut k = n;
    assert(cs@.subrange(k as int, n as int) =~= Seq::<char>::empty());
    assert(cs@.take(n as int) =~= cs@);
    while k > 0 && cs[k - 1] != ':'
        invariant
            k <= n == cs@.len(),
            local_part(cs@) == local_part(cs@.take(k as int)) + cs@.subrange(k as int, n as int),
        decreases k,
    {
        assert(cs@.take(k as int).drop_last() =~= cs@.take(k - 1));
        assert(local_part(cs@.take(k - 1)).push(cs@[k - 1]) + cs@.subrange(k as int, n as int)
            =~= local_part(cs@.take(k - 1)) + cs@.subrange(k - 1, n as int));
        k = k - 1;
    }
    assert(local_part(cs@.take(k as int)) =~= Seq::<char>::empty());
    let v = crate::chars::sub_chars(&cs, k, n);
    assert(Seq::<char>::empty() + cs@.subrange(k as int, n as int) =~= v@);
    string_from_chars(v.as_slice())
}

/// The value of the last attribute in `attrs` whose key is `key`.
pub open spec fn last_attribute(attrs: Seq<(Seq<char>, Seq<char>)>, key: Seq<char>) -> Option<
    Seq<char>,
>
    decreases attrs.len(),
{
    if attrs.len() == 0 {
        None
    } else if attrs.last().0 == key {
        Some(attrs.last().1)
    } else {
        last_attribute(attrs.drop_last(), key)
    }
}

/// `o`'s value, or the empty sequence.
pub open spec fn or_empty(o: Option<Seq<char>>) -> Seq<char> {
    match o {
        Some(v) => v,
        None => Seq::empty(),
    }
}

/// The manifest entry (id, href, media type) of an `item` tag with these
/// attributes, the last value of each key counting; none without an id.
pub open spec fn manifest_entry(attrs: Seq<(Seq<char>, Seq<char>)>) -> Option<
    (Seq<char>, Seq<char>, Seq<char>),
> {
    let id = or_empty(last_attribute(attrs, "id"@));
    if id.len() > 0 {
        Some(
            (
                id,
                or_empty(last_attribute(attrs, "href"@)),
                or_empty(last_attribute(attrs, "media-type"@)),
            ),
        )
    } else {
        None
    }
}

/// The values of all `idref` attributes in `attrs`, in order.
pub open spec fn idrefs(attrs: Seq<(Seq<char>, Seq<char>)>) -> Seq<Seq<char>>
    decreases attrs.len(),
{
    if attrs.len() == 0 {
        Seq::empty()
    } else if attrs.last().0 == "idref"@ {
        idrefs(attrs.drop_last()).push(attrs.last().1)
    } else {
        idrefs(attrs.drop_last())
    }
}

/// State of OPF reading.
pub struct OpfState {
    /// The first `title` text read (trimmed).
    pub title: Seq<char>,
    /// The first `creator` text read (trimmed).
    pub author: Seq<char>,
    /// Manifest entries (id, href, media type) in document order.
    pub manifest: Seq<(Seq<char>, Seq<char>, Seq<char>)>,
    /// Spine idrefs in document order.
    pub spine: Seq<Seq<char>>,
    /// The text element being read (`title` or `creator`), if any.
    pub current: Option<Seq<char>>,
    /// Text collected for the current element.
    pub text: Seq<char>,
}

/// The state before any event.
pub open spec fn opf_initial() -> OpfState {
    OpfState {
        title: Seq::empty(),
        author: Seq::empty(),
        manifest: Seq::empty(),
        spine: Seq::empty(),
        current: None,
        text: Seq::empty(),
    }
}

/// `st` after an `item` or `itemref` tag with local name `local`.
pub open spec fn opf_collect(st: OpfState, local: Seq<char>, t: XmlTagView) -> OpfState {
    if local == "item"@ {
        OpfState {
            manifest: match manifest_entry(t.attributes) {
                Some(m) => st.manifest.push(m),
                None => st.manifest,
            },
            ..st
        }
    } else if local == "itemref"@ {
        OpfState { spine: st.spine + idrefs(t.attributes), ..st }
    } else {
        st
    }
}

/// One step of OPF reading. A `title` or `creator` start tag begins text
/// collection; `item` and `itemref` tags add manifest entries and spine
/// idrefs; text is unescaped (dropped when that fails) and collected; an
/// end tag stores the trimmed text as title or author when that is still
/// empty.
pub open spec fn opf_step(st: OpfState, e: XmlEventView) -> OpfState {
    match e {
        XmlEventView::Start(t) => {
            let local = local_part(t.name);
            if local == "title"@ || local == "creator"@ {
                OpfState { current: Some(local), text: Seq::empty(), ..st }
            } else {
                opf_collect(st, local, t)
            }
        },
        XmlEventView::Empty(t) => opf_collect(st, local_part(t.name), t),
        XmlEventView::Text(raw) => if st.current is Some {
            OpfState { text: st.text + or_empty(xml_unescaped(raw)), ..st }
        } else {
            st
        },
        XmlEventView::End(_) => match st.current {
            Some(elem) => if elem == "title"@ && st.title.len() == 0 {
                OpfState { current: None, title: trim(st.text), ..st }
            } else if elem == "creator"@ && st.author.len() == 0 {
                OpfState { current: None, author: trim(st.text), ..st }
            } else {
                OpfState { current: None, ..st }
            },
            None => st,
        },
        _ => st,
    }
}

/// The OPF reading state after the first `n` events of `xml`.
pub open spec fn opf_fold(xml: Seq<char>, n: nat) -> OpfState
    decreases n,
{
    if n == 0 {
        opf_initial()
    } else {
        opf_step(opf_fold(xml, (n - 1) as nat), xml_event_at(xml, (n - 1) as nat))
    }
}


/// Parsed OPF: ((title, author), manifest (id, href, media type), spine
/// idrefs).
pub type OpfParsed = ((String, String), Vec<(String, String, String)>, Vec<String>);

/// The view of a parsed OPF.
pub open spec fn opf_view(p: OpfParsed) -> (
    Seq<char>,
    Seq<char>,
    Seq<(Seq<char>, Seq<char>, Seq<char>)>,
    Seq<Seq<char>>,
) {
    (
        p.0.0@,
        p.0.1@,
        p.1@.map_values(|m: (String, String, String)| (m.0@, m.1@, m.2@)),
        p.2@.map_values(|s: String| s@),
    )
}

/// Add the manifest entry of an `item` tag's attributes to `manifest`.
fn collect_manifest_item(manifest: &mut Vec<(String, String, String)>, attrs: &Vec<(String, String)>)
    ensures
        final(manifest)@.map_values(|m: (String, String, String)| (m.0@, m.1@, m.2@)) == match manifest_entry(
            attrs@.map_values(|p: (String, String)| (p.0@, p.1@)),
        ) {
            Some(m) => old(manifest)@.map_values(|m: (String, String, String)| (m.0@, m.1@, m.2@)).push(m),
            None => old(manifest)@.map_values(|m: (String, String, String)| (m.0@, m.1@, m.2@)),
        },
{
    let ghost av = attrs@.map_values(|p: (String, String)| (p.0@, p.1@));
    let mut id = String::new();
    let mut href = String::new();
    let mut mt = String::new();
    let mut i: usize = 0;
    while i < attrs.len()
        invariant
            i <= attrs@.len(),
            av == attrs@.map_values(|p: (String, String)| (p.0@, p.1@)),
            id@ == or_empty(last_attribute(av.take(i as int), "id"@)),
            href@ == or_empty(last_attribute(av.take(i as int), "href"@)),
            mt@ == or_empty(last_attribute(av.take(i as int), "media-type"@)),
        decreases attrs@.len() - i,
    {
        proof {
            reveal_strlit("id");
            reveal_strlit("href");
            reveal_strlit("media-type");
            assert("id"@.len() == 2 && "href"@.len() == 4 && "media-type"@.len() == 10);
        }
        assert(av.take(i + 1).drop_last() =~= av.take(i as int));
        assert(av.take(i + 1).last() == (attrs@[i as int].0@, attrs@[i as int].1@));
        let ghost key = attrs@[i as int].0@;
        assert(key != "id"@ ==> last_attribute(av.take(i + 1), "id"@) == last_attribute(
            av.take(i as int),
            "id"@,
        ));
        assert(key != "href"@ ==> last_attribute(av.take(i + 1), "href"@) == last_attribute(
            av.take(i as int),
            "href"@,
        ));
        assert(key != "media-type"@ ==> last_attribute(av.take(i + 1), "media-type"@)
            == last_attribute(av.take(i as int), "media-type"@));
        if is_text(&attrs[i].0, "id") {
            id = attrs[i].1.clone();
        } else if is_text(&attrs[i].0, "href") {
            href = attrs[i].1.clone();
        } else if is_text(&attrs[i].0, "media-type") {
            mt = attrs[i].1.clone();
        }
        i = i + 1;
    }
    assert(av.take(attrs@.len() as int) =~= av);
    if !id.as_str().is_empty() {
        let ghost before = manifest@.map_values(|m: (String, String, String)| (m.0@, m.1@, m.2@));
        manifest.push((id, href, mt));
        assert(manifest@.map_values(|m: (String, String, String)| (m.0@, m.1@, m.2@)) =~= before.push(
            (id@, href@, mt@),
        ));
    }
}

/// Add the `idref` values of an `itemref` tag's attributes to `spine`.
fn collect_spine_idref(spine: &mut Vec<String>, attrs: &Vec<(String, String)>)
    ensures
        final(spine)@.map_values(|s: String| s@) == old(spine)@.map_values(|s: String| s@) + idrefs(
            attrs@.map_values(|p: (String, String)| (p.0@, p.1@)),
        ),
{
    let ghost av = attrs@.map_values(|p: (String, String)| (p.0@, p.1@));
    let ghost start = spine@.map_values(|s: String| s@);
    let mut i: usize = 0;
    while i < attrs.len()
        invariant
            i <= attrs@.len(),
            av == attrs@.map_values(|p: (String, String)| (p.0@, p.1@)),
            spine@.map_values(|s: String| s@) == start + idrefs(av.take(i as int)),
        decreases attrs@.len() - i,
    {
        assert(av.take(i + 1).drop_last() =~= av.take(i as int));
        assert(av.take(i + 1).last() == (attrs@[i as int].0@, attrs@[i as int].1@));
        if is_text(&attrs[i].0, "idref") {
            let ghost before = spine@.map_values(|s: String| s@);
            spine.push(attrs[i].1.clone());
            assert(spine@.map_values(|s: String| s@) =~= before.push(attrs@[i as int].1@));
            assert(start + idrefs(av.take(i as int)).push(attrs@[i as int].1@) =~= before.push(
                attrs@[i as int].1@,
            ));
        }
        i = i + 1;
    }
    assert(av.take(attrs@.len() as int) =~= av);
}


/// The view of the parts of a parsed OPF: title, author, manifest entries,
/// spine idrefs.
pub type OpfView = (Seq<char>, Seq<char>, Seq<(Seq<char>, Seq<char>, Seq<char>)>, Seq<Seq<char>>);

/// The outcome of reading the OPF `xml` when reading stops at its `n`-th
/// event: the parts collected so far, or the XML error.
pub open spec fn opf_outcome(xml: Seq<char>, n: nat) -> Result<OpfView, EpubErrorView> {
    match xml_event_at(xml, n) {
        XmlEventView::Error(m) => Err(EpubErrorView::Xml(m)),
        _ => {
            let st = opf_fold(xml, n);
            Ok((st.title, st.author, st.manifest, st.spine))
        },
    }
}

/// The outcome of reading the OPF `xml`: that at the event where reading
/// stops.
pub open spec fn opf_parse(xml: Seq<char>) -> Result<OpfView, EpubErrorView> {
    opf_outcome(xml, choose|n: nat| xml_stops_at(xml, n))
}

/// Reading stops at one event only: where it stops at `n`, the outcome is
/// that at `n`.
proof fn lemma_xml_stop_unique(xml: Seq<char>, n: nat)
    requires
        xml_stops_at(xml, n),
    ensures
        opf_parse(xml) == opf_outcome(xml, n),
{
    let m = choose|m: nat| xml_stops_at(xml, m);
    lemma_stops_at_unique(xml, n, m);
}

/// The view of an OPF parse result.
pub open spec fn opf_result_view(r: Result<OpfParsed, EpubError>) -> Result<OpfView, EpubErrorView> {
    match r {
        Ok(p) => Ok(opf_view(p)),
        Err(e) => Err(e@),
    }
}

/// The view of an optional string.
pub open spec fn opt_view(o: Option<String>) -> Option<Seq<char>> {
    match o {
        Some(s) => Some(s@),
        None => None,
    }
}

/// `s` with surrounding whitespace removed.
fn trimmed(s: &String) -> (r: String)
    ensures
        r@ == trim(s@),
{
    let cs = chars_of(s.as_str());
    assert(cs@.subrange(0, cs@.len() as int) =~= cs@);
    trimmed_string(&cs, 0, cs.len())
}

/// Parse an OPF package document into (title, author), the manifest
/// entries (id, href, media type) and the spine idrefs. Reading goes event
/// by event to the end of the document; an XML error ends it with
/// `EpubError::Xml`.
pub fn parse_opf(xml: &str) -> (r: Result<OpfParsed, EpubError>)
    ensures
        exists|n: nat| #[trigger] xml_stops_at(xml@, n),
        opf_result_view(r) == opf_parse(xml@),
{
    let mut reader = open_xml(xml);
    let ghost len = vstd::utf8::encode_utf8(xml@).len();
    let mut title = String::new();
    let mut author = String::new();
    let mut manifest: Vec<(String, String, String)> = Vec::new();
    let mut spine: Vec<String> = Vec::new();
    let mut current: Option<String> = None;
    let mut text = String::new();
    proof {
        assert(manifest@.map_values(|m: (String, String, String)| (m.0@, m.1@, m.2@)) =~= Seq::empty());
        assert(spine@.map_values(|s: String| s@) =~= Seq::empty());
    }
    loop
        invariant
            xml_source(reader) == xml@,
            len == vstd::utf8::encode_utf8(xml@).len(),
            xml_position(reader) <= len,
            forall|i: nat|
                i < xml_events_read(reader) ==> !is_final_event(#[trigger] xml_event_at(xml@, i)),
            opf_fold(xml@, xml_events_read(reader)) == (OpfState {
                title: title@,
                author: author@,
                manifest: manifest@.map_values(|m: (String, String, String)| (m.0@, m.1@, m.2@)),
                spine: spine@.map_values(|s: String| s@),
                current: opt_view(current),
                text: text@,
            }),
        decreases len - xml_position(reader),
    {
        let ghost k = xml_events_read(reader);
        let ghost st = opf_fold(xml@, k);
        let ev = next_xml_event(&mut reader);
        assert(opf_fold(xml@, k + 1) == opf_step(st, ev@));
        proof {
            reveal_strlit("title");
            reveal_strlit("creator");
            reveal_strlit("item");
            reveal_strlit("itemref");
        }
        match ev {
            XmlEvent::Start(t) => {
                let local = local_name(t.name.as_str());
                if is_text(&local, "title") || is_text(&local, "creator") {
                    current = Some(local);
                    text = String::new();
                } else if is_text(&local, "item") {
                    collect_manifest_item(&mut manifest, &t.attributes);
                } else if is_text(&local, "itemref") {
                    collect_spine_idref(&mut spine, &t.attributes);
                }
            },
            XmlEvent::Empty(t) => {
                let local = local_name(t.name.as_str());
                if is_text(&local, "item") {
                    collect_manifest_item(&mut manifest, &t.attributes);
                } else if is_text(&local, "itemref") {
                    collect_spine_idref(&mut spine, &t.attributes);
                }
            },
            XmlEvent::Text(raw) => {
                if current.is_some() {
                    match xml_unescape(raw.as_str()) {
                        Some(u) => {
                            text.append(u.as_str());
                        },
                        None => {},
                    }
                }
            },
            XmlEvent::End(_) => {
                let cur = current;
                current = None;
                if let Some(elem) = cur {
                    if is_text(&elem, "title") && title.as_str().is_empty() {
                        title = trimmed(&text);
                    } else if is_text(&elem, "creator") && author.as_str().is_empty() {
                        author = trimmed(&text);
                    }
                }
            },
            XmlEvent::Eof => {
                proof {
                    assert(xml_stops_at(xml@, k));
                    lemma_xml_stop_unique(xml@, k);
                }
                return Ok(((title, author), manifest, spine));
            },
            XmlEvent::Error(m) => {
                proof {
                    assert(xml_stops_at(xml@, k));
                    lemma_xml_stop_unique(xml@, k);
                }
                return Err(EpubError::Xml(m));
            },
            XmlEvent::Other => {},
        }
        assert forall|i: nat| i < xml_events_read(reader) implies !is_final_event(
            #[trigger] xml_event_at(xml@, i),
        ) by {
            if i < k {
            }
        }
    }
}


/// Title and author are set once. After the first `title` (`creator`)
/// element whose trimmed text is not empty has been read, no later event
/// changes the title (author); where reading ends without an error, the
/// parsed OPF carries those values.
pub proof fn law_opf_first_title_and_author(xml: Seq<char>, n: nat, m: nat)
    requires
        n <= m,
    ensures
        opf_fold(xml, n).title.len() > 0 ==> opf_fold(xml, m).title == opf_fold(xml, n).title,
        opf_fold(xml, n).author.len() > 0 ==> opf_fold(xml, m).author == opf_fold(xml, n).author,
        xml_stops_at(xml, m) && opf_parse(xml) is Ok ==> {
            &&& opf_fold(xml, n).title.len() > 0 ==> opf_parse(xml)->Ok_0.0 == opf_fold(xml, n).title
            &&& opf_fold(xml, n).author.len() > 0 ==> opf_parse(xml)->Ok_0.1 == opf_fold(
                xml,
                n,
            ).author
        },
    decreases m - n,
{
    if n < m {
        law_opf_first_title_and_author(xml, n, (m - 1) as nat);
    }
    if xml_stops_at(xml, m) {
        lemma_xml_stop_unique(xml, m);
    }
}

/// The (href, media type) of the first manifest entry whose id is `id`.
pub open spec fn manifest_lookup(manifest: Seq<(Seq<char>, Seq<char>, Seq<char>)>, id: Seq<char>) -> Option<
    (Seq<char>, Seq<char>),
>
    decreases manifest.len(),
{
    if manifest.len() == 0 {
        None
    } else if manifest[0].0 == id {
        Some((manifest[0].1, manifest[0].2))
    } else {
        manifest_lookup(manifest.drop_first(), id)
    }
}

/// The directory of an OPF path: the path up to and including its last
/// `/`, or nothing when it has none.
pub open spec fn opf_dir(path: Seq<char>) -> Seq<char>
    decreases path.len(),
{
    if path.len() == 0 || path.last() == '/' {
        path
    } else {
        opf_dir(path.drop_last())
    }
}

/// The spine as (href under `dir`, media type) pairs, one per idref in
/// order, each from the first manifest entry with that id; the first
/// idref that no entry has is the error.
pub open spec fn spine_resolution(
    manifest: Seq<(Seq<char>, Seq<char>, Seq<char>)>,
    idrefs: Seq<Seq<char>>,
    dir: Seq<char>,
) -> Result<Seq<(Seq<char>, Seq<char>)>, Seq<char>>
    decreases idrefs.len(),
{
    if idrefs.len() == 0 {
        Ok(Seq::empty())
    } else {
        match spine_resolution(manifest, idrefs.drop_last(), dir) {
            Err(idref) => Err(idref),
            Ok(prev) => match manifest_lookup(manifest, idrefs.last()) {
                Some(found) => Ok(prev.push((dir + found.0, found.1))),
                None => Err(idrefs.last()),
            },
        }
    }
}

/// The message for a spine idref that the manifest lacks.
pub open spec fn spine_error(idref: Seq<char>) -> Seq<char> {
    "spine idref '"@ + idref + "' not in manifest"@
}

/// The view of a list of (href, media type) pairs.
pub open spec fn pairs_view(v: Seq<(String, String)>) -> Seq<(Seq<char>, Seq<char>)> {
    v.map_values(|p: (String, String)| (p.0@, p.1@))
}

/// The view of a list of manifest entries.
pub open spec fn manifest_view(v: Seq<(String, String, String)>) -> Seq<(Seq<char>, Seq<char>, Seq<char>)> {
    v.map_values(|m: (String, String, String)| (m.0@, m.1@, m.2@))
}

/// The (href, media type) of the first manifest entry whose id is `id`.
pub fn lookup_manifest(manifest: &Vec<(String, String, String)>, id: &String) -> (r: Option<(String, String)>)
    ensures
        match r {
            Some(p) => manifest_lookup(manifest_view(manifest@), id@) == Some((p.0@, p.1@)),
            None => manifest_lookup(manifest_view(manifest@), id@) is None,
        },
{
    let ghost mv = manifest_view(manifest@);
    let mut i: usize = 0;
    assert(mv.subrange(0, mv.len() as int) =~= mv);
    while i < manifest.len()
        invariant
            i <= manifest@.len(),
            mv == manifest_view(manifest@),
            manifest_lookup(mv, id@) == manifest_lookup(mv.subrange(i as int, mv.len() as int), id@),
        decreases manifest@.len() - i,
    {
        let ghost rest = mv.subrange(i as int, mv.len() as int);
        assert(rest[0] == (manifest@[i as int].0@, manifest@[i as int].1@, manifest@[i as int].2@));
        if manifest[i].0 == *id {
            return Some((manifest[i].1.clone(), manifest[i].2.clone()));
        }
        assert(rest.drop_first() =~= mv.subrange(i + 1, mv.len() as int));
        i = i + 1;
    }
    assert(mv.subrange(i as int, mv.len() as int) =~= Seq::<(Seq<char>, Seq<char>, Seq<char>)>::empty());
    None
}

/// The directory of an OPF path, up to and including its last `/`.
pub fn opf_dir_of(path: &str) -> (r: String)
    ensures
        r@ == opf_dir(path@),
{
    let cs = chars_of(path);
    let mut k = cs.len();
    assert(cs@.take(k as int) =~= cs@);
    while k > 0 && cs[k - 1] != '/'
        invariant
            k <= cs@.len(),
            opf_dir(cs@) == opf_dir(cs@.take(k as int)),
        decreases k,
    {
        assert(cs@.take(k as int).drop_last() =~= cs@.take(k - 1));
        k = k - 1;
    }
    let v = crate::chars::sub_chars(&cs, 0, k);
    assert(v@ =~= cs@.take(k as int));
    string_from_chars(v.as_slice())
}

/// Resolve spine idrefs against the manifest: for each idref in order, the
/// href of the first manifest entry with that id, joined to the directory
/// of `opf_path`, and its media type. An idref that no entry has gives
/// `MissingEntry("spine idref '<idref>' not in manifest")`.
pub fn resolve_spine(
    opf_path: &str,
    manifest: &Vec<(String, String, String)>,
    idrefs: &Vec<String>,
) -> (r: Result<Vec<(String, String)>, EpubError>)
    ensures
        match spine_resolution(
            manifest_view(manifest@),
            idrefs@.map_values(|s: String| s@),
            opf_dir(opf_path@),
        ) {
            Ok(sp) => r matches Ok(v) && pairs_view(v@) == sp,
            Err(idref) => r matches Err(e) && e@ == EpubErrorView::MissingEntry(spine_error(idref)),
        },
{
    let ghost iv = idrefs@.map_values(|s: String| s@);
    let ghost mv = manifest_view(manifest@);
    let dir = opf_dir_of(opf_path);
    let mut out: Vec<(String, String)> = Vec::new();
    let mut j: usize = 0;
    assert(iv.take(0) =~= Seq::<Seq<char>>::empty());
    assert(pairs_view(out@) =~= Seq::empty());
    while j < idrefs.len()
        invariant
            j <= idrefs@.len(),
            iv == idrefs@.map_values(|s: String| s@),
            mv == manifest_view(manifest@),
            dir@ == opf_dir(opf_path@),
            spine_resolution(mv, iv.take(j as int), dir@) == Ok::<Seq<(Seq<char>, Seq<char>)>, Seq<char>>(
                pairs_view(out@),
            ),
        decreases idrefs@.len() - j,
    {
        assert(iv.take(j + 1).drop_last() =~= iv.take(j as int));
        assert(iv.take(j + 1).last() == idrefs@[j as int]@);
        match lookup_manifest(manifest, &idrefs[j]) {
            Some(found) => {
                let mut full = dir.clone();
                full.append(found.0.as_str());
                let ghost before = pairs_view(out@);
                out.push((full, found.1));
                assert(pairs_view(out@) =~= before.push((dir@ + found.0@, found.1@)));
            },
            None => {
                assert(spine_resolution(mv, iv.take(j + 1), dir@) == Err::<
                    Seq<(Seq<char>, Seq<char>)>,
                    Seq<char>,
                >(idrefs@[j as int]@));
                proof { lemma_spine_error_stays(mv, iv, dir@, (j + 1) as nat); }
                let mut m = String::from_str("spine idref '");
                m.append(idrefs[j].as_str());
                m.append("' not in manifest");
                return Err(EpubError::MissingEntry(m));
            },
        }
        j = j + 1;
    }
    assert(iv.take(j as int) =~= iv);
    Ok(out)
}

/// Once an idref is missing, the resolution of every longer prefix fails
/// with that same idref.
proof fn lemma_spine_error_stays(
    manifest: Seq<(Seq<char>, Seq<char>, Seq<char>)>,
    idrefs: Seq<Seq<char>>,
    dir: Seq<char>,
    j: nat,
)
    requires
        j <= idrefs.len(),
        spine_resolution(manifest, idrefs.take(j as int), dir) is Err,
    ensures
        spine_resolution(manifest, idrefs, dir) == spine_resolution(manifest, idrefs.take(j as int), dir),
    decreases idrefs.len() - j,
{
    if j < idrefs.len() {
        assert(idrefs.take(j as int + 1).drop_last() =~= idrefs.take(j as int));
        lemma_spine_error_stays(manifest, idrefs, dir, j + 1);
    } else {
        assert(idrefs.take(j as int) =~= idrefs);
    }
}


/// The outcome of reading the entry `name` of the archive in `bytes` as
/// text: a missing entry is `MissingEntry("entry '<name>': <zip error>")`,
/// an unreadable one an I/O error.
pub open spec fn entry_outcome(bytes: Seq<u8>, name: Seq<char>) -> Result<Seq<char>, EpubErrorView> {
    entry_result(name, zip_entry_read(bytes, name))
}

/// What a read of the entry `name` that gave `read` comes to.
pub open spec fn entry_result(name: Seq<char>, read: ZipEntryView) -> Result<Seq<char>, EpubErrorView> {
    match read {
        ZipEntryView::Text(t) => Ok(t),
        ZipEntryView::Missing(m) => Err(EpubErrorView::MissingEntry("entry '"@ + name + "': "@ + m)),
        ZipEntryView::Unreadable(m) => Err(EpubErrorView::Io(m)),
    }
}

/// The result of the EPUB layer for a read of the entry `name` that gave
/// `read`.
pub fn entry_text(name: &str, read: ZipEntry) -> (r: Result<String, EpubError>)
    ensures
        string_result(r) == entry_result(name@, read@),
{
    match read {
        ZipEntry::Text(t) => Ok(t),
        ZipEntry::Missing(m) => {
            let mut msg = String::from_str("entry '");
            msg.append(name);
            msg.append("': ");
            msg.append(m.as_str());
            Err(EpubError::MissingEntry(msg))
        },
        ZipEntry::Unreadable(m) => Err(EpubError::Io(m)),
    }
}

/// Read the entry `name` of `archive` as UTF-8 text.
fn read_zip_entry(archive: &mut ZipArchive<Cursor<&[u8]>>, name: &str) -> (r: Result<String, EpubError>)
    ensures
        zip_archive_bytes(*final(archive)) == zip_archive_bytes(*old(archive)),
        string_result(r) == entry_outcome(zip_archive_bytes(*old(archive)), name@),
{
    let read = read_entry_text(archive, name);
    entry_text(name, read)
}

/// Path of the container document in an EPUB archive.
pub open spec fn container_path() -> Seq<char> {
    "META-INF/container.xml"@
}

/// What opening the EPUB in `bytes` gives: (title, author, spine as
/// (href, media type) pairs), or the first error on the way: the archive,
/// the container entry and document, the OPF entry and document, then the
/// spine's idrefs.
pub open spec fn book_outcome(bytes: Seq<u8>) -> Result<
    (Seq<char>, Seq<char>, Seq<(Seq<char>, Seq<char>)>),
    EpubErrorView,
> {
    match zip_open_error(bytes) {
        Some(m) => Err(EpubErrorView::Zip(m)),
        None => match entry_outcome(bytes, container_path()) {
            Err(e) => Err(e),
            Ok(cx) => match container_parse(cx) {
                Err(e) => Err(e),
                Ok(opf_path) => match entry_outcome(bytes, opf_path) {
                    Err(e) => Err(e),
                    Ok(opf) => match opf_parse(opf) {
                        Err(e) => Err(e),
                        Ok(p) => match spine_resolution(p.2, p.3, opf_dir(opf_path)) {
                            Err(idref) => Err(EpubErrorView::MissingEntry(spine_error(idref))),
                            Ok(spine) => Ok((p.0, p.1, spine)),
                        },
                    },
                },
            },
        },
    }
}

/// An opened EPUB: its metadata, its spine as (href, media type) pairs in
/// spine order, and the archive bytes that chapters are read from.
#[derive(Debug)]
pub struct EpubReader {
    /// Title, author and chapter count.
    pub metadata: EpubMetadata,
    /// (href, media type) of each spine item, in spine order.
    pub spine: Vec<(String, String)>,
    /// The archive bytes that chapters are read from.
    pub zip_bytes: Vec<u8>,
}

/// The title of the chapter at spine index `idx`: "Chapter <idx + 1>".
pub open spec fn chapter_title(idx: nat) -> Seq<char> {
    "Chapter "@ + decimal(idx + 1)
}

/// What reading the chapter at `idx` of the spine `spine` of the archive
/// in `bytes` gives: (idx, title, html text) or the error.
pub open spec fn chapter_outcome(bytes: Seq<u8>, spine: Seq<(Seq<char>, Seq<char>)>, idx: nat) -> Result<
    (nat, Seq<char>, Seq<char>),
    EpubErrorView,
> {
    if idx >= spine.len() {
        Err(EpubErrorView::MissingEntry("chapter index "@ + decimal(idx) + " out of bounds"@))
    } else {
        match zip_open_error(bytes) {
            Some(m) => Err(EpubErrorView::Zip(m)),
            None => match entry_outcome(bytes, spine[idx as int].0) {
                Err(e) => Err(e),
                Ok(html) => Ok((idx, chapter_title(idx), html)),
            },
        }
    }
}

/// The view of a chapter result.
pub open spec fn chapter_result(r: Result<Chapter, EpubError>) -> Result<(nat, Seq<char>, Seq<char>), EpubErrorView> {
    match r {
        Ok(c) => Ok((c.idx as nat, c.title@, c.html_text@)),
        Err(e) => Err(e@),
    }
}

/// The decimal text of `n`.
fn decimal_string(n: usize) -> (s: String)
    ensures
        s@ == decimal(n as nat),
{
    let mut v: Vec<char> = Vec::new();
    push_decimal(&mut v, n);
    assert(v@ =~= decimal(n as nat));
    string_from_chars(v.as_slice())
}

impl EpubReader {
    /// Open an EPUB held in memory: read `META-INF/container.xml`, the OPF
    /// it names, and resolve the spine against the manifest, with hrefs
    /// taken relative to the OPF's directory.
    pub fn from_bytes(bytes: &[u8]) -> (r: Result<EpubReader, EpubError>)
        ensures
            match r {
                Ok(reader) => {
                    &&& book_outcome(bytes@) == Ok::<_, EpubErrorView>(
                        (reader.metadata.title@, reader.metadata.author@, pairs_view(reader.spine@)),
                    )
                    &&& reader.metadata.total_chapters == reader.spine@.len()
                    &&& reader.zip_bytes@ == bytes@
                },
                Err(e) => book_outcome(bytes@) == Err::<
                    (Seq<char>, Seq<char>, Seq<(Seq<char>, Seq<char>)>),
                    EpubErrorView,
                >(e@),
            },
    {
        let mut archive = match open_zip(bytes) {
            Ok(a) => a,
            Err(m) => return Err(EpubError::Zip(m)),
        };
        let container_xml = match read_zip_entry(&mut archive, "META-INF/container.xml") {
            Ok(t) => t,
            Err(e) => return Err(e),
        };
        let opf_path = match parse_container_rootfile(container_xml.as_str()) {
            Ok(p) => p,
            Err(e) => return Err(e),
        };
        let opf_xml = match read_zip_entry(&mut archive, opf_path.as_str()) {
            Ok(t) => t,
            Err(e) => return Err(e),
        };
        let parsed = match parse_opf(opf_xml.as_str()) {
            Ok(p) => p,
            Err(e) => return Err(e),
        };
        let ((title, author), manifest, spine_idrefs) = parsed;
        let spine = match resolve_spine(opf_path.as_str(), &manifest, &spine_idrefs) {
            Ok(sp) => sp,
            Err(e) => return Err(e),
        };
        let total_chapters = spine.len();
        Ok(EpubReader {
            metadata: EpubMetadata { title, author, total_chapters },
            spine,
            zip_bytes: vstd::slice::slice_to_vec(bytes),
        })
    }

    /// The chapter at spine index `idx`: its index, the title
    /// "Chapter <idx + 1>" and the raw text of its content document.
    pub fn chapter_at(&self, idx: usize) -> (r: Result<Chapter, EpubError>)
        ensures
            chapter_result(r) == chapter_outcome(self.zip_bytes@, pairs_view(self.spine@), idx as nat),
    {
        if idx >= self.spine.len() {
            let mut m = String::from_str("chapter index ");
            let d = decimal_string(idx);
            m.append(d.as_str());
            m.append(" out of bounds");
            return Err(EpubError::MissingEntry(m));
        }
        let mut archive = match open_zip(self.zip_bytes.as_slice()) {
            Ok(a) => a,
            Err(m) => return Err(EpubError::Zip(m)),
        };
        let href = &self.spine[idx].0;
        let html_text = match read_zip_entry(&mut archive, href.as_str()) {
            Ok(t) => t,
            Err(e) => return Err(e),
        };
        let mut title = String::from_str("Chapter ");
        let d = decimal_string(idx + 1);
        title.append(d.as_str());
        Ok(Chapter { idx, title, html_text })
    }
}


/// Index of the last `.` in `s`, or -1.
pub open spec fn last_dot(s: Seq<char>) -> int
    decreases s.len(),
{
    if s.len() == 0 {
        -1
    } else if s.last() == '.' {
        s.len() - 1
    } else {
        last_dot(s.drop_last())
    }
}

/// The stem of a file name (`Path::file_stem`): the part before its last
/// `.`, or the whole name when it has no `.`, only a leading one, or is
/// `..`.
pub open spec fn file_stem(name: Seq<char>) -> Seq<char> {
    if last_dot(name) > 0 && name != ".."@ {
        name.take(last_dot(name))
    } else {
        name
    }
}

/// The title of a book opened from the file `file_name`: its `<dc:title>`,
/// or the file's stem when the title is empty.
pub fn title_or_stem(title: &String, file_name: &str) -> (r: String)
    ensures
        r@ == (if title@.len() > 0 {
            title@
        } else {
            file_stem(file_name@)
        }),
{
    if !title.as_str().is_empty() {
        return title.clone();
    }
    let cs = chars_of(file_name);
    let mut k = cs.len();
    assert(cs@.take(k as int) =~= cs@);
    while k > 0 && cs[k - 1] != '.'
        invariant
            k <= cs@.len(),
            last_dot(cs@) == last_dot(cs@.take(k as int)),
        decreases k,
    {
        assert(cs@.take(k as int).drop_last() =~= cs@.take(k - 1));
        k = k - 1;
    }
    proof {
        reveal_strlit("..");
    }
    let dotdot = cs.len() == 2 && cs[0] == '.' && cs[1] == '.';
    assert(dotdot ==> cs@ =~= ".."@);
    if k > 1 && !dotdot {
        let v = crate::chars::sub_chars(&cs, 0, k - 1);
        assert(v@ =~= cs@.take(k - 1));
        string_from_chars(v.as_slice())
    } else {
        string_from_chars(cs.as_slice())
    }
}

} // verus!
