//! OPML 2.0 import (feed URLs from `outline` tags) and export (one
//! `outline` per subscribed feed).

use vstd::prelude::*;
use vstd::string::StringExecFns;
use crate::chars::{chars_of, string_from_chars, views};
use crate::sentence::{eq_ignore_ascii_case, eq_ignore_ascii_case_at};
use crate::xml::{
    is_final_event, lemma_stops_at_unique, new_xml_writer, next_xml_event, open_xml, utf8_string,
    write_xml, written_bytes, xml_event_at, xml_events_read, xml_out_bytes, xml_position,
    xml_source, xml_stops_at, xml_unescape, xml_unescaped, xml_written, XmlEvent, XmlEventView,
    XmlOut, XmlOutView, XmlTag, XmlTagView,
};

verus! {

/// A subscribed feed as the store keeps it.
#[derive(Debug, Clone, PartialEq, Eq)]
pub struct Feed {
    /// Store id.
    pub id: i64,
    /// Feed document URL.
    pub url: String,
    /// Feed title.
    pub title: String,
    /// Site URL.
    pub site_url: String,
    /// When the feed was last fetched, if ever.
    pub last_fetched: Option<String>,
    /// The last fetch error, if any.
    pub fetch_error: Option<String>,
}

/// Index of the first `:` in `q` (`q.len()` when there is none).
pub open spec fn first_colon(q: Seq<char>) -> int
    decreases q.len(),
{
    if q.len() == 0 || q[0] == ':' {
        0
    } else {
        1 + first_colon(q.drop_first())
    }
}

/// The local part of a qualified name: what follows its first `:`, or the
/// whole name when it has none.
pub open spec fn qname_local(q: Seq<char>) -> Seq<char> {
    let i = first_colon(q);
    if i < q.len() {
        q.subrange(i + 1, q.len() as int)
    } else {
        q
    }
}

/// The feed URLs of a tag's attributes, in order: the unescaped, non-empty
/// values of the keys equal to `xmlurl` up to ASCII case.
pub open spec fn xmlurl_values(attrs: Seq<(Seq<char>, Seq<char>)>) -> Seq<Seq<char>>
    decreases attrs.len(),
{
    if attrs.len() == 0 {
        Seq::empty()
    } else {
        let prev = xmlurl_values(attrs.drop_last());
        if eq_ignore_ascii_case(attrs.last().0, "xmlurl"@) {
            match xml_unescaped(attrs.last().1) {
                Some(u) => if u.len() > 0 {
                    prev.push(u)
                } else {
                    prev
                },
                None => prev,
            }
        } else {
            prev
        }
    }
}

/// The feed URLs of a tag: those of its attributes when its local name is
/// `outline`.
pub open spec fn tag_urls(t: XmlTagView) -> Seq<Seq<char>> {
    if qname_local(t.name) == "outline"@ {
        xmlurl_values(t.attributes)
    } else {
        Seq::empty()
    }
}

/// The feed URLs an event contributes.
pub open spec fn event_urls(e: XmlEventView) -> Seq<Seq<char>> {
    match e {
        XmlEventView::Start(t) => tag_urls(t),
        XmlEventView::Empty(t) => tag_urls(t),
        _ => Seq::empty(),
    }
}

/// The feed URLs of the first `n` events of `xml`.
pub open spec fn urls_upto(xml: Seq<char>, n: nat) -> Seq<Seq<char>>
    decreases n,
{
    if n == 0 {
        Seq::empty()
    } else {
        urls_upto(xml, (n - 1) as nat) + event_urls(xml_event_at(xml, (n - 1) as nat))
    }
}

/// The feed URLs of an OPML document: those of all its events when
/// reading reaches its end, none when reading stops at an XML error.
pub open spec fn opml_urls(xml: Seq<char>) -> Seq<Seq<char>> {
    let n = choose|n: nat| xml_stops_at(xml, n);
    if xml_event_at(xml, n) is Error {
        Seq::empty()
    } else {
        urls_upto(xml, n)
    }
}

/// The local part of a qualified name (after its first `:`).
pub fn qualified_local(qname: &String) -> (r: String)
    ensures
        r@ == qname_local(qname@),
{
    let cs = chars_of(qname.as_str());
    let n = cs.len();
    let mut i: usize = 0;
    assert(cs@.subrange(0, n as int) =~= cs@);
    while i < n && cs[i] != ':'
        invariant
            i <= n == cs@.len(),
            first_colon(cs@) == i + first_colon(cs@.subrange(i as int, n as int)),
        decreases n - i,
    {
        assert(cs@.subrange(i as int, n as int).drop_first() =~= cs@.subrange(i + 1, n as int));
        i = i + 1;
    }
    if i < n {
        let v = crate::chars::sub_chars(&cs, i + 1, n);
        string_from_chars(v.as_slice())
    } else {
        qname.clone()
    }
}

/// Add the feed URLs of `tag` to `urls`.
fn collect_outline_urls(urls: &mut Vec<String>, tag: &XmlTag)
    ensures
        views(final(urls)@) == views(old(urls)@) + tag_urls(tag@),
{
    let local = qualified_local(&tag.name);
    proof {
        reveal_strlit("outline");
    }
    if !(local == String::from_str("outline")) {
        assert(views(urls@) =~= views(urls@) + Seq::<Seq<char>>::empty());
        return;
    }
    let ghost start = views(urls@);
    let ghost av = tag.attributes@.map_values(|p: (String, String)| (p.0@, p.1@));
    let pat = chars_of("xmlurl");
    let mut i: usize = 0;
    assert(av.take(0) =~= Seq::<(Seq<char>, Seq<char>)>::empty());
    assert(start + Seq::<Seq<char>>::empty() =~= start);
    while i < tag.attributes.len()
        invariant
            i <= tag.attributes@.len(),
            av == tag.attributes@.map_values(|p: (String, String)| (p.0@, p.1@)),
            pat@ == "xmlurl"@,
            views(urls@) == start + xmlurl_values(av.take(i as int)),
        decreases tag.attributes@.len() - i,
    {
        assert(av.take(i + 1).drop_last() =~= av.take(i as int));
        assert(av.take(i + 1).last() == (tag.attributes@[i as int].0@, tag.attributes@[i as int].1@));
        let kc = chars_of(tag.attributes[i].0.as_str());
        assert(kc@.subrange(0, kc@.len() as int) =~= kc@);
        if eq_ignore_ascii_case_at(&kc, 0, kc.len(), &pat) {
            match xml_unescape(tag.attributes[i].1.as_str()) {
                Some(u) => {
                    if !u.as_str().is_empty() {
                        let ghost before = views(urls@);
                        urls.push(u);
                        assert(views(urls@) =~= before.push(u@));
                        assert(start + xmlurl_values(av.take(i as int)).push(u@) =~= before.push(u@));
                    }
                },
                None => {},
            }
        }
        i = i + 1;
    }
    assert(av.take(tag.attributes@.len() as int) =~= av);
}

/// Parse an OPML document and return every non-empty `xmlUrl` attribute
/// value (key matched up to ASCII case, value unescaped) of its `outline`
/// tags, in document order. A document that is not well-formed XML gives
/// no URL.
pub fn parse_opml(xml: &str) -> (r: Vec<String>)
    ensures
        exists|n: nat| #[trigger] xml_stops_at(xml@, n),
        views(r@) == opml_urls(xml@),
{
    let mut reader = open_xml(xml);
    let ghost len = vstd::utf8::encode_utf8(xml@).len();
    let mut urls: Vec<String> = Vec::new();
    assert(views(urls@) =~= Seq::<Seq<char>>::empty());
    loop
        invariant
            xml_source(reader) == xml@,
            len == vstd::utf8::encode_utf8(xml@).len(),
            xml_position(reader) <= len,
            forall|i: nat|
                i < xml_events_read(reader) ==> !is_final_event(#[trigger] xml_event_at(xml@, i)),
            views(urls@) == urls_upto(xml@, xml_events_read(reader)),
        decreases len - xml_position(reader),
    {
        let ghost k = xml_events_read(reader);
        let ev = next_xml_event(&mut reader);
        match ev {
            XmlEvent::Start(t) => {
                collect_outline_urls(&mut urls, &t);
            },
            XmlEvent::Empty(t) => {
                collect_outline_urls(&mut urls, &t);
            },
            XmlEvent::Eof => {
                proof {
                    assert(xml_stops_at(xml@, k));
                    let m = choose|m: nat| xml_stops_at(xml@, m);
                    lemma_stops_at_unique(xml@, k, m);
                }
                return urls;
            },
            XmlEvent::Error(_) => {
                proof {
                    assert(xml_stops_at(xml@, k));
                    let m = choose|m: nat| xml_stops_at(xml@, m);
                    lemma_stops_at_unique(xml@, k, m);
                }
                let none: Vec<String> = Vec::new();
                assert(views(none@) =~= Seq::<Seq<char>>::empty());
                return none;
            },
            _ => {
                assert(views(urls@) =~= views(urls@) + event_urls(ev@));
            },
        }
        assert forall|i: nat| i < xml_events_read(reader) implies !is_final_event(
            #[trigger] xml_event_at(xml@, i),
        ) by {
            if i < k {
            }
        }
    }
}


/// Attribute `a` of `attrs` has a key equal to `xmlurl` up to ASCII case
/// and a value that unescapes to the non-empty `u`.
pub open spec fn xmlurl_attribute_gives(attrs: Seq<(Seq<char>, Seq<char>)>, a: int, u: Seq<char>) -> bool {
    &&& 0 <= a < attrs.len()
    &&& eq_ignore_ascii_case(attrs[a].0, "xmlurl"@)
    &&& xml_unescaped(attrs[a].1) == Some(u)
    &&& u.len() > 0
}

/// Event `n` of `xml` is an `outline` tag whose attribute `a` is an
/// `xmlUrl` attribute that gives `u`.
pub open spec fn outline_gives(xml: Seq<char>, n: nat, a: int, u: Seq<char>) -> bool {
    match xml_event_at(xml, n) {
        XmlEventView::Start(t) => qname_local(t.name) == "outline"@ && xmlurl_attribute_gives(
            t.attributes,
            a,
            u,
        ),
        XmlEventView::Empty(t) => qname_local(t.name) == "outline"@ && xmlurl_attribute_gives(
            t.attributes,
            a,
            u,
        ),
        _ => false,
    }
}

/// Some attribute of `attrs` is an `xmlUrl` attribute that gives `u`.
pub open spec fn some_xmlurl_gives(attrs: Seq<(Seq<char>, Seq<char>)>, u: Seq<char>) -> bool {
    exists|a: int| #[trigger] xmlurl_attribute_gives(attrs, a, u)
}

/// One of the first `n` events of `xml` is an `outline` tag with an
/// `xmlUrl` attribute that gives `u`.
pub open spec fn outline_before_gives(xml: Seq<char>, n: nat, u: Seq<char>) -> bool {
    exists|e: nat, a: int| e < n && #[trigger] outline_gives(xml, e, a, u)
}

proof fn lemma_xmlurl_values_source(attrs: Seq<(Seq<char>, Seq<char>)>)
    ensures
        forall|j: int|
            0 <= j < xmlurl_values(attrs).len() ==> some_xmlurl_gives(
                attrs,
                #[trigger] xmlurl_values(attrs)[j],
            ),
    decreases attrs.len(),
{
    if attrs.len() > 0 {
        let p = attrs.drop_last();
        lemma_xmlurl_values_source(p);
        let v = xmlurl_values(attrs);
        let pv = xmlurl_values(p);
        assert forall|j: int| 0 <= j < v.len() implies some_xmlurl_gives(attrs, #[trigger] v[j]) by {
            if j < pv.len() {
                assert(v[j] == pv[j]);
                assert(some_xmlurl_gives(p, pv[j]));
                let a = choose|a: int| #[trigger] xmlurl_attribute_gives(p, a, pv[j]);
                assert(attrs[a] == p[a]);
                assert(xmlurl_attribute_gives(attrs, a, v[j]));
            } else {
                assert(xmlurl_attribute_gives(attrs, attrs.len() - 1, v[j]));
            }
        }
    }
}

proof fn lemma_urls_upto_source(xml: Seq<char>, n: nat)
    ensures
        forall|j: int|
            0 <= j < urls_upto(xml, n).len() ==> outline_before_gives(
                xml,
                n,
                #[trigger] urls_upto(xml, n)[j],
            ),
    decreases n,
{
    if n > 0 {
        let m = (n - 1) as nat;
        lemma_urls_upto_source(xml, m);
        let pv = urls_upto(xml, m);
        let ev = xml_event_at(xml, m);
        let add = event_urls(ev);
        let v = urls_upto(xml, n);
        assert forall|j: int| 0 <= j < v.len() implies outline_before_gives(xml, n, #[trigger] v[j]) by {
            if j < pv.len() {
                assert(v[j] == pv[j]);
                assert(outline_before_gives(xml, m, pv[j]));
                let (e, a) = choose|e: nat, a: int| e < m && #[trigger] outline_gives(xml, e, a, pv[j]);
                assert(e < n && outline_gives(xml, e, a, v[j]));
            } else {
                let u = add[j - pv.len()];
                assert(v[j] == u);
                match ev {
                    XmlEventView::Start(t) => {
                        lemma_xmlurl_values_source(t.attributes);
                        assert(some_xmlurl_gives(t.attributes, u));
                        let a = choose|a: int| #[trigger] xmlurl_attribute_gives(t.attributes, a, u);
                        assert(outline_gives(xml, m, a, u));
                    },
                    XmlEventView::Empty(t) => {
                        lemma_xmlurl_values_source(t.attributes);
                        assert(some_xmlurl_gives(t.attributes, u));
                        let a = choose|a: int| #[trigger] xmlurl_attribute_gives(t.attributes, a, u);
                        assert(outline_gives(xml, m, a, u));
                    },
                    _ => {
                        assert(add.len() == 0);
                    },
                }
            }
        }
    }
}

/// Some event of `xml` is an `outline` tag with an `xmlUrl` attribute
/// that gives `u`.
pub open spec fn some_outline_gives(xml: Seq<char>, u: Seq<char>) -> bool {
    exists|e: nat, a: int| #[trigger] outline_gives(xml, e, a, u)
}

/// Every imported URL is the unescaped, non-empty value of an attribute
/// of an `outline` tag of the document whose key is `xmlurl` up to ASCII
/// case; no other attribute (`htmlUrl`, `text`, `type`) contributes one.
pub proof fn law_opml_urls_come_from_xmlurl(xml: Seq<char>)
    ensures
        forall|j: int|
            0 <= j < opml_urls(xml).len() ==> some_outline_gives(xml, #[trigger] opml_urls(xml)[j]),
{
    let n = choose|n: nat| xml_stops_at(xml, n);
    lemma_urls_upto_source(xml, n);
    let v = opml_urls(xml);
    assert forall|j: int| 0 <= j < v.len() implies some_outline_gives(xml, #[trigger] v[j]) by {
        assert(v[j] == urls_upto(xml, n)[j]);
        assert(outline_before_gives(xml, n, urls_upto(xml, n)[j]));
        let (e, a) = choose|e: nat, a: int| e < n && #[trigger] outline_gives(xml, e, a, urls_upto(xml, n)[j]);
        assert(outline_gives(xml, e, a, v[j]));
    }
}

proof fn lemma_xmlurl_values_complete(attrs: Seq<(Seq<char>, Seq<char>)>, a: int, u: Seq<char>)
    requires
        xmlurl_attribute_gives(attrs, a, u),
    ensures
        xmlurl_values(attrs).contains(u),
    decreases attrs.len(),
{
    let p = attrs.drop_last();
    let v = xmlurl_values(attrs);
    if a == attrs.len() - 1 {
        assert(v == xmlurl_values(p).push(u));
        assert(v[v.len() - 1] == u);
    } else {
        assert(p[a] == attrs[a]);
        lemma_xmlurl_values_complete(p, a, u);
        let pv = xmlurl_values(p);
        let k = choose|k: int| 0 <= k < pv.len() && pv[k] == u;
        assert(v[k] == pv[k]);
    }
}

proof fn lemma_urls_upto_complete(xml: Seq<char>, n: nat, e: nat, a: int, u: Seq<char>)
    requires
        e < n,
        outline_gives(xml, e, a, u),
    ensures
        urls_upto(xml, n).contains(u),
    decreases n,
{
    let m = (n - 1) as nat;
    let pv = urls_upto(xml, m);
    let v = urls_upto(xml, n);
    let add = event_urls(xml_event_at(xml, m));
    assert(v == pv + add);
    if e == m {
        match xml_event_at(xml, m) {
            XmlEventView::Start(t) => {
                lemma_xmlurl_values_complete(t.attributes, a, u);
            },
            XmlEventView::Empty(t) => {
                lemma_xmlurl_values_complete(t.attributes, a, u);
            },
            _ => {},
        }
        let k = choose|k: int| 0 <= k < add.len() && add[k] == u;
        assert(v[pv.len() + k] == u);
    } else {
        lemma_urls_upto_complete(xml, m, e, a, u);
        let k = choose|k: int| 0 <= k < pv.len() && pv[k] == u;
        assert(v[k] == u);
    }
}

/// Every non-empty, unescaped `xmlUrl` value (key matched up to ASCII
/// case) of an `outline` tag read before the document ends is imported,
/// unless reading ends at an XML error.
pub proof fn law_opml_imports_every_xmlurl(xml: Seq<char>, n: nat, e: nat, a: int, u: Seq<char>)
    requires
        xml_stops_at(xml, n),
        !(xml_event_at(xml, n) is Error),
        e < n,
        outline_gives(xml, e, a, u),
    ensures
        opml_urls(xml).contains(u),
{
    let m = choose|m: nat| xml_stops_at(xml, m);
    lemma_stops_at_unique(xml, n, m);
    lemma_urls_upto_complete(xml, n, e, a, u);
}

/// The `outline` tag exported for a feed with this title and URL.
pub open spec fn outline_for(title: Seq<char>, url: Seq<char>) -> XmlOutView {
    XmlOutView::Empty("outline"@, seq![("type"@, "rss"@), ("text"@, title), ("xmlUrl"@, url)])
}

/// The events written before the feeds' outlines.
pub open spec fn opml_head() -> Seq<XmlOutView> {
    seq![
        XmlOutView::Decl("1.0"@, Some("utf-8"@)),
        XmlOutView::Start("opml"@, seq![("version"@, "2.0"@)]),
        XmlOutView::Start("head"@, Seq::empty()),
        XmlOutView::Start("title"@, Seq::empty()),
        XmlOutView::Text("miniflux-reader-rs subscriptions"@),
        XmlOutView::End("title"@),
        XmlOutView::End("head"@),
        XmlOutView::Start("body"@, Seq::empty()),
    ]
}

/// The events written after the feeds' outlines.
pub open spec fn opml_tail() -> Seq<XmlOutView> {
    seq![XmlOutView::End("body"@), XmlOutView::End("opml"@)]
}

/// The outline events of feeds given as (title, url) pairs.
pub open spec fn outlines(feeds: Seq<(Seq<char>, Seq<char>)>) -> Seq<XmlOutView> {
    feeds.map_values(|f: (Seq<char>, Seq<char>)| outline_for(f.0, f.1))
}

/// The events of the OPML document for feeds given as (title, url) pairs.
pub open spec fn opml_document(feeds: Seq<(Seq<char>, Seq<char>)>) -> Seq<XmlOutView> {
    opml_head() + outlines(feeds) + opml_tail()
}

/// The bytes the writer produces for a sequence of events.
pub open spec fn out_bytes(evs: Seq<XmlOutView>) -> Seq<u8>
    decreases evs.len(),
{
    if evs.len() == 0 {
        Seq::empty()
    } else {
        out_bytes(evs.drop_last()) + xml_out_bytes(evs.last())
    }
}

/// The text that `bytes` encode, or nothing when they are not valid UTF-8.
pub open spec fn utf8_or_empty(bytes: Seq<u8>) -> Seq<char> {
    if vstd::utf8::valid_utf8(bytes) {
        vstd::utf8::decode_utf8(bytes)
    } else {
        Seq::empty()
    }
}

/// The (title, url) of each feed.
pub open spec fn feed_entries(feeds: Seq<Feed>) -> Seq<(Seq<char>, Seq<char>)> {
    feeds.map_values(|f: Feed| (f.title@, f.url@))
}

/// Write `ev` and record it in `done`.
fn emit(w: &mut quick_xml::Writer<std::io::Cursor<Vec<u8>>>, ev: XmlOut, Ghost(done): Ghost<Seq<XmlOutView>>) -> (r: Ghost<Seq<XmlOutView>>)
    requires
        xml_written(*old(w)) == out_bytes(done),
    ensures
        r@ == done.push(ev@),
        xml_written(*final(w)) == out_bytes(r@),
{
    write_xml(w, &ev);
    assert(done.push(ev@).drop_last() =~= done);
    Ghost(done.push(ev@))
}

/// A tag without attributes.
fn bare() -> (r: Vec<(String, String)>)
    ensures
        r@.map_values(|p: (String, String)| (p.0@, p.1@)) == Seq::<(Seq<char>, Seq<char>)>::empty(),
{
    let r: Vec<(String, String)> = Vec::new();
    assert(r@.map_values(|p: (String, String)| (p.0@, p.1@)) =~= Seq::<(Seq<char>, Seq<char>)>::empty());
    r
}

/// Export feeds as an OPML 2.0 document: an XML declaration, a head titled
/// "miniflux-reader-rs subscriptions", and a body with one
/// `<outline type="rss" text=".." xmlUrl=".."/>` per feed, in order.
pub fn export_opml(feeds: &[Feed]) -> (r: String)
    ensures
        r@ == utf8_or_empty(out_bytes(opml_document(feed_entries(feeds@)))),
{
    let mut w = new_xml_writer();
    let ghost mut done: Seq<XmlOutView> = Seq::empty();
    let g = emit(&mut w, XmlOut::Decl(String::from_str("1.0"), Some(String::from_str("utf-8"))), Ghost(done));
    proof { done = g@; }
    let version = vec![(String::from_str("version"), String::from_str("2.0"))];
    assert(version@.map_values(|p: (String, String)| (p.0@, p.1@)) =~= seq![("version"@, "2.0"@)]);
    let g = emit(&mut w, XmlOut::Start(String::from_str("opml"), version), Ghost(done));
    proof { done = g@; }
    let g = emit(&mut w, XmlOut::Start(String::from_str("head"), bare()), Ghost(done));
    proof { done = g@; }
    let g = emit(&mut w, XmlOut::Start(String::from_str("title"), bare()), Ghost(done));
    proof { done = g@; }
    let g = emit(&mut w, XmlOut::Text(String::from_str("miniflux-reader-rs subscriptions")), Ghost(done));
    proof { done = g@; }
    let g = emit(&mut w, XmlOut::End(String::from_str("title")), Ghost(done));
    proof { done = g@; }
    let g = emit(&mut w, XmlOut::End(String::from_str("head")), Ghost(done));
    proof { done = g@; }
    let g = emit(&mut w, XmlOut::Start(String::from_str("body"), bare()), Ghost(done));
    proof {
        done = g@;
        assert(done =~= opml_head());
    }
    let ghost entries = feed_entries(feeds@);
    let mut i: usize = 0;
    while i < feeds.len()
        invariant
            i <= feeds@.len(),
            entries == feed_entries(feeds@),
            done == opml_head() + outlines(entries.take(i as int)),
            xml_written(w) == out_bytes(done),
        decreases feeds@.len() - i,
    {
        let f = &feeds[i];
        let attrs = vec![
            (String::from_str("type"), String::from_str("rss")),
            (String::from_str("text"), f.title.clone()),
            (String::from_str("xmlUrl"), f.url.clone()),
        ];
        assert(attrs@.map_values(|p: (String, String)| (p.0@, p.1@)) =~= seq![
            ("type"@, "rss"@),
            ("text"@, f.title@),
            ("xmlUrl"@, f.url@),
        ]);
        let ev = XmlOut::Empty(String::from_str("outline"), attrs);
        assert(ev@ == outline_for(entries[i as int].0, entries[i as int].1));
        let g = emit(&mut w, ev, Ghost(done));
        proof {
            assert(outlines(entries.take(i + 1)) =~= outlines(entries.take(i as int)).push(
                outline_for(entries[i as int].0, entries[i as int].1),
            ));
            done = g@;
        }
        i = i + 1;
    }
    let g = emit(&mut w, XmlOut::End(String::from_str("body")), Ghost(done));
    proof { done = g@; }
    let g = emit(&mut w, XmlOut::End(String::from_str("opml")), Ghost(done));
    proof {
        done = g@;
        assert(entries.take(feeds@.len() as int) =~= entries);
        assert(done =~= opml_document(entries));
    }
    let bytes = written_bytes(w);
    match utf8_string(bytes) {
        Some(s) => s,
        None => String::new(),
    }
}

} // verus!
