//! Sitemaps: a sitemap index (URLs of nested sitemaps) or a URL set (page
//! entries), possibly gzip-compressed. The XML is tokenised by `quick_xml`;
//! which events make which entries is decided here.

use vstd::prelude::*;
use vstd::string::*;
use crate::body_cap::{gunzip_capped, gunzip_fails, gunzip_output};
use crate::error::HttpError;
use crate::text::{chars_of, contains, contains_str, string_from_chars, str_eq, strings_view, trim, trim_chars, utf8};
use crate::urls::chars_le;

verus! {

/// Maximum decompressed sitemap size (50 MB, the sitemap protocol's limit
/// per file).
pub const SITEMAP_MAX_DECOMPRESSED_BYTES: u64 = 52428800;

/// An XML event as the sitemap reader sees it.
#[derive(Debug)]
pub enum XmlEvent {
    /// A start tag, by local name.
    Start(String),
    /// An end tag, by local name.
    End(String),
    /// Text (trimmed by the tokenizer), unescaped, or the unescaping error.
    Text(Result<String, String>),
    /// The end of the document.
    Eof,
    /// A syntax error, with its message.
    Error(String),
    /// Anything else (comments, declarations, empty tags...).
    Other,
}

/// An XML event as the specifications see it.
pub enum EventView {
    Start(Seq<char>),
    End(Seq<char>),
    Text(Result<Seq<char>, Seq<char>>),
    Eof,
    Error(Seq<char>),
    Other,
}

impl View for XmlEvent {
    type V = EventView;

    open spec fn view(&self) -> EventView {
        match self {
            XmlEvent::Start(n) => EventView::Start(n@),
            XmlEvent::End(n) => EventView::End(n@),
            XmlEvent::Text(t) => EventView::Text(
                match t {
                    Ok(s) => Ok(s@),
                    Err(e) => Err(e@),
                },
            ),
            XmlEvent::Eof => EventView::Eof,
            XmlEvent::Error(e) => EventView::Error(e@),
            XmlEvent::Other => EventView::Other,
        }
    }
}

/// What each event is.
pub open spec fn events_view(v: Seq<XmlEvent>) -> Seq<EventView> {
    v.map_values(|e: XmlEvent| e@)
}

/// The events `quick_xml` reads from `data` with text trimming on, up to and
/// including the first end-of-document or error.
pub uninterp spec fn xml_events_of(data: Seq<u8>) -> Seq<EventView>;

#[verifier::external_type_specification]
#[verifier::external_body]
pub struct ExXmlEventKind<'a>(quick_xml::events::Event<'a>);

#[verifier::external_type_specification]
#[verifier::external_body]
pub struct ExXmlError(quick_xml::Error);

/// Converts one `quick_xml` read result.
#[verifier::external_body]
fn convert_event(r: Result<quick_xml::events::Event<'_>, quick_xml::Error>) -> XmlEvent {
    match r {
        Ok(quick_xml::events::Event::Start(e)) => XmlEvent::Start(String::from_utf8_lossy(e.local_name().as_ref()).into_owned()),
        Ok(quick_xml::events::Event::End(e)) => XmlEvent::End(String::from_utf8_lossy(e.local_name().as_ref()).into_owned()),
        Ok(quick_xml::events::Event::Text(e)) => XmlEvent::Text(e.unescape().map(|t| t.into_owned()).map_err(|x| x.to_string())),
        Ok(quick_xml::events::Event::Eof) => XmlEvent::Eof,
        Err(e) => XmlEvent::Error(e.to_string()),
        Ok(_) => XmlEvent::Other,
    }
}

/// Tokenises `data` with `quick_xml::Reader` (text trimming on), reading
/// events up to the end of the document or the first error; the events are
/// named `xml_events_of(data@)`.
#[verifier::external_body]
fn xml_events(data: &[u8]) -> (r: Vec<XmlEvent>)
    ensures
        events_view(r@) == xml_events_of(data@),
{
    let mut reader = quick_xml::Reader::from_reader(data);
    reader.config_mut().trim_text(true);
    let (mut buf, mut out) = (Vec::new(), Vec::new());
    loop {
        let ev = convert_event(reader.read_event_into(&mut buf));
        let done = matches!(ev, XmlEvent::Eof | XmlEvent::Error(_));
        out.push(ev);
        buf.clear();
        if done {
            return out;
        }
    }
}

/// A page entry of a URL set. The priority is kept as written (a number
/// from 0 to 1 in the sitemap protocol).
#[derive(Debug)]
pub struct SitemapEntry {
    pub url: String,
    pub lastmod: Option<String>,
    pub priority: Option<String>,
    pub changefreq: Option<String>,
}

/// A page entry as the specifications see it.
pub struct EntryView {
    pub url: Seq<char>,
    pub lastmod: Option<Seq<char>>,
    pub priority: Option<Seq<char>>,
    pub changefreq: Option<Seq<char>>,
}

/// The characters of an optional string.
pub open spec fn opt_chars(o: Option<String>) -> Option<Seq<char>> {
    match o {
        Some(s) => Some(s@),
        None => None,
    }
}

impl View for SitemapEntry {
    type V = EntryView;

    open spec fn view(&self) -> EntryView {
        EntryView {
            url: self.url@,
            lastmod: opt_chars(self.lastmod),
            priority: opt_chars(self.priority),
            changefreq: opt_chars(self.changefreq),
        }
    }
}

/// What each entry is.
pub open spec fn entries_view(v: Seq<SitemapEntry>) -> Seq<EntryView> {
    v.map_values(|e: SitemapEntry| e@)
}

/// Parsed sitemap content.
#[derive(Debug)]
pub enum SitemapContent {
    /// A sitemap index: the URLs of nested sitemaps.
    Index(Vec<String>),
    /// A URL set: page entries.
    UrlSet(Vec<SitemapEntry>),
}

/// Why a sitemap could not be read.
#[derive(Debug)]
pub enum SitemapError {
    /// The XML is malformed (the tokenizer's or unescaper's message).
    Xml(String),
    /// Neither `<urlset>` nor `<sitemapindex>` was found.
    NoRoot,
    /// Decompression failed or exceeded the cap.
    Body(HttpError),
}

// ---------------------------------------------------------------------------
// Recognising the document
// ---------------------------------------------------------------------------

/// The kind of document from event `i` on: `Some((is_index, next))` at the
/// first `sitemapindex` or `urlset` start tag (`next` is the event after
/// it); an error at an error event; `None` at the end of the document.
pub open spec fn root_from(ev: Seq<EventView>, i: int) -> Result<Option<(bool, int)>, Seq<char>>
    decreases ev.len() - i,
{
    if i < 0 || i >= ev.len() {
        Ok(None)
    } else {
        match ev[i] {
            EventView::Start(n) => if n == "sitemapindex"@ {
                Ok(Some((true, i + 1)))
            } else if n == "urlset"@ {
                Ok(Some((false, i + 1)))
            } else {
                root_from(ev, i + 1)
            },
            EventView::Eof => Ok(None),
            EventView::Error(e) => Err(e),
            _ => root_from(ev, i + 1),
        }
    }
}

fn find_root(ev: &Vec<XmlEvent>) -> (r: Result<Option<(bool, usize)>, String>)
    ensures
        r matches Ok(Some((_, k))) ==> k <= ev@.len(),
        match r {
            Ok(Some((b, k))) => root_from(events_view(ev@), 0) == Ok::<Option<(bool, int)>, Seq<char>>(Some((b, k as int))),
            Ok(None) => root_from(events_view(ev@), 0) == Ok::<Option<(bool, int)>, Seq<char>>(None),
            Err(e) => root_from(events_view(ev@), 0) == Err::<Option<(bool, int)>, Seq<char>>(e@),
        },
{
    let ghost v = events_view(ev@);
    let mut i: usize = 0;
    while i < ev.len()
        invariant
            i <= ev@.len(),
            v == events_view(ev@),
            root_from(v, 0) == root_from(v, i as int),
        decreases ev@.len() - i,
    {
        assert(v[i as int] == ev@[i as int]@);
        match &ev[i] {
            XmlEvent::Start(n) => {
                if str_eq(n.as_str(), "sitemapindex") {
                    return Ok(Some((true, i + 1)));
                }
                if str_eq(n.as_str(), "urlset") {
                    return Ok(Some((false, i + 1)));
                }
            },
            XmlEvent::Eof => {
                return Ok(None);
            },
            XmlEvent::Error(e) => {
                return Err(String::from_str(e.as_str()));
            },
            _ => {},
        }
        i += 1;
    }
    Ok(None)
}

// ---------------------------------------------------------------------------
// Sitemap index
// ---------------------------------------------------------------------------

/// The nested sitemap URLs from event `i` on (`in_loc`: inside a `<loc>`):
/// the first text inside each `<loc>`, trimmed.
pub open spec fn index_from(ev: Seq<EventView>, i: int, in_loc: bool) -> Result<Seq<Seq<char>>, Seq<char>>
    decreases ev.len() - i,
{
    if i < 0 || i >= ev.len() {
        Ok(Seq::empty())
    } else {
        match ev[i] {
            EventView::Start(n) => index_from(ev, i + 1, n == "loc"@ || in_loc),
            EventView::Text(t) => if in_loc {
                match t {
                    Ok(s) => match index_from(ev, i + 1, false) {
                        Ok(rest) => Ok(seq![trim(s)] + rest),
                        Err(e) => Err(e),
                    },
                    Err(e) => Err(e),
                }
            } else {
                index_from(ev, i + 1, in_loc)
            },
            EventView::End(n) => index_from(ev, i + 1, if n == "loc"@ { false } else { in_loc }),
            EventView::Eof => Ok(Seq::empty()),
            EventView::Error(e) => Err(e),
            EventView::Other => index_from(ev, i + 1, in_loc),
        }
    }
}

fn trimmed_string(s: &str) -> (r: String)
    ensures
        r@ == trim(s@),
{
    let v = chars_of(s);
    let t = trim_chars(v.as_slice());
    string_from_chars(&t)
}

fn parse_index(ev: &Vec<XmlEvent>, start: usize) -> (r: Result<Vec<String>, String>)
    requires
        start <= ev@.len(),
    ensures
        match r {
            Ok(v) => index_from(events_view(ev@), start as int, false) == Ok::<Seq<Seq<char>>, Seq<char>>(
                crate::text::strings_view(v@),
            ),
            Err(e) => index_from(events_view(ev@), start as int, false) == Err::<Seq<Seq<char>>, Seq<char>>(e@),
        },
{
    let ghost v = events_view(ev@);
    let mut urls: Vec<String> = Vec::new();
    let mut in_loc = false;
    let mut i: usize = start;
    while i < ev.len()
        invariant
            start <= i <= ev@.len(),
            v == events_view(ev@),
            index_from(v, start as int, false) == match index_from(v, i as int, in_loc) {
                Ok(rest) => Ok::<Seq<Seq<char>>, Seq<char>>(crate::text::strings_view(urls@) + rest),
                Err(e) => Err(e),
            },
        decreases ev@.len() - i,
    {
        assert(v[i as int] == ev@[i as int]@);
        let ghost u0 = crate::text::strings_view(urls@);
        match &ev[i] {
            XmlEvent::Start(n) => {
                if str_eq(n.as_str(), "loc") {
                    in_loc = true;
                }
            },
            XmlEvent::Text(t) => {
                if in_loc {
                    match t {
                        Ok(s) => {
                            let u = trimmed_string(s.as_str());
                            urls.push(u);
                            in_loc = false;
                            proof {
                                assert(crate::text::strings_view(urls@) =~= u0.push(u@));
                                let rest = index_from(v, i + 1, false);
                                if rest is Ok {
                                    assert(u0 + (seq![trim(s@)] + rest->Ok_0) =~= crate::text::strings_view(urls@)
                                        + rest->Ok_0);
                                }
                            }
                        },
                        Err(e) => {
                            return Err(String::from_str(e.as_str()));
                        },
                    }
                }
            },
            XmlEvent::End(n) => {
                if str_eq(n.as_str(), "loc") {
                    in_loc = false;
                }
            },
            XmlEvent::Eof => {
                assert(u0 + Seq::<Seq<char>>::empty() =~= u0);
                return Ok(urls);
            },
            XmlEvent::Error(e) => {
                return Err(String::from_str(e.as_str()));
            },
            XmlEvent::Other => {},
        }
        i += 1;
    }
    assert(crate::text::strings_view(urls@) + Seq::<Seq<char>>::empty() =~= crate::text::strings_view(urls@));
    Ok(urls)
}

// ---------------------------------------------------------------------------
// URL set
// ---------------------------------------------------------------------------

/// An entry with nothing filled in.
pub open spec fn empty_entry() -> EntryView {
    EntryView { url: Seq::empty(), lastmod: None, priority: None, changefreq: None }
}

/// The entry with the field named by `tag` set to `text` (other tags change
/// nothing).
pub open spec fn set_entry_field(c: EntryView, tag: Seq<char>, text: Seq<char>) -> EntryView {
    if tag == "loc"@ {
        EntryView { url: text, ..c }
    } else if tag == "lastmod"@ {
        EntryView { lastmod: Some(text), ..c }
    } else if tag == "priority"@ {
        EntryView { priority: Some(text), ..c }
    } else if tag == "changefreq"@ {
        EntryView { changefreq: Some(text), ..c }
    } else {
        c
    }
}

/// A tag whose text fills an entry field.
pub open spec fn is_field_tag(n: Seq<char>) -> bool {
    n == "loc"@ || n == "lastmod"@ || n == "priority"@ || n == "changefreq"@
}

/// The entries read from event `i` on, given the entries so far, the entry
/// being read and the field tag last opened: `<url>` starts an entry, text
/// fills the current field (trimmed), `</url>` ends the entry (kept when it
/// has a URL), and every end tag closes the field.
pub open spec fn urlset_from(
    ev: Seq<EventView>,
    i: int,
    entries: Seq<EntryView>,
    current: Option<EntryView>,
    tag: Seq<char>,
) -> Result<Seq<EntryView>, Seq<char>>
    decreases ev.len() - i,
{
    if i < 0 || i >= ev.len() {
        Ok(entries)
    } else {
        match ev[i] {
            EventView::Start(n) => if n == "url"@ {
                urlset_from(ev, i + 1, entries, Some(empty_entry()), tag)
            } else if is_field_tag(n) {
                urlset_from(ev, i + 1, entries, current, n)
            } else {
                urlset_from(ev, i + 1, entries, current, tag)
            },
            EventView::Text(t) => match current {
                Some(c) => match t {
                    Ok(s) => urlset_from(ev, i + 1, entries, Some(set_entry_field(c, tag, trim(s))), tag),
                    Err(e) => Err(e),
                },
                None => urlset_from(ev, i + 1, entries, current, tag),
            },
            EventView::End(n) => if n == "url"@ {
                match current {
                    Some(c) => urlset_from(
                        ev,
                        i + 1,
                        if c.url.len() > 0 {
                            entries.push(c)
                        } else {
                            entries
                        },
                        None,
                        Seq::empty(),
                    ),
                    None => urlset_from(ev, i + 1, entries, None, Seq::empty()),
                }
            } else {
                urlset_from(ev, i + 1, entries, current, Seq::empty())
            },
            EventView::Eof => Ok(entries),
            EventView::Error(e) => Err(e),
            EventView::Other => urlset_from(ev, i + 1, entries, current, tag),
        }
    }
}

fn set_field(c: SitemapEntry, tag: &str, text: String) -> (r: SitemapEntry)
    ensures
        r@ == set_entry_field(c@, tag@, text@),
{
    if str_eq(tag, "loc") {
        SitemapEntry { url: text, ..c }
    } else if str_eq(tag, "lastmod") {
        SitemapEntry { lastmod: Some(text), ..c }
    } else if str_eq(tag, "priority") {
        SitemapEntry { priority: Some(text), ..c }
    } else if str_eq(tag, "changefreq") {
        SitemapEntry { changefreq: Some(text), ..c }
    } else {
        c
    }
}

/// The view of an optional entry.
pub open spec fn opt_entry(o: Option<SitemapEntry>) -> Option<EntryView> {
    match o {
        Some(e) => Some(e@),
        None => None,
    }
}

fn parse_urlset(ev: &Vec<XmlEvent>, start: usize) -> (r: Result<Vec<SitemapEntry>, String>)
    requires
        start <= ev@.len(),
    ensures
        match r {
            Ok(v) => urlset_from(events_view(ev@), start as int, Seq::empty(), None, Seq::empty())
                == Ok::<Seq<EntryView>, Seq<char>>(entries_view(v@)),
            Err(e) => urlset_from(events_view(ev@), start as int, Seq::empty(), None, Seq::empty())
                == Err::<Seq<EntryView>, Seq<char>>(e@),
        },
{
    let ghost v = events_view(ev@);
    let mut entries: Vec<SitemapEntry> = Vec::new();
    let mut current: Option<SitemapEntry> = None;
    let mut tag = String::new();
    let mut i: usize = start;
    assert(entries_view(entries@) =~= Seq::<EntryView>::empty());
    while i < ev.len()
        invariant
            start <= i <= ev@.len(),
            v == events_view(ev@),
            urlset_from(v, start as int, Seq::empty(), None, Seq::empty()) == urlset_from(
                v,
                i as int,
                entries_view(entries@),
                opt_entry(current),
                tag@,
            ),
        decreases ev@.len() - i,
    {
        assert(v[i as int] == ev@[i as int]@);
        match &ev[i] {
            XmlEvent::Start(n) => {
                if str_eq(n.as_str(), "url") {
                    current = Some(
                        SitemapEntry { url: String::new(), lastmod: None, priority: None, changefreq: None },
                    );
                } else if str_eq(n.as_str(), "loc") || str_eq(n.as_str(), "lastmod") || str_eq(
                    n.as_str(),
                    "priority",
                ) || str_eq(n.as_str(), "changefreq") {
                    tag = String::from_str(n.as_str());
                }
            },
            XmlEvent::Text(t) => {
                if current.is_some() {
                    match t {
                        Ok(s) => {
                            let text = trimmed_string(s.as_str());
                            let c = current.take().unwrap();
                            current = Some(set_field(c, tag.as_str(), text));
                        },
                        Err(e) => {
                            return Err(String::from_str(e.as_str()));
                        },
                    }
                }
            },
            XmlEvent::End(n) => {
                if str_eq(n.as_str(), "url") {
                    match current.take() {
                        Some(c) => {
                            if c.url.as_str().as_bytes().len() > 0 {
                                let ghost e0 = entries@;
                                let ghost cv = c@;
                                entries.push(c);
                                assert(entries_view(entries@) =~= entries_view(e0).push(cv));
                            }
                        },
                        None => {},
                    }
                }
                tag = String::new();
            },
            XmlEvent::Eof => {
                return Ok(entries);
            },
            XmlEvent::Error(e) => {
                return Err(String::from_str(e.as_str()));
            },
            XmlEvent::Other => {},
        }
        i += 1;
    }
    Ok(entries)
}

// ---------------------------------------------------------------------------
// Whole documents
// ---------------------------------------------------------------------------

/// Gzip data starts with the bytes `1f 8b`.
pub open spec fn is_gzip(b: Seq<u8>) -> bool {
    b.len() >= 2 && b[0] == 0x1fu8 && b[1] == 0x8bu8
}

/// The sitemap content the events of a document give: the root tag decides
/// between an index and a URL set.
pub open spec fn sitemap_of_events(ev: Seq<EventView>) -> Result<Result<Seq<Seq<char>>, Seq<EntryView>>, SitemapErrorView> {
    match root_from(ev, 0) {
        Err(e) => Err(SitemapErrorView::Xml(e)),
        Ok(None) => Err(SitemapErrorView::NoRoot),
        Ok(Some((true, k))) => match index_from(ev, k, false) {
            Ok(urls) => Ok(Ok(urls)),
            Err(e) => Err(SitemapErrorView::Xml(e)),
        },
        Ok(Some((false, k))) => match urlset_from(ev, k, Seq::empty(), None, Seq::empty()) {
            Ok(es) => Ok(Err(es)),
            Err(e) => Err(SitemapErrorView::Xml(e)),
        },
    }
}

/// A sitemap error as the specifications see it.
pub enum SitemapErrorView {
    Xml(Seq<char>),
    NoRoot,
    Body,
}

/// The content of a parsed sitemap as the specifications see it: an index's
/// URLs, or a URL set's entries.
pub open spec fn content_view(c: SitemapContent) -> Result<Seq<Seq<char>>, Seq<EntryView>> {
    match c {
        SitemapContent::Index(urls) => Ok(crate::text::strings_view(urls@)),
        SitemapContent::UrlSet(es) => Err(entries_view(es@)),
    }
}

/// Parses the events of a sitemap document.
pub fn parse_sitemap_events(ev: &Vec<XmlEvent>) -> (r: Result<SitemapContent, SitemapError>)
    ensures
        match r {
            Ok(c) => sitemap_of_events(events_view(ev@)) == Ok::<Result<Seq<Seq<char>>, Seq<EntryView>>, SitemapErrorView>(content_view(c)),
            Err(SitemapError::Xml(m)) => sitemap_of_events(events_view(ev@)) == Err::<Result<Seq<Seq<char>>, Seq<EntryView>>, SitemapErrorView>(SitemapErrorView::Xml(m@)),
            Err(SitemapError::NoRoot) => sitemap_of_events(events_view(ev@)) == Err::<Result<Seq<Seq<char>>, Seq<EntryView>>, SitemapErrorView>(SitemapErrorView::NoRoot),
            Err(SitemapError::Body(_)) => false,
        },
{
    match find_root(ev) {
        Err(e) => Err(SitemapError::Xml(e)),
        Ok(None) => Err(SitemapError::NoRoot),
        Ok(Some((true, k))) => match parse_index(ev, k) {
            Ok(urls) => Ok(SitemapContent::Index(urls)),
            Err(e) => Err(SitemapError::Xml(e)),
        },
        Ok(Some((false, k))) => match parse_urlset(ev, k) {
            Ok(es) => Ok(SitemapContent::UrlSet(es)),
            Err(e) => Err(SitemapError::Xml(e)),
        },
    }
}

/// Parses a sitemap document (an index or a URL set), decompressing gzip
/// input first with a cap of `max_decompressed_bytes` on the decompressed
/// size.
pub fn parse_sitemap_with_cap(xml: &[u8], max_decompressed_bytes: u64) -> (r: Result<SitemapContent, SitemapError>)
    ensures
        !is_gzip(xml@) ==> match r {
            Ok(c) => sitemap_of_events(xml_events_of(xml@)) == Ok::<Result<Seq<Seq<char>>, Seq<EntryView>>, SitemapErrorView>(content_view(c)),
            Err(SitemapError::Xml(m)) => sitemap_of_events(xml_events_of(xml@)) == Err::<Result<Seq<Seq<char>>, Seq<EntryView>>, SitemapErrorView>(SitemapErrorView::Xml(m@)),
            Err(SitemapError::NoRoot) => sitemap_of_events(xml_events_of(xml@)) == Err::<Result<Seq<Seq<char>>, Seq<EntryView>>, SitemapErrorView>(SitemapErrorView::NoRoot),
            Err(SitemapError::Body(_)) => false,
        },
        is_gzip(xml@) ==> ((r matches Err(SitemapError::Body(_))) <==> !(gunzip_output(xml@).len()
            <= max_decompressed_bytes && !gunzip_fails(xml@))),
        is_gzip(xml@) ==> match r {
            Ok(c) => sitemap_of_events(xml_events_of(gunzip_output(xml@))) == Ok::<Result<Seq<Seq<char>>, Seq<EntryView>>, SitemapErrorView>(content_view(c)),
            Err(SitemapError::Xml(m)) => sitemap_of_events(xml_events_of(gunzip_output(xml@))) == Err::<Result<Seq<Seq<char>>, Seq<EntryView>>, SitemapErrorView>(SitemapErrorView::Xml(m@)),
            Err(SitemapError::NoRoot) => sitemap_of_events(xml_events_of(gunzip_output(xml@))) == Err::<Result<Seq<Seq<char>>, Seq<EntryView>>, SitemapErrorView>(SitemapErrorView::NoRoot),
            Err(SitemapError::Body(e)) => (e matches HttpError::BodyTooLarge { .. } <==> gunzip_output(xml@).len() > max_decompressed_bytes)
                && (e matches HttpError::BodyDecodeError(_) <==> (gunzip_fails(xml@) && gunzip_output(xml@).len() <= max_decompressed_bytes)),
        },
{
    if xml.len() >= 2 && xml[0] == 0x1fu8 && xml[1] == 0x8bu8 {
        match gunzip_capped(xml, max_decompressed_bytes) {
            Ok(data) => {
                let ev = xml_events(data.as_slice());
                parse_sitemap_events(&ev)
            },
            Err(e) => Err(SitemapError::Body(e)),
        }
    } else {
        let ev = xml_events(xml);
        parse_sitemap_events(&ev)
    }
}

/// Parses a sitemap document with the default decompression cap.
pub fn parse_sitemap(xml: &[u8]) -> (r: Result<SitemapContent, SitemapError>)
    ensures
        !is_gzip(xml@) ==> match r {
            Ok(c) => sitemap_of_events(xml_events_of(xml@)) == Ok::<Result<Seq<Seq<char>>, Seq<EntryView>>, SitemapErrorView>(content_view(c)),
            Err(SitemapError::Xml(m)) => sitemap_of_events(xml_events_of(xml@)) == Err::<Result<Seq<Seq<char>>, Seq<EntryView>>, SitemapErrorView>(SitemapErrorView::Xml(m@)),
            Err(SitemapError::NoRoot) => sitemap_of_events(xml_events_of(xml@)) == Err::<Result<Seq<Seq<char>>, Seq<EntryView>>, SitemapErrorView>(SitemapErrorView::NoRoot),
            Err(SitemapError::Body(_)) => false,
        },
        is_gzip(xml@) ==> ((r matches Err(SitemapError::Body(_))) <==> !(gunzip_output(xml@).len()
            <= SITEMAP_MAX_DECOMPRESSED_BYTES && !gunzip_fails(xml@))),
        is_gzip(xml@) ==> match r {
            Ok(c) => sitemap_of_events(xml_events_of(gunzip_output(xml@))) == Ok::<Result<Seq<Seq<char>>, Seq<EntryView>>, SitemapErrorView>(content_view(c)),
            Err(SitemapError::Xml(m)) => sitemap_of_events(xml_events_of(gunzip_output(xml@))) == Err::<Result<Seq<Seq<char>>, Seq<EntryView>>, SitemapErrorView>(SitemapErrorView::Xml(m@)),
            Err(SitemapError::NoRoot) => sitemap_of_events(xml_events_of(gunzip_output(xml@))) == Err::<Result<Seq<Seq<char>>, Seq<EntryView>>, SitemapErrorView>(SitemapErrorView::NoRoot),
            Err(SitemapError::Body(e)) => (e matches HttpError::BodyTooLarge { .. } <==> gunzip_output(xml@).len() > SITEMAP_MAX_DECOMPRESSED_BYTES)
                && (e matches HttpError::BodyDecodeError(_) <==> (gunzip_fails(xml@) && gunzip_output(xml@).len() <= SITEMAP_MAX_DECOMPRESSED_BYTES)),
        },
{
    parse_sitemap_with_cap(xml, SITEMAP_MAX_DECOMPRESSED_BYTES)
}

// ---------------------------------------------------------------------------
// Filtering what discovery found
// ---------------------------------------------------------------------------

/// Whether `a` orders before or equal to `b` (as `str` comparison does).
fn str_le(a: &str, b: &str) -> (r: bool)
    ensures
        r == chars_le(a@, b@),
{
    let x = chars_of(a);
    let y = chars_of(b);
    let mut i: usize = 0;
    assert(x@.skip(0) =~= x@);
    assert(y@.skip(0) =~= y@);
    while i < x.len() && i < y.len() && x[i] == y[i]
        invariant
            i <= x@.len(),
            i <= y@.len(),
            x@ == a@,
            y@ == b@,
            chars_le(a@, b@) == chars_le(x@.skip(i as int), y@.skip(i as int)),
        decreases x@.len() - i,
    {
        assert(x@.skip(i as int).drop_first() =~= x@.skip(i + 1));
        assert(y@.skip(i as int).drop_first() =~= y@.skip(i + 1));
        i += 1;
    }
    assert(x@.skip(0) =~= x@);
    if i == x.len() {
        true
    } else if i == y.len() {
        false
    } else {
        (x[i] as u32) < (y[i] as u32)
    }
}

/// Entries modified on or after `since` (comparing the dates as text), and
/// entries without a date.
pub open spec fn recent(es: Seq<EntryView>, since: Seq<char>) -> Seq<EntryView> {
    es.filter(|e: EntryView| match e.lastmod {
        Some(d) => chars_le(since, d),
        None => true,
    })
}

/// Keeps the entries with `lastmod >= since` or without `lastmod`.
pub fn filter_since(entries: Vec<SitemapEntry>, since: &str) -> (r: Vec<SitemapEntry>)
    ensures
        entries_view(r@) == recent(entries_view(entries@), since@),
{
    let ghost es = entries_view(entries@);
    let n = entries.len();
    let mut rest = entries;
    let mut kept: Vec<SitemapEntry> = Vec::new();
    let mut stack: Vec<SitemapEntry> = Vec::new();
    while rest.len() > 0
        invariant
            es.len() == n,
            rest@.len() + stack@.len() == n,
            entries_view(rest@) == es.take(rest@.len() as int),
            forall|j: int| 0 <= j < stack@.len() ==> #[trigger] stack@[j]@ == es[n - 1 - j],
        decreases rest@.len(),
    {
        let ghost r0 = rest@;
        let e = rest.pop().unwrap();
        assert(entries_view(r0)[r0.len() - 1] == e@);
        assert(e@ == es[r0.len() - 1]);
        assert(entries_view(rest@) =~= es.take(rest@.len() as int));
        let ghost s0 = stack@;
        stack.push(e);
        assert(forall|j: int| 0 <= j < s0.len() ==> stack@[j] == s0[j]);
    }
    let mut k: usize = 0;
    while stack.len() > 0
        invariant
            es.len() == n,
            k + stack@.len() == n,
            forall|j: int| 0 <= j < stack@.len() ==> #[trigger] stack@[j]@ == es[n - 1 - j],
            entries_view(kept@) == recent(es.take(k as int), since@),
        decreases stack@.len(),
    {
        let e = stack.pop().unwrap();
        assert(e@ == es[k as int]);
        assert(es.take(k + 1).drop_last() =~= es.take(k as int));
        let keep = match &e.lastmod {
            Some(d) => str_le(since, d.as_str()),
            None => true,
        };
        let ghost kv = kept@;
        proof {
            reveal(Seq::filter);
        }
        if keep {
            kept.push(e);
            assert(entries_view(kept@) =~= entries_view(kv).push(es[k as int]));
        }
        k += 1;
    }
    assert(es.take(n as int) =~= es);
    kept
}

/// The nested sitemap URLs that contain one of the filter strings (all of
/// them when there is no filter).
pub open spec fn nested_kept(urls: Seq<Seq<char>>, filter: Seq<Seq<char>>) -> Seq<Seq<char>> {
    if filter.len() == 0 {
        urls
    } else {
        urls.filter(|u: Seq<char>| exists|f: int| 0 <= f < filter.len() && contains(utf8(u), utf8(#[trigger] filter[f])))
    }
}

/// Whether `u` contains one of the filter strings.
fn matches_filter(u: &str, filter: &Vec<String>) -> (r: bool)
    ensures
        r == exists|f: int| 0 <= f < filter@.len() && contains(utf8(u@), utf8(#[trigger] strings_view(filter@)[f])),
{
    let mut i: usize = 0;
    while i < filter.len()
        invariant
            i <= filter@.len(),
            forall|f: int| 0 <= f < i ==> !contains(utf8(u@), utf8(#[trigger] strings_view(filter@)[f])),
        decreases filter@.len() - i,
    {
        assert(strings_view(filter@)[i as int] == filter@[i as int]@);
        if contains_str(u, filter[i].as_str()) {
            return true;
        }
        i += 1;
    }
    false
}

/// Applies the sitemap filter to the URLs of a sitemap index.
pub fn filter_nested(urls: Vec<String>, filter: &Vec<String>) -> (r: Vec<String>)
    ensures
        strings_view(r@) == nested_kept(strings_view(urls@), strings_view(filter@)),
{
    if filter.len() == 0 {
        return urls;
    }
    let ghost us = strings_view(urls@);
    let ghost fs = strings_view(filter@);
    let mut kept: Vec<String> = Vec::new();
    let mut i: usize = 0;
    while i < urls.len()
        invariant
            i <= urls@.len(),
            us == strings_view(urls@),
            fs == strings_view(filter@),
            fs.len() > 0,
            strings_view(kept@) == us.take(i as int).filter(|u: Seq<char>| exists|f: int| 0 <= f < fs.len() && contains(utf8(u), utf8(#[trigger] fs[f]))),
        decreases urls@.len() - i,
    {
        assert(us.take(i + 1).drop_last() =~= us.take(i as int));
        assert(us[i as int] == urls@[i as int]@);
        let keep = matches_filter(urls[i].as_str(), filter);
        let ghost kv = kept@;
        proof {
            reveal(Seq::filter);
        }
        if keep {
            let u = String::from_str(urls[i].as_str());
            kept.push(u);
            assert(strings_view(kept@) =~= strings_view(kv).push(us[i as int]));
        }
        i += 1;
    }
    assert(us.take(us.len() as int) =~= us);
    kept
}


/// Filtering by date never drops an entry without a date, and keeps only
/// entries dated on or after `since`.
pub proof fn law_since_filter(es: Seq<EntryView>, since: Seq<char>, e: EntryView)
    ensures
        es.contains(e) && e.lastmod is None ==> recent(es, since).contains(e),
        recent(es, since).contains(e) ==> es.contains(e) && match e.lastmod {
            Some(d) => chars_le(since, d),
            None => true,
        },
{
    broadcast use vstd::seq_lib::group_filter_ensures;

    let pred = |x: EntryView| match x.lastmod {
        Some(d) => chars_le(since, d),
        None => true,
    };
    assert(recent(es, since) == es.filter(pred));
    if es.filter(pred).contains(e) {
        es.lemma_filter_contains_rev(pred, e);
        let i = choose|i: int| 0 <= i < es.filter(pred).len() && es.filter(pred)[i] == e;
        es.lemma_filter_pred(pred, i);
    }
}

/// Every entry dated on or after `since` (in string order, so a date with a
/// time part after a bare date counts) is kept, as is every undated entry;
/// an entry dated before `since` is dropped; nothing is added.
pub proof fn law_since_keeps_recent(es: Seq<EntryView>, since: Seq<char>, k: int, d: Seq<char>)
    ensures
        (0 <= k < es.len() && es[k].lastmod is None) ==> recent(es, since).contains(es[k]),
        (0 <= k < es.len() && es[k].lastmod == Some(d) && chars_le(since, d)) ==> recent(es, since).contains(es[k]),
        (0 <= k < es.len() && es[k].lastmod == Some(d) && !chars_le(since, d)) ==> !recent(es, since).contains(es[k]),
        recent(es, since).len() <= es.len(),
{
    broadcast use vstd::seq_lib::group_filter_ensures;

    let keep = |x: EntryView|
        match x.lastmod {
            Some(t) => chars_le(since, t),
            None => true,
        };
    assert(recent(es, since) == es.filter(keep));
    if 0 <= k < es.len() && keep(es[k]) {
        es.lemma_filter_contains(keep, k);
    }
    if 0 <= k < es.len() && es.filter(keep).contains(es[k]) {
        let j = choose|j: int| 0 <= j < es.filter(keep).len() && es.filter(keep)[j] == es[k];
        es.lemma_filter_pred(keep, j);
    }
    es.lemma_filter_len(keep);
}

/// Filtering a list with one more entry gives the filtered list followed
/// by that entry when it is undated or dated on or after `since`, and the
/// filtered list alone otherwise; an empty list stays empty.
pub proof fn law_since_filter_push(es: Seq<EntryView>, since: Seq<char>, e: EntryView)
    ensures
        recent(Seq::empty(), since).len() == 0,
        (e.lastmod is None || (e.lastmod matches Some(d) && chars_le(since, d))) ==> recent(es.push(e), since)
            == recent(es, since).push(e),
        (e.lastmod matches Some(d) && !chars_le(since, d)) ==> recent(es.push(e), since) == recent(es, since),
{
    let keep = |x: EntryView|
        match x.lastmod {
            Some(t) => chars_le(since, t),
            None => true,
        };
    assert(recent(es.push(e), since) == es.push(e).filter(keep));
    assert(recent(es, since) == es.filter(keep));
    es.lemma_filter_push(e, keep);
    assert(recent(Seq::empty(), since) == Seq::<EntryView>::empty().filter(keep));
    reveal(Seq::filter);
}

} // verus!

