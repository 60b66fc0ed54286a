//! Content extraction: output formats, quality heuristics, truncation, the
//! post-extraction sanity gate, and the meta-tag scanners that pull
//! `content="..."` values out of raw HTML.
//!
//! Scanners work on the UTF-8 bytes of the page (`utf8(html@)`), the way
//! `str::find` and byte slicing do; every slice they take starts and ends on a
//! character boundary.

use vstd::prelude::*;
use vstd::string::*;
use vstd::utf8::*;
use crate::content_detect::{visible_len, visible_text_len};
use crate::json::{json_ld_string, structured_field, JsonValue};
use crate::text::{
    chars_of, split_chars, split_on, strings_view, trim, trim_chars,
    char_vecs_view, join, split_words, string_from_chars, words, find, find_from, find_str_from, floor_boundary, floor_char_boundary, is_floor_boundary,
    lemma_match_boundaries, matches_at, push_char, slice_str, str_eq, utf8,
};

verus! {

broadcast use vstd::utf8::encode_utf8_valid_utf8;

/// Output format for content extraction.
#[derive(Debug, Clone, Copy, PartialEq, Eq, Structural)]
pub enum ContentFormat {
    Text,
    Markdown,
    Html,
    /// Token-optimized text for LLM consumption.
    Llm,
}

/// The format named by a request parameter; anything unknown means text.
pub open spec fn format_of(s: Seq<char>) -> ContentFormat {
    if s == "markdown"@ || s == "md"@ {
        ContentFormat::Markdown
    } else if s == "html"@ {
        ContentFormat::Html
    } else if s == "llm"@ {
        ContentFormat::Llm
    } else {
        ContentFormat::Text
    }
}

impl ContentFormat {
    /// Parses a `format` request parameter.
    pub fn from_param(s: &str) -> (f: ContentFormat)
        ensures
            f == format_of(s@),
    {
        if str_eq(s, "markdown") || str_eq(s, "md") {
            ContentFormat::Markdown
        } else if str_eq(s, "html") {
            ContentFormat::Html
        } else if str_eq(s, "llm") {
            ContentFormat::Llm
        } else {
            ContentFormat::Text
        }
    }

    /// The default format (text).
    pub fn default_format() -> (f: ContentFormat)
        ensures
            f == ContentFormat::Text,
    {
        ContentFormat::Text
    }
}

/// Shared input parameters of the read pipeline.
#[derive(Debug, Clone)]
pub struct ReadParams {
    pub url: String,
    /// Format name; `"text"` when the request leaves it out.
    pub format: String,
    /// Maximum content length in bytes; 0 means unlimited.
    pub max_length: usize,
    /// Per-call deadline in seconds (see `deadline::resolve_timeout`).
    pub timeout: Option<u64>,
}

/// Article metadata extracted from HTML meta tags and structured data.
#[derive(Debug, Clone)]
pub struct ArticleMeta {
    pub published_at: String,
    pub modified_at: String,
    pub section: String,
    pub site_name: String,
    pub tags: Vec<String>,
    pub language: String,
}

impl ArticleMeta {
    /// Metadata with every field empty.
    pub fn empty() -> (m: ArticleMeta)
        ensures
            m.published_at@.len() == 0,
            m.modified_at@.len() == 0,
            m.section@.len() == 0,
            m.site_name@.len() == 0,
            m.tags@.len() == 0,
            m.language@.len() == 0,
    {
        ArticleMeta {
            published_at: String::new(),
            modified_at: String::new(),
            section: String::new(),
            site_name: String::new(),
            tags: Vec::new(),
            language: String::new(),
        }
    }
}

/// The content node an extraction selected.
#[derive(Debug)]
pub struct ExtractedNode {
    /// HTML of the selected content node.
    pub html: String,
    /// Title recovered from an `<h1>` outside the content node (empty when the
    /// heading is inside it).
    pub recovered_h1: String,
}

// ---------------------------------------------------------------------------
// Quality heuristics
// ---------------------------------------------------------------------------

/// Large HTML with tiny extracted text: likely an anti-bot page.
pub fn is_low_quality(html: &str, extracted_text: &str) -> (r: bool)
    ensures
        r == (html.spec_bytes().len() > 5000 && extracted_text.spec_bytes().len() < 100),
{
    html.as_bytes().len() > 5000 && extracted_text.as_bytes().len() < 100
}

/// The HTTP statuses that trigger a headless fallback.
pub open spec fn is_fallback_status(status: u16) -> bool {
    status == 401 || status == 403 || status == 429 || status == 503
}

/// Whether a response status calls for a headless fallback.
pub fn should_fallback(status: u16) -> (r: bool)
    ensures
        r == is_fallback_status(status),
{
    status == 401 || status == 403 || status == 429 || status == 503
}

// ---------------------------------------------------------------------------
// Truncation
// ---------------------------------------------------------------------------

/// `s` cut to at most `max_bytes` bytes at a character boundary, with an
/// ellipsis appended when anything was cut.
pub open spec fn truncated(s: Seq<char>, max_bytes: int) -> Seq<char> {
    let b = utf8(s);
    if b.len() <= max_bytes {
        s
    } else {
        decode_utf8(b.subrange(0, floor_boundary(b, max_bytes))).push('…')
    }
}

/// Truncates at a UTF-8 character boundary and appends an ellipsis.
pub fn truncate_utf8(s: &str, max_bytes: usize) -> (r: String)
    ensures
        r@ == truncated(s@, max_bytes as int),
{
    if s.as_bytes().len() <= max_bytes {
        return s.to_owned();
    }
    let end = floor_char_boundary(s, max_bytes);
    proof {
        vstd::utf8::is_char_boundary_start_end_of_seq(s.spec_bytes());
    }
    let head = slice_str(s, 0, end);
    let mut r = head.to_owned();
    proof {
        vstd::utf8::encode_utf8_decode_utf8(head@);
    }
    push_char(&mut r, '…');
    r
}

// ---------------------------------------------------------------------------
// Post-extraction sanity check
// ---------------------------------------------------------------------------

/// Source visible text below this never rejects an extraction: a genuinely
/// thin page extracts normally whatever the ratio.
pub const EXTRACTION_GATE_SOURCE_FLOOR: usize = 500;

/// Extracted visible text must be at least one part in this many of the
/// source's visible text, or the extraction is rejected.
pub const EXTRACTION_GATE_DIVISOR: usize = 10;

/// Why an extraction was rejected (a stable token for metrics and logs).
pub const EXTRACTION_GATE_REASON: &'static str = "extraction_rejected_low_text_ratio";

/// An extraction is rejected when the source holds at least the floor of
/// visible text and the extraction holds less than a tenth of it.
pub open spec fn gate_trips(src_visible: nat, ext_visible: nat) -> bool {
    src_visible >= EXTRACTION_GATE_SOURCE_FLOOR && ext_visible * EXTRACTION_GATE_DIVISOR
        < src_visible
}

/// Post-extraction sanity check: `Some(reason)` when the extracted subtree
/// holds far less of the page's visible text than the source (and the source
/// is above the floor), meaning the caller should fall back to the whole
/// document; `None` when the extraction is accepted.
pub fn extraction_gate_trips(source_html: &str, extracted_html: &str) -> (r: Option<&'static str>)
    ensures
        r is Some <==> gate_trips(visible_len(source_html@), visible_len(extracted_html@)),
        r matches Some(reason) ==> reason@ == EXTRACTION_GATE_REASON@,
{
    let src = visible_text_len(source_html);
    if src < EXTRACTION_GATE_SOURCE_FLOOR {
        return None;
    }
    let ext = visible_text_len(extracted_html);
    let limit = (src - 1) / EXTRACTION_GATE_DIVISOR;
    assert((ext as int) * 10 < src <==> ext <= (src - 1) / 10) by (nonlinear_arith)
        requires
            src >= 1,
            limit == (src - 1) / 10,
    ;
    if ext <= limit {
        Some(EXTRACTION_GATE_REASON)
    } else {
        None
    }
}

// ---------------------------------------------------------------------------
// Attribute scanners
// ---------------------------------------------------------------------------

/// The bytes between the first `opener` in `b` and the next `quote` after it.
pub open spec fn quoted_after(b: Seq<u8>, opener: Seq<u8>, quote: Seq<u8>) -> Option<Seq<u8>> {
    match find(b, opener) {
        Some(c) => match find_from(b, quote, c + opener.len()) {
            Some(e) => Some(b.subrange(c + opener.len(), e)),
            None => None,
        },
        None => None,
    }
}

/// The value of the first `content="..."` attribute in `b`, or failing that
/// of the first `content='...'`.
pub open spec fn content_attr(b: Seq<u8>) -> Option<Seq<u8>> {
    match quoted_after(b, utf8("content=\""@), utf8("\""@)) {
        Some(v) => Some(v),
        None => quoted_after(b, utf8("content='"@), utf8("'"@)),
    }
}

/// The end of the window of `width` bytes starting at `pos`, pulled back to
/// a character boundary.
pub open spec fn window_end(b: Seq<u8>, pos: int, width: int) -> int {
    floor_boundary(b, if b.len() < pos + width { b.len() as int } else { pos + width })
}

/// The bytes of `b` from `pos` to `window_end(b, pos, width)`.
pub open spec fn window(b: Seq<u8>, pos: int, width: int) -> Seq<u8> {
    b.subrange(pos, window_end(b, pos, width))
}

/// Copies the text between the first `opener` and the next `quote`.
fn quoted_value_after(s: &str, opener: &str, quote: &str) -> (r: Option<String>)
    requires
        opener@.len() > 0,
        quote@.len() > 0,
    ensures
        match r {
            Some(v) => quoted_after(utf8(s@), utf8(opener@), utf8(quote@)) == Some(utf8(v@)),
            None => quoted_after(utf8(s@), utf8(opener@), utf8(quote@)) is None,
        },
{
    match find_str_from(s, opener, 0) {
        None => None,
        Some(c) => {
            proof {
                lemma_match_boundaries(s, opener@, c as int);
            }
            let ob = opener.as_bytes().len();
            let sl = s.as_bytes().len();
            assert(c + ob <= sl);
            let vs = c + ob;
            match find_str_from(s, quote, vs) {
                None => None,
                Some(e) => {
                    proof {
                        lemma_match_boundaries(s, quote@, e as int);
                    }
                    let v = slice_str(s, vs, e);
                    Some(v.to_owned())
                },
            }
        },
    }
}

/// The value of a `content="..."` (or `content='...'`) attribute in a tag slice.
pub fn extract_content_attr(slice: &str) -> (r: Option<String>)
    ensures
        match r {
            Some(v) => content_attr(utf8(slice@)) == Some(utf8(v@)),
            None => content_attr(utf8(slice@)) is None,
        },
{
    proof {
        reveal_strlit("content=\"");
        reveal_strlit("\"");
        reveal_strlit("content='");
        reveal_strlit("'");
    }
    match quoted_value_after(slice, "content=\"", "\"") {
        Some(v) => Some(v),
        None => quoted_value_after(slice, "content='", "'"),
    }
}

/// The text of `s` from the boundary `pos` to `window_end(s, pos, width)`.
fn window_at(s: &str, pos: usize, width: usize) -> (r: &str)
    requires
        pos <= s.spec_bytes().len(),
        is_char_boundary(s.spec_bytes(), pos as int),
    ensures
        pos <= window_end(s.spec_bytes(), pos as int, width as int) <= s.spec_bytes().len(),
        r.spec_bytes() == window(s.spec_bytes(), pos as int, width as int),
{
    let len = s.as_bytes().len();
    let lim = if len - pos < width {
        len
    } else {
        pos + width
    };
    let end = floor_char_boundary(s, lim);
    proof {
        if end < pos {
            assert(!is_char_boundary(s.spec_bytes(), pos as int));
        }
    }
    slice_str(s, pos, end)
}

/// The `og:image` URL of a page: the `content` value inside the 200 bytes
/// from the first `property="og:image"` (or, if absent, `property='og:image'`);
/// empty when there is none.
pub open spec fn og_image(b: Seq<u8>) -> Seq<u8> {
    let pos = match find(b, utf8("property=\"og:image\""@)) {
        Some(p) => Some(p),
        None => find(b, utf8("property='og:image'"@)),
    };
    match pos {
        Some(p) => match content_attr(window(b, p, 200)) {
            Some(v) => v,
            None => Seq::empty(),
        },
        None => Seq::empty(),
    }
}

/// Extracts the `og:image` URL from the page's meta tags.
pub fn extract_og_image(html: &str) -> (r: String)
    ensures
        utf8(r@) == og_image(utf8(html@)),
{
    proof {
        reveal_strlit("property=\"og:image\"");
        reveal_strlit("property='og:image'");
    }
    let pos = match find_str_from(html, "property=\"og:image\"", 0) {
        Some(p) => {
            proof {
                lemma_match_boundaries(html, "property=\"og:image\""@, p as int);
            }
            Some(p)
        },
        None => match find_str_from(html, "property='og:image'", 0) {
            Some(p) => {
                proof {
                    lemma_match_boundaries(html, "property='og:image'"@, p as int);
                }
                Some(p)
            },
            None => None,
        },
    };
    match pos {
        None => String::new(),
        Some(p) => {
            let w = window_at(html, p, 200);
            match extract_content_attr(w) {
                Some(v) => v,
                None => String::new(),
            }
        },
    }
}

// ---------------------------------------------------------------------------
// Meta tags
// ---------------------------------------------------------------------------

/// The needle `{attr}="{value}"` (`q` is the quote character used).
pub open spec fn attr_needle(attr_eq_q: Seq<char>, value: Seq<char>, q: Seq<char>) -> Seq<char> {
    attr_eq_q + value + q
}

/// The non-empty `content` value inside the 300 bytes from the first
/// occurrence of `needle`, if any.
pub open spec fn meta_try(b: Seq<u8>, needle: Seq<u8>) -> Option<Seq<u8>> {
    match find(b, needle) {
        Some(p) => match content_attr(window(b, p, 300)) {
            Some(v) => if v.len() > 0 {
                Some(v)
            } else {
                None
            },
            None => None,
        },
        None => None,
    }
}

/// The content of the meta tag whose `property` (or else `name`) is `value`,
/// trying double quotes before single quotes for each.
pub open spec fn meta_content(b: Seq<u8>, value: Seq<char>) -> Option<Seq<u8>> {
    let a = meta_try(b, utf8(attr_needle("property=\""@, value, "\""@)));
    let c = meta_try(b, utf8(attr_needle("property='"@, value, "'"@)));
    let d = meta_try(b, utf8(attr_needle("name=\""@, value, "\""@)));
    let e = meta_try(b, utf8(attr_needle("name='"@, value, "'"@)));
    if a is Some {
        a
    } else if c is Some {
        c
    } else if d is Some {
        d
    } else {
        e
    }
}

/// `{attr_eq_q}{value}{q}` as a string.
fn build_needle(attr_eq_q: &str, value: &str, q: &str) -> (r: String)
    ensures
        r@ == attr_needle(attr_eq_q@, value@, q@),
{
    let mut r = String::from_str(attr_eq_q);
    r.append(value);
    r.append(q);
    r
}

/// The non-empty `content` value near the first `needle` in `html`.
fn meta_try_at(html: &str, needle: &str) -> (r: Option<String>)
    requires
        needle@.len() > 0,
    ensures
        match r {
            Some(v) => meta_try(utf8(html@), utf8(needle@)) == Some(utf8(v@)),
            None => meta_try(utf8(html@), utf8(needle@)) is None,
        },
{
    match find_str_from(html, needle, 0) {
        None => None,
        Some(pos) => {
            proof {
                lemma_match_boundaries(html, needle@, pos as int);
            }
            let w = window_at(html, pos, 300);
            match extract_content_attr(w) {
                Some(v) => {
                    if v.as_str().as_bytes().len() > 0 {
                        Some(v)
                    } else {
                        None
                    }
                },
                None => None,
            }
        },
    }
}

/// The content of a meta tag selected by `property` or `name`.
pub fn extract_meta_content(html: &str, attr_value: &str) -> (r: Option<String>)
    ensures
        match r {
            Some(v) => meta_content(utf8(html@), attr_value@) == Some(utf8(v@)),
            None => meta_content(utf8(html@), attr_value@) is None,
        },
{
    proof {
        reveal_strlit("\"");
        reveal_strlit("'");
    }
    let n = build_needle("property=\"", attr_value, "\"");
    if let Some(v) = meta_try_at(html, n.as_str()) {
        return Some(v);
    }
    let n = build_needle("property='", attr_value, "'");
    if let Some(v) = meta_try_at(html, n.as_str()) {
        return Some(v);
    }
    let n = build_needle("name=\"", attr_value, "\"");
    if let Some(v) = meta_try_at(html, n.as_str()) {
        return Some(v);
    }
    let n = build_needle("name='", attr_value, "'");
    meta_try_at(html, n.as_str())
}

/// The `datetime` value of the first `datetime="..."` attribute, when it is
/// at least ten bytes long.
pub open spec fn time_datetime(b: Seq<u8>) -> Option<Seq<u8>> {
    match quoted_after(b, utf8("datetime=\""@), utf8("\""@)) {
        Some(v) => if v.len() >= 10 {
            Some(v)
        } else {
            None
        },
        None => None,
    }
}

/// The datetime of the first `<time datetime="...">` tag.
pub fn extract_time_datetime(html: &str) -> (r: Option<String>)
    ensures
        match r {
            Some(v) => time_datetime(utf8(html@)) == Some(utf8(v@)),
            None => time_datetime(utf8(html@)) is None,
        },
{
    proof {
        reveal_strlit("datetime=\"");
        reveal_strlit("\"");
    }
    match quoted_value_after(html, "datetime=\"", "\"") {
        Some(v) => {
            if v.as_str().as_bytes().len() >= 10 {
                Some(v)
            } else {
                None
            }
        },
        None => None,
    }
}

/// The non-empty `lang` value inside the 200 bytes from the first `<html`.
pub open spec fn html_lang(b: Seq<u8>) -> Option<Seq<u8>> {
    match find(b, utf8("<html"@)) {
        Some(p) => match quoted_after(window(b, p, 200), utf8("lang=\""@), utf8("\""@)) {
            Some(v) => if v.len() > 0 {
                Some(v)
            } else {
                None
            },
            None => None,
        },
        None => None,
    }
}

/// The `lang` attribute of the `<html>` tag.
pub fn extract_html_lang(html: &str) -> (r: Option<String>)
    ensures
        match r {
            Some(v) => html_lang(utf8(html@)) == Some(utf8(v@)),
            None => html_lang(utf8(html@)) is None,
        },
{
    proof {
        reveal_strlit("<html");
        reveal_strlit("lang=\"");
        reveal_strlit("\"");
    }
    match find_str_from(html, "<html", 0) {
        None => None,
        Some(pos) => {
            proof {
                lemma_match_boundaries(html, "<html"@, pos as int);
            }
            let w = window_at(html, pos, 200);
            match quoted_value_after(w, "lang=\"", "\"") {
                Some(v) => {
                    if v.as_str().as_bytes().len() > 0 {
                        Some(v)
                    } else {
                        None
                    }
                },
                None => None,
            }
        },
    }
}

/// The byte encodings of a list of strings.
pub open spec fn strings_utf8(v: Seq<String>) -> Seq<Seq<u8>> {
    v.map_values(|x: String| utf8(x@))
}

/// The non-empty `content` values near each occurrence of `needle` at or
/// after `from`, each search resuming after the previous occurrence.
pub open spec fn all_meta(b: Seq<u8>, needle: Seq<u8>, from: int) -> Seq<Seq<u8>>
    decreases b.len() - from,
{
    match find_from(b, needle, from) {
        Some(p) => if needle.len() > 0 && from < p + needle.len() <= b.len() {
            let rest = all_meta(b, needle, p + needle.len());
            match content_attr(window(b, p, 300)) {
                Some(v) => if v.len() > 0 {
                    seq![v] + rest
                } else {
                    rest
                },
                None => rest,
            }
        } else {
            Seq::empty()
        },
        None => Seq::empty(),
    }
}

/// Every non-empty `content` value of the meta tags whose `property` is
/// `attr_value` (for multi-valued tags such as `article:tag`), in page order.
pub fn extract_all_meta_content(html: &str, attr_value: &str) -> (r: Vec<String>)
    ensures
        strings_utf8(r@) == all_meta(
            utf8(html@),
            utf8(attr_needle("property=\""@, attr_value@, "\""@)),
            0,
        ),
{
    proof {
        reveal_strlit("\"");
    }
    let needle = build_needle("property=\"", attr_value, "\"");
    let n = needle.as_str();
    let nl = n.as_bytes().len();
    let hl = html.as_bytes().len();
    let ghost b = utf8(html@);
    let ghost nb = utf8(n@);
    let mut results: Vec<String> = Vec::new();
    let mut from: usize = 0;
    loop
        invariant
            b == utf8(html@),
            nb == utf8(n@),
            n@ == attr_needle("property=\""@, attr_value@, "\""@),
            nl == nb.len(),
            hl == b.len(),
            nl > 0,
            from <= hl,
            strings_utf8(results@) + all_meta(b, nb, from as int) == all_meta(b, nb, 0),
        decreases hl - from,
    {
        match find_str_from(html, n, from) {
            None => {
                assert(all_meta(b, nb, from as int) == Seq::<Seq<u8>>::empty());
                assert(strings_utf8(results@) + Seq::<Seq<u8>>::empty() =~= strings_utf8(results@));
                return results;
            },
            Some(pos) => {
                proof {
                    lemma_match_boundaries(html, n@, pos as int);
                }
                assert(pos + nl <= hl);
                let w = window_at(html, pos, 300);
                let next = pos + nl;
                let ghost rest = all_meta(b, nb, next as int);
                match extract_content_attr(w) {
                    Some(v) => {
                        if v.as_str().as_bytes().len() > 0 {
                            let ghost old_results = results@;
                            results.push(v);
                            assert(strings_utf8(results@) =~= strings_utf8(old_results).push(
                                utf8(v@),
                            ));
                            assert(all_meta(b, nb, from as int) == seq![utf8(v@)] + rest);
                            assert(strings_utf8(old_results) + (seq![utf8(v@)] + rest)
                                =~= strings_utf8(results@) + rest);
                        } else {
                            assert(all_meta(b, nb, from as int) == rest);
                        }
                    },
                    None => {
                        assert(all_meta(b, nb, from as int) == rest);
                    },
                }
                from = next;
            },
        }
    }
}

// ---------------------------------------------------------------------------
// Whitespace
// ---------------------------------------------------------------------------

/// The whitespace-separated words of `s` joined by single spaces: runs of
/// white space collapse to one space and the ends are trimmed.
pub open spec fn collapsed(s: Seq<char>) -> Seq<char> {
    join(words(s), seq![' '])
}

/// Collapses runs of white space to single spaces and trims the ends.
pub fn collapse_whitespace(s: &str) -> (r: String)
    ensures
        r@ == collapsed(s@),
{
    let ws = split_words(s);
    let ghost ps = char_vecs_view(ws@);
    let mut out: Vec<char> = Vec::new();
    let mut i: usize = 0;
    while i < ws.len()
        invariant
            i <= ws@.len(),
            ps == char_vecs_view(ws@),
            ps == words(s@),
            out@ == join(ps.take(i as int), seq![' ']),
        decreases ws@.len() - i,
    {
        assert(ps.take(i + 1).drop_last() =~= ps.take(i as int));
        let ghost o0 = out@;
        if i > 0 {
            out.push(' ');
        }
        let w = &ws[i];
        let mut k: usize = 0;
        let ghost o1 = out@;
        while k < w.len()
            invariant
                k <= w@.len(),
                out@ == o1 + w@.take(k as int),
            decreases w@.len() - k,
        {
            out.push(w[k]);
            assert(w@.take(k + 1) =~= w@.take(k as int).push(w@[k as int]));
            k += 1;
        }
        assert(w@.take(w@.len() as int) =~= w@);
        assert(ps[i as int] == w@);
        proof {
            if i > 0 {
                assert(out@ =~= o0 + seq![' '] + w@);
            } else {
                assert(ps.take(1) =~= seq![w@]);
                assert(out@ =~= w@);
            }
        }
        i += 1;
    }
    assert(ps.take(ps.len() as int) =~= ps);
    string_from_chars(&out)
}

// ---------------------------------------------------------------------------
// Article metadata
// ---------------------------------------------------------------------------

/// The text of some scanned bytes.
pub open spec fn text_of(o: Option<Seq<u8>>) -> Option<Seq<char>> {
    match o {
        Some(b) => Some(decode_utf8(b)),
        None => None,
    }
}

/// `a`, or failing that `b`.
pub open spec fn or_else(a: Option<Seq<char>>, b: Option<Seq<char>>) -> Option<Seq<char>> {
    if a is Some {
        a
    } else {
        b
    }
}

/// The text, or empty.
pub open spec fn or_empty(a: Option<Seq<char>>) -> Seq<char> {
    match a {
        Some(s) => s,
        None => Seq::empty(),
    }
}

/// The characters of an optional string.
pub open spec fn opt_view(o: Option<String>) -> Option<Seq<char>> {
    match o {
        Some(s) => Some(s@),
        None => None,
    }
}

/// The comma-separated entries of a keyword list, trimmed, empty ones
/// dropped; over the first `i` pieces.
pub open spec fn keyword_tags_of(parts: Seq<Seq<char>>, i: nat) -> Seq<Seq<char>>
    decreases i,
{
    if i == 0 || i > parts.len() {
        Seq::empty()
    } else {
        let prev = keyword_tags_of(parts, (i - 1) as nat);
        let t = trim(parts[i - 1]);
        if t.len() > 0 {
            prev.push(t)
        } else {
            prev
        }
    }
}

/// The tags of a keyword list.
pub open spec fn keyword_tags(kw: Seq<char>) -> Seq<Seq<char>> {
    keyword_tags_of(split_on(kw, ","@), split_on(kw, ","@).len())
}

/// The metadata a page's meta tags and structured data give (see each field).
pub open spec fn article_meta(b: Seq<u8>, ld: Seq<JsonValue>) -> (
    Seq<char>,
    Seq<char>,
    Seq<char>,
    Seq<char>,
    Seq<Seq<char>>,
    Seq<char>,
) {
    let m = |v: Seq<char>| text_of(meta_content(b, v));
    let j = |f: Seq<char>| structured_field(ld, f, ld.len());
    let published = or_empty(
        or_else(
            m("article:published_time"@),
            or_else(
                m("date"@),
                or_else(
                    m("pubdate"@),
                    or_else(
                        m("dc.date"@),
                        or_else(
                            m("sailthru.date"@),
                            or_else(text_of(time_datetime(b)), j("datePublished"@)),
                        ),
                    ),
                ),
            ),
        ),
    );
    let modified = or_empty(or_else(m("article:modified_time"@), j("dateModified"@)));
    let section = or_empty(or_else(m("article:section"@), j("articleSection"@)));
    let site = or_empty(or_else(m("og:site_name"@), j("publisher"@)));
    let tag_meta = all_meta(b, utf8(attr_needle("property=\""@, "article:tag"@, "\""@)), 0).map_values(
        |x: Seq<u8>| decode_utf8(x),
    );
    let tags = if tag_meta.len() > 0 {
        tag_meta
    } else {
        let from_ld = match j("keywords"@) {
            Some(kw) => keyword_tags(kw),
            None => Seq::empty(),
        };
        if from_ld.len() > 0 {
            from_ld
        } else {
            match m("keywords"@) {
                Some(kw) => keyword_tags(kw),
                None => Seq::empty(),
            }
        }
    };
    let language = or_empty(
        or_else(
            m("og:locale"@),
            or_else(text_of(html_lang(b)), or_else(m("content-language"@), j("inLanguage"@))),
        ),
    );
    (published, modified, section, site, tags, language)
}

/// The text of the meta tag `name`.
fn meta_text(html: &str, name: &str) -> (r: Option<String>)
    ensures
        opt_view(r) == text_of(meta_content(utf8(html@), name@)),
{
    let r = extract_meta_content(html, name);
    proof {
        if r is Some {
            vstd::utf8::encode_utf8_decode_utf8(r.unwrap()@);
        }
    }
    r
}

/// The tags of a keyword list.
fn tags_from_keywords(kw: &str) -> (r: Vec<String>)
    ensures
        strings_view(r@) == keyword_tags(kw@),
{
    let v = chars_of(kw);
    let comma = chars_of(",");
    proof {
        reveal_strlit(",");
    }
    let parts = split_chars(v.as_slice(), comma.as_slice());
    let ghost ps = char_vecs_view(parts@);
    let mut out: Vec<String> = Vec::new();
    let mut i: usize = 0;
    while i < parts.len()
        invariant
            i <= parts@.len(),
            ps == char_vecs_view(parts@),
            ps == split_on(kw@, ","@),
            strings_view(out@) == keyword_tags_of(ps, i as nat),
        decreases parts@.len() - i,
    {
        let t = trim_chars(parts[i].as_slice());
        assert(ps[i as int] == parts@[i as int]@);
        if t.len() > 0 {
            let ghost o0 = out@;
            let ts = string_from_chars(&t);
            out.push(ts);
            assert(strings_view(out@) =~= strings_view(o0).push(ts@));
        }
        i += 1;
    }
    out
}

/// `a`, or failing that the result of `b`.
fn first_of(a: Option<String>, b: Option<String>) -> (r: Option<String>)
    ensures
        opt_view(r) == or_else(opt_view(a), opt_view(b)),
{
    match a {
        Some(x) => Some(x),
        None => b,
    }
}

/// The text, or empty.
fn text_or_empty(a: Option<String>) -> (r: String)
    ensures
        r@ == or_empty(opt_view(a)),
{
    match a {
        Some(x) => x,
        None => String::new(),
    }
}

/// Article metadata from a page's meta tags and structured data, each field
/// taken from the first source that has it.
pub fn extract_article_meta(html: &str, json_ld: &[JsonValue]) -> (m: ArticleMeta)
    ensures
        (m.published_at@, m.modified_at@, m.section@, m.site_name@, strings_view(m.tags@), m.language@)
            == article_meta(utf8(html@), json_ld@),
{
    let ghost b = utf8(html@);
    let time = extract_time_datetime(html);
    proof {
        if time is Some {
            vstd::utf8::encode_utf8_decode_utf8(time.unwrap()@);
        }
    }
    let published = text_or_empty(
        first_of(
            meta_text(html, "article:published_time"),
            first_of(
                meta_text(html, "date"),
                first_of(
                    meta_text(html, "pubdate"),
                    first_of(
                        meta_text(html, "dc.date"),
                        first_of(
                            meta_text(html, "sailthru.date"),
                            first_of(time, json_ld_string(json_ld, "datePublished")),
                        ),
                    ),
                ),
            ),
        ),
    );
    let modified = text_or_empty(
        first_of(meta_text(html, "article:modified_time"), json_ld_string(json_ld, "dateModified")),
    );
    let section = text_or_empty(
        first_of(meta_text(html, "article:section"), json_ld_string(json_ld, "articleSection")),
    );
    let site_name = text_or_empty(
        first_of(meta_text(html, "og:site_name"), json_ld_string(json_ld, "publisher")),
    );
    let tag_meta = extract_all_meta_content(html, "article:tag");
    let mut tags: Vec<String> = Vec::new();
    let mut i: usize = 0;
    let ghost tm = all_meta(b, utf8(attr_needle("property=\""@, "article:tag"@, "\""@)), 0);
    while i < tag_meta.len()
        invariant
            i <= tag_meta@.len(),
            strings_utf8(tag_meta@) == tm,
            strings_view(tags@) == tm.take(i as int).map_values(|x: Seq<u8>| decode_utf8(x)),
        decreases tag_meta@.len() - i,
    {
        let ghost t0 = tags@;
        let t = String::from_str(tag_meta[i].as_str());
        tags.push(t);
        proof {
            vstd::utf8::encode_utf8_decode_utf8(t@);
            assert(tm[i as int] == utf8(t@));
            assert(tm.take(i + 1) =~= tm.take(i as int).push(tm[i as int]));
            assert(strings_view(tags@) =~= strings_view(t0).push(t@));
            assert(tm.take(i + 1).map_values(|x: Seq<u8>| decode_utf8(x)) =~= tm.take(i as int).map_values(
                |x: Seq<u8>| decode_utf8(x),
            ).push(decode_utf8(tm[i as int])));
        }
        i += 1;
    }
    assert(tm.take(tm.len() as int) =~= tm);
    if tags.len() == 0 {
        if let Some(kw) = json_ld_string(json_ld, "keywords") {
            tags = tags_from_keywords(kw.as_str());
        }
    }
    if tags.len() == 0 {
        if let Some(kw) = meta_text(html, "keywords") {
            tags = tags_from_keywords(kw.as_str());
        }
    }
    let lang = extract_html_lang(html);
    proof {
        if lang is Some {
            vstd::utf8::encode_utf8_decode_utf8(lang.unwrap()@);
        }
    }
    let language = text_or_empty(
        first_of(
            meta_text(html, "og:locale"),
            first_of(
                lang,
                first_of(meta_text(html, "content-language"), json_ld_string(json_ld, "inLanguage")),
            ),
        ),
    );
    ArticleMeta { published_at: published, modified_at: modified, section, site_name, tags, language }
}

// ---------------------------------------------------------------------------
// Choices of the extraction pipeline
// ---------------------------------------------------------------------------

/// The page title: `og:title`, else `twitter:title`, else the `<title>`
/// text (`title_tag`).
pub open spec fn page_title_of(b: Seq<u8>, title_tag: Seq<char>) -> Seq<char> {
    or_empty(
        or_else(
            text_of(meta_content(b, "og:title"@)),
            or_else(text_of(meta_content(b, "twitter:title"@)), Some(title_tag)),
        ),
    )
}

/// Chooses the page title (see `page_title_of`).
pub fn page_title(html: &str, title_tag: &str) -> (r: String)
    ensures
        r@ == page_title_of(utf8(html@), title_tag@),
{
    text_or_empty(
        first_of(
            meta_text(html, "og:title"),
            first_of(meta_text(html, "twitter:title"), Some(String::from_str(title_tag))),
        ),
    )
}

/// The byline: structured-data `author`, else the `author` meta tag, else
/// `article:author`.
pub open spec fn page_author_of(b: Seq<u8>, ld: Seq<JsonValue>) -> Seq<char> {
    or_empty(
        or_else(
            structured_field(ld, "author"@, ld.len()),
            or_else(
                text_of(meta_content(b, "author"@)),
                text_of(meta_content(b, "article:author"@)),
            ),
        ),
    )
}

/// Chooses the byline (see `page_author_of`).
pub fn page_author(html: &str, json_ld: &[JsonValue]) -> (r: String)
    ensures
        r@ == page_author_of(utf8(html@), json_ld@),
{
    text_or_empty(
        first_of(
            json_ld_string(json_ld, "author"),
            first_of(meta_text(html, "author"), meta_text(html, "article:author")),
        ),
    )
}

/// The excerpt: the `description` meta tag, else `og:description`, else
/// structured-data `description`.
pub open spec fn page_excerpt_of(b: Seq<u8>, ld: Seq<JsonValue>) -> Seq<char> {
    or_empty(
        or_else(
            text_of(meta_content(b, "description"@)),
            or_else(
                text_of(meta_content(b, "og:description"@)),
                structured_field(ld, "description"@, ld.len()),
            ),
        ),
    )
}

/// Chooses the excerpt (see `page_excerpt_of`).
pub fn page_excerpt(html: &str, json_ld: &[JsonValue]) -> (r: String)
    ensures
        r@ == page_excerpt_of(utf8(html@), json_ld@),
{
    text_or_empty(
        first_of(
            meta_text(html, "description"),
            first_of(meta_text(html, "og:description"), json_ld_string(json_ld, "description")),
        ),
    )
}

/// What the format conversion starts from: the extracted node with its
/// recovered heading when the sanity check accepts the extraction; otherwise
/// the whole document, no heading, and the reason.
pub fn content_source(html: &str, extracted: ExtractedNode) -> (r: (String, String, Option<&'static str>))
    ensures
        gate_trips(visible_len(html@), visible_len(extracted.html@)) ==> r.0@ == html@
            && r.1@.len() == 0 && (r.2 matches Some(reason) && reason@ == EXTRACTION_GATE_REASON@),
        !gate_trips(visible_len(html@), visible_len(extracted.html@)) ==> r.0@ == extracted.html@
            && r.1@ == extracted.recovered_h1@ && r.2 is None,
{
    match extraction_gate_trips(html, extracted.html.as_str()) {
        Some(reason) => (html.to_owned(), String::new(), Some(reason)),
        None => (extracted.html, extracted.recovered_h1, None),
    }
}

// ---------------------------------------------------------------------------
// Laws
// ---------------------------------------------------------------------------

/// The encoding of a concatenation is the concatenation of the encodings.
pub proof fn lemma_utf8_concat(a: Seq<char>, b: Seq<char>)
    ensures
        utf8(a + b) == utf8(a) + utf8(b),
    decreases a.len(),
{
    if a.len() == 0 {
        assert(a + b =~= b);
        assert(utf8(a) =~= Seq::<u8>::empty());
        assert(utf8(a) + utf8(b) =~= utf8(b));
    } else {
        lemma_utf8_concat(a.drop_first(), b);
        assert((a + b).drop_first() =~= a.drop_first() + b);
        assert((a + b)[0] == a[0]);
        assert(encode_scalar(a[0] as u32) + (utf8(a.drop_first()) + utf8(b)) =~= (encode_scalar(
            a[0] as u32,
        ) + utf8(a.drop_first())) + utf8(b));
    }
}

/// Every position has a largest character boundary at or below it.
pub proof fn lemma_floor_boundary_exists(b: Seq<u8>, i: int)
    requires
        valid_utf8(b),
        0 <= i <= b.len(),
    ensures
        is_floor_boundary(b, i, floor_boundary(b, i)),
    decreases i,
{
    vstd::utf8::is_char_boundary_start_end_of_seq(b);
    if is_char_boundary(b, i) {
        assert(is_floor_boundary(b, i, i));
    } else {
        lemma_floor_boundary_exists(b, i - 1);
        let e = floor_boundary(b, i - 1);
        assert(is_floor_boundary(b, i, e));
    }
}

/// Truncation never yields more than `max_bytes` bytes plus the three bytes
/// of the ellipsis, and leaves a string that fits untouched.
pub proof fn law_truncation_bound(s: Seq<char>, max_bytes: nat)
    ensures
        utf8(truncated(s, max_bytes as int)).len() <= max_bytes + 3,
        utf8(s).len() <= max_bytes ==> truncated(s, max_bytes as int) == s,
{
    let b = utf8(s);
    if b.len() > max_bytes {
        lemma_floor_boundary_exists(b, max_bytes as int);
        let e = floor_boundary(b, max_bytes as int);
        let x = b.subrange(0, e);
        vstd::utf8::valid_utf8_split(b, e);
        vstd::utf8::decode_utf8_encode_utf8(x);
        let d = decode_utf8(x);
        assert(d.push('…') =~= d + seq!['…']);
        lemma_utf8_concat(d, seq!['…']);
        assert(utf8(seq!['…']).len() == 3) by {
            let e = seq!['…'];
            assert(e.drop_first() =~= Seq::<char>::empty());
            assert(utf8(e.drop_first()) =~= Seq::<u8>::empty());
            assert((e[0] as u32) == 0x2026u32);
            assert(!has_width_1_encoding(0x2026u32));
            assert(!has_width_2_encoding(0x2026u32));
            assert(has_width_3_encoding(0x2026u32));
            assert(encode_scalar(0x2026u32).len() == 3);
            assert(utf8(e) == encode_scalar(e[0] as u32) + utf8(e.drop_first()));
        }
    }
}

/// A thin page, with less visible text than the floor, never has its
/// extraction rejected, whatever the extraction holds.
pub proof fn law_thin_pages_never_rejected(src_visible: nat, ext_visible: nat)
    requires
        src_visible < EXTRACTION_GATE_SOURCE_FLOOR,
    ensures
        !gate_trips(src_visible, ext_visible),
{
}

/// An extraction holding at least a tenth of the page's visible text is
/// never rejected.
pub proof fn law_tenth_is_enough(src_visible: nat, ext_visible: nat)
    requires
        ext_visible * EXTRACTION_GATE_DIVISOR >= src_visible,
    ensures
        !gate_trips(src_visible, ext_visible),
{
}

} // verus!
