//! Content extraction: from a page's HTML, the node the scorer selected and
//! the page's structured data, the content in the requested format with its
//! title, byline, excerpt, image and article metadata.

use vstd::prelude::*;
use vstd::string::*;
use crate::content::{
    article_meta, content_source, extract_article_meta, extract_og_image, gate_trips, og_image,
    page_author, page_author_of, page_excerpt, page_excerpt_of, page_title, page_title_of, ArticleMeta,
    ContentFormat, ExtractedNode, EXTRACTION_GATE_REASON,
};
use crate::content_detect::visible_len;
use crate::html_doc::{fit_markdown_of, html_to_fit_markdown, html_to_plain, plain_text_of, selection_text_of, title_text};
use crate::json::JsonValue;
use crate::text::{chars_of, string_from_chars, strings_view, trim, trim_chars, utf8};
use crate::recovery::{recover_content, recovered_markdown};
use crate::urls::{opt_str_view, pairs_view};
use vstd::utf8::encode_utf8_decode_utf8;

verus! {

/// What extraction yields for a page.
#[derive(Debug)]
pub struct ExtractedContent {
    pub title: String,
    pub content: String,
    pub author: String,
    pub excerpt: String,
    /// The byte length of `content`.
    pub length: usize,
    pub json_ld: Vec<JsonValue>,
    pub og_image: String,
    pub meta: ArticleMeta,
    /// The reason the extracted node was rejected and the whole document
    /// used instead, or `None` when the extraction was accepted.
    pub extraction_note: Option<String>,
}

/// The content in `format` made from `source` (the extracted node, or the
/// whole page `html` when the extraction was rejected) and the recovered
/// heading `h1`: plain text (the whole page's when the source has none),
/// Markdown with the content that noise filtering dropped recovered from the
/// page (links resolved against `url`), or the source HTML itself.
pub open spec fn content_in_format(
    html: Seq<char>,
    url: Seq<char>,
    format: ContentFormat,
    source: Seq<char>,
    h1: Seq<char>,
) -> Seq<char> {
    match format {
        ContentFormat::Text => if plain_text_of(source).len() == 0 {
            plain_text_of(html)
        } else {
            plain_text_of(source)
        },
        ContentFormat::Markdown | ContentFormat::Llm => recovered_markdown(html, Some(url), fit_markdown_of(source), h1),
        ContentFormat::Html => source,
    }
}

/// What the content is made from: the extracted node and its heading, or
/// the whole page and no heading when the sanity check rejects the node.
pub open spec fn source_of(html: Seq<char>, node: Seq<char>, h1: Seq<char>) -> (Seq<char>, Seq<char>) {
    if gate_trips(visible_len(html), visible_len(node)) {
        (html, Seq::empty())
    } else {
        (node, h1)
    }
}

/// Extracts the content of a page. `extracted` is the node the scorer chose,
/// `json_ld` the page's structured data. Empty HTML gives an empty result.
/// Otherwise the content comes from the extracted node, or from the whole
/// page when the node holds too little of the page's visible text; its
/// length is its byte length; the title, byline and excerpt come from the
/// meta tags, the trimmed `<title>` and the structured data; the image and article
/// metadata from the meta tags.
pub fn extract_content(
    html: &str,
    url: &str,
    format: ContentFormat,
    json_ld: Vec<JsonValue>,
    extracted: ExtractedNode,
) -> (c: ExtractedContent)
    ensures
        html@.len() == 0 ==> c.title@.len() == 0 && c.content@.len() == 0 && c.author@.len() == 0
            && c.excerpt@.len() == 0 && c.length == 0 && c.json_ld@.len() == 0 && c.og_image@.len() == 0
            && c.meta.published_at@.len() == 0 && c.meta.modified_at@.len() == 0
            && c.meta.section@.len() == 0 && c.meta.site_name@.len() == 0 && c.meta.tags@.len() == 0
            && c.meta.language@.len() == 0 && c.extraction_note is None,
        html@.len() > 0 ==> {
            let (src, h1) = source_of(html@, extracted.html@, extracted.recovered_h1@);
            let b = utf8(html@);
            &&& c.content@ == content_in_format(html@, url@, format, src, h1)
            &&& c.length == utf8(c.content@).len()
            &&& c.title@ == page_title_of(b, trim(selection_text_of(html@, "title"@)))
            &&& c.author@ == page_author_of(b, json_ld@)
            &&& c.excerpt@ == page_excerpt_of(b, json_ld@)
            &&& c.json_ld@ == json_ld@
            &&& utf8(c.og_image@) == og_image(b)
            &&& (c.meta.published_at@, c.meta.modified_at@, c.meta.section@, c.meta.site_name@, strings_view(
                c.meta.tags@,
            ), c.meta.language@) == article_meta(b, json_ld@)
            &&& (gate_trips(visible_len(html@), visible_len(extracted.html@)) ==> (c.extraction_note
                matches Some(n) && n@ == EXTRACTION_GATE_REASON@))
            &&& (!gate_trips(visible_len(html@), visible_len(extracted.html@)) ==> c.extraction_note is None)
        },
{
    if html.as_bytes().len() == 0 {
        proof {
            vstd::utf8::encode_utf8_decode_utf8(html@);
        }
        return ExtractedContent {
            title: String::new(),
            content: String::new(),
            author: String::new(),
            excerpt: String::new(),
            length: 0,
            json_ld: Vec::new(),
            og_image: String::new(),
            meta: ArticleMeta::empty(),
            extraction_note: None,
        };
    }
    proof {
        if html@.len() == 0 {
            assert(utf8(html@).len() == 0);
        }
    }
    let og = extract_og_image(html);
    let meta = extract_article_meta(html, json_ld.as_slice());
    let (source, h1, note) = content_source(html, extracted);
    let content = match format {
        ContentFormat::Text => {
            let plain = html_to_plain(source.as_str());
            if plain.as_str().as_bytes().len() == 0 {
                proof {
                    vstd::utf8::encode_utf8_decode_utf8(plain@);
                }
                html_to_plain(html)
            } else {
                proof {
                    if plain@.len() == 0 {
                        assert(utf8(plain@).len() == 0);
                    }
                }
                plain
            }
        },
        ContentFormat::Markdown | ContentFormat::Llm => {
            let mut md = html_to_fit_markdown(source.as_str());
            let ghost fit = md@;
            let mut links: Vec<(String, String)> = Vec::new();
            assert(pairs_view(links@) =~= Seq::<(Seq<char>, Seq<char>)>::empty());
            recover_content(html, Some(url), &mut md, h1.as_str(), &mut links);
            proof {
                encode_utf8_decode_utf8(md@);
                assert(opt_str_view(Some(url)) == Some(url@));
            }
            md
        },
        ContentFormat::Html => source,
    };
    let length = content.as_str().as_bytes().len();
    let tag = title_text(html);
    let tag_chars = chars_of(tag.as_str());
    let tag_trimmed = string_from_chars(&trim_chars(tag_chars.as_slice()));
    let title = page_title(html, tag_trimmed.as_str());
    let author = page_author(html, json_ld.as_slice());
    let excerpt = page_excerpt(html, json_ld.as_slice());
    let extraction_note = match note {
        Some(n) => Some(String::from_str(n)),
        None => None,
    };
    ExtractedContent { title, content, author, excerpt, length, json_ld, og_image: og, meta, extraction_note }
}

} // verus!
