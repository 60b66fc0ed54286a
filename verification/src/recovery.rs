//! Recovering content that noise filtering dropped from the Markdown of a
//! page: the `<h1>` and the hero paragraph near it, announcement banners,
//! section headings and the short taglines above them, footer calls to
//! action and the footer sitemap. The page is read through `dom_query`
//! (see `html_doc`); where text goes and what is added is decided here.
//!
//! Markdown is handled as UTF-8 bytes (`utf8(markdown@)`), the way positions
//! in it are byte offsets.

use vstd::prelude::*;
use vstd::string::*;
use vstd::utf8::*;
use crate::content::{collapse_whitespace, collapsed, lemma_utf8_concat};
use crate::html_doc::{
    element_attrs, element_attrs_of, element_texts, element_texts_of, first_ancestor_texts, first_ancestor_texts_of,
    nested_attrs, nested_attrs_of, nested_texts, nested_texts_of, opt_rows_view, opt_strings_view, rows_view, same_shape,
};
use crate::form::opt_text;
use crate::html_doc::{nested_ancestor_attrs, nested_ancestor_attrs_of, nested_ancestor_texts, nested_ancestor_texts_of};
use crate::fingerprint::join_strings;
use crate::html_doc::{ancestor_attrs, ancestor_attrs_of, ancestor_inner_texts, ancestor_inner_texts_of, ancestor_names, ancestor_names_of, preceding_names, preceding_names_of, preceding_texts, preceding_texts_of};
use crate::markdown::{
    content_position, find_content_position, lemma_line_start_bounds, line_start, line_start_before, strip_md_formatting,
    walk_back, walk_back_past_orphans, without_stars,
};
use crate::urls::{joined_url, opt_str_view, pairs_view, resolve_href};
use crate::text::{
    chars_of, contains, contains_str, lemma_ascii_not_continuation, lemma_boundary_at, lemma_boundary_after_ascii, lowercase_of, slice_str, string_from_chars, strings_view,
    to_lowercase, trim, trim_chars, utf8, ascii_lower_all, eq_ignore_ascii_case, join,
};

verus! {

broadcast use vstd::utf8::encode_utf8_valid_utf8;

/// Markdown as bytes, with the links recovered so far.
pub type Recovered = (Seq<u8>, Seq<(Seq<char>, Seq<char>)>);

/// The Markdown holds `t`.
pub open spec fn holds_text(b: Seq<u8>, t: Seq<char>) -> bool {
    contains(b, utf8(t))
}

/// `t` inserted into `b` at byte `p`.
pub open spec fn insert_bytes(b: Seq<u8>, p: int, t: Seq<char>) -> Seq<u8> {
    b.take(p) + utf8(t) + b.skip(p)
}

fn has_text(md: &String, t: &str) -> (r: bool)
    ensures
        r == holds_text(utf8(md@), t@),
{
    contains_str(md.as_str(), t)
}

fn insert_at(md: &String, p: usize, t: &str) -> (r: String)
    requires
        p <= utf8(md@).len(),
        is_char_boundary(utf8(md@), p as int),
    ensures
        utf8(r@) == insert_bytes(utf8(md@), p as int, t@),
{
    let s = md.as_str();
    let n = s.as_bytes().len();
    proof {
        is_char_boundary_start_end_of_seq(s.spec_bytes());
    }
    let a = slice_str(s, 0, p);
    let c = slice_str(s, p, n);
    let mut r = String::from_str(a);
    r.append(t);
    r.append(c);
    proof {
        lemma_utf8_concat(a@, t@);
        lemma_utf8_concat(a@ + t@, c@);
        let b = utf8(md@);
        assert(b.take(p as int) =~= b.subrange(0, p as int));
        assert(b.skip(p as int) =~= b.subrange(p as int, n as int));
    }
    r
}

fn prepend(t: &str, md: String) -> (r: String)
    ensures
        utf8(r@) == utf8(t@) + utf8(md@),
{
    let mut r = String::from_str(t);
    r.append(md.as_str());
    proof {
        lemma_utf8_concat(t@, md@);
    }
    r
}

fn append_text(md: &mut String, t: &str)
    ensures
        utf8(final(md)@) == utf8(old(md)@) + utf8(t@),
{
    md.append(t);
    proof {
        lemma_utf8_concat(old(md)@, t@);
    }
}

fn concat3(a: &str, b: &str, c: &str) -> (r: String)
    ensures
        r@ == a@ + b@ + c@,
{
    let mut r = String::from_str(a);
    r.append(b);
    r.append(c);
    r
}

// ---------------------------------------------------------------------------
// The heading and the hero paragraph
// ---------------------------------------------------------------------------

/// A hero paragraph: 40 to 300 bytes once whitespace is collapsed, and not
/// already in the Markdown.
pub open spec fn hero_fits(t: Seq<char>, b: Seq<u8>) -> bool {
    40 <= utf8(t).len() <= 300 && !holds_text(b, t)
}

/// The first fitting paragraph among `row` from `j` on.
pub open spec fn pick_in_row(row: Seq<Seq<char>>, b: Seq<u8>, j: nat) -> Option<Seq<char>>
    decreases row.len() - j,
{
    if j >= row.len() {
        None
    } else if hero_fits(collapsed(row[j as int]), b) {
        Some(collapsed(row[j as int]))
    } else {
        pick_in_row(row, b, j + 1)
    }
}

/// The first fitting paragraph within the first four ancestors of the
/// `<h1>`, from level `l` on.
pub open spec fn pick_hero(levels: Seq<Seq<Seq<char>>>, b: Seq<u8>, l: nat) -> Option<Seq<char>>
    decreases 4 - l,
{
    if l >= 4 || l >= levels.len() {
        None
    } else {
        match pick_in_row(levels[l as int], b, 0) {
            Some(t) => Some(t),
            None => pick_hero(levels, b, l + 1),
        }
    }
}

/// The first position from `i` on holding byte `c`.
pub open spec fn first_byte_from(b: Seq<u8>, c: u8, i: nat) -> Option<int>
    decreases b.len() - i,
{
    if i >= b.len() {
        None
    } else if b[i as int] == c {
        Some(i as int)
    } else {
        first_byte_from(b, c, i + 1)
    }
}

fn find_byte(b: &[u8], c: u8) -> (r: Option<usize>)
    ensures
        match r {
            Some(p) => first_byte_from(b@, c, 0) == Some(p as int) && p < b@.len() && b@[p as int] == c,
            None => first_byte_from(b@, c, 0) is None,
        },
{
    let mut i: usize = 0;
    while i < b.len()
        invariant
            i <= b@.len(),
            first_byte_from(b@, c, 0) == first_byte_from(b@, c, i as nat),
        decreases b@.len() - i,
    {
        if b[i] == c {
            return Some(i);
        }
        i += 1;
    }
    None
}

/// The hero paragraph put on its own line after the first line, or at the
/// end when there is a single line.
pub open spec fn with_hero(b: Seq<u8>, t: Seq<char>) -> Seq<u8> {
    match first_byte_from(b, 10u8, 0) {
        Some(p) => insert_bytes(b, p + 1, "\n"@ + t + "\n"@),
        None => b + utf8("\n"@ + t + "\n"@),
    }
}

/// The heading pass: a recovered heading missing from the Markdown goes
/// first as `# heading`, followed by the hero paragraph when one is found.
pub open spec fn heading_pass(html: Seq<char>, b: Seq<u8>, h1: Seq<char>) -> Seq<u8> {
    if h1.len() > 0 && !holds_text(b, h1) {
        let b1 = utf8("# "@ + h1 + "\n\n"@) + b;
        match pick_hero(first_ancestor_texts_of(html, "h1"@, "p"@), b1, 0) {
            Some(t) => with_hero(b1, t),
            None => b1,
        }
    } else {
        b
    }
}

fn find_hero(levels: &Vec<Vec<String>>, md: &String) -> (r: Option<String>)
    ensures
        match r {
            Some(t) => pick_hero(rows_view(levels@), utf8(md@), 0) == Some(t@),
            None => pick_hero(rows_view(levels@), utf8(md@), 0) is None,
        },
{
    let ghost lv = rows_view(levels@);
    let ghost b = utf8(md@);
    let mut l: usize = 0;
    while l < 4 && l < levels.len()
        invariant
            l <= 4,
            lv == rows_view(levels@),
            b == utf8(md@),
            pick_hero(lv, b, 0) == pick_hero(lv, b, l as nat),
        decreases 4 - l,
    {
        let row = &levels[l];
        let ghost rv = strings_view(row@);
        assert(lv[l as int] == rv);
        let mut j: usize = 0;
        while j < row.len()
            invariant
                j <= row@.len(),
                l < 4,
                l < levels@.len(),
                lv == rows_view(levels@),
                lv[l as int] == rv,
                pick_hero(lv, b, 0) == pick_hero(lv, b, l as nat),
                rv == strings_view(row@),
                b == utf8(md@),
                pick_in_row(rv, b, 0) == pick_in_row(rv, b, j as nat),
            decreases row@.len() - j,
        {
            let t = collapse_whitespace(row[j].as_str());
            let n = t.as_str().as_bytes().len();
            if 40 <= n && n <= 300 && !has_text(md, t.as_str()) {
                return Some(t);
            }
            j += 1;
        }
        l += 1;
    }
    None
}

fn put_hero(md: String, t: &str) -> (r: String)
    ensures
        utf8(r@) == with_hero(utf8(md@), t@),
{
    let line = concat3("\n", t, "\n");
    let s = md.as_str();
    let bytes = s.as_bytes();
    let n = bytes.len();
    match find_byte(bytes, 10u8) {
        Some(p) => {
            assert(p < n);
            proof {
                lemma_boundary_after_ascii(s, p + 1);
            }
            insert_at(&md, p + 1, line.as_str())
        },
        None => {
            let mut m = md;
            append_text(&mut m, line.as_str());
            m
        },
    }
}

/// Runs the heading pass (see `heading_pass`).
pub fn recover_heading(html: &str, md: String, h1: &str) -> (r: String)
    ensures
        utf8(r@) == heading_pass(html@, utf8(md@), h1@),
{
    if h1.as_bytes().len() > 0 && !has_text(&md, h1) {
        let head = concat3("# ", h1, "\n\n");
        let m1 = prepend(head.as_str(), md);
        let levels = first_ancestor_texts(html, "h1", "p");
        match find_hero(&levels, &m1) {
            Some(t) => put_hero(m1, t.as_str()),
            None => m1,
        }
    } else {
        proof {
            if h1@.len() > 0 {
                encode_utf8_decode_utf8(h1@);
                assert(utf8(h1@).len() > 0);
            }
        }
        md
    }
}

// ---------------------------------------------------------------------------
// Shared pieces
// ---------------------------------------------------------------------------

fn is_empty_str(s: &str) -> (r: bool)
    ensures
        r == (s@.len() == 0),
{
    let n = s.as_bytes().len();
    proof {
        encode_utf8_decode_utf8(s@);
        if s@.len() > 0 {
            assert(utf8(s@).len() > 0);
        }
    }
    n == 0
}

fn trimmed(s: &str) -> (r: String)
    ensures
        r@ == trim(s@),
{
    let cs = chars_of(s);
    let t = trim_chars(cs.as_slice());
    string_from_chars(&t)
}

/// `href` resolved against the page's URL when there is one and the join
/// succeeds; otherwise as written.
pub open spec fn resolved_href(h: Seq<char>, base: Option<Seq<char>>) -> Seq<char> {
    match base {
        Some(b) => match joined_url(b, h) {
            Some(j) => j,
            None => h,
        },
        None => h,
    }
}

/// The links among the first `i` anchors: trimmed text and resolved `href`,
/// both non-empty.
pub open spec fn link_pairs(
    texts: Seq<Seq<char>>,
    hrefs: Seq<Option<Seq<char>>>,
    base: Option<Seq<char>>,
    i: nat,
) -> Seq<(Seq<char>, Seq<char>)>
    decreases i,
{
    if i == 0 || i > texts.len() {
        Seq::empty()
    } else {
        let rest = link_pairs(texts, hrefs, base, (i - 1) as nat);
        let t = trim(texts[i - 1]);
        let h = match hrefs[i - 1] {
            Some(h) => resolved_href(h, base),
            None => Seq::empty(),
        };
        if t.len() > 0 && h.len() > 0 {
            rest.push((t, h))
        } else {
            rest
        }
    }
}

fn collect_links(
    texts: &Vec<String>,
    hrefs: &Vec<Option<String>>,
    base: Option<&str>,
    links: &mut Vec<(String, String)>,
)
    requires
        hrefs@.len() == texts@.len(),
    ensures
        pairs_view(final(links)@) == pairs_view(old(links)@) + link_pairs(
            strings_view(texts@),
            opt_strings_view(hrefs@),
            opt_str_view(base),
            texts@.len(),
        ),
{
    let ghost tv = strings_view(texts@);
    let ghost hv = opt_strings_view(hrefs@);
    let ghost l0 = pairs_view(links@);
    let mut i: usize = 0;
    while i < texts.len()
        invariant
            i <= texts@.len(),
            hrefs@.len() == texts@.len(),
            tv == strings_view(texts@),
            hv == opt_strings_view(hrefs@),
            pairs_view(links@) == l0 + link_pairs(tv, hv, opt_str_view(base), i as nat),
        decreases texts@.len() - i,
    {
        let t = trimmed(texts[i].as_str());
        let h = match &hrefs[i] {
            Some(h) => resolve_href(h.as_str(), base),
            None => String::new(),
        };
        assert(hv[i as int] == match hrefs@[i as int] {
            Some(h) => Some(h@),
            None => None::<Seq<char>>,
        });
        if !is_empty_str(t.as_str()) && !is_empty_str(h.as_str()) {
            let ghost p0 = links@;
            links.push((t, h));
            assert(pairs_view(links@) =~= pairs_view(p0).push((t@, h@)));
        }
        i += 1;
    }
}

// ---------------------------------------------------------------------------
// Announcement banners
// ---------------------------------------------------------------------------

/// Regions that may be announcement banners.
pub open spec fn region_css() -> Seq<char> {
    "[role='region'][aria-label]"@
}

/// One region: when its lowercased label holds "announcement" and its text
/// (whitespace collapsed) is new, it goes first as a bold quote and its
/// links are recovered.
pub open spec fn announcement_step(
    html: Seq<char>,
    base: Option<Seq<char>>,
    st: (Seq<u8>, Seq<(Seq<char>, Seq<char>)>),
    k: int,
) -> (Seq<u8>, Seq<(Seq<char>, Seq<char>)>) {
    let label = opt_text(element_attrs_of(html, region_css(), "aria-label"@)[k]);
    let t = collapsed(element_texts_of(html, region_css())[k]);
    if !contains(utf8(lowercase_of(label)), utf8("announcement"@)) || t.len() == 0 || holds_text(st.0, t) {
        st
    } else {
        let ts = nested_texts_of(html, region_css(), "a"@)[k];
        (
            utf8("> **"@ + t + "**\n\n"@) + st.0,
            st.1 + link_pairs(ts, nested_attrs_of(html, region_css(), "a"@, "href"@)[k], base, ts.len()),
        )
    }
}

/// The first `k` regions handled in order.
pub open spec fn announcements_upto(
    html: Seq<char>,
    base: Option<Seq<char>>,
    st: (Seq<u8>, Seq<(Seq<char>, Seq<char>)>),
    k: nat,
) -> (Seq<u8>, Seq<(Seq<char>, Seq<char>)>)
    decreases k,
{
    if k == 0 {
        st
    } else {
        announcement_step(html, base, announcements_upto(html, base, st, (k - 1) as nat), k - 1)
    }
}

/// The announcement pass over every region of the page.
pub open spec fn announcement_pass(
    html: Seq<char>,
    base: Option<Seq<char>>,
    st: (Seq<u8>, Seq<(Seq<char>, Seq<char>)>),
) -> (Seq<u8>, Seq<(Seq<char>, Seq<char>)>) {
    announcements_upto(html, base, st, element_texts_of(html, region_css()).len())
}

/// Runs the announcement pass (see `announcement_pass`).
pub fn recover_announcements(html: &str, base: Option<&str>, md: String, links: &mut Vec<(String, String)>) -> (r: String)
    ensures
        (utf8(r@), pairs_view(final(links)@)) == announcement_pass(
            html@,
            opt_str_view(base),
            (utf8(md@), pairs_view(old(links)@)),
        ),
{
    let css = "[role='region'][aria-label]";
    let labels = element_attrs(html, css, "aria-label");
    let texts = element_texts(html, css);
    let a_texts = nested_texts(html, css, "a");
    let a_hrefs = nested_attrs(html, css, "a", "href");
    let ghost st0 = (utf8(md@), pairs_view(links@));
    let ghost bv = opt_str_view(base);
    let mut m = md;
    let mut k: usize = 0;
    proof {
        reveal_strlit("[role='region'][aria-label]");
    }
    assert(css@ == region_css());
    while k < texts.len()
        invariant
            k <= texts@.len(),
            css@ == region_css(),
            bv == opt_str_view(base),
            strings_view(texts@) == element_texts_of(html@, region_css()),
            opt_strings_view(labels@) == element_attrs_of(html@, region_css(), "aria-label"@),
            labels@.len() == texts@.len(),
            rows_view(a_texts@) == nested_texts_of(html@, region_css(), "a"@),
            a_texts@.len() == texts@.len(),
            opt_rows_view(a_hrefs@) == nested_attrs_of(html@, region_css(), "a"@, "href"@),
            same_shape(opt_rows_view(a_hrefs@), nested_texts_of(html@, region_css(), "a"@)),
            (utf8(m@), pairs_view(links@)) == announcements_upto(html@, bv, st0, k as nat),
        decreases texts@.len() - k,
    {
        let label = match &labels[k] {
            Some(l) => l.clone(),
            None => String::new(),
        };
        assert(label@ == opt_text(element_attrs_of(html@, region_css(), "aria-label"@)[k as int]));
        let lower = to_lowercase(label.as_str());
        let t = collapse_whitespace(texts[k].as_str());
        assert(strings_view(texts@)[k as int] == texts@[k as int]@);
        if contains_str(lower.as_str(), "announcement") && !is_empty_str(t.as_str()) && !has_text(&m, t.as_str()) {
            assert(rows_view(a_texts@)[k as int] == strings_view(a_texts@[k as int]@));
            assert(opt_rows_view(a_hrefs@)[k as int] == opt_strings_view(a_hrefs@[k as int]@));
            assert(opt_rows_view(a_hrefs@)[k as int].len() == nested_texts_of(html@, region_css(), "a"@)[k as int].len());
            collect_links(&a_texts[k], &a_hrefs[k], base, links);
            let head = concat3("> **", t.as_str(), "**\n\n");
            m = prepend(head.as_str(), m);
        }
        k += 1;
    }
    m
}

// ---------------------------------------------------------------------------
// Section headings and taglines
// ---------------------------------------------------------------------------

/// An ancestor that is page chrome: `nav`, `aside`, `footer`, `header`, or a
/// navigation or content-info landmark.
pub open spec fn is_structural(tag: Seq<char>, role: Option<Seq<char>>) -> bool {
    tag.len() > 0 && (tag == "nav"@ || tag == "aside"@ || tag == "footer"@ || tag == "header"@ || role == Some(
        "navigation"@,
    ) || role == Some("contentinfo"@))
}

/// Some ancestor is page chrome.
pub open spec fn in_structural_noise(names: Seq<Seq<char>>, roles: Seq<Option<Seq<char>>>) -> bool {
    exists|i: int| 0 <= i < names.len() && #[trigger] is_structural(names[i], roles[i])
}

/// A tag that bounds a section.
pub open spec fn is_section_tag(t: Seq<char>) -> bool {
    t == "section"@ || t == "article"@ || t == "main"@ || t == "body"@
}

/// The nearest ancestor, from `i` on, that bounds a section.
pub open spec fn section_level(names: Seq<Seq<char>>, i: nat) -> Option<nat>
    decreases names.len() - i,
{
    if i >= names.len() {
        None
    } else if is_section_tag(names[i as int]) {
        Some(i)
    } else {
        section_level(names, i + 1)
    }
}

/// The first text of the section, from `i` on, that is not part of the
/// heading, is longer than 15 bytes and occurs in the Markdown.
pub open spec fn anchor_in(texts: Seq<Seq<char>>, heading: Seq<char>, b: Seq<u8>, i: nat) -> Option<Seq<char>>
    decreases texts.len() - i,
{
    if i >= texts.len() {
        None
    } else {
        let el = collapsed(texts[i as int]);
        if el.len() > 0 && !contains(utf8(heading), utf8(el)) && utf8(el).len() > 15 && content_position(
            b,
            utf8(el),
            0,
        ) is Some {
            Some(el)
        } else {
            anchor_in(texts, heading, b, i + 1)
        }
    }
}

/// Text of the `k`-th `<h2>`'s section (paragraphs and smaller headings)
/// that the Markdown holds.
pub open spec fn sibling_anchor(html: Seq<char>, k: int, b: Seq<u8>) -> Option<Seq<char>> {
    match section_level(ancestor_names_of(html, "h2"@)[k], 0) {
        None => None,
        Some(l) => anchor_in(
            ancestor_inner_texts_of(html, "h2"@, k as nat, l, "p, h3, h4"@),
            element_texts_of(html, "h2"@)[k],
            b,
            0,
        ),
    }
}

/// One `<h2>` missing from the Markdown and outside page chrome: when text
/// of its section is in the Markdown, the heading goes before that text's
/// line, above the blank and short orphan lines before it.
pub open spec fn heading_step(html: Seq<char>, b: Seq<u8>, k: int) -> Seq<u8> {
    let t = trim(element_texts_of(html, "h2"@)[k]);
    if t.len() == 0 || content_position(b, utf8(t), 0) is Some || in_structural_noise(
        ancestor_names_of(html, "h2"@)[k],
        ancestor_attrs_of(html, "h2"@, "role"@)[k],
    ) {
        b
    } else {
        match sibling_anchor(html, k, b) {
            Some(a) => match content_position(b, utf8(a), 0) {
                Some(pos) => insert_bytes(b, walk_back(b, line_start_before(b, pos)), "## "@ + t + "\n\n"@),
                None => b,
            },
            None => b,
        }
    }
}

/// The first `k` headings handled in order.
pub open spec fn headings_upto(html: Seq<char>, b: Seq<u8>, k: nat) -> Seq<u8>
    decreases k,
{
    if k == 0 {
        b
    } else {
        heading_step(html, headings_upto(html, b, (k - 1) as nat), k - 1)
    }
}

/// One element before the `k`-th `<h2>` (position `idx`, nearest first):
/// a short paragraph (at most 80 bytes, not starting with `/`) that the
/// Markdown does not hold, emphasis aside, goes in italics at the start of
/// the heading's line.
pub open spec fn tagline_step(html: Seq<char>, k: int, t: Seq<char>, b: Seq<u8>, idx: int) -> Seq<u8> {
    let p = trim(preceding_texts_of(html, "h2"@)[k][idx]);
    if preceding_names_of(html, "h2"@)[k][idx] != "p"@ || p.len() == 0 || utf8(p).len() > 80 || p[0] == '/'
        || contains(utf8(without_stars(decode_utf8(b))), utf8(p)) {
        b
    } else {
        match content_position(b, utf8(t), 0) {
            Some(pos) => insert_bytes(b, line_start_before(b, pos), "*"@ + p + "*\n\n"@),
            None => b,
        }
    }
}

/// The first `m` elements before the `k`-th `<h2>`, in document order.
pub open spec fn taglines_upto(html: Seq<char>, k: int, t: Seq<char>, b: Seq<u8>, m: nat) -> Seq<u8>
    decreases m,
{
    if m == 0 {
        b
    } else {
        let n = preceding_names_of(html, "h2"@)[k].len();
        tagline_step(html, k, t, taglines_upto(html, k, t, b, (m - 1) as nat), n - m)
    }
}

/// The taglines of the `k`-th `<h2>`, when the Markdown holds the heading.
pub open spec fn tagline_heading_step(html: Seq<char>, b: Seq<u8>, k: int) -> Seq<u8> {
    let t = trim(element_texts_of(html, "h2"@)[k]);
    if t.len() == 0 || content_position(b, utf8(t), 0) is None {
        b
    } else {
        taglines_upto(html, k, t, b, preceding_names_of(html, "h2"@)[k].len())
    }
}

/// The first `k` headings' taglines handled in order.
pub open spec fn taglines_of_headings_upto(html: Seq<char>, b: Seq<u8>, k: nat) -> Seq<u8>
    decreases k,
{
    if k == 0 {
        b
    } else {
        tagline_heading_step(html, taglines_of_headings_upto(html, b, (k - 1) as nat), k - 1)
    }
}

/// The section pass: missing headings first, then taglines.
pub open spec fn section_pass(html: Seq<char>, b: Seq<u8>) -> Seq<u8> {
    let n = element_texts_of(html, "h2"@).len();
    taglines_of_headings_upto(html, headings_upto(html, b, n), n)
}

/// A walk back from a line start ends at a line start.
proof fn lemma_walk_back_line_start(b: Seq<u8>, pos: int)
    requires
        0 <= pos <= b.len(),
        pos == 0 || b[pos - 1] == 10u8,
    ensures
        0 <= walk_back(b, pos) <= pos,
        walk_back(b, pos) == 0 || b[walk_back(b, pos) - 1] == 10u8,
    decreases pos,
{
    if pos > 0 && !crate::markdown::ends_walk(crate::markdown::previous_line(b, pos)) {
        lemma_line_start_bounds(b, pos - 1);
        lemma_walk_back_line_start(b, line_start_before(b, pos - 1));
    }
}

/// A position just after a newline, or 0, is a character boundary.
proof fn lemma_line_start_boundary(s: &str, p: int)
    requires
        0 <= p <= s.spec_bytes().len(),
        p == 0 || s.spec_bytes()[p - 1] == 10u8,
    ensures
        is_char_boundary(s.spec_bytes(), p),
{
    if p == 0 {
        is_char_boundary_start_end_of_seq(s.spec_bytes());
    } else {
        lemma_boundary_after_ascii(s, p);
    }
}

fn in_noise(names: &Vec<String>, roles: &Vec<Option<String>>) -> (r: bool)
    requires
        roles@.len() == names@.len(),
    ensures
        r == in_structural_noise(strings_view(names@), opt_strings_view(roles@)),
{
    let ghost nv = strings_view(names@);
    let ghost rv = opt_strings_view(roles@);
    let mut i: usize = 0;
    while i < names.len()
        invariant
            i <= names@.len(),
            roles@.len() == names@.len(),
            nv == strings_view(names@),
            rv == opt_strings_view(roles@),
            forall|j: int| 0 <= j < i ==> !is_structural(#[trigger] nv[j], rv[j]),
        decreases names@.len() - i,
    {
        let tag = names[i].as_str();
        let role_nav = match &roles[i] {
            Some(r) => crate::text::str_eq(r.as_str(), "navigation") || crate::text::str_eq(r.as_str(), "contentinfo"),
            None => false,
        };
        let structural = !is_empty_str(tag) && (crate::text::str_eq(tag, "nav") || crate::text::str_eq(tag, "aside")
            || crate::text::str_eq(tag, "footer") || crate::text::str_eq(tag, "header") || role_nav);
        assert(nv[i as int] == tag@);
        assert(rv[i as int] == match roles@[i as int] {
            Some(r) => Some(r@),
            None => None::<Seq<char>>,
        });
        if structural {
            assert(is_structural(nv[i as int], rv[i as int]));
            return true;
        }
        i += 1;
    }
    false
}

/// Whether the `k`-th element `target` matches lies inside page chrome (see
/// `is_structural`); `false` when there is no such element.
pub fn is_inside_structural_noise(html: &str, target: &str, k: usize) -> (r: bool)
    ensures
        k < element_texts_of(html@, target@).len() ==> r == in_structural_noise(
            ancestor_names_of(html@, target@)[k as int],
            ancestor_attrs_of(html@, target@, "role"@)[k as int],
        ),
        k >= element_texts_of(html@, target@).len() ==> !r,
{
    let names = ancestor_names(html, target);
    let roles = ancestor_attrs(html, target, "role");
    if k >= names.len() {
        return false;
    }
    assert(rows_view(names@)[k as int] == strings_view(names@[k as int]@));
    assert(opt_rows_view(roles@)[k as int] == opt_strings_view(roles@[k as int]@));
    assert(opt_rows_view(roles@)[k as int].len() == rows_view(names@)[k as int].len());
    in_noise(&names[k], &roles[k])
}

fn find_section_level(names: &Vec<String>) -> (r: Option<usize>)
    ensures
        match r {
            Some(l) => section_level(strings_view(names@), 0) == Some(l as nat),
            None => section_level(strings_view(names@), 0) is None,
        },
{
    let ghost nv = strings_view(names@);
    let mut i: usize = 0;
    while i < names.len()
        invariant
            i <= names@.len(),
            nv == strings_view(names@),
            section_level(nv, 0) == section_level(nv, i as nat),
        decreases names@.len() - i,
    {
        let t = names[i].as_str();
        assert(nv[i as int] == t@);
        if crate::text::str_eq(t, "section") || crate::text::str_eq(t, "article") || crate::text::str_eq(t, "main")
            || crate::text::str_eq(t, "body") {
            return Some(i);
        }
        i += 1;
    }
    None
}

fn find_anchor(texts: &Vec<String>, heading: &str, md: &String) -> (r: Option<String>)
    ensures
        match r {
            Some(a) => anchor_in(strings_view(texts@), heading@, utf8(md@), 0) == Some(a@),
            None => anchor_in(strings_view(texts@), heading@, utf8(md@), 0) is None,
        },
{
    let ghost tv = strings_view(texts@);
    let mut i: usize = 0;
    while i < texts.len()
        invariant
            i <= texts@.len(),
            tv == strings_view(texts@),
            anchor_in(tv, heading@, utf8(md@), 0) == anchor_in(tv, heading@, utf8(md@), i as nat),
        decreases texts@.len() - i,
    {
        let el = collapse_whitespace(texts[i].as_str());
        assert(tv[i as int] == texts@[i as int]@);
        if !is_empty_str(el.as_str()) && !contains_str(heading, el.as_str()) && el.as_str().as_bytes().len() > 15
            && find_content_position(md.as_str(), el.as_str()).is_some() {
            return Some(el);
        }
        i += 1;
    }
    None
}

fn recover_heading_at(html: &str, md: String, k: usize, h2s: &Vec<String>, names: &Vec<Vec<String>>, roles: &Vec<Vec<Option<String>>>) -> (r: String)
    requires
        k < h2s@.len(),
        strings_view(h2s@) == element_texts_of(html@, "h2"@),
        rows_view(names@) == ancestor_names_of(html@, "h2"@),
        opt_rows_view(roles@) == ancestor_attrs_of(html@, "h2"@, "role"@),
        same_shape(opt_rows_view(roles@), ancestor_names_of(html@, "h2"@)),
        names@.len() == h2s@.len(),
    ensures
        utf8(r@) == heading_step(html@, utf8(md@), k as int),
{
    let t = trimmed(h2s[k].as_str());
    assert(strings_view(h2s@)[k as int] == h2s@[k as int]@);
    if is_empty_str(t.as_str()) || find_content_position(md.as_str(), t.as_str()).is_some() {
        return md;
    }
    assert(rows_view(names@)[k as int] == strings_view(names@[k as int]@));
    assert(opt_rows_view(roles@)[k as int] == opt_strings_view(roles@[k as int]@));
    assert(opt_rows_view(roles@)[k as int].len() == rows_view(names@)[k as int].len());
    if in_noise(&names[k], &roles[k]) {
        return md;
    }
    let level = match find_section_level(&names[k]) {
        Some(l) => l,
        None => return md,
    };
    let texts = ancestor_inner_texts(html, "h2", k, level, "p, h3, h4");
    let anchor = match find_anchor(&texts, h2s[k].as_str(), &md) {
        Some(a) => a,
        None => return md,
    };
    let pos = match find_content_position(md.as_str(), anchor.as_str()) {
        Some(p) => p,
        None => return md,
    };
    let s = md.as_str();
    let bytes = s.as_bytes();
    let ls = line_start(bytes, pos);
    proof {
        lemma_line_start_bounds(s.spec_bytes(), pos as int);
        if ls > 0 {
            lemma_ascii_not_continuation(s.spec_bytes()[ls - 1]);
            lemma_boundary_at(s, ls - 1);
        }
    }
    let ip = walk_back_past_orphans(s, ls);
    proof {
        lemma_walk_back_line_start(s.spec_bytes(), ls as int);
        lemma_line_start_boundary(s, ip as int);
    }
    let head = concat3("## ", t.as_str(), "\n\n");
    insert_at(&md, ip, head.as_str())
}

fn recover_taglines_at(
    html: &str,
    md: String,
    k: usize,
    h2s: &Vec<String>,
    names: &Vec<Vec<String>>,
    texts: &Vec<Vec<String>>,
) -> (r: String)
    requires
        k < h2s@.len(),
        strings_view(h2s@) == element_texts_of(html@, "h2"@),
        rows_view(names@) == preceding_names_of(html@, "h2"@),
        rows_view(texts@) == preceding_texts_of(html@, "h2"@),
        same_shape(rows_view(texts@), preceding_names_of(html@, "h2"@)),
        names@.len() == h2s@.len(),
    ensures
        utf8(r@) == tagline_heading_step(html@, utf8(md@), k as int),
{
    let t = trimmed(h2s[k].as_str());
    assert(strings_view(h2s@)[k as int] == h2s@[k as int]@);
    if is_empty_str(t.as_str()) || find_content_position(md.as_str(), t.as_str()).is_none() {
        return md;
    }
    assert(rows_view(names@)[k as int] == strings_view(names@[k as int]@));
    assert(rows_view(texts@)[k as int] == strings_view(texts@[k as int]@));
    assert(rows_view(texts@)[k as int].len() == rows_view(names@)[k as int].len());
    let row_names = &names[k];
    let row_texts = &texts[k];
    let n = row_names.len();
    let mut m = md;
    let ghost b0 = utf8(m@);
    let mut c: usize = 0;
    while c < n
        invariant
            c <= n,
            n == row_names@.len(),
            row_texts@.len() == n,
            t@.len() > 0,
            k < h2s@.len(),
            strings_view(row_names@) == preceding_names_of(html@, "h2"@)[k as int],
            strings_view(row_texts@) == preceding_texts_of(html@, "h2"@)[k as int],
            utf8(m@) == taglines_upto(html@, k as int, t@, b0, c as nat),
        decreases n - c,
    {
        let idx = n - 1 - c;
        assert(strings_view(row_names@)[idx as int] == row_names@[idx as int]@);
        assert(strings_view(row_texts@)[idx as int] == row_texts@[idx as int]@);
        if crate::text::str_eq(row_names[idx].as_str(), "p") {
            let p = trimmed(row_texts[idx].as_str());
            let pc = chars_of(p.as_str());
            if !is_empty_str(p.as_str()) && p.as_str().as_bytes().len() <= 80 && pc[0] != '/' {
                let plain = strip_md_formatting(m.as_str());
                proof {
                    encode_utf8_decode_utf8(m@);
                }
                if !contains_str(plain.as_str(), p.as_str()) {
                    match find_content_position(m.as_str(), t.as_str()) {
                        Some(pos) => {
                            let s = m.as_str();
                            let ls = line_start(s.as_bytes(), pos);
                            proof {
                                lemma_line_start_bounds(s.spec_bytes(), pos as int);
                                lemma_line_start_boundary(s, ls as int);
                            }
                            let line = concat3("*", p.as_str(), "*\n\n");
                            m = insert_at(&m, ls, line.as_str());
                        },
                        None => {},
                    }
                }
            }
        }
        c += 1;
    }
    m
}

/// Runs the section pass (see `section_pass`).
pub fn recover_section_headings(html: &str, md: String) -> (r: String)
    ensures
        utf8(r@) == section_pass(html@, utf8(md@)),
{
    let h2s = element_texts(html, "h2");
    let names = ancestor_names(html, "h2");
    let roles = ancestor_attrs(html, "h2", "role");
    let ghost b0 = utf8(md@);
    let mut m = md;
    let mut k: usize = 0;
    while k < h2s.len()
        invariant
            k <= h2s@.len(),
            strings_view(h2s@) == element_texts_of(html@, "h2"@),
            rows_view(names@) == ancestor_names_of(html@, "h2"@),
            opt_rows_view(roles@) == ancestor_attrs_of(html@, "h2"@, "role"@),
            same_shape(opt_rows_view(roles@), ancestor_names_of(html@, "h2"@)),
            names@.len() == h2s@.len(),
            utf8(m@) == headings_upto(html@, b0, k as nat),
        decreases h2s@.len() - k,
    {
        m = recover_heading_at(html, m, k, &h2s, &names, &roles);
        k += 1;
    }
    let pnames = preceding_names(html, "h2");
    let ptexts = preceding_texts(html, "h2");
    let ghost b1 = utf8(m@);
    let mut k: usize = 0;
    while k < h2s.len()
        invariant
            k <= h2s@.len(),
            strings_view(h2s@) == element_texts_of(html@, "h2"@),
            rows_view(pnames@) == preceding_names_of(html@, "h2"@),
            rows_view(ptexts@) == preceding_texts_of(html@, "h2"@),
            same_shape(rows_view(ptexts@), preceding_names_of(html@, "h2"@)),
            pnames@.len() == h2s@.len(),
            b1 == headings_upto(html@, b0, h2s@.len() as nat),
            utf8(m@) == taglines_of_headings_upto(html@, b1, k as nat),
        decreases h2s@.len() - k,
    {
        m = recover_taglines_at(html, m, k, &h2s, &pnames, &ptexts);
        k += 1;
    }
    m
}

// ---------------------------------------------------------------------------
// Footer calls to action
// ---------------------------------------------------------------------------

/// A class that hides an element from sight (screen-reader text).
pub open spec fn hidden_class(c: Option<Seq<char>>) -> bool {
    match c {
        Some(c) => {
            let cl = utf8(lowercase_of(c));
            contains(cl, utf8("sr-only"@)) || contains(cl, utf8("visually-hidden"@)) || contains(
                cl,
                utf8("screen-reader"@),
            )
        },
        None => false,
    }
}

/// One footer `<h2>` (the `j`-th of the `i`-th footer): a heading the
/// Markdown lacks, other than a generic footer title or hidden text, is
/// appended as `## heading`.
pub open spec fn cta_heading_step(html: Seq<char>, b: Seq<u8>, i: int, j: int) -> Seq<u8> {
    let t = trim(nested_texts_of(html, "footer"@, "h2"@)[i][j]);
    let lo = lowercase_of(t);
    if t.len() == 0 || holds_text(b, t) || lo == "footer"@ || lo == "navigation"@ || lo == "site map"@
        || hidden_class(nested_attrs_of(html, "footer"@, "h2"@, "class"@)[i][j]) {
        b
    } else {
        b + utf8("\n\n## "@ + t + "\n\n"@)
    }
}

/// The first `m` headings of the `i`-th footer.
pub open spec fn cta_headings_upto(html: Seq<char>, b: Seq<u8>, i: int, m: nat) -> Seq<u8>
    decreases m,
{
    if m == 0 {
        b
    } else {
        cta_heading_step(html, cta_headings_upto(html, b, i, (m - 1) as nat), i, m - 1)
    }
}

/// A link to documentation, an app or an API.
pub open spec fn is_cta_link(h: Seq<char>) -> bool {
    let hl = utf8(lowercase_of(h));
    contains(hl, utf8("docs."@)) || contains(hl, utf8("/docs"@)) || contains(hl, utf8("app."@)) || contains(
        hl,
        utf8("/app"@),
    ) || contains(hl, utf8("api."@))
}

/// One footer link: a call to action whose text the Markdown lacks is
/// appended as a Markdown link and recovered.
pub open spec fn cta_link_step(
    html: Seq<char>,
    base: Option<Seq<char>>,
    st: (Seq<u8>, Seq<(Seq<char>, Seq<char>)>),
    i: int,
    j: int,
) -> (Seq<u8>, Seq<(Seq<char>, Seq<char>)>) {
    match nested_attrs_of(html, "footer"@, "a"@, "href"@)[i][j] {
        None => st,
        Some(raw) => {
            let h = resolved_href(raw, base);
            let t = trim(nested_texts_of(html, "footer"@, "a"@)[i][j]);
            if t.len() == 0 || h.len() == 0 || !is_cta_link(h) || holds_text(st.0, t) {
                st
            } else {
                (st.0 + utf8("["@ + t + "]("@ + h + ")\n\n"@), st.1.push((t, h)))
            }
        },
    }
}

/// The first `m` links of the `i`-th footer.
pub open spec fn cta_links_upto(
    html: Seq<char>,
    base: Option<Seq<char>>,
    st: (Seq<u8>, Seq<(Seq<char>, Seq<char>)>),
    i: int,
    m: nat,
) -> (Seq<u8>, Seq<(Seq<char>, Seq<char>)>)
    decreases m,
{
    if m == 0 {
        st
    } else {
        cta_link_step(html, base, cta_links_upto(html, base, st, i, (m - 1) as nat), i, m - 1)
    }
}

/// One footer: its headings, then its links.
pub open spec fn cta_footer_step(
    html: Seq<char>,
    base: Option<Seq<char>>,
    st: (Seq<u8>, Seq<(Seq<char>, Seq<char>)>),
    i: int,
) -> (Seq<u8>, Seq<(Seq<char>, Seq<char>)>) {
    let b1 = cta_headings_upto(html, st.0, i, nested_texts_of(html, "footer"@, "h2"@)[i].len());
    cta_links_upto(html, base, (b1, st.1), i, nested_texts_of(html, "footer"@, "a"@)[i].len())
}

/// The first `n` footers.
pub open spec fn cta_upto(
    html: Seq<char>,
    base: Option<Seq<char>>,
    st: (Seq<u8>, Seq<(Seq<char>, Seq<char>)>),
    n: nat,
) -> (Seq<u8>, Seq<(Seq<char>, Seq<char>)>)
    decreases n,
{
    if n == 0 {
        st
    } else {
        cta_footer_step(html, base, cta_upto(html, base, st, (n - 1) as nat), n - 1)
    }
}

/// The footer call-to-action pass over every footer.
pub open spec fn cta_pass(
    html: Seq<char>,
    base: Option<Seq<char>>,
    st: (Seq<u8>, Seq<(Seq<char>, Seq<char>)>),
) -> (Seq<u8>, Seq<(Seq<char>, Seq<char>)>) {
    cta_upto(html, base, st, element_texts_of(html, "footer"@).len())
}

fn lower_contains(s: &str, n: &str) -> (r: bool)
    ensures
        r == contains(utf8(lowercase_of(s@)), utf8(n@)),
{
    let l = to_lowercase(s);
    contains_str(l.as_str(), n)
}

/// Runs the footer call-to-action pass (see `cta_pass`).
pub fn recover_footer_cta(html: &str, base: Option<&str>, md: String, links: &mut Vec<(String, String)>) -> (r: String)
    ensures
        (utf8(r@), pairs_view(final(links)@)) == cta_pass(html@, opt_str_view(base), (utf8(md@), pairs_view(old(links)@))),
{
    let h_texts = nested_texts(html, "footer", "h2");
    let h_classes = nested_attrs(html, "footer", "h2", "class");
    let a_texts = nested_texts(html, "footer", "a");
    let a_hrefs = nested_attrs(html, "footer", "a", "href");
    let ghost bv = opt_str_view(base);
    let ghost st0 = (utf8(md@), pairs_view(links@));
    let mut m = md;
    let mut i: usize = 0;
    while i < h_texts.len()
        invariant
            i <= h_texts@.len(),
            bv == opt_str_view(base),
            h_texts@.len() == element_texts_of(html@, "footer"@).len(),
            a_texts@.len() == element_texts_of(html@, "footer"@).len(),
            rows_view(h_texts@) == nested_texts_of(html@, "footer"@, "h2"@),
            opt_rows_view(h_classes@) == nested_attrs_of(html@, "footer"@, "h2"@, "class"@),
            same_shape(opt_rows_view(h_classes@), nested_texts_of(html@, "footer"@, "h2"@)),
            rows_view(a_texts@) == nested_texts_of(html@, "footer"@, "a"@),
            opt_rows_view(a_hrefs@) == nested_attrs_of(html@, "footer"@, "a"@, "href"@),
            same_shape(opt_rows_view(a_hrefs@), nested_texts_of(html@, "footer"@, "a"@)),
            (utf8(m@), pairs_view(links@)) == cta_upto(html@, bv, st0, i as nat),
        decreases h_texts@.len() - i,
    {
        let ghost sti = (utf8(m@), pairs_view(links@));
        assert(rows_view(h_texts@)[i as int] == strings_view(h_texts@[i as int]@));
        assert(opt_rows_view(h_classes@)[i as int] == opt_strings_view(h_classes@[i as int]@));
        assert(opt_rows_view(h_classes@)[i as int].len() == rows_view(h_texts@)[i as int].len());
        let hs = &h_texts[i];
        let cs = &h_classes[i];
        let mut j: usize = 0;
        while j < hs.len()
            invariant
                j <= hs@.len(),
                cs@.len() == hs@.len(),
                i < h_texts@.len(),
                strings_view(hs@) == nested_texts_of(html@, "footer"@, "h2"@)[i as int],
                opt_strings_view(cs@) == nested_attrs_of(html@, "footer"@, "h2"@, "class"@)[i as int],
                utf8(m@) == cta_headings_upto(html@, sti.0, i as int, j as nat),
            decreases hs@.len() - j,
        {
            let t = trimmed(hs[j].as_str());
            assert(strings_view(hs@)[j as int] == hs@[j as int]@);
            assert(opt_strings_view(cs@)[j as int] == match cs@[j as int] {
                Some(c) => Some(c@),
                None => None::<Seq<char>>,
            });
            let lo = to_lowercase(t.as_str());
            let hidden = match &cs[j] {
                Some(c) => lower_contains(c.as_str(), "sr-only") || lower_contains(c.as_str(), "visually-hidden")
                    || lower_contains(c.as_str(), "screen-reader"),
                None => false,
            };
            if !is_empty_str(t.as_str()) && !has_text(&m, t.as_str()) && !crate::text::str_eq(lo.as_str(), "footer")
                && !crate::text::str_eq(lo.as_str(), "navigation") && !crate::text::str_eq(lo.as_str(), "site map")
                && !hidden {
                let line = concat3("\n\n## ", t.as_str(), "\n\n");
                append_text(&mut m, line.as_str());
            }
            j += 1;
        }
        assert(rows_view(a_texts@)[i as int] == strings_view(a_texts@[i as int]@));
        assert(opt_rows_view(a_hrefs@)[i as int] == opt_strings_view(a_hrefs@[i as int]@));
        assert(opt_rows_view(a_hrefs@)[i as int].len() == rows_view(a_texts@)[i as int].len());
        let ts = &a_texts[i];
        let hrefs = &a_hrefs[i];
        let ghost b1 = utf8(m@);
        let mut j: usize = 0;
        while j < ts.len()
            invariant
                j <= ts@.len(),
                hrefs@.len() == ts@.len(),
                bv == opt_str_view(base),
                strings_view(ts@) == nested_texts_of(html@, "footer"@, "a"@)[i as int],
                opt_strings_view(hrefs@) == nested_attrs_of(html@, "footer"@, "a"@, "href"@)[i as int],
                (utf8(m@), pairs_view(links@)) == cta_links_upto(html@, bv, (b1, sti.1), i as int, j as nat),
            decreases ts@.len() - j,
        {
            assert(strings_view(ts@)[j as int] == ts@[j as int]@);
            assert(opt_strings_view(hrefs@)[j as int] == match hrefs@[j as int] {
                Some(h) => Some(h@),
                None => None::<Seq<char>>,
            });
            match &hrefs[j] {
                Some(raw) => {
                    let h = resolve_href(raw.as_str(), base);
                    let t = trimmed(ts[j].as_str());
                    let cta = lower_contains(h.as_str(), "docs.") || lower_contains(h.as_str(), "/docs")
                        || lower_contains(h.as_str(), "app.") || lower_contains(h.as_str(), "/app")
                        || lower_contains(h.as_str(), "api.");
                    if !is_empty_str(t.as_str()) && !is_empty_str(h.as_str()) && cta && !has_text(&m, t.as_str()) {
                        let mut line = concat3("[", t.as_str(), "](");
                        line.append(h.as_str());
                        line.append(")\n\n");
                        append_text(&mut m, line.as_str());
                        let ghost p0 = links@;
                        links.push((t, h));
                        assert(pairs_view(links@) =~= pairs_view(p0).push((t@, h@)));
                    }
                },
                None => {},
            }
            j += 1;
        }
        i += 1;
    }
    m
}

// ---------------------------------------------------------------------------
// Footer sitemap
// ---------------------------------------------------------------------------

/// Selector of footer category headings.
pub open spec fn footer_heading_css() -> Seq<char> {
    "h2, h3, h4, h5, h6"@
}

/// Generic link words that name no destination.
pub open spec fn is_filler(l: Seq<char>) -> bool {
    l == "here"@ || l == "link"@ || l == "click"@ || l == "more"@
}

/// The category links among the first `n` anchors: trimmed text of 2 to 59
/// bytes that is not a filler word, and a non-empty resolved `href`.
pub open spec fn category_filter(
    texts: Seq<Seq<char>>,
    hrefs: Seq<Option<Seq<char>>>,
    base: Option<Seq<char>>,
    n: nat,
) -> Seq<(Seq<char>, Seq<char>)>
    decreases n,
{
    if n == 0 || n > texts.len() {
        Seq::empty()
    } else {
        let rest = category_filter(texts, hrefs, base, (n - 1) as nat);
        let t = trim(texts[n - 1]);
        match hrefs[n - 1] {
            Some(raw) => {
                let h = resolved_href(raw, base);
                if t.len() > 0 && h.len() > 0 && 1 < utf8(t).len() < 60 && !is_filler(lowercase_of(t)) {
                    rest.push((t, h))
                } else {
                    rest
                }
            },
            None => rest,
        }
    }
}

/// The links of the `level`-th ancestor of the `j`-th heading of the `i`-th
/// footer, when it holds at least two anchors.
pub open spec fn category_level(html: Seq<char>, base: Option<Seq<char>>, i: nat, j: nat, level: nat) -> Option<
    Seq<(Seq<char>, Seq<char>)>,
> {
    let ts = nested_ancestor_texts_of(html, "footer"@, i, footer_heading_css(), j, level, "a"@);
    if ts.len() >= 2 {
        Some(
            category_filter(
                ts,
                nested_ancestor_attrs_of(html, "footer"@, i, footer_heading_css(), j, level, "a"@, "href"@),
                base,
                ts.len(),
            ),
        )
    } else {
        None
    }
}

/// A heading's links: from its parent when that holds two anchors or more,
/// else from its grandparent, else none.
pub open spec fn category_links(html: Seq<char>, base: Option<Seq<char>>, i: nat, j: nat) -> Seq<(Seq<char>, Seq<char>)> {
    match category_level(html, base, i, j, 0) {
        Some(l) => l,
        None => match category_level(html, base, i, j, 1) {
            Some(l) => l,
            None => Seq::empty(),
        },
    }
}

/// The categories among the first `m` headings of the `i`-th footer: a
/// heading of at most 50 bytes, other than "footer", that the Markdown lacks,
/// with 2 to 20 links.
pub open spec fn categories_upto(html: Seq<char>, base: Option<Seq<char>>, b: Seq<u8>, i: nat, m: nat) -> Seq<
    (Seq<char>, Seq<(Seq<char>, Seq<char>)>),
>
    decreases m,
{
    if m == 0 {
        Seq::empty()
    } else {
        let prev = categories_upto(html, base, b, i, (m - 1) as nat);
        let ht = trim(nested_texts_of(html, "footer"@, footer_heading_css())[i as int][m - 1]);
        if ht.len() == 0 || utf8(ht).len() > 50 || ascii_lower_all(ht) == ascii_lower_all("footer"@) || holds_text(b, ht) {
            prev
        } else {
            let cl = category_links(html, base, i, (m - 1) as nat);
            if 2 <= cl.len() <= 20 {
                prev.push((ht, cl))
            } else {
                prev
            }
        }
    }
}

/// The link texts of some links.
pub open spec fn link_names(l: Seq<(Seq<char>, Seq<char>)>) -> Seq<Seq<char>> {
    l.map_values(|p: (Seq<char>, Seq<char>)| p.0)
}

/// The sitemap lines of the first `n` categories: `**heading**: a, b, c`.
pub open spec fn sitemap_lines(cats: Seq<(Seq<char>, Seq<(Seq<char>, Seq<char>)>)>, n: nat) -> Seq<char>
    decreases n,
{
    if n == 0 || n > cats.len() {
        Seq::empty()
    } else {
        sitemap_lines(cats, (n - 1) as nat) + ("**"@ + cats[n - 1].0 + "**: "@ + join(link_names(cats[n - 1].1), ", "@)
            + "\n"@)
    }
}

/// The links of the first `n` categories, in order.
pub open spec fn category_all_links(cats: Seq<(Seq<char>, Seq<(Seq<char>, Seq<char>)>)>, n: nat) -> Seq<
    (Seq<char>, Seq<char>),
>
    decreases n,
{
    if n == 0 || n > cats.len() {
        Seq::empty()
    } else {
        category_all_links(cats, (n - 1) as nat) + cats[n - 1].1
    }
}

/// One footer: with three categories or more, a sitemap section is appended
/// and its links recovered.
pub open spec fn sitemap_step(
    html: Seq<char>,
    base: Option<Seq<char>>,
    st: (Seq<u8>, Seq<(Seq<char>, Seq<char>)>),
    i: nat,
) -> (Seq<u8>, Seq<(Seq<char>, Seq<char>)>) {
    let cats = categories_upto(
        html,
        base,
        st.0,
        i,
        nested_texts_of(html, "footer"@, footer_heading_css())[i as int].len(),
    );
    if cats.len() < 3 {
        st
    } else {
        (
            st.0 + utf8("\n\n---\n\n"@ + sitemap_lines(cats, cats.len())),
            st.1 + category_all_links(cats, cats.len()),
        )
    }
}

/// The first `n` footers.
pub open spec fn sitemap_upto(
    html: Seq<char>,
    base: Option<Seq<char>>,
    st: (Seq<u8>, Seq<(Seq<char>, Seq<char>)>),
    n: nat,
) -> (Seq<u8>, Seq<(Seq<char>, Seq<char>)>)
    decreases n,
{
    if n == 0 {
        st
    } else {
        sitemap_step(html, base, sitemap_upto(html, base, st, (n - 1) as nat), (n - 1) as nat)
    }
}

/// The footer sitemap pass over every footer.
pub open spec fn sitemap_pass(
    html: Seq<char>,
    base: Option<Seq<char>>,
    st: (Seq<u8>, Seq<(Seq<char>, Seq<char>)>),
) -> (Seq<u8>, Seq<(Seq<char>, Seq<char>)>) {
    sitemap_upto(html, base, st, element_texts_of(html, "footer"@).len())
}

fn filter_category(texts: &Vec<String>, hrefs: &Vec<Option<String>>, base: Option<&str>) -> (r: Vec<(String, String)>)
    requires
        hrefs@.len() == texts@.len(),
    ensures
        pairs_view(r@) == category_filter(strings_view(texts@), opt_strings_view(hrefs@), opt_str_view(base), texts@.len()),
{
    let ghost tv = strings_view(texts@);
    let ghost hv = opt_strings_view(hrefs@);
    let mut out: Vec<(String, String)> = Vec::new();
    let mut i: usize = 0;
    while i < texts.len()
        invariant
            i <= texts@.len(),
            hrefs@.len() == texts@.len(),
            tv == strings_view(texts@),
            hv == opt_strings_view(hrefs@),
            pairs_view(out@) == category_filter(tv, hv, opt_str_view(base), i as nat),
        decreases texts@.len() - i,
    {
        let t = trimmed(texts[i].as_str());
        assert(tv[i as int] == texts@[i as int]@);
        assert(hv[i as int] == match hrefs@[i as int] {
            Some(h) => Some(h@),
            None => None::<Seq<char>>,
        });
        match &hrefs[i] {
            Some(raw) => {
                let h = resolve_href(raw.as_str(), base);
                let n = t.as_str().as_bytes().len();
                let lo = to_lowercase(t.as_str());
                let filler = crate::text::str_eq(lo.as_str(), "here") || crate::text::str_eq(lo.as_str(), "link")
                    || crate::text::str_eq(lo.as_str(), "click") || crate::text::str_eq(lo.as_str(), "more");
                if !is_empty_str(t.as_str()) && !is_empty_str(h.as_str()) && 1 < n && n < 60 && !filler {
                    let ghost o0 = out@;
                    out.push((t, h));
                    assert(pairs_view(out@) =~= pairs_view(o0).push((t@, h@)));
                }
            },
            None => {},
        }
        i += 1;
    }
    out
}

fn heading_links(html: &str, base: Option<&str>, i: usize, j: usize) -> (r: Vec<(String, String)>)
    ensures
        pairs_view(r@) == category_links(html@, opt_str_view(base), i as nat, j as nat),
{
    let ts = nested_ancestor_texts(html, "footer", i, "h2, h3, h4, h5, h6", j, 0, "a");
    if ts.len() >= 2 {
        let hs = nested_ancestor_attrs(html, "footer", i, "h2, h3, h4, h5, h6", j, 0, "a", "href");
        return filter_category(&ts, &hs, base);
    }
    let ts = nested_ancestor_texts(html, "footer", i, "h2, h3, h4, h5, h6", j, 1, "a");
    if ts.len() >= 2 {
        let hs = nested_ancestor_attrs(html, "footer", i, "h2, h3, h4, h5, h6", j, 1, "a", "href");
        return filter_category(&ts, &hs, base);
    }
    let r: Vec<(String, String)> = Vec::new();
    assert(pairs_view(r@) =~= Seq::<(Seq<char>, Seq<char>)>::empty());
    r
}

/// The views of some categories.
pub open spec fn cats_view(v: Seq<(String, Vec<(String, String)>)>) -> Seq<(Seq<char>, Seq<(Seq<char>, Seq<char>)>)> {
    v.map_values(|c: (String, Vec<(String, String)>)| (c.0@, pairs_view(c.1@)))
}

fn link_texts(l: &Vec<(String, String)>) -> (r: Vec<String>)
    ensures
        strings_view(r@) == link_names(pairs_view(l@)),
{
    let mut out: Vec<String> = Vec::new();
    let mut i: usize = 0;
    while i < l.len()
        invariant
            i <= l@.len(),
            strings_view(out@) == link_names(pairs_view(l@)).take(i as int),
        decreases l@.len() - i,
    {
        let ghost o0 = out@;
        out.push(l[i].0.clone());
        assert(strings_view(out@) =~= strings_view(o0).push(l@[i as int].0@));
        assert(link_names(pairs_view(l@)).take(i + 1) =~= link_names(pairs_view(l@)).take(i as int).push(
            l@[i as int].0@,
        ));
        i += 1;
    }
    assert(link_names(pairs_view(l@)).take(l@.len() as int) =~= link_names(pairs_view(l@)));
    out
}

fn recover_sitemap_at(html: &str, base: Option<&str>, md: String, links: &mut Vec<(String, String)>, i: usize, heads: &Vec<String>) -> (r: String)
    requires
        strings_view(heads@) == nested_texts_of(html@, "footer"@, footer_heading_css())[i as int],
    ensures
        (utf8(r@), pairs_view(final(links)@)) == sitemap_step(html@, opt_str_view(base), (utf8(md@), pairs_view(old(links)@)), i as nat),
{
    let ghost b = utf8(md@);
    let ghost bv = opt_str_view(base);
    let mut cats: Vec<(String, Vec<(String, String)>)> = Vec::new();
    let mut j: usize = 0;
    proof {
        reveal_strlit("h2, h3, h4, h5, h6");
    }
    while j < heads.len()
        invariant
            j <= heads@.len(),
            b == utf8(md@),
            bv == opt_str_view(base),
            strings_view(heads@) == nested_texts_of(html@, "footer"@, footer_heading_css())[i as int],
            cats_view(cats@) == categories_upto(html@, bv, b, i as nat, j as nat),
        decreases heads@.len() - j,
    {
        let ht = trimmed(heads[j].as_str());
        assert(strings_view(heads@)[j as int] == heads@[j as int]@);
        if !is_empty_str(ht.as_str()) && ht.as_str().as_bytes().len() <= 50 && !eq_ignore_ascii_case(ht.as_str(), "footer")
            && !has_text(&md, ht.as_str()) {
            let cl = heading_links(html, base, i, j);
            if 2 <= cl.len() && cl.len() <= 20 {
                let ghost c0 = cats@;
                cats.push((ht, cl));
                assert(cats_view(cats@) =~= cats_view(c0).push((ht@, pairs_view(cl@))));
            }
        }
        j += 1;
    }
    let ghost cv = cats_view(cats@);
    if cats.len() < 3 {
        return md;
    }
    let mut section = String::from_str("\n\n---\n\n");
    let ghost s0 = section@;
    let ghost l0 = pairs_view(links@);
    let mut c: usize = 0;
    while c < cats.len()
        invariant
            c <= cats@.len(),
            cv == cats_view(cats@),
            section@ == s0 + sitemap_lines(cv, c as nat),
            pairs_view(links@) == l0 + category_all_links(cv, c as nat),
        decreases cats@.len() - c,
    {
        let names = link_texts(&cats[c].1);
        let joined = join_strings(&names, ", ");
        assert(cv[c as int] == (cats@[c as int].0@, pairs_view(cats@[c as int].1@)));
        section.append("**");
        section.append(cats[c].0.as_str());
        section.append("**: ");
        section.append(joined.as_str());
        section.append("\n");
        let cl = &cats[c].1;
        let mut k: usize = 0;
        let ghost lk = pairs_view(links@);
        while k < cl.len()
            invariant
                k <= cl@.len(),
                pairs_view(links@) == lk + pairs_view(cl@).take(k as int),
            decreases cl@.len() - k,
        {
            let ghost p0 = links@;
            links.push((cl[k].0.clone(), cl[k].1.clone()));
            assert(pairs_view(links@) =~= pairs_view(p0).push((cl@[k as int].0@, cl@[k as int].1@)));
            assert(pairs_view(cl@).take(k + 1) =~= pairs_view(cl@).take(k as int).push((cl@[k as int].0@, cl@[k as int].1@)));
            k += 1;
        }
        assert(pairs_view(cl@).take(cl@.len() as int) =~= pairs_view(cl@));
        c += 1;
    }
    let mut m = md;
    append_text(&mut m, section.as_str());
    m
}

/// Runs the footer sitemap pass (see `sitemap_pass`).
pub fn recover_footer_sitemap(html: &str, base: Option<&str>, md: String, links: &mut Vec<(String, String)>) -> (r: String)
    ensures
        (utf8(r@), pairs_view(final(links)@)) == sitemap_pass(html@, opt_str_view(base), (utf8(md@), pairs_view(old(links)@))),
{
    let heads = nested_texts(html, "footer", "h2, h3, h4, h5, h6");
    let ghost bv = opt_str_view(base);
    let ghost st0 = (utf8(md@), pairs_view(links@));
    proof {
        reveal_strlit("h2, h3, h4, h5, h6");
    }
    let mut m = md;
    let mut i: usize = 0;
    while i < heads.len()
        invariant
            i <= heads@.len(),
            bv == opt_str_view(base),
            heads@.len() == element_texts_of(html@, "footer"@).len(),
            rows_view(heads@) == nested_texts_of(html@, "footer"@, footer_heading_css()),
            (utf8(m@), pairs_view(links@)) == sitemap_upto(html@, bv, st0, i as nat),
        decreases heads@.len() - i,
    {
        assert(rows_view(heads@)[i as int] == strings_view(heads@[i as int]@));
        m = recover_sitemap_at(html, base, m, links, i, &heads[i]);
        i += 1;
    }
    m
}

// ---------------------------------------------------------------------------
// All passes
// ---------------------------------------------------------------------------

/// The Markdown (as bytes) and links after every recovery pass, in order:
/// the heading and hero paragraph, announcement banners, section headings
/// and taglines, footer calls to action, the footer sitemap.
pub open spec fn recovered(
    html: Seq<char>,
    base: Option<Seq<char>>,
    b: Seq<u8>,
    h1: Seq<char>,
    links: Seq<(Seq<char>, Seq<char>)>,
) -> (Seq<u8>, Seq<(Seq<char>, Seq<char>)>) {
    let s2 = announcement_pass(html, base, (heading_pass(html, b, h1), links));
    let s4 = cta_pass(html, base, (section_pass(html, s2.0), s2.1));
    sitemap_pass(html, base, s4)
}

/// The Markdown after every recovery pass.
pub open spec fn recovered_markdown(html: Seq<char>, base: Option<Seq<char>>, md: Seq<char>, h1: Seq<char>) -> Seq<char> {
    decode_utf8(recovered(html, base, utf8(md), h1, Seq::empty()).0)
}

/// Recovers content that noise filtering dropped from `markdown`, reading
/// the page `html` (links resolved against `base_url`): see `recovered`.
/// Recovered links are appended to `links`.
pub fn recover_content(
    html: &str,
    base_url: Option<&str>,
    markdown: &mut String,
    recovered_h1: &str,
    links: &mut Vec<(String, String)>,
)
    ensures
        utf8(final(markdown)@) == recovered(
            html@,
            opt_str_view(base_url),
            utf8(old(markdown)@),
            recovered_h1@,
            pairs_view(old(links)@),
        ).0,
        pairs_view(final(links)@) == recovered(
            html@,
            opt_str_view(base_url),
            utf8(old(markdown)@),
            recovered_h1@,
            pairs_view(old(links)@),
        ).1,
{
    let mut md = String::new();
    std::mem::swap(&mut md, markdown);
    let m1 = recover_heading(html, md, recovered_h1);
    let m2 = recover_announcements(html, base_url, m1, links);
    let m3 = recover_section_headings(html, m2);
    let m4 = recover_footer_cta(html, base_url, m3, links);
    let m5 = recover_footer_sitemap(html, base_url, m4, links);
    *markdown = m5;
}

} // verus!
