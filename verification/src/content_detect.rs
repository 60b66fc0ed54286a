//! Heuristic detection of JS-only pages that need a real browser to render.

use vstd::prelude::*;
use crate::text::{
    ascii_lower, chars_of, contains, contains_str, is_white_space, is_whitespace, to_ascii_lower,
    utf8,
};

verus! {

/// Minimum visible text (in characters) for a page to count as real content.
pub const MIN_TEXT_LEN: usize = 200;

/// Pages at least this large (in bytes) are checked for a thin text ratio.
pub const LARGE_HTML_THRESHOLD: usize = 10_000;

/// State of the visible-text scanner after a prefix of the page.
pub struct Scan {
    /// Visible non-whitespace characters counted so far.
    pub len: nat,
    /// Inside a tag (between `<` and `>`).
    pub in_tag: bool,
    /// Nesting depth of `<script>` / `<style>` (saturating).
    pub depth: u8,
}

/// `s` has `p` at character position `i`, comparing ASCII case-insensitively.
pub open spec fn lower_starts_at(s: Seq<char>, i: int, p: Seq<char>) -> bool {
    &&& 0 <= i
    &&& i + p.len() <= s.len()
    &&& forall|k: int| 0 <= k < p.len() ==> #[trigger] ascii_lower(s[i + k]) == p[k]
}

/// `<script`
pub open spec fn open_script() -> Seq<char> {
    seq!['<', 's', 'c', 'r', 'i', 'p', 't']
}

/// `</script`
pub open spec fn close_script() -> Seq<char> {
    seq!['<', '/', 's', 'c', 'r', 'i', 'p', 't']
}

/// `<style`
pub open spec fn open_style() -> Seq<char> {
    seq!['<', 's', 't', 'y', 'l', 'e']
}

/// `</style`
pub open spec fn close_style() -> Seq<char> {
    seq!['<', '/', 's', 't', 'y', 'l', 'e']
}

/// The scanner's reaction to character `j` of `s`.
pub open spec fn scan_step(s: Seq<char>, j: int, st: Scan) -> Scan {
    let c = ascii_lower(s[j]);
    if c == '<' {
        let d = if lower_starts_at(s, j, open_script()) {
            if st.depth == 255 { 255u8 } else { (st.depth + 1) as u8 }
        } else if lower_starts_at(s, j, close_script()) {
            if st.depth == 0 { 0u8 } else { (st.depth - 1) as u8 }
        } else if lower_starts_at(s, j, open_style()) {
            if st.depth == 255 { 255u8 } else { (st.depth + 1) as u8 }
        } else if lower_starts_at(s, j, close_style()) {
            if st.depth == 0 { 0u8 } else { (st.depth - 1) as u8 }
        } else {
            st.depth
        };
        Scan { len: st.len, in_tag: true, depth: d }
    } else if c == '>' {
        Scan { len: st.len, in_tag: false, depth: st.depth }
    } else if !st.in_tag && st.depth == 0 && !is_white_space(c) {
        Scan { len: st.len + 1, in_tag: st.in_tag, depth: st.depth }
    } else {
        st
    }
}

/// The scanner's state after the first `i` characters of `s`.
pub open spec fn scan(s: Seq<char>, i: nat) -> Scan
    decreases i,
{
    if i == 0 || i > s.len() {
        Scan { len: 0, in_tag: false, depth: 0 }
    } else {
        scan_step(s, i - 1, scan(s, (i - 1) as nat))
    }
}

/// The number of visible non-whitespace characters of a page: characters
/// outside tags and outside `<script>`/`<style>` content.
pub open spec fn visible_len(html: Seq<char>) -> nat {
    scan(html, html.len()).len
}

/// Whether `chars` has `p` at position `i`, ASCII case-insensitively.
fn lower_match(chars: &Vec<char>, i: usize, p: &Vec<char>) -> (r: bool)
    ensures
        r == lower_starts_at(chars@, i as int, p@),
{
    if i > chars.len() || p.len() > chars.len() - i {
        return false;
    }
    let mut k: usize = 0;
    while k < p.len()
        invariant
            i + p@.len() <= chars@.len(),
            chars@.len() == chars.len(),
            k <= p@.len(),
            forall|t: int| 0 <= t < k ==> #[trigger] ascii_lower(chars@[i + t]) == p@[t],
        decreases p@.len() - k,
    {
        if to_ascii_lower(chars[i + k]) != p[k] {
            return false;
        }
        k += 1;
    }
    true
}

/// Count visible non-whitespace characters (not bytes), skipping tags and
/// the content of `<script>` and `<style>` elements.
pub fn visible_text_len(html: &str) -> (n: usize)
    ensures
        n == visible_len(html@),
{
    let chars = chars_of(html);
    let os = vec!['<', 's', 'c', 'r', 'i', 'p', 't'];
    let cs = vec!['<', '/', 's', 'c', 'r', 'i', 'p', 't'];
    let ost = vec!['<', 's', 't', 'y', 'l', 'e'];
    let cst = vec!['<', '/', 's', 't', 'y', 'l', 'e'];
    assert(os@ =~= open_script());
    assert(cs@ =~= close_script());
    assert(ost@ =~= open_style());
    assert(cst@ =~= close_style());
    let mut len: usize = 0;
    let mut in_tag = false;
    let mut depth: u8 = 0;
    let mut i: usize = 0;
    while i < chars.len()
        invariant
            chars@ == html@,
            i <= chars@.len(),
            os@ == open_script(),
            cs@ == close_script(),
            ost@ == open_style(),
            cst@ == close_style(),
            scan(chars@, i as nat) == (Scan { len: len as nat, in_tag, depth }),
            len <= i,
        decreases chars@.len() - i,
    {
        let c = to_ascii_lower(chars[i]);
        if c == '<' {
            in_tag = true;
            if lower_match(&chars, i, &os) {
                depth = depth.saturating_add(1);
            } else if lower_match(&chars, i, &cs) {
                depth = depth.saturating_sub(1);
            } else if lower_match(&chars, i, &ost) {
                depth = depth.saturating_add(1);
            } else if lower_match(&chars, i, &cst) {
                depth = depth.saturating_sub(1);
            }
        } else if c == '>' {
            in_tag = false;
        } else if !in_tag && depth == 0 && !is_whitespace(c) {
            len += 1;
        }
        i += 1;
    }
    len
}

/// Whether a page contains one of the markers of a JS shell or challenge page.
pub open spec fn has_shell_marker(h: Seq<u8>) -> bool {
    ||| contains(h, utf8("challenge-platform"@))
    ||| contains(h, utf8("_cf_chl_opt"@))
    ||| contains(h, utf8("Enable JavaScript"@))
    ||| contains(h, utf8("enable JavaScript"@))
    ||| contains(h, utf8("JavaScript is required"@))
    ||| contains(h, utf8("You need to enable JavaScript"@))
    ||| contains(h, utf8("id=\"__next\"></div>"@))
    ||| contains(h, utf8("id=\"root\"></div>"@))
    ||| contains(h, utf8("id=\"app\"></div>"@))
}

/// Whether a page carries a marker of a client-side-rendering framework.
pub open spec fn has_spa_marker(h: Seq<u8>) -> bool {
    ||| contains(h, utf8("ng-version="@))
    ||| contains(h, utf8("__NUXT__"@))
    ||| contains(h, utf8("__remixContext"@))
    ||| contains(h, utf8("window.__INITIAL_STATE__"@))
    ||| contains(h, utf8("data-reactroot"@))
}

/// A page needs JS rendering when it carries a shell marker, when it has
/// fewer than [`MIN_TEXT_LEN`] visible characters, or when it is large (at
/// least [`LARGE_HTML_THRESHOLD`] bytes), its visible text is under 3% of its
/// size, and it carries a framework marker.
pub open spec fn needs_rendering(html: Seq<char>) -> bool {
    let bytes = utf8(html);
    let text = visible_len(html);
    ||| has_shell_marker(bytes)
    ||| text < MIN_TEXT_LEN
    ||| (bytes.len() >= LARGE_HTML_THRESHOLD && text * 100 < 3 * bytes.len() && has_spa_marker(
        bytes,
    ))
}

/// Returns true if the HTML looks like a JS shell without real content.
pub fn needs_js_rendering(html: &str) -> (r: bool)
    ensures
        r == needs_rendering(html@),
{
    let shell = contains_str(html, "challenge-platform") || contains_str(html, "_cf_chl_opt")
        || contains_str(html, "Enable JavaScript") || contains_str(html, "enable JavaScript")
        || contains_str(html, "JavaScript is required") || contains_str(
        html,
        "You need to enable JavaScript",
    ) || contains_str(html, "id=\"__next\"></div>") || contains_str(html, "id=\"root\"></div>")
        || contains_str(html, "id=\"app\"></div>");
    if shell {
        return true;
    }
    let text_len = visible_text_len(html);
    if text_len < MIN_TEXT_LEN {
        return true;
    }
    let html_len = html.as_bytes().len();
    if html_len >= LARGE_HTML_THRESHOLD {
        // The ratio test `text / html < 0.03`, in exact integer arithmetic.
        if (text_len as u128) * 100 < 3 * (html_len as u128) {
            return contains_str(html, "ng-version=") || contains_str(html, "__NUXT__")
                || contains_str(html, "__remixContext") || contains_str(
                html,
                "window.__INITIAL_STATE__",
            ) || contains_str(html, "data-reactroot");
        }
    }
    false
}

// ---------------------------------------------------------------------------
// Laws
// ---------------------------------------------------------------------------

/// A page carrying any JS-shell or challenge marker needs rendering,
/// whatever else it holds: the Cloudflare challenge scripts, an "enable
/// JavaScript" notice, or an empty Next.js / React / Vue mount point.
pub proof fn law_shell_markers_need_rendering(html: Seq<char>)
    ensures
        contains(utf8(html), utf8("challenge-platform"@)) ==> needs_rendering(html),
        contains(utf8(html), utf8("_cf_chl_opt"@)) ==> needs_rendering(html),
        contains(utf8(html), utf8("Enable JavaScript"@)) ==> needs_rendering(html),
        contains(utf8(html), utf8("enable JavaScript"@)) ==> needs_rendering(html),
        contains(utf8(html), utf8("JavaScript is required"@)) ==> needs_rendering(html),
        contains(utf8(html), utf8("You need to enable JavaScript"@)) ==> needs_rendering(html),
        contains(utf8(html), utf8("id=\"__next\"></div>"@)) ==> needs_rendering(html),
        contains(utf8(html), utf8("id=\"root\"></div>"@)) ==> needs_rendering(html),
        contains(utf8(html), utf8("id=\"app\"></div>"@)) ==> needs_rendering(html),
{
}

/// A page with fewer than 200 visible characters needs rendering.
pub proof fn law_thin_text_needs_rendering(html: Seq<char>)
    ensures
        visible_len(html) < 200 ==> needs_rendering(html),
{
}

/// A large page (10 000 bytes or more) whose visible text is under 3% of
/// its size and that carries a client-side framework marker needs rendering.
pub proof fn law_thin_framework_page_needs_rendering(html: Seq<char>)
    ensures
        (utf8(html).len() >= 10_000 && visible_len(html) * 100 < 3 * utf8(html).len() && (contains(
            utf8(html),
            utf8("ng-version="@),
        ) || contains(utf8(html), utf8("__NUXT__"@)) || contains(utf8(html), utf8("__remixContext"@))
            || contains(utf8(html), utf8("window.__INITIAL_STATE__"@)) || contains(
            utf8(html),
            utf8("data-reactroot"@),
        ))) ==> needs_rendering(html),
{
}

/// A page with no shell marker, at least 200 visible characters and under
/// 10 000 bytes is served as it is.
pub proof fn law_plain_small_page_needs_no_rendering(html: Seq<char>)
    ensures
        (!contains(utf8(html), utf8("challenge-platform"@)) && !contains(utf8(html), utf8("_cf_chl_opt"@))
            && !contains(utf8(html), utf8("Enable JavaScript"@)) && !contains(utf8(html), utf8("enable JavaScript"@))
            && !contains(utf8(html), utf8("JavaScript is required"@)) && !contains(
            utf8(html),
            utf8("You need to enable JavaScript"@),
        ) && !contains(utf8(html), utf8("id=\"__next\"></div>"@)) && !contains(
            utf8(html),
            utf8("id=\"root\"></div>"@),
        ) && !contains(utf8(html), utf8("id=\"app\"></div>"@)) && visible_len(html) >= 200 && utf8(html).len()
            < 10_000) ==> !needs_rendering(html),
{
}

} // verus!
