//! Text-level CSS class detection: recognising visible text that is really a
//! run of CSS utility class names (Tailwind, Bootstrap and the like).

use vstd::prelude::*;
use vstd::string::*;
use vstd::utf8::*;
use crate::text::{
    bytes_match_at, char_vecs_view, contains, lowercase_of, matches_at, slice_str,
    split_words, str_eq, string_from_chars, to_lowercase, utf8, words,
};

verus! {

broadcast use vstd::utf8::encode_utf8_valid_utf8;

/// Utility-class prefixes that mark a word as a class name, not prose.
pub open spec fn css_prefixes() -> Seq<Seq<char>> {
    seq![
        "text-"@,
        "bg-"@,
        "px-"@,
        "py-"@,
        "pt-"@,
        "pb-"@,
        "pl-"@,
        "pr-"@,
        "p-"@,
        "mx-"@,
        "my-"@,
        "mt-"@,
        "mb-"@,
        "ml-"@,
        "mr-"@,
        "m-"@,
        "w-"@,
        "h-"@,
        "min-"@,
        "max-"@,
        "flex-"@,
        "grid-"@,
        "col-"@,
        "row-"@,
        "gap-"@,
        "space-"@,
        "rounded-"@,
        "shadow-"@,
        "border-"@,
        "ring-"@,
        "outline-"@,
        "font-"@,
        "tracking-"@,
        "leading-"@,
        "decoration-"@,
        "opacity-"@,
        "transition-"@,
        "duration-"@,
        "delay-"@,
        "ease-"@,
        "translate-"@,
        "scale-"@,
        "rotate-"@,
        "origin-"@,
        "overflow-"@,
        "inset-"@,
        "divide-"@,
        "z-"@,
        "top-"@,
        "left-"@,
        "right-"@,
        "bottom-"@,
        "sr-"@,
        "not-"@,
        "group-"@,
        "peer-"@,
        "placeholder-"@,
        "focus-"@,
        "hover-"@,
        "active-"@,
        "disabled-"@,
        "dark-"@,
        "sm-"@,
        "md-"@,
        "lg-"@,
        "xl-"@,
        "2xl-"@,
    ]
}

/// Single-word utility class names.
pub open spec fn css_exact() -> Seq<Seq<char>> {
    seq![
        "flex"@,
        "grid"@,
        "block"@,
        "inline"@,
        "hidden"@,
        "static"@,
        "fixed"@,
        "absolute"@,
        "relative"@,
        "sticky"@,
        "isolate"@,
        "container"@,
        "prose"@,
        "antialiased"@,
        "truncate"@,
        "uppercase"@,
        "lowercase"@,
        "capitalize"@,
        "italic"@,
        "underline"@,
        "overline"@,
        "invisible"@,
        "visible"@,
        "sr-only"@,
        "not-sr-only"@,
    ]
}

/// The exact class names, in bytes.
pub open spec fn css_exact_bytes() -> Seq<Seq<u8>> {
    css_exact().map_values(|e: Seq<char>| utf8(e))
}

fn css_prefix_list() -> (v: Vec<&'static str>)
    ensures
        v@.map_values(|s: &str| s@) == css_prefixes(),
{
    let v = vec![
        "text-",
        "bg-",
        "px-",
        "py-",
        "pt-",
        "pb-",
        "pl-",
        "pr-",
        "p-",
        "mx-",
        "my-",
        "mt-",
        "mb-",
        "ml-",
        "mr-",
        "m-",
        "w-",
        "h-",
        "min-",
        "max-",
        "flex-",
        "grid-",
        "col-",
        "row-",
        "gap-",
        "space-",
        "rounded-",
        "shadow-",
        "border-",
        "ring-",
        "outline-",
        "font-",
        "tracking-",
        "leading-",
        "decoration-",
        "opacity-",
        "transition-",
        "duration-",
        "delay-",
        "ease-",
        "translate-",
        "scale-",
        "rotate-",
        "origin-",
        "overflow-",
        "inset-",
        "divide-",
        "z-",
        "top-",
        "left-",
        "right-",
        "bottom-",
        "sr-",
        "not-",
        "group-",
        "peer-",
        "placeholder-",
        "focus-",
        "hover-",
        "active-",
        "disabled-",
        "dark-",
        "sm-",
        "md-",
        "lg-",
        "xl-",
        "2xl-",
    ];
    assert(v@.map_values(|s: &str| s@) =~= css_prefixes());
    v
}

fn css_exact_list() -> (v: Vec<&'static str>)
    ensures
        v@.map_values(|s: &str| s@) == css_exact(),
{
    let v = vec![
        "flex",
        "grid",
        "block",
        "inline",
        "hidden",
        "static",
        "fixed",
        "absolute",
        "relative",
        "sticky",
        "isolate",
        "container",
        "prose",
        "antialiased",
        "truncate",
        "uppercase",
        "lowercase",
        "capitalize",
        "italic",
        "underline",
        "overline",
        "invisible",
        "visible",
        "sr-only",
        "not-sr-only",
    ];
    assert(v@.map_values(|s: &str| s@) =~= css_exact());
    v
}

/// The byte of `:`.
pub open spec fn colon() -> u8 {
    58u8
}

/// `i` is the position of the last `:` byte in `b`.
pub open spec fn is_last_colon(b: Seq<u8>, i: int) -> bool {
    &&& 0 <= i < b.len()
    &&& b[i] == colon()
    &&& forall|j: int| i < j < b.len() ==> b[j] != colon()
}

/// The part of a word after its last `:` (Tailwind variant prefixes such as
/// `sm:` or `dark:hover:` removed), or the whole word when it has none.
pub open spec fn variant_core_bytes(b: Seq<u8>) -> Seq<u8> {
    if exists|i: int| is_last_colon(b, i) {
        b.subrange((choose|i: int| is_last_colon(b, i)) + 1, b.len() as int)
    } else {
        b
    }
}

/// The lowercased variant core of a word, in bytes.
pub open spec fn lowered_core(word: Seq<char>) -> Seq<u8> {
    utf8(lowercase_of(decode_utf8(variant_core_bytes(utf8(word)))))
}

/// `b` starts with one of the utility-class prefixes at byte `at`.
pub open spec fn has_css_prefix_at(b: Seq<u8>, at: int) -> bool {
    exists|i: int| 0 <= i < css_prefixes().len() && #[trigger] matches_at(b, utf8(css_prefixes()[i]), at)
}

/// A single word looks like a CSS utility class: after dropping variant
/// prefixes and lowercasing it has an arbitrary-value bracket pair, is one of
/// the exact class names, starts with a utility prefix, or is a negative
/// utility (`-` followed by a utility prefix).
pub open spec fn css_class_word(word: Seq<char>) -> bool {
    let b = lowered_core(word);
    ||| (contains(b, seq![91u8]) && contains(b, seq![93u8]))
    ||| css_exact_bytes().contains(b)
    ||| has_css_prefix_at(b, 0)
    ||| (b.len() > 1 && b[0] == 45u8 && has_css_prefix_at(b, 1))
}

/// Strip Tailwind variant prefixes: the part after the last `:`.
fn strip_tw_variant_prefix(word: &str) -> (core: &str)
    ensures
        core.spec_bytes() == variant_core_bytes(word.spec_bytes()),
{
    let b = word.as_bytes();
    let mut i: usize = b.len();
    while i > 0
        invariant
            i <= b@.len(),
            b@ == word.spec_bytes(),
            forall|j: int| i <= j < b@.len() ==> b@[j] != colon(),
        decreases i,
    {
        if b[i - 1] == 58u8 {
            let ghost k = i - 1;
            proof {
                assert(is_last_colon(b@, k as int));
                let c = choose|c: int| is_last_colon(b@, c);
                assert(c == k);
                crate::text::lemma_boundary_after_ascii(word, i as int);
                crate::text::lemma_boundary_at(word, b@.len() as int);
            }
            return slice_str(word, i, b.len());
        }
        i -= 1;
    }
    proof {
        assert(!exists|c: int| is_last_colon(b@, c));
        vstd::utf8::is_char_boundary_start_end_of_seq(word.spec_bytes());
    }
    let r = slice_str(word, 0, b.len());
    assert(r.spec_bytes() =~= word.spec_bytes());
    r
}

/// Whether the byte `x` occurs in `b`.
fn contains_byte(b: &[u8], x: u8) -> (r: bool)
    ensures
        r == contains(b@, seq![x]),
{
    let mut i: usize = 0;
    while i < b.len()
        invariant
            i <= b@.len(),
            forall|j: int| 0 <= j < i ==> b@[j] != x,
        decreases b@.len() - i,
    {
        if b[i] == x {
            assert(b@.subrange(i as int, i + 1) =~= seq![x]);
            assert(matches_at(b@, seq![x], i as int));
            return true;
        }
        i += 1;
    }
    assert forall|j: int| 0 <= j implies !#[trigger] matches_at(b@, seq![x], j) by {
        if matches_at(b@, seq![x], j) {
            assert(b@.subrange(j, j + 1)[0] == b@[j]);
        }
    }
    false
}

/// Whether `b` starts with one of the utility prefixes at byte `at`.
fn css_prefix_at(b: &[u8], at: usize) -> (r: bool)
    ensures
        r == has_css_prefix_at(b@, at as int),
{
    let prefixes = css_prefix_list();
    let mut i: usize = 0;
    while i < prefixes.len()
        invariant
            prefixes@.map_values(|s: &str| s@) == css_prefixes(),
            i <= prefixes@.len(),
            forall|j: int| 0 <= j < i ==> !#[trigger] matches_at(b@, utf8(css_prefixes()[j]), at as int),
        decreases prefixes@.len() - i,
    {
        let p = prefixes[i];
        assert(p@ == css_prefixes()[i as int]);
        if bytes_match_at(b, p.as_bytes(), at) {
            assert(matches_at(b@, utf8(css_prefixes()[i as int]), at as int));
            return true;
        }
        i += 1;
    }
    false
}

/// Whether a single whitespace-delimited word looks like a CSS utility class.
pub fn is_css_class_word(word: &str) -> (r: bool)
    ensures
        r == css_class_word(word@),
{
    let core = strip_tw_variant_prefix(word);
    proof {
        vstd::utf8::encode_utf8_decode_utf8(core@);
    }
    let lower = to_lowercase(core);
    let b = lower.as_str().as_bytes();
    let ghost lb = lowered_core(word@);
    assert(b@ == lb);
    if contains_byte(b, 91u8) && contains_byte(b, 93u8) {
        return true;
    }
    let exact = css_exact_list();
    let mut i: usize = 0;
    while i < exact.len()
        invariant
            exact@.map_values(|s: &str| s@) == css_exact(),
            i <= exact@.len(),
            b@ == lb,
            lb == utf8(lower@),
            lb == lowered_core(word@),
            forall|j: int| 0 <= j < i ==> utf8(css_exact()[j]) != lb,
        decreases exact@.len() - i,
    {
        let e = exact[i];
        assert(e@ == css_exact()[i as int]);
        if str_eq(lower.as_str(), e) {
            assert(i < css_exact_bytes().len());
            assert(css_exact_bytes()[i as int] == utf8(lower@));
            assert(css_exact_bytes().contains(lb));
            return true;
        }
        proof {
            if utf8(css_exact()[i as int]) == lb {
                crate::text::lemma_utf8_injective(css_exact()[i as int], lower@);
            }
        }
        i += 1;
    }
    assert(!css_exact_bytes().contains(lb));
    if css_prefix_at(b, 0) {
        return true;
    }
    b.len() > 1 && b[0] == 45u8 && css_prefix_at(b, 1)
}

/// The number of words of `ws` that look like CSS classes.
pub open spec fn css_word_count(ws: Seq<Seq<char>>) -> nat
    decreases ws.len(),
{
    if ws.len() == 0 {
        0
    } else {
        css_word_count(ws.drop_last()) + if css_class_word(ws.last()) { 1nat } else { 0nat }
    }
}

/// A text block is predominantly CSS class names: it has at least three
/// words and more than half of them look like classes.
pub open spec fn css_class_text(text: Seq<char>) -> bool {
    let ws = words(text);
    ws.len() >= 3 && css_word_count(ws) * 2 > ws.len()
}

/// Whether a text block is predominantly CSS class names.
pub fn is_css_class_text(text: &str) -> (r: bool)
    ensures
        r == css_class_text(text@),
{
    let ws = split_words(text);
    let ghost wv = char_vecs_view(ws@);
    if ws.len() < 3 {
        return false;
    }
    let mut count: usize = 0;
    let mut i: usize = 0;
    while i < ws.len()
        invariant
            wv == char_vecs_view(ws@),
            i <= ws@.len(),
            count == css_word_count(wv.take(i as int)),
            count <= i,
        decreases ws@.len() - i,
    {
        let w = string_from_chars(&ws[i]);
        let is_css = is_css_class_word(w.as_str());
        assert(wv.take(i + 1).drop_last() =~= wv.take(i as int));
        assert(wv.take(i + 1).last() == wv[i as int]);
        if is_css {
            count += 1;
        }
        i += 1;
    }
    assert(wv.take(ws@.len() as int) =~= wv);
    (count as u128) * 2 > (ws.len() as u128)
}

} // verus!
