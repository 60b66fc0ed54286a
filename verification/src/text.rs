//! Byte- and character-level text primitives shared by the scanners.
//!
//! A `&str` is modelled two ways: its characters `s@` and its UTF-8 bytes
//! `s.spec_bytes()`. Scanners that report positions speak in bytes (as `str`
//! offsets do); scanners that count or classify speak in characters.

use vstd::prelude::*;
use vstd::string::*;
use vstd::utf8::*;

verus! {

broadcast use vstd::utf8::encode_utf8_valid_utf8;

// ---------------------------------------------------------------------------
// Needle search over bytes
// ---------------------------------------------------------------------------

/// `n` occurs in `h` starting at byte `i`.
pub open spec fn matches_at(h: Seq<u8>, n: Seq<u8>, i: int) -> bool {
    &&& 0 <= i
    &&& i + n.len() <= h.len()
    &&& h.subrange(i, i + n.len()) == n
}

/// `i` is the first occurrence of `n` in `h` at or after `from`.
pub open spec fn is_first_match(h: Seq<u8>, n: Seq<u8>, from: int, i: int) -> bool {
    &&& from <= i
    &&& matches_at(h, n, i)
    &&& forall|j: int| from <= j < i ==> !#[trigger] matches_at(h, n, j)
}

/// `n` occurs in `h` at or after `from`.
pub open spec fn occurs_from(h: Seq<u8>, n: Seq<u8>, from: int) -> bool {
    exists|i: int| from <= i && #[trigger] matches_at(h, n, i)
}

/// The first occurrence of `n` in `h` at or after `from`, as `str::find` on
/// the slice starting at `from` reports it (shifted by `from`).
pub open spec fn find_from(h: Seq<u8>, n: Seq<u8>, from: int) -> Option<int> {
    if exists|i: int| is_first_match(h, n, from, i) {
        Some(choose|i: int| is_first_match(h, n, from, i))
    } else {
        None
    }
}

/// The first occurrence of `n` anywhere in `h`.
pub open spec fn find(h: Seq<u8>, n: Seq<u8>) -> Option<int> {
    find_from(h, n, 0)
}

/// `n` occurs somewhere in `h`.
pub open spec fn contains(h: Seq<u8>, n: Seq<u8>) -> bool {
    occurs_from(h, n, 0)
}

/// There is at most one first match.
pub proof fn lemma_first_match_unique(h: Seq<u8>, n: Seq<u8>, from: int, i: int, k: int)
    requires
        is_first_match(h, n, from, i),
        is_first_match(h, n, from, k),
    ensures
        i == k,
{
    if i < k {
        assert(!matches_at(h, n, i));
    } else if k < i {
        assert(!matches_at(h, n, k));
    }
}

/// A first match determines `find_from`.
pub proof fn lemma_find_from_is(h: Seq<u8>, n: Seq<u8>, from: int, i: int)
    requires
        is_first_match(h, n, from, i),
    ensures
        find_from(h, n, from) == Some(i),
{
    let k = choose|k: int| is_first_match(h, n, from, k);
    lemma_first_match_unique(h, n, from, i, k);
}

/// Whether `n` occurs in `h` at byte `i`.
pub fn bytes_match_at(h: &[u8], n: &[u8], i: usize) -> (r: bool)
    ensures
        r == matches_at(h@, n@, i as int),
{
    if i > h.len() || n.len() > h.len() - i {
        return false;
    }
    let mut k: usize = 0;
    while k < n.len()
        invariant
            i + n@.len() <= h@.len(),
            h@.len() == h.len(),
            n@.len() == n.len(),
            k <= n@.len(),
            forall|t: int| 0 <= t < k ==> h@[i + t] == n@[t],
        decreases n@.len() - k,
    {
        if h[i + k] != n[k] {
            assert(h@.subrange(i as int, i + n@.len())[k as int] != n@[k as int]);
            return false;
        }
        k += 1;
    }
    assert(h@.subrange(i as int, i + n@.len()) =~= n@);
    true
}

/// The first occurrence of `n` in `h` at or after `from`.
pub fn find_bytes_from(h: &[u8], n: &[u8], from: usize) -> (r: Option<usize>)
    ensures
        r matches Some(i) ==> is_first_match(h@, n@, from as int, i as int),
        r is None ==> forall|j: int| from <= j ==> !#[trigger] matches_at(h@, n@, j),
        r matches Some(i) ==> find_from(h@, n@, from as int) == Some(i as int),
        r is None ==> find_from(h@, n@, from as int) is None,
        r is None <==> !occurs_from(h@, n@, from as int),
{
    if from > h.len() || n.len() > h.len() {
        return None;
    }
    let last = h.len() - n.len();
    let mut i: usize = from;
    while i <= last
        invariant
            last + n@.len() == h@.len(),
            from <= i,
            forall|j: int| from <= j < i ==> !#[trigger] matches_at(h@, n@, j),
        decreases last + 1 - i,
    {
        if bytes_match_at(h, n, i) {
            proof {
                lemma_find_from_is(h@, n@, from as int, i as int);
            }
            return Some(i);
        }
        if i == last {
            return None;
        }
        i += 1;
    }
    None
}

/// The first occurrence of `n` in `h`.
pub fn find_bytes(h: &[u8], n: &[u8]) -> (r: Option<usize>)
    ensures
        r matches Some(i) ==> is_first_match(h@, n@, 0, i as int),
        r matches Some(i) ==> find(h@, n@) == Some(i as int),
        r is None ==> find(h@, n@) is None,
        r is None <==> !contains(h@, n@),
{
    find_bytes_from(h, n, 0)
}

/// Whether `n` occurs in `h`.
pub fn contains_bytes(h: &[u8], n: &[u8]) -> (r: bool)
    ensures
        r == contains(h@, n@),
{
    find_bytes(h, n).is_some()
}

/// Whether `h` starts with `n`.
pub fn starts_with_bytes(h: &[u8], n: &[u8]) -> (r: bool)
    ensures
        r == matches_at(h@, n@, 0),
{
    bytes_match_at(h, n, 0)
}

// ---------------------------------------------------------------------------
// Slicing at character boundaries
// ---------------------------------------------------------------------------

/// A byte that is not a UTF-8 continuation byte starts a character.
pub proof fn lemma_boundary_at(s: &str, i: int)
    requires
        0 <= i <= s.spec_bytes().len(),
        i == s.spec_bytes().len() || !is_continuation_byte(s.spec_bytes()[i]),
    ensures
        is_char_boundary(s.spec_bytes(), i),
{
    let b = s.spec_bytes();
    assert(valid_utf8(b));
    vstd::utf8::is_char_boundary_start_end_of_seq(b);
    if i < b.len() {
        vstd::utf8::is_char_boundary_iff_not_is_continuation_byte(b, i);
    }
}

/// An ASCII byte is never a continuation byte.
pub proof fn lemma_ascii_not_continuation(b: u8)
    requires
        b < 128,
    ensures
        !is_continuation_byte(b),
{
    assert(b < 128 ==> (b & 0xc0) != 0x80) by (bit_vector);
}

/// The bytes of `s` between two character boundaries, as a `&str`.
pub fn slice_str(s: &str, start: usize, end: usize) -> (r: &str)
    requires
        start <= end <= s.spec_bytes().len(),
        is_char_boundary(s.spec_bytes(), start as int),
        is_char_boundary(s.spec_bytes(), end as int),
    ensures
        r.spec_bytes() == s.spec_bytes().subrange(start as int, end as int),
{
    proof {
        vstd::utf8::valid_utf8_split(s.spec_bytes(), start as int);
        lemma_boundary_subrange(s.spec_bytes(), start as int, end as int);
    }
    let (_, rest) = s.split_at(start);
    let (mid, _) = rest.split_at(end - start);
    assert(mid.spec_bytes() =~= s.spec_bytes().subrange(start as int, end as int));
    mid
}

/// A boundary beyond `start` is still a boundary of the tail starting at `start`.
pub proof fn lemma_boundary_subrange(b: Seq<u8>, start: int, end: int)
    requires
        valid_utf8(b),
        0 <= start <= end <= b.len(),
        is_char_boundary(b, start),
        is_char_boundary(b, end),
    ensures
        is_char_boundary(b.subrange(start, b.len() as int), end - start),
{
    let t = b.subrange(start, b.len() as int);
    vstd::utf8::valid_utf8_split(b, start);
    vstd::utf8::is_char_boundary_start_end_of_seq(t);
    if end < b.len() {
        vstd::utf8::is_char_boundary_iff_not_is_continuation_byte(b, end);
        vstd::utf8::is_char_boundary_iff_not_is_continuation_byte(t, end - start);
        assert(t[end - start] == b[end]);
    } else {
        assert(t.len() == end - start);
    }
}

} // verus!

verus! {

// ---------------------------------------------------------------------------
// Equality and prefixes of whole strings
// ---------------------------------------------------------------------------

/// The UTF-8 bytes of a character sequence.
pub open spec fn utf8(s: Seq<char>) -> Seq<u8> {
    encode_utf8(s)
}

/// `p` is a byte prefix of `s`.
pub open spec fn is_prefix(p: Seq<u8>, s: Seq<u8>) -> bool {
    matches_at(s, p, 0)
}

/// Equal encodings come from equal character sequences.
pub proof fn lemma_utf8_injective(a: Seq<char>, b: Seq<char>)
    requires
        utf8(a) == utf8(b),
    ensures
        a == b,
{
    vstd::utf8::encode_utf8_decode_utf8(a);
    vstd::utf8::encode_utf8_decode_utf8(b);
}

/// Whether two strings hold the same characters.
pub fn str_eq(a: &str, b: &str) -> (r: bool)
    ensures
        r == (a@ == b@),
{
    let ab = a.as_bytes();
    let bb = b.as_bytes();
    if ab.len() != bb.len() {
        assert(a@ != b@);
        return false;
    }
    proof {
        if a@ == b@ {
            assert(ab@.subrange(0, bb@.len() as int) =~= bb@);
        }
    }
    let r = bytes_match_at(ab, bb, 0);
    proof {
        if r {
            assert(ab@.subrange(0, bb@.len() as int) =~= ab@);
            lemma_utf8_injective(a@, b@);
        }
    }
    r
}

/// Whether `s` starts with `p` (compared byte-wise, as `str::starts_with`).
pub fn str_starts_with(s: &str, p: &str) -> (r: bool)
    ensures
        r == is_prefix(utf8(p@), utf8(s@)),
{
    bytes_match_at(s.as_bytes(), p.as_bytes(), 0)
}

} // verus!

verus! {

/// The characters of `s`, in order.
pub fn chars_of(s: &str) -> (v: Vec<char>)
    ensures
        v@ == s@,
{
    let mut v: Vec<char> = Vec::new();
    for c in it: s.chars()
        invariant
            v@ == it.seq().take(it.index() as int),
    {
        v.push(c);
    }
    v
}

} // verus!

verus! {

// ---------------------------------------------------------------------------
// Character classes
// ---------------------------------------------------------------------------

/// Unicode `White_Space`, the property `char::is_whitespace` tests.
pub open spec fn is_white_space(c: char) -> bool {
    ||| ('\u{9}' <= c && c <= '\u{d}')
    ||| c == ' '
    ||| c == '\u{85}'
    ||| c == '\u{a0}'
    ||| c == '\u{1680}'
    ||| ('\u{2000}' <= c && c <= '\u{200a}')
    ||| c == '\u{2028}'
    ||| c == '\u{2029}'
    ||| c == '\u{202f}'
    ||| c == '\u{205f}'
    ||| c == '\u{3000}'
}

/// Whether `c` is Unicode white space (as `char::is_whitespace`).
pub fn is_whitespace(c: char) -> (r: bool)
    ensures
        r == is_white_space(c),
{
    ('\u{9}' <= c && c <= '\u{d}') || c == ' ' || c == '\u{85}' || c == '\u{a0}' || c == '\u{1680}'
        || ('\u{2000}' <= c && c <= '\u{200a}') || c == '\u{2028}' || c == '\u{2029}' || c
        == '\u{202f}' || c == '\u{205f}' || c == '\u{3000}'
}

/// ASCII lowercase of a character (other characters are unchanged).
pub open spec fn ascii_lower(c: char) -> char {
    if 'A' <= c && c <= 'Z' {
        ((c as u32) + 32) as char
    } else {
        c
    }
}

/// ASCII lowercase of a character, as `char::to_ascii_lowercase`.
pub fn to_ascii_lower(c: char) -> (r: char)
    ensures
        r == ascii_lower(c),
{
    if 'A' <= c && c <= 'Z' {
        ((c as u8) + 32) as char
    } else {
        c
    }
}

/// Whether `n` occurs in `h` (as `str::contains` with a string needle).
pub fn contains_str(h: &str, n: &str) -> (r: bool)
    ensures
        r == contains(utf8(h@), utf8(n@)),
{
    contains_bytes(h.as_bytes(), n.as_bytes())
}

} // verus!

verus! {

/// Calls `String::push`, which appends one character.
#[verifier::external_body]
pub(crate) fn push_char(s: &mut String, c: char)
    ensures
        final(s)@ == old(s)@.push(c),
{
    s.push(c);
}

/// A string holding the given characters.
pub fn string_from_chars(v: &Vec<char>) -> (s: String)
    ensures
        s@ == v@,
{
    let mut s = String::new();
    let mut i: usize = 0;
    while i < v.len()
        invariant
            i <= v@.len(),
            s@ == v@.take(i as int),
        decreases v@.len() - i,
    {
        push_char(&mut s, v[i]);
        assert(v@.take(i + 1) =~= v@.take(i as int).push(v@[i as int]));
        i += 1;
    }
    assert(v@.take(v@.len() as int) =~= v@);
    s
}

/// The Unicode lowercase mapping of a string, as `str::to_lowercase`
/// computes it.
pub uninterp spec fn lowercase_of(s: Seq<char>) -> Seq<char>;

/// Calls `str::to_lowercase`; the result is named `lowercase_of(s@)`. On
/// ASCII text the Unicode lowercase mapping is ASCII lowercasing.
#[verifier::external_body]
pub(crate) fn to_lowercase(s: &str) -> (r: String)
    ensures
        r@ == lowercase_of(s@),
        (forall|i: int| 0 <= i < s@.len() ==> (s@[i] as u32) < 128) ==> r@ == ascii_lower_all(s@),
{
    s.to_lowercase()
}

/// The Unicode uppercase mapping of a string, as `str::to_uppercase`
/// computes it.
pub uninterp spec fn uppercase_of(s: Seq<char>) -> Seq<char>;

/// Calls `str::to_uppercase`; the result is named `uppercase_of(s@)`. Every
/// character maps to one or more characters, so the result is empty exactly
/// when `s` is.
#[verifier::external_body]
pub(crate) fn to_uppercase(s: &str) -> (r: String)
    ensures
        r@ == uppercase_of(s@),
        r@.len() == 0 <==> s@.len() == 0,
{
    s.to_uppercase()
}

/// Splitting the first `i` characters of `s` into runs of non-whitespace:
/// the completed runs and the run in progress.
pub open spec fn word_state(s: Seq<char>, i: nat) -> (Seq<Seq<char>>, Seq<char>)
    decreases i,
{
    if i == 0 || i > s.len() {
        (Seq::empty(), Seq::empty())
    } else {
        let (done, cur) = word_state(s, (i - 1) as nat);
        if is_white_space(s[i - 1]) {
            if cur.len() == 0 {
                (done, cur)
            } else {
                (done.push(cur), Seq::empty())
            }
        } else {
            (done, cur.push(s[i - 1]))
        }
    }
}

/// The whitespace-separated words of `s`, as `str::split_whitespace` yields
/// them.
pub open spec fn words(s: Seq<char>) -> Seq<Seq<char>> {
    let (done, cur) = word_state(s, s.len());
    if cur.len() == 0 {
        done
    } else {
        done.push(cur)
    }
}

/// The characters of each string.
pub open spec fn strings_view(v: Seq<String>) -> Seq<Seq<char>> {
    v.map_values(|x: String| x@)
}

/// The characters of each vector.
pub open spec fn char_vecs_view(v: Seq<Vec<char>>) -> Seq<Seq<char>> {
    v.map_values(|x: Vec<char>| x@)
}

/// Split `s` into its whitespace-separated words.
pub fn split_words(s: &str) -> (ws: Vec<Vec<char>>)
    ensures
        char_vecs_view(ws@) == words(s@),
{
    let chars = chars_of(s);
    let mut done: Vec<Vec<char>> = Vec::new();
    let mut cur: Vec<char> = Vec::new();
    let mut i: usize = 0;
    while i < chars.len()
        invariant
            chars@ == s@,
            i <= chars@.len(),
            (char_vecs_view(done@), cur@) == word_state(chars@, i as nat),
        decreases chars@.len() - i,
    {
        let c = chars[i];
        let ghost d0 = done@;
        if is_whitespace(c) {
            if cur.len() != 0 {
                let finished = cur;
                cur = Vec::new();
                done.push(finished);
                assert(char_vecs_view(done@) =~= char_vecs_view(d0).push(finished@));
            }
        } else {
            cur.push(c);
        }
        i += 1;
    }
    if cur.len() != 0 {
        let ghost d0 = done@;
        let ghost c0 = cur@;
        done.push(cur);
        assert(char_vecs_view(done@) =~= char_vecs_view(d0).push(c0));
    }
    done
}

} // verus!

verus! {

/// The position right after an ASCII byte is a character boundary.
pub proof fn lemma_boundary_after_ascii(s: &str, i: int)
    requires
        0 < i <= s.spec_bytes().len(),
        s.spec_bytes()[i - 1] < 128,
    ensures
        is_char_boundary(s.spec_bytes(), i),
{
    let b = s.spec_bytes();
    assert(valid_utf8(b));
    vstd::utf8::is_char_boundary_start_end_of_seq(b);
    if i < b.len() {
        vstd::utf8::is_char_boundary_iff_not_is_continuation_byte(b, i - 1);
        vstd::utf8::valid_utf8_split(b, i - 1);
        let t = b.subrange(i - 1, b.len() as int);
        assert(t[0] == b[i - 1]);
        assert(valid_utf8(t));
        reveal_with_fuel(valid_utf8, 2);
        assert(length_of_first_scalar(t) == 1);
        let rest = pop_first_scalar(t);
        assert(rest =~= b.subrange(i, b.len() as int));
        assert(rest.len() > 0);
        assert(valid_first_scalar(rest));
        assert(rest[0] == b[i]);
        vstd::utf8::is_char_boundary_iff_not_is_continuation_byte(b, i);
    }
}

} // verus!

verus! {

/// ASCII lowercase of every character.
pub open spec fn ascii_lower_all(s: Seq<char>) -> Seq<char> {
    s.map_values(|c: char| ascii_lower(c))
}

/// A copy of `s` with ASCII letters lowercased (as `str::to_ascii_lowercase`).
pub fn ascii_lowercase(s: &str) -> (r: String)
    ensures
        r@ == ascii_lower_all(s@),
{
    let chars = chars_of(s);
    let mut r = String::new();
    let mut i: usize = 0;
    while i < chars.len()
        invariant
            chars@ == s@,
            i <= chars@.len(),
            r@ == ascii_lower_all(chars@.take(i as int)),
        decreases chars@.len() - i,
    {
        push_char(&mut r, to_ascii_lower(chars[i]));
        assert(ascii_lower_all(chars@.take(i + 1)) =~= ascii_lower_all(chars@.take(i as int)).push(
            ascii_lower(chars@[i as int]),
        ));
        i += 1;
    }
    assert(chars@.take(chars@.len() as int) =~= chars@);
    r
}

/// Whether two strings are equal ignoring ASCII case.
pub fn eq_ignore_ascii_case(a: &str, b: &str) -> (r: bool)
    ensures
        r == (ascii_lower_all(a@) == ascii_lower_all(b@)),
{
    let la = ascii_lowercase(a);
    let lb = ascii_lowercase(b);
    str_eq(la.as_str(), lb.as_str())
}

} // verus!

verus! {

/// Consuming a valid prefix of a valid sequence leaves a valid sequence and
/// ends on a character boundary.
pub proof fn lemma_valid_prefix(t: Seq<u8>, n: Seq<u8>)
    requires
        valid_utf8(t),
        valid_utf8(n),
        is_prefix(n, t),
    ensures
        is_char_boundary(t, n.len() as int),
        valid_utf8(t.subrange(n.len() as int, t.len() as int)),
    decreases n.len(),
{
    if n.len() == 0 {
        assert(t.subrange(0, t.len() as int) =~= t);
    } else {
        assert(t.subrange(0, n.len() as int) == n);
        assert(t[0] == n[0]);
        assert(t.len() > 0);
        let l = length_of_first_scalar(n);
        assert(length_of_first_scalar(t) == l);
        let pt = pop_first_scalar(t);
        let pn = pop_first_scalar(n);
        assert(pn.len() == n.len() - l);
        assert(pt.subrange(0, pn.len() as int) =~= pn) by {
            assert forall|k: int| 0 <= k < pn.len() implies pt[k] == pn[k] by {
                assert(pt[k] == t[k + l]);
                assert(pn[k] == n[k + l]);
                assert(t.subrange(0, n.len() as int)[k + l] == t[k + l]);
            }
        }
        lemma_valid_prefix(pt, pn);
        assert(pt.subrange(pn.len() as int, pt.len() as int) =~= t.subrange(
            n.len() as int,
            t.len() as int,
        ));
    }
}

/// Where a non-empty valid needle matches inside a string, both ends of the
/// match are character boundaries.
pub proof fn lemma_match_boundaries(s: &str, n: Seq<char>, c: int)
    requires
        matches_at(s.spec_bytes(), utf8(n), c),
        n.len() > 0,
    ensures
        is_char_boundary(s.spec_bytes(), c),
        is_char_boundary(s.spec_bytes(), c + utf8(n).len()),
{
    let h = s.spec_bytes();
    let nb = utf8(n);
    assert(valid_utf8(h));
    assert(valid_utf8(nb));
    vstd::utf8::encode_utf8_first_scalar(n);
    assert(nb.len() > 0);
    assert(h.subrange(c, c + nb.len())[0] == h[c]);
    assert(h[c] == nb[0]);
    assert(!is_continuation_byte(nb[0]));
    lemma_boundary_at(s, c);
    vstd::utf8::valid_utf8_split(h, c);
    let t = h.subrange(c, h.len() as int);
    assert(t.subrange(0, nb.len() as int) =~= nb);
    lemma_valid_prefix(t, nb);
    vstd::utf8::is_char_boundary_start_end_of_seq(h);
    if c + nb.len() < h.len() {
        vstd::utf8::is_char_boundary_iff_not_is_continuation_byte(t, nb.len() as int);
        assert(t[nb.len() as int] == h[c + nb.len()]);
        vstd::utf8::is_char_boundary_iff_not_is_continuation_byte(h, c + nb.len());
    }
}

/// The first occurrence of `n` in `h` at or after byte `from`.
pub fn find_str_from(h: &str, n: &str, from: usize) -> (r: Option<usize>)
    ensures
        match r {
            Some(i) => find_from(utf8(h@), utf8(n@), from as int) == Some(i as int) && is_first_match(
                utf8(h@),
                utf8(n@),
                from as int,
                i as int,
            ),
            None => find_from(utf8(h@), utf8(n@), from as int) is None,
        },
{
    find_bytes_from(h.as_bytes(), n.as_bytes(), from)
}

/// `e` is the largest character boundary of `b` not above `i`.
pub open spec fn is_floor_boundary(b: Seq<u8>, i: int, e: int) -> bool {
    &&& 0 <= e <= i
    &&& is_char_boundary(b, e)
    &&& forall|j: int| e < j <= i ==> !is_char_boundary(b, j)
}

/// The largest character boundary of `b` not above `i` (`str::floor_char_boundary`).
pub open spec fn floor_boundary(b: Seq<u8>, i: int) -> int {
    choose|e: int| is_floor_boundary(b, i, e)
}

/// The largest character boundary of `s` at or below byte `i` (`i` at most
/// the length of `s`).
pub fn floor_char_boundary(s: &str, i: usize) -> (e: usize)
    requires
        i <= s.spec_bytes().len(),
    ensures
        is_floor_boundary(s.spec_bytes(), i as int, e as int),
        floor_boundary(s.spec_bytes(), i as int) == e,
{
    let mut e = i;
    while e > 0 && !s.is_char_boundary(e)
        invariant
            e <= i,
            i <= s.spec_bytes().len(),
            forall|j: int| e < j <= i ==> !is_char_boundary(s.spec_bytes(), j),
        decreases e,
    {
        e -= 1;
    }
    proof {
        let b = s.spec_bytes();
        vstd::utf8::is_char_boundary_start_end_of_seq(b);
        assert(is_char_boundary(b, e as int));
        assert(is_floor_boundary(b, i as int, e as int));
        let k = choose|k: int| is_floor_boundary(b, i as int, k);
        if k < e {
            assert(!is_char_boundary(b, e as int));
        } else if k > e {
            assert(!is_char_boundary(b, k));
        }
        assert(k == e);
    }
    e
}

} // verus!

verus! {

// ---------------------------------------------------------------------------
// Trimming and lines
// ---------------------------------------------------------------------------

/// `s` without its leading white space.
pub open spec fn trim_start(s: Seq<char>) -> Seq<char>
    decreases s.len(),
{
    if s.len() > 0 && is_white_space(s[0]) {
        trim_start(s.drop_first())
    } else {
        s
    }
}

/// `s` without its trailing white space.
pub open spec fn trim_end(s: Seq<char>) -> Seq<char>
    decreases s.len(),
{
    if s.len() > 0 && is_white_space(s.last()) {
        trim_end(s.drop_last())
    } else {
        s
    }
}

/// `s` without leading and trailing white space (as `str::trim`).
pub open spec fn trim(s: Seq<char>) -> Seq<char> {
    trim_end(trim_start(s))
}

/// The characters of `v` with leading and trailing white space removed.
pub fn trim_chars(v: &[char]) -> (r: Vec<char>)
    ensures
        r@ == trim(v@),
{
    let n = v.len();
    let mut lo: usize = 0;
    assert(v@.subrange(0, n as int) =~= v@);
    while lo < n && is_whitespace(v[lo])
        invariant
            lo <= n,
            n == v@.len(),
            trim_start(v@) == trim_start(v@.subrange(lo as int, n as int)),
        decreases n - lo,
    {
        assert(v@.subrange(lo as int, n as int).drop_first() =~= v@.subrange(lo + 1, n as int));
        lo += 1;
    }
    let ghost t = v@.subrange(lo as int, n as int);
    assert(trim_start(v@) == t);
    let mut hi: usize = n;
    assert(t =~= v@.subrange(lo as int, hi as int));
    while hi > lo && is_whitespace(v[hi - 1])
        invariant
            lo <= hi <= n,
            n == v@.len(),
            t == v@.subrange(lo as int, n as int),
            trim_end(t) == trim_end(v@.subrange(lo as int, hi as int)),
        decreases hi - lo,
    {
        assert(v@.subrange(lo as int, hi as int).drop_last() =~= v@.subrange(
            lo as int,
            hi - 1,
        ));
        hi -= 1;
    }
    let mut r: Vec<char> = Vec::new();
    let mut i: usize = lo;
    while i < hi
        invariant
            lo <= i <= hi <= n,
            n == v@.len(),
            r@ == v@.subrange(lo as int, i as int),
        decreases hi - i,
    {
        r.push(v[i]);
        assert(v@.subrange(lo as int, i + 1) =~= v@.subrange(lo as int, i as int).push(
            v@[i as int],
        ));
        i += 1;
    }
    r
}

/// A line without its trailing carriage return, if any.
pub open spec fn strip_cr(l: Seq<char>) -> Seq<char> {
    if l.len() > 0 && l.last() == '\r' {
        l.drop_last()
    } else {
        l
    }
}

/// Splitting the first `i` characters of `s` at `'\n'`: the completed lines
/// and the line in progress.
pub open spec fn line_state(s: Seq<char>, i: nat) -> (Seq<Seq<char>>, Seq<char>)
    decreases i,
{
    if i == 0 || i > s.len() {
        (Seq::empty(), Seq::empty())
    } else {
        let (done, cur) = line_state(s, (i - 1) as nat);
        if s[i - 1] == '\n' {
            (done.push(strip_cr(cur)), Seq::empty())
        } else {
            (done, cur.push(s[i - 1]))
        }
    }
}

/// The lines of `s`, as `str::lines` yields them: split at `'\n'`, each
/// without a trailing `'\r'`, with no empty line after a final newline.
pub open spec fn lines(s: Seq<char>) -> Seq<Seq<char>> {
    let (done, cur) = line_state(s, s.len());
    if cur.len() == 0 {
        done
    } else {
        done.push(strip_cr(cur))
    }
}

/// Drops a trailing `'\r'` from a line.
fn strip_cr_vec(l: Vec<char>) -> (r: Vec<char>)
    ensures
        r@ == strip_cr(l@),
{
    let mut l = l;
    let n = l.len();
    if n > 0 && l[n - 1] == '\r' {
        l.pop();
    }
    l
}

/// The lines of `v`.
pub fn split_lines(v: &[char]) -> (ls: Vec<Vec<char>>)
    ensures
        char_vecs_view(ls@) == lines(v@),
{
    let mut done: Vec<Vec<char>> = Vec::new();
    let mut cur: Vec<char> = Vec::new();
    let mut i: usize = 0;
    while i < v.len()
        invariant
            i <= v@.len(),
            (char_vecs_view(done@), cur@) == line_state(v@, i as nat),
        decreases v@.len() - i,
    {
        let c = v[i];
        if c == '\n' {
            let ghost d0 = done@;
            let finished = strip_cr_vec(cur);
            cur = Vec::new();
            done.push(finished);
            assert(char_vecs_view(done@) =~= char_vecs_view(d0).push(finished@));
        } else {
            cur.push(c);
        }
        i += 1;
    }
    if cur.len() != 0 {
        let ghost d0 = done@;
        let finished = strip_cr_vec(cur);
        done.push(finished);
        assert(char_vecs_view(done@) =~= char_vecs_view(d0).push(finished@));
    }
    done
}

} // verus!

verus! {

/// The parts joined with `sep` between consecutive ones.
pub open spec fn join(parts: Seq<Seq<char>>, sep: Seq<char>) -> Seq<char>
    decreases parts.len(),
{
    if parts.len() == 0 {
        Seq::empty()
    } else if parts.len() == 1 {
        parts[0]
    } else {
        join(parts.drop_last(), sep) + sep + parts.last()
    }
}

} // verus!

verus! {

// ---------------------------------------------------------------------------
// Splitting character sequences
// ---------------------------------------------------------------------------

/// `p` occurs in `s` starting at character `i`.
pub open spec fn occurs_at(s: Seq<char>, p: Seq<char>, i: int) -> bool {
    &&& 0 <= i
    &&& i + p.len() <= s.len()
    &&& s.subrange(i, i + p.len()) == p
}

/// `i` is the first position where `p` occurs in `s`.
pub open spec fn is_first_occurrence(s: Seq<char>, p: Seq<char>, i: int) -> bool {
    &&& occurs_at(s, p, i)
    &&& forall|j: int| 0 <= j < i ==> !#[trigger] occurs_at(s, p, j)
}

/// The first position where `p` occurs in `s`.
pub open spec fn first_occurrence(s: Seq<char>, p: Seq<char>) -> Option<int> {
    if exists|i: int| is_first_occurrence(s, p, i) {
        Some(choose|i: int| is_first_occurrence(s, p, i))
    } else {
        None
    }
}

/// The pieces of `s` between occurrences of the non-empty separator `sep`
/// (as `str::split` with a string pattern).
pub open spec fn split_on(s: Seq<char>, sep: Seq<char>) -> Seq<Seq<char>>
    decreases s.len(),
{
    match first_occurrence(s, sep) {
        Some(i) => if sep.len() > 0 && 0 <= i && i + sep.len() <= s.len() {
            seq![s.take(i)] + split_on(s.skip(i + sep.len()), sep)
        } else {
            seq![s]
        },
        None => seq![s],
    }
}

/// The part of `s` before the first `c` (all of `s` when there is none), as
/// `s.split(c).next()` yields it.
pub open spec fn before_char(s: Seq<char>, c: char) -> Seq<char> {
    match first_occurrence(s, seq![c]) {
        Some(i) => s.take(i),
        None => s,
    }
}

/// Whether `p` occurs in `v` at `i`.
pub fn chars_occur_at(v: &[char], p: &[char], i: usize) -> (r: bool)
    ensures
        r == occurs_at(v@, p@, i as int),
{
    let n = v.len();
    if i > n || p.len() > n - i {
        return false;
    }
    let mut k: usize = 0;
    while k < p.len()
        invariant
            n == v@.len(),
            i + p@.len() <= n,
            k <= p@.len(),
            forall|m: int| 0 <= m < k ==> v@[i + m] == p@[m],
        decreases p@.len() - k,
    {
        if v[i + k] != p[k] {
            assert(v@.subrange(i as int, i + p@.len())[k as int] != p@[k as int]);
            return false;
        }
        k += 1;
    }
    assert(v@.subrange(i as int, i + p@.len()) =~= p@);
    true
}

/// The characters `v[lo..hi]`.
pub fn copy_range(v: &[char], lo: usize, hi: usize) -> (r: Vec<char>)
    requires
        lo <= hi <= v@.len(),
    ensures
        r@ == v@.subrange(lo as int, hi as int),
{
    let mut r: Vec<char> = Vec::new();
    let mut i: usize = lo;
    while i < hi
        invariant
            lo <= i <= hi <= v@.len(),
            r@ == v@.subrange(lo as int, i as int),
        decreases hi - i,
    {
        r.push(v[i]);
        assert(v@.subrange(lo as int, i + 1) =~= v@.subrange(lo as int, i as int).push(v@[i as int]));
        i += 1;
    }
    r
}

/// The first occurrence of `p` in `v` at or after `from`, with no occurrence
/// between `from` and it.
pub fn find_chars_from(v: &[char], p: &[char], from: usize) -> (r: Option<usize>)
    requires
        from <= v@.len(),
    ensures
        match r {
            Some(i) => from <= i && occurs_at(v@, p@, i as int) && forall|j: int|
                from <= j < i ==> !#[trigger] occurs_at(v@, p@, j),
            None => forall|j: int| from <= j ==> !#[trigger] occurs_at(v@, p@, j),
        },
{
    let mut i: usize = from;
    while i < v.len()
        invariant
            from <= i <= v@.len(),
            forall|j: int| from <= j < i ==> !#[trigger] occurs_at(v@, p@, j),
        decreases v@.len() - i,
    {
        if chars_occur_at(v, p, i) {
            return Some(i);
        }
        i += 1;
    }
    if chars_occur_at(v, p, i) {
        return Some(i);
    }
    assert forall|j: int| from <= j implies !#[trigger] occurs_at(v@, p@, j) by {
        if j > i {
            assert(!(j + p@.len() <= v@.len() && j >= 0) || p@.len() == 0 || true);
        }
    }
    None
}

/// Occurrences in a suffix are occurrences in the whole, shifted.
pub proof fn lemma_occurs_skip(v: Seq<char>, p: Seq<char>, cs: int, j: int)
    requires
        0 <= cs <= v.len(),
        0 <= j,
    ensures
        occurs_at(v.skip(cs), p, j) <==> occurs_at(v, p, cs + j),
{
    if j + p.len() <= v.len() - cs {
        assert(v.skip(cs).subrange(j, j + p.len()) =~= v.subrange(cs + j, cs + j + p.len()));
    }
}

/// `i` is the unique first occurrence.
pub proof fn lemma_first_occurrence_is(s: Seq<char>, p: Seq<char>, i: int)
    requires
        is_first_occurrence(s, p, i),
    ensures
        first_occurrence(s, p) == Some(i),
{
    let k = choose|k: int| is_first_occurrence(s, p, k);
    if k < i {
        assert(!occurs_at(s, p, k));
    } else if k > i {
        assert(!occurs_at(s, p, i));
    }
}

/// The pieces of `v` between occurrences of `sep`.
pub fn split_chars(v: &[char], sep: &[char]) -> (parts: Vec<Vec<char>>)
    requires
        sep@.len() > 0,
    ensures
        char_vecs_view(parts@) == split_on(v@, sep@),
{
    let n = v.len();
    let l = sep.len();
    let mut parts: Vec<Vec<char>> = Vec::new();
    let mut cs: usize = 0;
    assert(v@.skip(0) =~= v@);
    assert(char_vecs_view(parts@) + split_on(v@.skip(0), sep@) =~= split_on(v@, sep@));
    loop
        invariant
            n == v@.len(),
            l == sep@.len(),
            l > 0,
            cs <= n,
            char_vecs_view(parts@) + split_on(v@.skip(cs as int), sep@) == split_on(v@, sep@),
        decreases n - cs,
    {
        let ghost t = v@.skip(cs as int);
        match find_chars_from(v, sep, cs) {
            Some(i) => {
                proof {
                    lemma_occurs_skip(v@, sep@, cs as int, i - cs);
                    assert forall|j: int| 0 <= j < i - cs implies !#[trigger] occurs_at(t, sep@, j) by {
                        lemma_occurs_skip(v@, sep@, cs as int, j);
                        assert(!occurs_at(v@, sep@, cs + j));
                    }
                    assert(is_first_occurrence(t, sep@, i - cs));
                    lemma_first_occurrence_is(t, sep@, i - cs);
                    assert(t.take(i - cs) =~= v@.subrange(cs as int, i as int));
                    assert(t.skip(i - cs + l) =~= v@.skip(i + l));
                }
                let piece = copy_range(v, cs, i);
                let ghost p0 = parts@;
                parts.push(piece);
                assert(char_vecs_view(parts@) =~= char_vecs_view(p0).push(piece@));
                assert(char_vecs_view(parts@) + split_on(v@.skip(i + l), sep@) =~= char_vecs_view(p0)
                    + split_on(t, sep@));
                cs = i + l;
            },
            None => {
                proof {
                    assert forall|j: int| #[trigger] is_first_occurrence(t, sep@, j) implies false by {
                        if j >= 0 {
                            lemma_occurs_skip(v@, sep@, cs as int, j);
                        }
                    }
                    assert(split_on(t, sep@) == seq![t]);
                }
                let piece = copy_range(v, cs, n);
                assert(piece@ =~= t);
                let ghost p0 = parts@;
                parts.push(piece);
                assert(char_vecs_view(parts@) =~= char_vecs_view(p0) + seq![t]);
                return parts;
            },
        }
    }
}

/// The position of the first `c` in `v`.
pub fn find_char(v: &[char], c: char) -> (r: Option<usize>)
    ensures
        match r {
            Some(i) => first_occurrence(v@, seq![c]) == Some(i as int) && i < v@.len() && v@[i as int] == c,
            None => first_occurrence(v@, seq![c]) is None,
        },
{
    let mut i: usize = 0;
    while i < v.len()
        invariant
            i <= v@.len(),
            forall|j: int| 0 <= j < i ==> v@[j] != c,
        decreases v@.len() - i,
    {
        if v[i] == c {
            proof {
                assert(v@.subrange(i as int, i + 1) =~= seq![c]);
                assert forall|j: int| 0 <= j < i implies !#[trigger] occurs_at(v@, seq![c], j) by {
                    assert(v@.subrange(j, j + 1)[0] == v@[j]);
                }
                lemma_first_occurrence_is(v@, seq![c], i as int);
            }
            return Some(i);
        }
        i += 1;
    }
    proof {
        assert forall|j: int| #[trigger] is_first_occurrence(v@, seq![c], j) implies false by {
            assert(v@.subrange(j, j + 1)[0] == v@[j]);
        }
    }
    None
}

} // verus!
