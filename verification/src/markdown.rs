//! Markdown scanning used when recovering content around extracted text:
//! stripping emphasis markers and locating text outside image syntax.

use vstd::prelude::*;
use vstd::string::*;
use vstd::utf8::*;
use crate::text::{
    chars_of, contains, contains_bytes, find_from, find_str_from, lemma_match_boundaries,
    string_from_chars, utf8, slice_str, trim, trim_chars, lemma_boundary_after_ascii,
    lemma_ascii_not_continuation, lemma_boundary_at,
};

verus! {

broadcast use vstd::utf8::encode_utf8_valid_utf8;

/// `s` without its `*` characters.
pub open spec fn without_stars(s: Seq<char>) -> Seq<char> {
    s.filter(|c: char| c != '*')
}

/// Strips markdown bold and italic markers (`**` and `*`) for plain-text
/// comparison.
pub fn strip_md_formatting(md: &str) -> (r: String)
    ensures
        r@ == without_stars(md@),
{
    let chars = chars_of(md);
    let mut out: Vec<char> = Vec::new();
    let mut i: usize = 0;
    while i < chars.len()
        invariant
            chars@ == md@,
            i <= chars@.len(),
            out@ == without_stars(chars@.take(i as int)),
        decreases chars@.len() - i,
    {
        let c = chars[i];
        proof {
            let t = chars@.take(i as int);
            assert(chars@.take(i + 1) =~= t.push(c));
            assert(t.push(c).drop_last() =~= t);
        }
        if c != '*' {
            out.push(c);
        }
        assert(without_stars(chars@.take(i + 1)) == if c != '*' {
            without_stars(chars@.take(i as int)).push(c)
        } else {
            without_stars(chars@.take(i as int))
        }) by {
            reveal(Seq::filter);
        }
        i += 1;
    }
    assert(chars@.take(chars@.len() as int) =~= chars@);
    string_from_chars(&out)
}

/// Position `pos` of `b` lies inside `![...](...)` image syntax: some `![`
/// before it is not followed by a `)` before `pos`, and `](` occurs from
/// `pos` on.
pub open spec fn inside_image(b: Seq<u8>, pos: int) -> bool {
    &&& contains(b.subrange(pos, b.len() as int), seq![0x5du8, 0x28u8])
    &&& exists|i: int|
        1 <= i < pos && b[i - 1] == 0x21u8 && #[trigger] b[i] == 0x5bu8 && forall|j: int|
            i < j < pos ==> b[j] != 0x29u8
}

/// Whether byte position `pos` of `markdown` falls inside image syntax.
pub fn is_inside_image_syntax(markdown: &str, pos: usize) -> (r: bool)
    requires
        pos <= markdown.spec_bytes().len(),
    ensures
        r == inside_image(markdown.spec_bytes(), pos as int),
{
    let bytes = markdown.as_bytes();
    let ghost b = bytes@;
    let after_has = {
        let tail = bytes.split_at(pos).1;
        assert(tail@ =~= b.subrange(pos as int, b.len() as int));
        let close: [u8; 2] = [0x5du8, 0x28u8];
        assert(close@ =~= seq![0x5du8, 0x28u8]);
        contains_bytes(tail, close.as_slice())
    };
    let mut i: usize = pos;
    while i > 0
        invariant
            i <= pos <= b.len(),
            b == bytes@,
            b == markdown.spec_bytes(),
            after_has == contains(b.subrange(pos as int, b.len() as int), seq![0x5du8, 0x28u8]),
            forall|j: int| i <= j < pos ==> b[j] != 0x29u8,
            !after_has || forall|k: int|
                i <= k < pos && 1 <= k ==> !(b[k - 1] == 0x21u8 && #[trigger] b[k] == 0x5bu8),
        decreases i,
    {
        i -= 1;
        if i > 0 && bytes[i - 1] == 0x21u8 && bytes[i] == 0x5bu8 {
            if after_has {
                assert(forall|j: int| i < j < pos ==> b[j] != 0x29u8);
                assert(b[i as int] == 0x5bu8);
                assert(1 <= i < pos && b[i - 1] == 0x21u8 && b[i as int] == 0x5bu8);
                return true;
            }
        }
        if bytes[i] == 0x29u8 {
            proof {
                if after_has && inside_image(b, pos as int) {
                    let k = choose|k: int|
                        1 <= k < pos && b[k - 1] == 0x21u8 && #[trigger] b[k] == 0x5bu8 && forall|
                            j: int,
                        | k < j < pos ==> b[j] != 0x29u8;
                    if k < i {
                        assert(b[i as int] != 0x29u8);
                    } else if k == i {
                        assert(b[k] == 0x5bu8);
                    } else {
                        assert(!(b[k - 1] == 0x21u8 && b[k] == 0x5bu8));
                    }
                }
            }
            return false;
        }
    }
    proof {
        if after_has && inside_image(b, pos as int) {
            let k = choose|k: int|
                1 <= k < pos && b[k - 1] == 0x21u8 && #[trigger] b[k] == 0x5bu8 && forall|j: int|
                    k < j < pos ==> b[j] != 0x29u8;
            assert(b[k] == 0x5bu8);
        }
    }
    false
}

/// The first occurrence of `n` at or after `from` (searches resuming after
/// each occurrence skipped) that is not inside image syntax.
pub open spec fn content_position(b: Seq<u8>, n: Seq<u8>, from: int) -> Option<int>
    decreases b.len() - from,
{
    match find_from(b, n, from) {
        Some(p) => if !inside_image(b, p) {
            Some(p)
        } else if n.len() > 0 && from < p + n.len() <= b.len() {
            content_position(b, n, p + n.len())
        } else {
            None
        },
        None => None,
    }
}

/// Finds `needle` in `markdown` at a position that is not inside image alt
/// text (a byte offset, on a character boundary).
pub fn find_content_position(markdown: &str, needle: &str) -> (r: Option<usize>)
    ensures
        match r {
            Some(p) => content_position(utf8(markdown@), utf8(needle@), 0) == Some(p as int)
                && is_char_boundary(markdown.spec_bytes(), p as int),
            None => content_position(utf8(markdown@), utf8(needle@), 0) is None,
        },
{
    let ghost b = utf8(markdown@);
    let ghost nb = utf8(needle@);
    let nl = needle.as_bytes().len();
    let hl = markdown.as_bytes().len();
    if nl == 0 {
        proof {
            assert(nb =~= Seq::<u8>::empty());
            assert(b.subrange(0, 0) =~= nb);
            assert(crate::text::is_first_match(b, nb, 0, 0));
            let i = choose|i: int| crate::text::is_first_match(b, nb, 0, i);
            if i > 0 {
                assert(b.subrange(0, 0) =~= nb);
                assert(crate::text::matches_at(b, nb, 0));
            }
            assert(find_from(b, nb, 0) == Some(0int));
            assert(!inside_image(b, 0));
            vstd::utf8::is_char_boundary_start_end_of_seq(markdown.spec_bytes());
        }
        return Some(0);
    }
    let mut from: usize = 0;
    proof {
        vstd::utf8::encode_utf8_first_scalar(needle@);
    }
    loop
        invariant
            b == utf8(markdown@),
            nb == utf8(needle@),
            needle@.len() > 0,
            nl == nb.len(),
            nl > 0,
            hl == b.len(),
            from <= hl,
            content_position(b, nb, from as int) == content_position(b, nb, 0),
        decreases hl - from,
    {
        match find_str_from(markdown, needle, from) {
            None => {
                return None;
            },
            Some(pos) => {
                assert(pos + nl <= hl);
                if !is_inside_image_syntax(markdown, pos) {
                    proof {
                        lemma_match_boundaries(markdown, needle@, pos as int);
                    }
                    return Some(pos);
                }
                from = pos + nl;
            },
        }
    }
}

// ---------------------------------------------------------------------------
// Walking back over short orphan lines
// ---------------------------------------------------------------------------

/// The start of the line that ends at byte `end`: just after the last newline
/// before `end`, or 0 when there is none.
pub open spec fn line_start_before(b: Seq<u8>, end: int) -> int
    decreases end,
{
    if end <= 0 {
        0
    } else if b[end - 1] == 10u8 {
        end
    } else {
        line_start_before(b, end - 1)
    }
}

/// Longest trimmed line (in bytes) that still counts as an orphan.
pub const ORPHAN_LINE_MAX_BYTES: usize = 25;

/// A trimmed line that ends the walk: a heading, a quote, or a line too long
/// to be a stray number.
pub open spec fn ends_walk(t: Seq<char>) -> bool {
    t.len() > 0 && (t[0] == '#' || t[0] == '>' || utf8(t).len() > ORPHAN_LINE_MAX_BYTES)
}

/// The line that ends just before byte `pos - 1`, trimmed.
pub open spec fn previous_line(b: Seq<u8>, pos: int) -> Seq<char> {
    trim(decode_utf8(b.subrange(line_start_before(b, pos - 1), pos - 1)))
}

/// Where the walk back from `pos` stops: lines that are blank or short
/// orphans are passed over, until the start of the text or a line that
/// `ends_walk`.
pub open spec fn walk_back(b: Seq<u8>, pos: int) -> int
    decreases pos,
{
    if pos <= 0 {
        0
    } else if ends_walk(previous_line(b, pos)) {
        pos
    } else {
        proof {
            lemma_line_start_le(b, pos - 1);
        }
        walk_back(b, line_start_before(b, pos - 1))
    }
}

/// A line starts no later than it ends.
pub proof fn lemma_line_start_le(b: Seq<u8>, end: int)
    ensures
        0 <= line_start_before(b, end),
        line_start_before(b, end) <= end || end < 0,
    decreases end,
{
    if end > 0 && b[end - 1] != 10u8 {
        lemma_line_start_le(b, end - 1);
    }
}

pub proof fn lemma_line_start_bounds(b: Seq<u8>, end: int)
    requires
        0 <= end <= b.len(),
    ensures
        0 <= line_start_before(b, end) <= end,
        line_start_before(b, end) == 0 || b[line_start_before(b, end) - 1] == 10u8,
        forall|k: int| line_start_before(b, end) <= k < end ==> b[k] != 10u8,
    decreases end,
{
    if end > 0 && b[end - 1] != 10u8 {
        lemma_line_start_bounds(b, end - 1);
    }
}

/// Position of the start of the line ending at byte `end`.
pub(crate) fn line_start(b: &[u8], end: usize) -> (r: usize)
    requires
        end <= b@.len(),
    ensures
        r == line_start_before(b@, end as int),
{
    let mut i = end;
    while i > 0 && b[i - 1] != 10u8
        invariant
            i <= end <= b@.len(),
            line_start_before(b@, end as int) == line_start_before(b@, i as int),
        decreases i,
    {
        i -= 1;
    }
    i
}

/// Walks backwards from `pos`, passing over blank lines and short orphan
/// lines (at most 25 bytes once trimmed, such as stray statistic numbers)
/// that belong to the same section, and stops at the start of the text or
/// before a heading, a quote or a longer line.
pub fn walk_back_past_orphans(markdown: &str, pos: usize) -> (r: usize)
    requires
        pos == 0 || (pos - 1 <= markdown.spec_bytes().len() && is_char_boundary(
            markdown.spec_bytes(),
            pos - 1,
        )),
    ensures
        r == walk_back(markdown.spec_bytes(), pos as int),
        r <= pos,
{
    let b = markdown.as_bytes();
    let ghost bs = markdown.spec_bytes();
    let mut cur = pos;
    let ghost start = pos as int;
    while cur > 0
        invariant
            b@ == bs,
            bs == markdown.spec_bytes(),
            cur <= start,
            start == pos,
            cur == 0 || (cur - 1 <= bs.len() && is_char_boundary(bs, cur - 1)),
            walk_back(bs, start) == walk_back(bs, cur as int),
        decreases cur,
    {
        let prev_end = cur - 1;
        let prev_start = line_start(b, prev_end);
        proof {
            lemma_line_start_bounds(bs, prev_end as int);
            if prev_start > 0 {
                lemma_boundary_after_ascii(markdown, prev_start as int);
            } else {
                vstd::utf8::is_char_boundary_start_end_of_seq(bs);
            }
        }
        let line = slice_str(markdown, prev_start, prev_end);
        proof {
            vstd::utf8::encode_utf8_decode_utf8(line@);
        }
        let chars = chars_of(line);
        let trimmed = trim_chars(chars.as_slice());
        assert(trimmed@ == previous_line(bs, cur as int));
        let stop = if trimmed.len() == 0 {
            false
        } else if trimmed[0] == '#' || trimmed[0] == '>' {
            true
        } else {
            let t = string_from_chars(&trimmed);
            let ts = t.as_str();
            assert(ts@ == trimmed@);
            assert(ts.spec_bytes() == utf8(trimmed@));
            let n = ts.as_bytes().len();
            assert(n == utf8(trimmed@).len());
            n > ORPHAN_LINE_MAX_BYTES
        };
        assert(stop == ends_walk(previous_line(bs, cur as int)));
        if stop {
            return cur;
        }
        proof {
            if prev_start > 0 {
                lemma_ascii_not_continuation(bs[prev_start - 1]);
                lemma_boundary_at(markdown, prev_start - 1);
            }
        }
        cur = prev_start;
    }
    cur
}

} // verus!
