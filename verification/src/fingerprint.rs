//! Fingerprint oracle: compares the TLS / HTTP/2 / header fingerprint the
//! client presented (as echo services observed it) with a captured real-browser
//! reference, field by field, refusing to compare values that two different
//! services measured.

use vstd::prelude::*;
use vstd::string::*;
use crate::json::{member, JsonValue};
use crate::text::{
    before_char, char_vecs_view, chars_of, contains, contains_str, copy_range, find, find_bytes,
    find_char, join, lowercase_of, split_chars, split_on, str_eq, string_from_chars, strings_view,
    to_lowercase, trim, trim_chars, utf8,
};

verus! {

broadcast use vstd::utf8::encode_utf8_valid_utf8;

// ---------------------------------------------------------------------------
// Data
// ---------------------------------------------------------------------------

/// Which echo service measured each metric.
#[derive(Debug, Clone)]
pub struct Sources {
    pub ja3: String,
    pub ja3n: String,
    pub ja4: String,
    pub ja4_o: String,
    pub peetprint: String,
    pub http2: String,
    pub headers: String,
}

/// TLS fingerprints.
#[derive(Debug, Clone)]
pub struct TlsFingerprint {
    pub ja3: String,
    pub ja3_hash: String,
    pub ja3n_hash: String,
    pub ja4: String,
    pub ja4_o: String,
    pub peetprint: String,
    pub peetprint_hash: String,
}

/// A captured real-browser fingerprint: the oracle's ground truth, with its
/// provenance.
#[derive(Debug, Clone)]
pub struct Reference {
    pub browser: String,
    pub browser_version: String,
    pub major: String,
    pub capture_time: String,
    pub endpoint: String,
    pub mode: String,
    pub arch: String,
    pub browser_source: String,
    pub sources: Sources,
    pub tls: TlsFingerprint,
    pub http2_akamai_fingerprint: String,
    pub header_order: Vec<String>,
    pub sec_ch_ua: String,
    pub sec_ch_ua_mobile: String,
    pub sec_ch_ua_platform: String,
    pub accept: String,
    pub accept_language: String,
    pub accept_encoding: String,
    pub user_agent: String,
    /// Caveats that make a field non-comparable (such as headless mode
    /// excluding the user agent).
    pub notes: Vec<String>,
}

/// A difference between the observed and the reference value of a field.
#[derive(Debug, Clone)]
pub struct FieldDiff {
    pub field: String,
    pub expected: String,
    pub observed: String,
}

/// The fingerprint the echo services observed for one request.
#[derive(Debug)]
pub struct Observed {
    pub sources: Sources,
    pub tls: TlsFingerprint,
    pub http2_akamai_fingerprint: String,
    pub header_order: Vec<String>,
    pub sec_ch_ua: String,
    pub sec_ch_ua_mobile: String,
    pub sec_ch_ua_platform: String,
    pub accept: String,
    pub accept_language: String,
    pub accept_encoding: String,
    pub user_agent: String,
}

/// A field difference as the specifications see it.
pub struct DiffView {
    pub field: Seq<char>,
    pub expected: Seq<char>,
    pub observed: Seq<char>,
}

impl View for FieldDiff {
    type V = DiffView;

    open spec fn view(&self) -> DiffView {
        DiffView { field: self.field@, expected: self.expected@, observed: self.observed@ }
    }
}

/// What each difference says.
pub open spec fn diffs_view(v: Seq<FieldDiff>) -> Seq<DiffView> {
    v.map_values(|d: FieldDiff| d@)
}

// ---------------------------------------------------------------------------
// Numbers
// ---------------------------------------------------------------------------

/// The decimal digit character for `d` (below 10).
pub open spec fn digit_char(d: nat) -> char {
    ((d + 48) as u8) as char
}

/// The decimal representation of `n`.
pub open spec fn decimal(n: nat) -> Seq<char>
    decreases n,
{
    if n < 10 {
        seq![digit_char(n)]
    } else {
        decimal(n / 10) + seq![digit_char(n % 10)]
    }
}

fn push_decimal(n: u64, out: &mut Vec<char>)
    ensures
        final(out)@ == old(out)@ + decimal(n as nat),
    decreases n,
{
    if n >= 10 {
        push_decimal(n / 10, out);
    }
    let d = (n % 10) as u8;
    out.push((48u8 + d) as char);
    proof {
        if n >= 10 {
            assert(decimal(n as nat) == decimal((n / 10) as nat) + seq![digit_char((n % 10) as nat)]);
        }
    }
}

/// The decimal representation of `n`, as `format!("{n}")` writes it.
pub fn decimal_string(n: u64) -> (s: String)
    ensures
        s@ == decimal(n as nat),
{
    let mut v: Vec<char> = Vec::new();
    push_decimal(n, &mut v);
    assert(v@ =~= decimal(n as nat));
    string_from_chars(&v)
}

/// An ASCII digit byte.
pub open spec fn is_digit_byte(b: u8) -> bool {
    48 <= b <= 57
}

/// The value of a string of decimal digit bytes.
pub open spec fn digits_value(b: Seq<u8>) -> nat
    decreases b.len(),
{
    if b.len() == 0 {
        0
    } else {
        digits_value(b.drop_last()) * 10 + (b.last() - 48) as nat
    }
}

/// Every byte is an ASCII digit.
pub open spec fn all_digits(d: Seq<u8>) -> bool {
    forall|i: int| 0 <= i < d.len() ==> is_digit_byte(#[trigger] d[i])
}

/// The bytes after an optional leading `+`.
pub open spec fn unsigned_part(b: Seq<u8>) -> Seq<u8> {
    if b.len() > 0 && b[0] == 43u8 {
        b.skip(1)
    } else {
        b
    }
}

/// What `str::parse::<u32>` gives for these bytes: an optional `+`, then one
/// or more digits whose value fits in 32 bits.
pub open spec fn parse_u32(b: Seq<u8>) -> Option<u32> {
    let d = unsigned_part(b);
    if d.len() > 0 && all_digits(d) && digits_value(d) <= u32::MAX {
        Some(digits_value(d) as u32)
    } else {
        None
    }
}

/// A longer run of digits is worth at least as much as its prefix.
proof fn lemma_digits_value_grows(b: Seq<u8>, k: int)
    requires
        0 <= k <= b.len(),
        all_digits(b),
    ensures
        digits_value(b.take(k)) <= digits_value(b),
    decreases b.len(),
{
    if k < b.len() {
        assert(b.drop_last().take(k) =~= b.take(k));
        lemma_digits_value_grows(b.drop_last(), k);
        assert(b.take(b.len() as int) =~= b);
    } else {
        assert(b.take(k) =~= b);
    }
}

/// Parses bytes as `str::parse::<u32>` does.
pub fn parse_u32_bytes(b: &[u8]) -> (r: Option<u32>)
    ensures
        r == parse_u32(b@),
{
    let n = b.len();
    let start: usize = if n > 0 && b[0] == 43u8 {
        1
    } else {
        0
    };
    let ghost d = b@.skip(start as int);
    assert(b@.skip(0) =~= b@);
    assert(d == unsigned_part(b@));
    if start >= n {
        return None;
    }
    let mut acc: u64 = 0;
    let mut i: usize = start;
    while i < n
        invariant
            n == b@.len(),
            start <= i <= n,
            d == b@.skip(start as int),
            d == unsigned_part(b@),
            forall|k: int| 0 <= k < i - start ==> is_digit_byte(#[trigger] d[k]),
            acc == digits_value(d.take(i - start)),
            acc <= u32::MAX,
        decreases n - i,
    {
        let c = b[i];
        assert(d[i - start] == c);
        if c < 48u8 || c > 57u8 {
            assert(!is_digit_byte(d[i - start]));
            return None;
        }
        assert(d.take(i - start + 1).drop_last() =~= d.take(i - start));
        assert(d.take(i - start + 1).last() == c);
        acc = acc * 10 + (c - 48u8) as u64;
        i += 1;
        if acc > 0xffff_ffffu64 {
            proof {
                if all_digits(d) {
                    lemma_digits_value_grows(d, i - start);
                }
            }
            return None;
        }
    }
    assert(d.take(n - start) =~= d);
    Some(acc as u32)
}

// ---------------------------------------------------------------------------
// Reference notes and source consistency
// ---------------------------------------------------------------------------

/// Some note says the reference excludes `field`: it contains
/// `excludes {field}` or `{field}: excluded`.
pub open spec fn excludes(notes: Seq<Seq<char>>, field: Seq<char>) -> bool {
    exists|i: int|
        0 <= i < notes.len() && (contains(utf8(#[trigger] notes[i]), utf8("excludes "@ + field))
            || contains(utf8(notes[i]), utf8(field + ": excluded"@)))
}

impl Reference {
    /// Whether a note of this reference excludes `field` from comparison.
    pub fn note_excludes(&self, field: &str) -> (r: bool)
        ensures
            r == excludes(strings_view(self.notes@), field@),
    {
        let mut a = String::from_str("excludes ");
        a.append(field);
        let mut b = String::from_str(field);
        b.append(": excluded");
        let ghost notes = strings_view(self.notes@);
        let mut i: usize = 0;
        while i < self.notes.len()
            invariant
                i <= self.notes@.len(),
                notes == strings_view(self.notes@),
                a@ == "excludes "@ + field@,
                b@ == field@ + ": excluded"@,
                forall|j: int|
                    0 <= j < i ==> !(contains(utf8(#[trigger] notes[j]), utf8(a@)) || contains(
                        utf8(notes[j]),
                        utf8(b@),
                    )),
            decreases self.notes@.len() - i,
        {
            let n = self.notes[i].as_str();
            assert(notes[i as int] == n@);
            if contains_str(n, a.as_str()) || contains_str(n, b.as_str()) {
                return true;
            }
            i += 1;
        }
        false
    }
}

/// The source-violation difference for `field`, when both sides name a
/// source and they differ.
pub open spec fn source_violation(field: Seq<char>, ref_src: Seq<char>, obs_src: Seq<char>) -> Option<
    DiffView,
> {
    if ref_src.len() == 0 || obs_src.len() == 0 || ref_src == obs_src {
        None
    } else {
        Some(
            DiffView {
                field: "source:"@ + field,
                expected: "reference source="@ + ref_src,
                observed: "observed source="@ + obs_src
                    + " — cross-service comparison is a tooling artefact, not a fingerprint defect"@,
            },
        )
    }
}

/// A cross-service comparison is a hard failure: reports it when the
/// reference and the observation name different services for a metric.
pub fn check_source(field: &str, ref_src: &str, obs_src: &str) -> (r: Option<FieldDiff>)
    ensures
        match r {
            Some(d) => source_violation(field@, ref_src@, obs_src@) == Some(d@),
            None => source_violation(field@, ref_src@, obs_src@) is None,
        },
{
    if ref_src.as_bytes().len() == 0 || obs_src.as_bytes().len() == 0 {
        return None;
    }
    if str_eq(ref_src, obs_src) {
        return None;
    }
    let mut f = String::from_str("source:");
    f.append(field);
    let mut e = String::from_str("reference source=");
    e.append(ref_src);
    let mut o = String::from_str("observed source=");
    o.append(obs_src);
    o.append(" — cross-service comparison is a tooling artefact, not a fingerprint defect");
    Some(FieldDiff { field: f, expected: e, observed: o })
}

// ---------------------------------------------------------------------------
// Header helpers
// ---------------------------------------------------------------------------

/// A `name: value` header line split at its first colon: the trimmed name
/// lowercased and the trimmed value; without a colon, the trimmed line and
/// an empty value.
pub open spec fn header_parts(h: Seq<char>) -> (Seq<char>, Seq<char>) {
    match crate::text::first_occurrence(h, seq![':']) {
        Some(i) => (lowercase_of(trim(h.take(i))), trim(h.skip(i + 1))),
        None => (trim(h), Seq::empty()),
    }
}

/// Splits a `name: value` header line.
pub fn split_header(h: &str) -> (r: (String, String))
    ensures
        (r.0@, r.1@) == header_parts(h@),
{
    let v = chars_of(h);
    let n = v.len();
    match find_char(v.as_slice(), ':') {
        Some(idx) => {
            let name_chars = trim_chars(copy_range(v.as_slice(), 0, idx).as_slice());
            let val_chars = trim_chars(copy_range(v.as_slice(), idx + 1, n).as_slice());
            assert(v@.subrange(0, idx as int) =~= v@.take(idx as int));
            assert(v@.subrange(idx + 1, v@.len() as int) =~= v@.skip(idx + 1));
            let name = string_from_chars(&name_chars);
            let lowered = to_lowercase(name.as_str());
            (lowered, string_from_chars(&val_chars))
        },
        None => {
            let t = trim_chars(v.as_slice());
            (string_from_chars(&t), String::new())
        },
    }
}

/// `s` without leading `"` characters.
pub open spec fn strip_quotes_start(s: Seq<char>) -> Seq<char>
    decreases s.len(),
{
    if s.len() > 0 && s[0] == '"' {
        strip_quotes_start(s.drop_first())
    } else {
        s
    }
}

/// `s` without trailing `"` characters.
pub open spec fn strip_quotes_end(s: Seq<char>) -> Seq<char>
    decreases s.len(),
{
    if s.len() > 0 && s.last() == '"' {
        strip_quotes_end(s.drop_last())
    } else {
        s
    }
}

/// `s` without leading and trailing `"` (as `trim_matches('"')`).
pub open spec fn strip_quotes(s: Seq<char>) -> Seq<char> {
    strip_quotes_end(strip_quotes_start(s))
}

/// The characters of `v` without leading and trailing `"`.
fn strip_quotes_chars(v: &[char]) -> (r: Vec<char>)
    ensures
        r@ == strip_quotes(v@),
{
    let n = v.len();
    let mut lo: usize = 0;
    assert(v@.subrange(0, n as int) =~= v@);
    while lo < n && v[lo] == '"'
        invariant
            lo <= n,
            n == v@.len(),
            strip_quotes_start(v@) == strip_quotes_start(v@.subrange(lo as int, n as int)),
        decreases n - lo,
    {
        assert(v@.subrange(lo as int, n as int).drop_first() =~= v@.subrange(lo + 1, n as int));
        lo += 1;
    }
    let ghost t = v@.subrange(lo as int, n as int);
    let mut hi: usize = n;
    assert(t =~= v@.subrange(lo as int, hi as int));
    while hi > lo && v[hi - 1] == '"'
        invariant
            lo <= hi <= n,
            n == v@.len(),
            t == v@.subrange(lo as int, n as int),
            strip_quotes_end(t) == strip_quotes_end(v@.subrange(lo as int, hi as int)),
        decreases hi - lo,
    {
        assert(v@.subrange(lo as int, hi as int).drop_last() =~= v@.subrange(lo as int, hi - 1));
        hi -= 1;
    }
    copy_range(v, lo, hi)
}

/// A brand that `sec-ch-ua` comparison keeps as it is.
pub open spec fn is_kept_brand(b: Seq<char>) -> bool {
    b == "Chromium"@ || b == "Google Chrome"@ || b == "Microsoft Edge"@
}

/// One `sec-ch-ua` entry after normalisation: the GREASE brand (anything but
/// the Chromium, Google Chrome and Microsoft Edge brands) becomes `GREASE`;
/// a kept entry is trimmed.
pub open spec fn normalized_brand_entry(p: Seq<char>) -> Seq<char> {
    if is_kept_brand(strip_quotes(trim(before_char(p, ';')))) {
        trim(p)
    } else {
        "GREASE"@
    }
}

/// The normalised entries of the first `i` pieces.
pub open spec fn normalized_entries(ps: Seq<Seq<char>>) -> Seq<Seq<char>> {
    ps.map_values(|p: Seq<char>| normalized_brand_entry(p))
}

/// A `sec-ch-ua` value with its GREASE brand replaced by a placeholder (the
/// GREASE brand is permuted per connection, so a raw comparison flaps).
pub open spec fn normalized_sec_ch_ua(s: Seq<char>) -> Seq<char> {
    if s.len() == 0 {
        Seq::empty()
    } else {
        join(normalized_entries(split_on(s, ", "@)), ", "@)
    }
}

/// One `sec-ch-ua` entry after normalisation.
fn normalize_entry(p: &Vec<char>) -> (r: Vec<char>)
    ensures
        r@ == normalized_brand_entry(p@),
{
    let brand_raw = match find_char(p.as_slice(), ';') {
        Some(k) => copy_range(p.as_slice(), 0, k),
        None => copy_range(p.as_slice(), 0, p.len()),
    };
    assert(brand_raw@ == before_char(p@, ';')) by {
        assert(p@.subrange(0, p@.len() as int) =~= p@);
        if let Some(k) = crate::text::first_occurrence(p@, seq![';']) {
            assert(p@.subrange(0, k) =~= p@.take(k));
        }
    }
    let brand = strip_quotes_chars(trim_chars(brand_raw.as_slice()).as_slice());
    let bs = string_from_chars(&brand);
    if str_eq(bs.as_str(), "Chromium") || str_eq(bs.as_str(), "Google Chrome") || str_eq(
        bs.as_str(),
        "Microsoft Edge",
    ) {
        trim_chars(p.as_slice())
    } else {
        chars_of("GREASE")
    }
}

/// Replaces the GREASE brand of a `sec-ch-ua` value with a placeholder.
pub fn normalize_sec_ch_ua(s: &str) -> (r: String)
    ensures
        r@ == normalized_sec_ch_ua(s@),
{
    if s.as_bytes().len() == 0 {
        return String::new();
    }
    let v = chars_of(s);
    let sep = chars_of(", ");
    proof {
        reveal_strlit(", ");
    }
    let parts = split_chars(v.as_slice(), sep.as_slice());
    let ghost ps = char_vecs_view(parts@);
    let mut out = String::new();
    let mut i: usize = 0;
    while i < parts.len()
        invariant
            i <= parts@.len(),
            ps == char_vecs_view(parts@),
            ps == split_on(s@, ", "@),
            out@ == join(normalized_entries(ps).take(i as int), ", "@),
        decreases parts@.len() - i,
    {
        let e = normalize_entry(&parts[i]);
        let es = string_from_chars(&e);
        let ghost ns = normalized_entries(ps);
        assert(ns.take(i + 1).drop_last() =~= ns.take(i as int));
        assert(ps[i as int] == parts@[i as int]@);
        if i > 0 {
            out.append(", ");
        }
        out.append(es.as_str());
        assert(ns.take(i + 1).last() == es@);
        i += 1;
    }
    assert(normalized_entries(ps).take(ps.len() as int) =~= normalized_entries(ps));
    out
}

// ---------------------------------------------------------------------------
// Major versions
// ---------------------------------------------------------------------------

/// The bytes of `b` before the first byte `c` (all of `b` when there is none).
pub open spec fn before_byte(b: Seq<u8>, c: u8) -> Seq<u8> {
    match find(b, seq![c]) {
        Some(i) => b.take(i),
        None => b,
    }
}

/// The bytes of `b` before the first byte `c`.
fn bytes_before(b: &[u8], c: u8) -> (r: &[u8])
    ensures
        r@ == before_byte(b@, c),
{
    let cs: [u8; 1] = [c];
    assert(cs@ =~= seq![c]);
    match find_bytes(b, cs.as_slice()) {
        Some(i) => {
            let (head, _) = b.split_at(i);
            assert(head@ =~= b@.take(i as int));
            head
        },
        None => b,
    }
}

/// When `needle` occurs in `b`: the parse of the digits after its first
/// occurrence, up to the first `.`.
pub open spec fn major_after(b: Seq<u8>, needle: Seq<u8>) -> Option<Option<u32>> {
    match find(b, needle) {
        Some(p) => Some(parse_u32(before_byte(b.skip(p + needle.len()), 0x2eu8))),
        None => None,
    }
}

fn major_after_bytes(b: &[u8], needle: &[u8]) -> (r: Option<Option<u32>>)
    ensures
        r == major_after(b@, needle@),
{
    match find_bytes(b, needle) {
        Some(p) => {
            let nl = needle.len();
            let bl = b.len();
            assert(p + nl <= bl);
            let (_, rest) = b.split_at(p + nl);
            assert(rest@ =~= b@.skip(p + nl));
            let piece = bytes_before(rest, 0x2eu8);
            Some(parse_u32_bytes(piece))
        },
        None => None,
    }
}

/// The major version a User-Agent names: after the first `Chrome/`, else
/// `Edg/`, else `rv:`, else `Version/`; only the first of these that occurs
/// counts.
pub open spec fn ua_major(b: Seq<u8>) -> Option<u32> {
    match major_after(b, utf8("Chrome/"@)) {
        Some(r) => r,
        None => match major_after(b, utf8("Edg/"@)) {
            Some(r) => r,
            None => match major_after(b, utf8("rv:"@)) {
                Some(r) => r,
                None => match major_after(b, utf8("Version/"@)) {
                    Some(r) => r,
                    None => None,
                },
            },
        },
    }
}

/// The major version of a User-Agent string.
pub fn extract_major_from_ua(ua: &str) -> (r: Option<u32>)
    ensures
        r == ua_major(utf8(ua@)),
{
    let b = ua.as_bytes();
    if let Some(r) = major_after_bytes(b, "Chrome/".as_bytes()) {
        return r;
    }
    if let Some(r) = major_after_bytes(b, "Edg/".as_bytes()) {
        return r;
    }
    if let Some(r) = major_after_bytes(b, "rv:".as_bytes()) {
        return r;
    }
    if let Some(r) = major_after_bytes(b, "Version/".as_bytes()) {
        return r;
    }
    None
}

/// The major version a `sec-ch-ua` value gives for `brand`: the digits of
/// `"{brand}";v="..."` up to the first `.`, when they parse.
pub open spec fn brand_major(b: Seq<u8>, brand: Seq<char>) -> Option<u32> {
    let needle = utf8("\""@ + brand + "\";v=\""@);
    match find(b, needle) {
        Some(p) => parse_u32(before_byte(before_byte(b.skip(p + needle.len()), 0x22u8), 0x2eu8)),
        None => None,
    }
}

/// The Chromium major version of a `sec-ch-ua` value: the `Chromium` brand's,
/// else the `Google Chrome` brand's.
pub open spec fn sec_ch_ua_major(b: Seq<u8>) -> Option<u32> {
    match brand_major(b, "Chromium"@) {
        Some(m) => Some(m),
        None => brand_major(b, "Google Chrome"@),
    }
}

fn brand_major_bytes(b: &[u8], brand: &str) -> (r: Option<u32>)
    ensures
        r == brand_major(b@, brand@),
{
    let mut needle = String::from_str("\"");
    needle.append(brand);
    needle.append("\";v=\"");
    let nb = needle.as_str().as_bytes();
    match find_bytes(b, nb) {
        Some(p) => {
            let nl = nb.len();
            let bl = b.len();
            assert(p + nl <= bl);
            let (_, rest) = b.split_at(p + nl);
            assert(rest@ =~= b@.skip(p + nl));
            let ver = bytes_before(rest, 0x22u8);
            let major = bytes_before(ver, 0x2eu8);
            parse_u32_bytes(major)
        },
        None => None,
    }
}

/// The Chromium major version of a `sec-ch-ua` header value.
pub fn extract_major_from_sec_ch_ua(sec_ch_ua: &str) -> (r: Option<u32>)
    ensures
        r == sec_ch_ua_major(utf8(sec_ch_ua@)),
{
    let b = sec_ch_ua.as_bytes();
    match brand_major_bytes(b, "Chromium") {
        Some(m) => Some(m),
        None => brand_major_bytes(b, "Google Chrome"),
    }
}

/// The major version of a User-Agent as text, `"0"` when it has none.
pub open spec fn major_version_text(b: Seq<u8>) -> Seq<char> {
    match ua_major(b) {
        Some(m) => decimal(m as nat),
        None => "0"@,
    }
}

/// The major version of a User-Agent (Chrome, Edge, Firefox, Safari) as
/// text, `"0"` when none is found.
pub fn extract_major_version(ua: &str) -> (r: String)
    ensures
        r@ == major_version_text(utf8(ua@)),
{
    match extract_major_from_ua(ua) {
        Some(m) => decimal_string(m as u64),
        None => String::from_str("0"),
    }
}

// ---------------------------------------------------------------------------
// Comparison
// ---------------------------------------------------------------------------

/// A value difference for `field`.
pub open spec fn value_diff(field: Seq<char>, expected: Seq<char>, observed: Seq<char>) -> DiffView {
    DiffView { field, expected, observed }
}

/// The differences a metric contributes: a source violation if the services
/// disagree, else a value difference if the values do.
pub open spec fn metric_diffs(
    field: Seq<char>,
    ref_src: Seq<char>,
    obs_src: Seq<char>,
    ref_val: Seq<char>,
    obs_val: Seq<char>,
) -> Seq<DiffView> {
    match source_violation(field, ref_src, obs_src) {
        Some(d) => seq![d],
        None => if obs_val != ref_val {
            seq![value_diff(field, ref_val, obs_val)]
        } else {
            Seq::empty()
        },
    }
}

/// A metric that is compared only when the reference has a value or a source
/// for it.
pub open spec fn optional_metric_diffs(
    field: Seq<char>,
    ref_src: Seq<char>,
    obs_src: Seq<char>,
    ref_val: Seq<char>,
    obs_val: Seq<char>,
) -> Seq<DiffView> {
    if ref_val.len() > 0 || ref_src.len() > 0 {
        metric_diffs(field, ref_src, obs_src, ref_val, obs_val)
    } else {
        Seq::empty()
    }
}

/// A difference for a field the reference records (non-empty) and the
/// observation does not match.
pub open spec fn recorded_diff(field: Seq<char>, ref_val: Seq<char>, obs_val: Seq<char>) -> Seq<
    DiffView,
> {
    if obs_val != ref_val && ref_val.len() > 0 {
        seq![value_diff(field, ref_val, obs_val)]
    } else {
        Seq::empty()
    }
}

/// The note recorded when the reference excludes `sec-ch-ua`.
pub open spec fn sec_ch_ua_skip_note() -> Seq<char> {
    "sec-ch-ua: excluded by reference note (headless mode)"@
}

/// The note recorded when the reference excludes the user agent.
pub open spec fn ua_skip_note() -> Seq<char> {
    "user-agent: excluded by reference note (headless mode)"@
}

/// A header-order difference.
pub open spec fn order_diff(o: Observed, r: Reference) -> Seq<DiffView> {
    let ro = strings_view(r.header_order@);
    let oo = strings_view(o.header_order@);
    if oo != ro {
        seq![value_diff("header_order"@, join(ro, ","@), join(oo, ","@))]
    } else {
        Seq::empty()
    }
}

/// A `sec-ch-ua` difference (after GREASE normalisation), unless excluded.
pub open spec fn sec_ch_ua_diff(o: Observed, r: Reference, skip_sec_ch_ua: bool) -> Seq<DiffView> {
    if !skip_sec_ch_ua && normalized_sec_ch_ua(o.sec_ch_ua@) != normalized_sec_ch_ua(r.sec_ch_ua@)
        && r.sec_ch_ua@.len() > 0 {
        seq![value_diff("sec_ch_ua"@, r.sec_ch_ua@, o.sec_ch_ua@)]
    } else {
        Seq::empty()
    }
}

/// The differences among the `sec-ch-ua-*` and `accept*` headers.
pub open spec fn accept_diffs(o: Observed, r: Reference) -> Seq<DiffView> {
    recorded_diff("sec_ch_ua_mobile"@, r.sec_ch_ua_mobile@, o.sec_ch_ua_mobile@) + recorded_diff(
        "sec_ch_ua_platform"@,
        r.sec_ch_ua_platform@,
        o.sec_ch_ua_platform@,
    ) + recorded_diff("accept"@, r.accept@, o.accept@) + recorded_diff(
        "accept_language"@,
        r.accept_language@,
        o.accept_language@,
    ) + recorded_diff("accept_encoding"@, r.accept_encoding@, o.accept_encoding@)
}

/// The header-order, `sec-ch-ua` and `accept*` block: compared only when
/// either side names a headers source, and then only when the sources agree.
pub open spec fn header_block(o: Observed, r: Reference, skip_sec_ch_ua: bool) -> Seq<DiffView> {
    if r.sources.headers@.len() > 0 || o.sources.headers@.len() > 0 {
        match source_violation("header_order"@, r.sources.headers@, o.sources.headers@) {
            Some(d) => seq![d],
            None => order_diff(o, r) + sec_ch_ua_diff(o, r, skip_sec_ch_ua) + accept_diffs(o, r),
        }
    } else {
        Seq::empty()
    }
}

/// The coherence check on the observed side alone: the `sec-ch-ua` major
/// version must equal the User-Agent's.
pub open spec fn coherence_diffs(o: Observed) -> Seq<DiffView> {
    if o.sec_ch_ua@.len() > 0 && o.user_agent@.len() > 0 {
        match (ua_major(utf8(o.user_agent@)), sec_ch_ua_major(utf8(o.sec_ch_ua@))) {
            (Some(u), Some(h)) => if u != h {
                seq![
                    value_diff(
                        "coherence:sec_ch_ua_vs_ua_major"@,
                        "sec-ch-ua major == UA major == "@ + decimal(u as nat),
                        "sec-ch-ua major="@ + decimal(h as nat) + ", UA major="@ + decimal(u as nat)
                            + " — INCOHERENT"@,
                    ),
                ]
            } else {
                Seq::empty()
            },
            _ => Seq::empty(),
        }
    } else {
        Seq::empty()
    }
}

/// The differences between an observation and a reference, and the notes on
/// fields skipped because the reference excludes them (every excluded field
/// gets its note, whether or not its block was compared).
pub open spec fn comparison(o: Observed, r: Reference) -> (Seq<DiffView>, Seq<Seq<char>>) {
    let notes = strings_view(r.notes@);
    let skip_ua = excludes(notes, "user-agent"@);
    let skip_sec = excludes(notes, "sec-ch-ua"@);
    let hb = header_block(o, r, skip_sec);
    let ua = if !skip_ua {
        recorded_diff("user_agent"@, r.user_agent@, o.user_agent@)
    } else {
        Seq::empty()
    };
    let sec_skipped = if skip_sec {
        seq![sec_ch_ua_skip_note()]
    } else {
        Seq::empty()
    };
    let ua_skipped = if skip_ua {
        seq![ua_skip_note()]
    } else {
        Seq::empty()
    };
    (metric_diffs("ja3_hash"@, r.sources.ja3@, o.sources.ja3@, r.tls.ja3_hash@, o.tls.ja3_hash@)
        + optional_metric_diffs(
        "ja3n_hash"@,
        r.sources.ja3n@,
        o.sources.ja3n@,
        r.tls.ja3n_hash@,
        o.tls.ja3n_hash@,
    ) + metric_diffs("ja4"@, r.sources.ja4@, o.sources.ja4@, r.tls.ja4@, o.tls.ja4@)
        + optional_metric_diffs(
        "ja4_o"@,
        r.sources.ja4_o@,
        o.sources.ja4_o@,
        r.tls.ja4_o@,
        o.tls.ja4_o@,
    ) + optional_metric_diffs(
        "peetprint_hash"@,
        r.sources.peetprint@,
        o.sources.peetprint@,
        r.tls.peetprint_hash@,
        o.tls.peetprint_hash@,
    ) + metric_diffs(
        "http2_akamai"@,
        r.sources.http2@,
        o.sources.http2@,
        r.http2_akamai_fingerprint@,
        o.http2_akamai_fingerprint@,
    ) + hb + ua + coherence_diffs(o), sec_skipped + ua_skipped)
}

fn make_diff(field: &str, expected: &str, observed: &str) -> (d: FieldDiff)
    ensures
        d@ == value_diff(field@, expected@, observed@),
{
    FieldDiff {
        field: String::from_str(field),
        expected: String::from_str(expected),
        observed: String::from_str(observed),
    }
}

fn push_metric(
    diffs: &mut Vec<FieldDiff>,
    field: &str,
    ref_src: &str,
    obs_src: &str,
    ref_val: &str,
    obs_val: &str,
)
    ensures
        diffs_view(final(diffs)@) == diffs_view(old(diffs)@) + metric_diffs(
            field@,
            ref_src@,
            obs_src@,
            ref_val@,
            obs_val@,
        ),
{
    let ghost d0 = diffs@;
    match check_source(field, ref_src, obs_src) {
        Some(d) => {
            diffs.push(d);
            assert(diffs_view(diffs@) =~= diffs_view(d0).push(d@));
        },
        None => {
            if !str_eq(obs_val, ref_val) {
                let d = make_diff(field, ref_val, obs_val);
                diffs.push(d);
                assert(diffs_view(diffs@) =~= diffs_view(d0).push(d@));
            } else {
                assert(diffs_view(diffs@) =~= diffs_view(d0) + Seq::<DiffView>::empty());
            }
        },
    }
}

fn push_optional_metric(
    diffs: &mut Vec<FieldDiff>,
    field: &str,
    ref_src: &str,
    obs_src: &str,
    ref_val: &str,
    obs_val: &str,
)
    ensures
        diffs_view(final(diffs)@) == diffs_view(old(diffs)@) + optional_metric_diffs(
            field@,
            ref_src@,
            obs_src@,
            ref_val@,
            obs_val@,
        ),
{
    if ref_val.as_bytes().len() > 0 || ref_src.as_bytes().len() > 0 {
        push_metric(diffs, field, ref_src, obs_src, ref_val, obs_val);
    } else {
        assert(diffs_view(diffs@) =~= diffs_view(diffs@) + Seq::<DiffView>::empty());
    }
}

fn push_recorded(diffs: &mut Vec<FieldDiff>, field: &str, ref_val: &str, obs_val: &str)
    ensures
        diffs_view(final(diffs)@) == diffs_view(old(diffs)@) + recorded_diff(
            field@,
            ref_val@,
            obs_val@,
        ),
{
    let ghost d0 = diffs@;
    if !str_eq(obs_val, ref_val) && ref_val.as_bytes().len() > 0 {
        let d = make_diff(field, ref_val, obs_val);
        diffs.push(d);
        assert(diffs_view(diffs@) =~= diffs_view(d0).push(d@));
    } else {
        assert(diffs_view(diffs@) =~= diffs_view(d0) + Seq::<DiffView>::empty());
    }
}

/// Whether two lists of strings are equal.
fn strings_equal(a: &Vec<String>, b: &Vec<String>) -> (r: bool)
    ensures
        r == (strings_view(a@) == strings_view(b@)),
{
    if a.len() != b.len() {
        assert(strings_view(a@).len() != strings_view(b@).len());
        return false;
    }
    let mut i: usize = 0;
    while i < a.len()
        invariant
            a@.len() == b@.len(),
            i <= a@.len(),
            forall|j: int| 0 <= j < i ==> a@[j]@ == b@[j]@,
        decreases a@.len() - i,
    {
        if !str_eq(a[i].as_str(), b[i].as_str()) {
            assert(strings_view(a@)[i as int] != strings_view(b@)[i as int]);
            return false;
        }
        i += 1;
    }
    assert(strings_view(a@) =~= strings_view(b@));
    true
}

/// The strings joined with `sep`.
pub(crate) fn join_strings(v: &Vec<String>, sep: &str) -> (r: String)
    ensures
        r@ == join(strings_view(v@), sep@),
{
    let ghost ps = strings_view(v@);
    let mut out = String::new();
    let mut i: usize = 0;
    while i < v.len()
        invariant
            i <= v@.len(),
            ps == strings_view(v@),
            out@ == join(ps.take(i as int), sep@),
        decreases v@.len() - i,
    {
        assert(ps.take(i + 1).drop_last() =~= ps.take(i as int));
        if i > 0 {
            out.append(sep);
        }
        out.append(v[i].as_str());
        i += 1;
    }
    assert(ps.take(ps.len() as int) =~= ps);
    out
}

fn push_order_diff(o: &Observed, r: &Reference, diffs: &mut Vec<FieldDiff>)
    ensures
        diffs_view(final(diffs)@) == diffs_view(old(diffs)@) + order_diff(*o, *r),
{
    let ghost d0 = diffs@;
    if !strings_equal(&o.header_order, &r.header_order) {
        let e = join_strings(&r.header_order, ",");
        let ob = join_strings(&o.header_order, ",");
        let d = make_diff("header_order", e.as_str(), ob.as_str());
        diffs.push(d);
        assert(diffs_view(diffs@) =~= diffs_view(d0) + seq![d@]);
    } else {
        assert(diffs_view(diffs@) =~= diffs_view(d0) + Seq::<DiffView>::empty());
    }
}

fn push_sec_ch_ua_diff(o: &Observed, r: &Reference, skip_sec_ch_ua: bool, diffs: &mut Vec<FieldDiff>)
    ensures
        diffs_view(final(diffs)@) == diffs_view(old(diffs)@) + sec_ch_ua_diff(*o, *r, skip_sec_ch_ua),
{
    let ghost d0 = diffs@;
    if !skip_sec_ch_ua {
        let no = normalize_sec_ch_ua(o.sec_ch_ua.as_str());
        let nr = normalize_sec_ch_ua(r.sec_ch_ua.as_str());
        if !str_eq(no.as_str(), nr.as_str()) && r.sec_ch_ua.as_str().as_bytes().len() > 0 {
            let d = make_diff("sec_ch_ua", r.sec_ch_ua.as_str(), o.sec_ch_ua.as_str());
            diffs.push(d);
            assert(diffs_view(diffs@) =~= diffs_view(d0) + seq![d@]);
            return;
        }
    }
    assert(diffs_view(diffs@) =~= diffs_view(d0) + Seq::<DiffView>::empty());
}

fn push_accept_diffs(o: &Observed, r: &Reference, diffs: &mut Vec<FieldDiff>)
    ensures
        diffs_view(final(diffs)@) == diffs_view(old(diffs)@) + accept_diffs(*o, *r),
{
    let ghost d0 = diffs@;
    push_recorded(diffs, "sec_ch_ua_mobile", r.sec_ch_ua_mobile.as_str(), o.sec_ch_ua_mobile.as_str());
    push_recorded(diffs, "sec_ch_ua_platform", r.sec_ch_ua_platform.as_str(), o.sec_ch_ua_platform.as_str());
    push_recorded(diffs, "accept", r.accept.as_str(), o.accept.as_str());
    push_recorded(diffs, "accept_language", r.accept_language.as_str(), o.accept_language.as_str());
    push_recorded(diffs, "accept_encoding", r.accept_encoding.as_str(), o.accept_encoding.as_str());
    assert(diffs_view(diffs@) =~= diffs_view(d0) + accept_diffs(*o, *r));
}

fn header_block_exec(o: &Observed, r: &Reference, skip_sec_ch_ua: bool, diffs: &mut Vec<FieldDiff>)
    ensures
        diffs_view(final(diffs)@) == diffs_view(old(diffs)@) + header_block(*o, *r, skip_sec_ch_ua),
{
    let ghost d0 = diffs@;
    if r.sources.headers.as_str().as_bytes().len() == 0 && o.sources.headers.as_str().as_bytes().len() == 0 {
        assert(diffs_view(diffs@) =~= diffs_view(d0) + Seq::<DiffView>::empty());
        return;
    }
    match check_source("header_order", r.sources.headers.as_str(), o.sources.headers.as_str()) {
        Some(d) => {
            diffs.push(d);
            assert(diffs_view(diffs@) =~= diffs_view(d0) + seq![d@]);
        },
        None => {
            push_order_diff(o, r, diffs);
            push_sec_ch_ua_diff(o, r, skip_sec_ch_ua, diffs);
            push_accept_diffs(o, r, diffs);
            assert(diffs_view(diffs@) =~= diffs_view(d0) + (order_diff(*o, *r) + sec_ch_ua_diff(*o, *r, skip_sec_ch_ua) + accept_diffs(*o, *r)));
        },
    }
}

fn coherence_exec(o: &Observed, diffs: &mut Vec<FieldDiff>)
    ensures
        diffs_view(final(diffs)@) == diffs_view(old(diffs)@) + coherence_diffs(*o),
{
    let ghost d0 = diffs@;
    if o.sec_ch_ua.as_str().as_bytes().len() > 0 && o.user_agent.as_str().as_bytes().len() > 0 {
        let ua_major = extract_major_from_ua(o.user_agent.as_str());
        let hint_major = extract_major_from_sec_ch_ua(o.sec_ch_ua.as_str());
        if let (Some(ua_maj), Some(hint_maj)) = (ua_major, hint_major) {
            if ua_maj != hint_maj {
                let u = decimal_string(ua_maj as u64);
                let h = decimal_string(hint_maj as u64);
                let mut e = String::from_str("sec-ch-ua major == UA major == ");
                e.append(u.as_str());
                let mut ob = String::from_str("sec-ch-ua major=");
                ob.append(h.as_str());
                ob.append(", UA major=");
                ob.append(u.as_str());
                ob.append(" — INCOHERENT");
                let d = FieldDiff {
                    field: String::from_str("coherence:sec_ch_ua_vs_ua_major"),
                    expected: e,
                    observed: ob,
                };
                diffs.push(d);
                assert(diffs_view(diffs@) =~= diffs_view(d0) + seq![d@]);
                return;
            }
        }
    }
    assert(diffs_view(diffs@) =~= diffs_view(d0) + Seq::<DiffView>::empty());
}

/// Per-field differences between an observation and a reference, and the
/// fields skipped because a reference note excludes them. Metrics whose
/// sources disagree are reported as source violations and their values are
/// not compared.
pub fn compare(o: &Observed, r: &Reference) -> (res: (Vec<FieldDiff>, Vec<String>))
    ensures
        (diffs_view(res.0@), strings_view(res.1@)) == comparison(*o, *r),
{
    let mut diffs: Vec<FieldDiff> = Vec::new();
    let skip_ua = r.note_excludes("user-agent");
    let skip_sec_ch_ua = r.note_excludes("sec-ch-ua");
    push_metric(&mut diffs, "ja3_hash", r.sources.ja3.as_str(), o.sources.ja3.as_str(), r.tls.ja3_hash.as_str(), o.tls.ja3_hash.as_str());
    push_optional_metric(&mut diffs, "ja3n_hash", r.sources.ja3n.as_str(), o.sources.ja3n.as_str(), r.tls.ja3n_hash.as_str(), o.tls.ja3n_hash.as_str());
    push_metric(&mut diffs, "ja4", r.sources.ja4.as_str(), o.sources.ja4.as_str(), r.tls.ja4.as_str(), o.tls.ja4.as_str());
    push_optional_metric(&mut diffs, "ja4_o", r.sources.ja4_o.as_str(), o.sources.ja4_o.as_str(), r.tls.ja4_o.as_str(), o.tls.ja4_o.as_str());
    push_optional_metric(&mut diffs, "peetprint_hash", r.sources.peetprint.as_str(), o.sources.peetprint.as_str(), r.tls.peetprint_hash.as_str(), o.tls.peetprint_hash.as_str());
    push_metric(&mut diffs, "http2_akamai", r.sources.http2.as_str(), o.sources.http2.as_str(), r.http2_akamai_fingerprint.as_str(), o.http2_akamai_fingerprint.as_str());
    let ghost before_headers = diffs@;
    header_block_exec(o, r, skip_sec_ch_ua, &mut diffs);
    let ghost before_ua = diffs@;
    let mut skipped: Vec<String> = Vec::new();
    if skip_sec_ch_ua {
        skipped.push(String::from_str("sec-ch-ua: excluded by reference note (headless mode)"));
    }
    if !skip_ua {
        push_recorded(&mut diffs, "user_agent", r.user_agent.as_str(), o.user_agent.as_str());
    } else {
        skipped.push(String::from_str("user-agent: excluded by reference note (headless mode)"));
        assert(diffs_view(diffs@) =~= diffs_view(before_ua) + Seq::<DiffView>::empty());
    }
    let ghost before_coherence = diffs@;
    coherence_exec(o, &mut diffs);
    proof {
        let c = comparison(*o, *r);
        assert(strings_view(skipped@) =~= c.1);
        assert(diffs_view(diffs@) =~= c.0);
    }
    (diffs, skipped)
}

// ---------------------------------------------------------------------------
// Merging echo-service observations
// ---------------------------------------------------------------------------

/// Combines a peet-sourced and a browserleaks-sourced observation:
/// browserleaks wins for the JA3 hash, JA3n, JA4, JA4_o and HTTP/2 Akamai
/// fingerprint (and their sources); peet keeps peetprint, header order,
/// `sec-ch-ua`, `accept*` and the user agent.
pub fn merge_observed(peet: Observed, bl: Observed) -> (m: Observed)
    ensures
        m.tls.ja3@ == peet.tls.ja3@,
        m.tls.ja3_hash@ == bl.tls.ja3_hash@,
        m.tls.ja3n_hash@ == bl.tls.ja3n_hash@,
        m.tls.ja4@ == bl.tls.ja4@,
        m.tls.ja4_o@ == bl.tls.ja4_o@,
        m.tls.peetprint@ == peet.tls.peetprint@,
        m.tls.peetprint_hash@ == peet.tls.peetprint_hash@,
        m.http2_akamai_fingerprint@ == bl.http2_akamai_fingerprint@,
        m.sources.ja3@ == bl.sources.ja3@,
        m.sources.ja3n@ == bl.sources.ja3n@,
        m.sources.ja4@ == bl.sources.ja4@,
        m.sources.ja4_o@ == bl.sources.ja4_o@,
        m.sources.peetprint@ == peet.sources.peetprint@,
        m.sources.http2@ == bl.sources.http2@,
        m.sources.headers@ == peet.sources.headers@,
        m.header_order@ == peet.header_order@,
        m.sec_ch_ua@ == peet.sec_ch_ua@,
        m.sec_ch_ua_mobile@ == peet.sec_ch_ua_mobile@,
        m.sec_ch_ua_platform@ == peet.sec_ch_ua_platform@,
        m.accept@ == peet.accept@,
        m.accept_language@ == peet.accept_language@,
        m.accept_encoding@ == peet.accept_encoding@,
        m.user_agent@ == peet.user_agent@,
{
    let Observed {
        sources: ps,
        tls: pt,
        http2_akamai_fingerprint: _,
        header_order,
        sec_ch_ua,
        sec_ch_ua_mobile,
        sec_ch_ua_platform,
        accept,
        accept_language,
        accept_encoding,
        user_agent,
    } = peet;
    let Observed { sources: bs, tls: bt, http2_akamai_fingerprint, .. } = bl;
    Observed {
        sources: Sources {
            ja3: bs.ja3,
            ja3n: bs.ja3n,
            ja4: bs.ja4,
            ja4_o: bs.ja4_o,
            peetprint: ps.peetprint,
            http2: bs.http2,
            headers: ps.headers,
        },
        tls: TlsFingerprint {
            ja3: pt.ja3,
            ja3_hash: bt.ja3_hash,
            ja3n_hash: bt.ja3n_hash,
            ja4: bt.ja4,
            ja4_o: bt.ja4_o,
            peetprint: pt.peetprint,
            peetprint_hash: pt.peetprint_hash,
        },
        http2_akamai_fingerprint,
        header_order,
        sec_ch_ua,
        sec_ch_ua_mobile,
        sec_ch_ua_platform,
        accept,
        accept_language,
        accept_encoding,
        user_agent,
    }
}

// ---------------------------------------------------------------------------
// Bucket-B provenance
// ---------------------------------------------------------------------------

/// The bucket-B fields (those with a known, tolerated gap).
pub open spec fn is_bucket_b_field(f: Seq<char>) -> bool {
    f == "ja3n_hash"@ || f == "ja4"@ || f == "peetprint_hash"@
}

/// Whether `f` names a bucket-B field.
pub fn is_bucket_b_name(f: &str) -> (r: bool)
    ensures
        r == is_bucket_b_field(f@),
{
    str_eq(f, "ja3n_hash") || str_eq(f, "ja4") || str_eq(f, "peetprint_hash")
}

/// The reference value of a bucket-B field.
pub open spec fn reference_value(f: Seq<char>, r: Reference) -> Seq<char> {
    if f == "ja3n_hash"@ {
        r.tls.ja3n_hash@
    } else if f == "ja4"@ {
        r.tls.ja4@
    } else {
        r.tls.peetprint_hash@
    }
}

/// The reference's source service for a bucket-B field.
pub open spec fn reference_source(f: Seq<char>, r: Reference) -> Seq<char> {
    if f == "ja3n_hash"@ {
        r.sources.ja3n@
    } else if f == "ja4"@ {
        r.sources.ja4@
    } else {
        r.sources.peetprint@
    }
}

/// The reference value for a bucket-B field (any other field is a caller
/// error).
pub fn reference_value_for<'a>(field: &str, reference: &'a Reference) -> (v: &'a str)
    requires
        is_bucket_b_field(field@),
    ensures
        v@ == reference_value(field@, *reference),
{
    if str_eq(field, "ja3n_hash") {
        reference.tls.ja3n_hash.as_str()
    } else if str_eq(field, "ja4") {
        reference.tls.ja4.as_str()
    } else {
        reference.tls.peetprint_hash.as_str()
    }
}

/// The reference's provenance source for a bucket-B field (any other field
/// is a caller error).
pub fn reference_source_for<'a>(field: &str, reference: &'a Reference) -> (v: &'a str)
    requires
        is_bucket_b_field(field@),
    ensures
        v@ == reference_source(field@, *reference),
{
    if str_eq(field, "ja3n_hash") {
        reference.sources.ja3n.as_str()
    } else if str_eq(field, "ja4") {
        reference.sources.ja4.as_str()
    } else {
        reference.sources.peetprint.as_str()
    }
}

/// What is wrong with the provenance of the first `k` bucket-B fields, if
/// anything: the first field with an empty value, or else with an empty
/// source.
pub open spec fn provenance_problem(r: Reference, name: Seq<char>, fields: Seq<Seq<char>>) -> Option<
    Seq<char>,
>
    decreases fields.len(),
{
    if fields.len() == 0 {
        None
    } else {
        match provenance_problem(r, name, fields.drop_last()) {
            Some(m) => Some(m),
            None => {
                let f = fields.last();
                if reference_value(f, r).len() == 0 {
                    Some(
                        name + ": bucket-B field "@ + f
                            + " has an empty reference value — its self-expiry is silently disabled. Re-capture the reference with the field populated."@,
                    )
                } else if reference_source(f, r).len() == 0 {
                    Some(
                        name + ": bucket-B field "@ + f
                            + " has an empty provenance source — check_source silently downgrades to a raw value comparison of unknown provenance. Re-capture the reference with the source recorded."@,
                    )
                } else {
                    None
                }
            },
        }
    }
}

/// The characters of each string slice.
pub open spec fn strs_view(v: Seq<&str>) -> Seq<Seq<char>> {
    v.map_values(|x: &str| x@)
}

/// Checks that every bucket-B field has a non-empty reference value and a
/// non-empty provenance source, so that its self-expiry stays armed; the
/// error names the first field that does not.
pub fn check_bucket_b_provenance(r: &Reference, name: &str, bucket_b: &[&str]) -> (res: Result<(), String>)
    requires
        forall|i: int| 0 <= i < bucket_b@.len() ==> is_bucket_b_field(#[trigger] bucket_b@[i]@),
    ensures
        match res {
            Ok(()) => provenance_problem(*r, name@, strs_view(bucket_b@)) is None,
            Err(m) => provenance_problem(*r, name@, strs_view(bucket_b@)) == Some(m@),
        },
{
    let ghost fs = strs_view(bucket_b@);
    let mut i: usize = 0;
    while i < bucket_b.len()
        invariant
            i <= bucket_b@.len(),
            fs == strs_view(bucket_b@),
            forall|j: int| 0 <= j < bucket_b@.len() ==> is_bucket_b_field(#[trigger] bucket_b@[j]@),
            provenance_problem(*r, name@, fs.take(i as int)) is None,
        decreases bucket_b@.len() - i,
    {
        let field = bucket_b[i];
        assert(fs.take(i + 1).drop_last() =~= fs.take(i as int));
        assert(fs.take(i + 1).last() == field@);
        let val = reference_value_for(field, r);
        if val.as_bytes().len() == 0 {
            let mut m = String::from_str(name);
            m.append(": bucket-B field ");
            m.append(field);
            m.append(
                " has an empty reference value — its self-expiry is silently disabled. Re-capture the reference with the field populated.",
            );
            assert(provenance_problem(*r, name@, fs.take(i + 1)) == Some(m@));
            proof {
                lemma_provenance_prefix(*r, name@, fs, i + 1);
            }
            return Err(m);
        }
        let src = reference_source_for(field, r);
        if src.as_bytes().len() == 0 {
            let mut m = String::from_str(name);
            m.append(": bucket-B field ");
            m.append(field);
            m.append(
                " has an empty provenance source — check_source silently downgrades to a raw value comparison of unknown provenance. Re-capture the reference with the source recorded.",
            );
            assert(provenance_problem(*r, name@, fs.take(i + 1)) == Some(m@));
            proof {
                lemma_provenance_prefix(*r, name@, fs, i + 1);
            }
            return Err(m);
        }
        i += 1;
    }
    assert(fs.take(fs.len() as int) =~= fs);
    Ok(())
}

/// A problem found among the first `k` fields is the problem of the whole list.
proof fn lemma_provenance_prefix(r: Reference, name: Seq<char>, fs: Seq<Seq<char>>, k: int)
    requires
        0 <= k <= fs.len(),
        provenance_problem(r, name, fs.take(k)) is Some,
    ensures
        provenance_problem(r, name, fs) == provenance_problem(r, name, fs.take(k)),
    decreases fs.len() - k,
{
    if k < fs.len() {
        assert(fs.take(k + 1).drop_last() =~= fs.take(k));
        lemma_provenance_prefix(r, name, fs, k + 1);
    } else {
        assert(fs.take(k) =~= fs);
    }
}

/// The reference records its JA3 string (the gap-exhibited gate depends on
/// it); the error explains what an empty one disables.
pub fn check_ja3_provenance(r: &Reference, name: &str) -> (res: Result<(), String>)
    ensures
        res is Ok <==> r.tls.ja3@.len() > 0,
        res matches Err(m) ==> m@ == name@
            + ": missing tls.ja3 — the oracle's gap-exhibited gate depends on it; an empty ja3 silently disables all bucket-B self-expiry"@,
{
    if r.tls.ja3.as_str().as_bytes().len() > 0 {
        Ok(())
    } else {
        let mut m = String::from_str(name);
        m.append(
            ": missing tls.ja3 — the oracle's gap-exhibited gate depends on it; an empty ja3 silently disables all bucket-B self-expiry",
        );
        Err(m)
    }
}

// ---------------------------------------------------------------------------
// Failure message
// ---------------------------------------------------------------------------

/// The outcome of classifying field differences: the hard failures (the
/// profile is wrong) and the bucket-B fields whose gap has closed.
#[derive(Debug)]
pub struct FingerprintVerdict {
    pub hard_failures: Vec<FieldDiff>,
    pub gap_closed: Vec<String>,
}

/// The failure message: names both the hard-failure count and the
/// closed-gap count, so neither class masks the other.
pub open spec fn fail_message(hard: nat, closed: nat, major: Seq<char>) -> Seq<char> {
    "fingerprint mismatch for Chrome "@ + major + ": "@ + decimal(hard) + " hard failure(s), "@
        + decimal(closed)
        + " closed gap(s). See FIELD lines above for hard failures (profile is wrong) and GAP-CLOSED lines for bucket-B fields that now match (remove them from FP_BUCKET_B)."@
}

/// Builds the failure message for a verdict.
pub fn fingerprint_fail_message(verdict: &FingerprintVerdict, major: &str) -> (m: String)
    ensures
        m@ == fail_message(
            verdict.hard_failures@.len(),
            verdict.gap_closed@.len(),
            major@,
        ),
{
    let hard = decimal_string(verdict.hard_failures.len() as u64);
    let closed = decimal_string(verdict.gap_closed.len() as u64);
    let mut m = String::from_str("fingerprint mismatch for Chrome ");
    m.append(major);
    m.append(": ");
    m.append(hard.as_str());
    m.append(" hard failure(s), ");
    m.append(closed.as_str());
    m.append(
        " closed gap(s). See FIELD lines above for hard failures (profile is wrong) and GAP-CLOSED lines for bucket-B fields that now match (remove them from FP_BUCKET_B).",
    );
    m
}


// ---------------------------------------------------------------------------
// Laws
// ---------------------------------------------------------------------------

/// A reference that records exactly what was observed, from the same
/// services and with no exclusion notes, yields no difference and skips
/// nothing, provided the observation is coherent.
pub proof fn law_matching_reference_reports_nothing(o: Observed, r: Reference)
    requires
        r.sources.ja3@ == o.sources.ja3@,
        r.sources.ja3n@ == o.sources.ja3n@,
        r.sources.ja4@ == o.sources.ja4@,
        r.sources.ja4_o@ == o.sources.ja4_o@,
        r.sources.peetprint@ == o.sources.peetprint@,
        r.sources.http2@ == o.sources.http2@,
        r.sources.headers@ == o.sources.headers@,
        r.tls.ja3_hash@ == o.tls.ja3_hash@,
        r.tls.ja3n_hash@ == o.tls.ja3n_hash@,
        r.tls.ja4@ == o.tls.ja4@,
        r.tls.ja4_o@ == o.tls.ja4_o@,
        r.tls.peetprint_hash@ == o.tls.peetprint_hash@,
        r.http2_akamai_fingerprint@ == o.http2_akamai_fingerprint@,
        strings_view(r.header_order@) == strings_view(o.header_order@),
        r.sec_ch_ua@ == o.sec_ch_ua@,
        r.sec_ch_ua_mobile@ == o.sec_ch_ua_mobile@,
        r.sec_ch_ua_platform@ == o.sec_ch_ua_platform@,
        r.accept@ == o.accept@,
        r.accept_language@ == o.accept_language@,
        r.accept_encoding@ == o.accept_encoding@,
        r.user_agent@ == o.user_agent@,
        r.notes@.len() == 0,
        coherence_diffs(o).len() == 0,
    ensures
        comparison(o, r).0.len() == 0,
        comparison(o, r).1.len() == 0,
{
    assert(!excludes(strings_view(r.notes@), "user-agent"@));
    assert(!excludes(strings_view(r.notes@), "sec-ch-ua"@));
}

/// When both sides name a service for the JA3 hash and the services differ,
/// the first difference reported is that source violation, whatever the
/// values are.
pub proof fn law_cross_service_is_a_source_violation(o: Observed, r: Reference)
    requires
        r.sources.ja3@.len() > 0,
        o.sources.ja3@.len() > 0,
        r.sources.ja3@ != o.sources.ja3@,
    ensures
        comparison(o, r).0.len() > 0,
        comparison(o, r).0[0].field == "source:"@ + "ja3_hash"@,
{
    let m = metric_diffs("ja3_hash"@, r.sources.ja3@, o.sources.ja3@, r.tls.ja3_hash@, o.tls.ja3_hash@);
    assert(m.len() == 1);
}

// ---------------------------------------------------------------------------
// Reading the echo services' JSON
// ---------------------------------------------------------------------------

/// `v[key]` as `serde_json` indexes a value: the member of an object, `Null`
/// for a missing member or a value that is not an object.
pub open spec fn at(v: JsonValue, key: Seq<char>) -> JsonValue {
    match member(v, key) {
        Some(x) => x,
        None => JsonValue::Null,
    }
}

/// The string at `v[key]`, empty when it is missing or not a string.
pub open spec fn text_at(v: JsonValue, key: Seq<char>) -> Seq<char> {
    match at(v, key) {
        JsonValue::Str(s) => s@,
        _ => Seq::empty(),
    }
}

/// What the request headers of the first HEADERS frame yield: the header
/// names in order and the values of the headers the oracle compares.
pub struct HeaderScan {
    pub order: Seq<Seq<char>>,
    pub sec_ch_ua: Seq<char>,
    pub sec_ch_ua_mobile: Seq<char>,
    pub sec_ch_ua_platform: Seq<char>,
    pub accept: Seq<char>,
    pub accept_language: Seq<char>,
    pub accept_encoding: Seq<char>,
}

/// Nothing scanned yet.
pub open spec fn empty_scan() -> HeaderScan {
    HeaderScan {
        order: Seq::empty(),
        sec_ch_ua: Seq::empty(),
        sec_ch_ua_mobile: Seq::empty(),
        sec_ch_ua_platform: Seq::empty(),
        accept: Seq::empty(),
        accept_language: Seq::empty(),
        accept_encoding: Seq::empty(),
    }
}

/// One header line: pseudo-headers (`:method`, ...) and non-strings are
/// skipped; any other line adds its name to the order, and a compared
/// header's value replaces the one kept so far.
pub open spec fn scan_header(st: HeaderScan, h: JsonValue) -> HeaderScan {
    match h {
        JsonValue::Str(s) => if s@.len() > 0 && s@[0] == ':' {
            st
        } else {
            let (n, v) = header_parts(s@);
            let st2 = HeaderScan { order: st.order.push(n), ..st };
            if n == "sec-ch-ua"@ {
                HeaderScan { sec_ch_ua: v, ..st2 }
            } else if n == "sec-ch-ua-mobile"@ {
                HeaderScan { sec_ch_ua_mobile: v, ..st2 }
            } else if n == "sec-ch-ua-platform"@ {
                HeaderScan { sec_ch_ua_platform: v, ..st2 }
            } else if n == "accept"@ {
                HeaderScan { accept: v, ..st2 }
            } else if n == "accept-language"@ {
                HeaderScan { accept_language: v, ..st2 }
            } else if n == "accept-encoding"@ {
                HeaderScan { accept_encoding: v, ..st2 }
            } else {
                st2
            }
        },
        _ => st,
    }
}

/// The first `i` header lines scanned in order.
pub open spec fn scan_headers(hs: Seq<JsonValue>, i: nat) -> HeaderScan
    decreases i,
{
    if i == 0 || i > hs.len() {
        empty_scan()
    } else {
        scan_header(scan_headers(hs, (i - 1) as nat), hs[i - 1])
    }
}

/// A frame whose `frame_type` is the string `HEADERS`.
pub open spec fn is_headers_frame(f: JsonValue) -> bool {
    at(f, "frame_type"@) matches JsonValue::Str(t) && t@ == "HEADERS"@
}

/// Index of the first HEADERS frame.
pub open spec fn first_headers_frame(frames: Seq<JsonValue>) -> Option<int> {
    if exists|i: int| 0 <= i < frames.len() && is_headers_frame(#[trigger] frames[i]) && forall|
        j: int,
    | 0 <= j < i ==> !is_headers_frame(#[trigger] frames[j]) {
        Some(
            choose|i: int|
                0 <= i < frames.len() && is_headers_frame(#[trigger] frames[i]) && forall|j: int|
                    0 <= j < i ==> !is_headers_frame(#[trigger] frames[j]),
        )
    } else {
        None
    }
}

/// What peet's `http2.sent_frames` yields: the scan of the header lines of
/// the first HEADERS frame (the request), or nothing.
pub open spec fn peet_headers(raw: JsonValue) -> HeaderScan {
    match at(at(raw, "http2"@), "sent_frames"@) {
        JsonValue::Array(frames) => match first_headers_frame(frames@) {
            Some(i) => match at(frames@[i], "headers"@) {
                JsonValue::Array(hs) => scan_headers(hs@, hs@.len()),
                _ => empty_scan(),
            },
            None => empty_scan(),
        },
        _ => empty_scan(),
    }
}

fn value_at<'a>(v: &'a JsonValue, key: &str) -> (r: Option<&'a JsonValue>)
    ensures
        match r {
            Some(x) => at(*v, key@) == *x,
            None => at(*v, key@) == JsonValue::Null,
        },
{
    v.get(key)
}

fn string_at(v: &JsonValue, key: &str) -> (r: String)
    ensures
        r@ == text_at(*v, key@),
{
    match value_at(v, key) {
        Some(JsonValue::Str(s)) => s.clone(),
        _ => String::new(),
    }
}

fn blank_tls() -> (t: TlsFingerprint)
    ensures
        t.ja3@.len() == 0,
        t.ja3_hash@.len() == 0,
        t.ja3n_hash@.len() == 0,
        t.ja4@.len() == 0,
        t.ja4_o@.len() == 0,
        t.peetprint@.len() == 0,
        t.peetprint_hash@.len() == 0,
{
    TlsFingerprint {
        ja3: String::new(),
        ja3_hash: String::new(),
        ja3n_hash: String::new(),
        ja4: String::new(),
        ja4_o: String::new(),
        peetprint: String::new(),
        peetprint_hash: String::new(),
    }
}

/// Scans the header lines of one frame into `o`.
fn scan_header_lines(hs: &Vec<JsonValue>, o: &mut Observed)
    requires
        scan_of(*old(o)) == empty_scan(),
    ensures
        scan_of(*final(o)) == scan_headers(hs@, hs@.len()),
        final(o).tls == old(o).tls,
        final(o).sources == old(o).sources,
        final(o).http2_akamai_fingerprint == old(o).http2_akamai_fingerprint,
        final(o).user_agent == old(o).user_agent,
{
    let mut i: usize = 0;
    while i < hs.len()
        invariant
            i <= hs@.len(),
            scan_of(*o) == scan_headers(hs@, i as nat),
            o.tls == old(o).tls,
            o.sources == old(o).sources,
            o.http2_akamai_fingerprint == old(o).http2_akamai_fingerprint,
            o.user_agent == old(o).user_agent,
        decreases hs@.len() - i,
    {
        let ghost before = scan_of(*o);
        if let JsonValue::Str(hs_text) = &hs[i] {
            let chars = chars_of(hs_text.as_str());
            let pseudo = chars.len() > 0 && chars[0] == ':';
            if !pseudo {
                let (name, val) = split_header(hs_text.as_str());
                let ghost order0 = o.header_order@;
                o.header_order.push(name.clone());
                assert(strings_view(o.header_order@) =~= strings_view(order0).push(name@));
                if str_eq(name.as_str(), "sec-ch-ua") {
                    o.sec_ch_ua = val;
                } else if str_eq(name.as_str(), "sec-ch-ua-mobile") {
                    o.sec_ch_ua_mobile = val;
                } else if str_eq(name.as_str(), "sec-ch-ua-platform") {
                    o.sec_ch_ua_platform = val;
                } else if str_eq(name.as_str(), "accept") {
                    o.accept = val;
                } else if str_eq(name.as_str(), "accept-language") {
                    o.accept_language = val;
                } else if str_eq(name.as_str(), "accept-encoding") {
                    o.accept_encoding = val;
                }
            }
        }
        assert(scan_of(*o) == scan_header(before, hs@[i as int]));
        i += 1;
    }
}

/// The header scan an observation holds.
pub open spec fn scan_of(o: Observed) -> HeaderScan {
    HeaderScan {
        order: strings_view(o.header_order@),
        sec_ch_ua: o.sec_ch_ua@,
        sec_ch_ua_mobile: o.sec_ch_ua_mobile@,
        sec_ch_ua_platform: o.sec_ch_ua_platform@,
        accept: o.accept@,
        accept_language: o.accept_language@,
        accept_encoding: o.accept_encoding@,
    }
}

/// Position of the first HEADERS frame.
fn first_headers_index(frames: &Vec<JsonValue>) -> (r: Option<usize>)
    ensures
        match r {
            Some(i) => first_headers_frame(frames@) == Some(i as int),
            None => first_headers_frame(frames@) is None,
        },
{
    let mut i: usize = 0;
    while i < frames.len()
        invariant
            i <= frames@.len(),
            forall|j: int| 0 <= j < i ==> !is_headers_frame(#[trigger] frames@[j]),
        decreases frames@.len() - i,
    {
        let f = &frames[i];
        let is_headers = match value_at(f, "frame_type") {
            Some(JsonValue::Str(t)) => str_eq(t.as_str(), "HEADERS"),
            _ => false,
        };
        if is_headers {
            proof {
                assert(is_headers_frame(frames@[i as int]));
                let c = choose|c: int|
                    0 <= c < frames@.len() && is_headers_frame(#[trigger] frames@[c]) && forall|
                        j: int,
                    | 0 <= j < c ==> !is_headers_frame(#[trigger] frames@[j]);
                if c < i {
                    assert(!is_headers_frame(frames@[c]));
                } else if c > i {
                    assert(!is_headers_frame(frames@[i as int]));
                }
            }
            return Some(i);
        }
        proof {
            assert(!is_headers_frame(frames@[i as int]));
        }
        i += 1;
    }
    None
}

/// Reads tls.peet.ws's `/api/all` JSON: JA3 and peetprint with their hashes,
/// the user agent, the HTTP/2 Akamai fingerprint, and the header order and
/// compared header values of the first HEADERS frame sent; JA3, peetprint,
/// HTTP/2 and headers are marked as measured by peet.
pub fn extract_peet(raw: &JsonValue) -> (o: Observed)
    ensures
        o.tls.ja3@ == text_at(at(*raw, "tls"@), "ja3"@),
        o.tls.ja3_hash@ == text_at(at(*raw, "tls"@), "ja3_hash"@),
        o.tls.peetprint@ == text_at(at(*raw, "tls"@), "peetprint"@),
        o.tls.peetprint_hash@ == text_at(at(*raw, "tls"@), "peetprint_hash"@),
        o.tls.ja3n_hash@.len() == 0,
        o.tls.ja4@.len() == 0,
        o.tls.ja4_o@.len() == 0,
        o.user_agent@ == text_at(*raw, "user_agent"@),
        o.http2_akamai_fingerprint@ == text_at(at(*raw, "http2"@), "akamai_fingerprint"@),
        scan_of(o) == peet_headers(*raw),
        o.sources.ja3@ == "peet"@,
        o.sources.peetprint@ == "peet"@,
        o.sources.http2@ == "peet"@,
        o.sources.headers@ == "peet"@,
        o.sources.ja3n@.len() == 0,
        o.sources.ja4@.len() == 0,
        o.sources.ja4_o@.len() == 0,
{
    let mut tls = blank_tls();
    let mut ja3 = String::new();
    let mut ja3_hash = String::new();
    let mut peetprint = String::new();
    let mut peetprint_hash = String::new();
    if let Some(t) = value_at(raw, "tls") {
        ja3 = string_at(t, "ja3");
        ja3_hash = string_at(t, "ja3_hash");
        peetprint = string_at(t, "peetprint");
        peetprint_hash = string_at(t, "peetprint_hash");
    }
    tls.ja3 = ja3;
    tls.ja3_hash = ja3_hash;
    tls.peetprint = peetprint;
    tls.peetprint_hash = peetprint_hash;
    let mut akamai = String::new();
    let h2 = value_at(raw, "http2");
    if let Some(h) = h2 {
        akamai = string_at(h, "akamai_fingerprint");
    }
    let mut o = Observed {
        sources: Sources {
            ja3: String::from_str("peet"),
            ja3n: String::new(),
            ja4: String::new(),
            ja4_o: String::new(),
            peetprint: String::from_str("peet"),
            http2: String::from_str("peet"),
            headers: String::from_str("peet"),
        },
        tls,
        http2_akamai_fingerprint: akamai,
        header_order: Vec::new(),
        sec_ch_ua: String::new(),
        sec_ch_ua_mobile: String::new(),
        sec_ch_ua_platform: String::new(),
        accept: String::new(),
        accept_language: String::new(),
        accept_encoding: String::new(),
        user_agent: string_at(raw, "user_agent"),
    };
    assert(scan_of(o) == empty_scan()) by {
        assert(strings_view(o.header_order@) =~= Seq::<Seq<char>>::empty());
    }
    if let Some(h) = h2 {
        if let Some(JsonValue::Array(frames)) = value_at(h, "sent_frames") {
            if let Some(k) = first_headers_index(frames) {
                if let Some(JsonValue::Array(hs)) = value_at(&frames[k], "headers") {
                    scan_header_lines(hs, &mut o);
                }
            }
        }
    }
    o
}

/// Reads tls.browserleaks.com's `/json`: the JA3, JA3n, JA4 and JA4_o hashes
/// and the HTTP/2 Akamai fingerprint, all marked as measured by browserleaks.
pub fn extract_browserleaks(raw: &JsonValue) -> (o: Observed)
    ensures
        o.tls.ja3_hash@ == text_at(*raw, "ja3_hash"@),
        o.tls.ja3n_hash@ == text_at(*raw, "ja3n_hash"@),
        o.tls.ja4@ == text_at(*raw, "ja4"@),
        o.tls.ja4_o@ == text_at(*raw, "ja4_o"@),
        o.http2_akamai_fingerprint@ == text_at(*raw, "akamai_text"@),
        o.tls.ja3@.len() == 0,
        o.tls.peetprint@.len() == 0,
        o.tls.peetprint_hash@.len() == 0,
        scan_of(o) == empty_scan(),
        o.user_agent@.len() == 0,
        o.sources.ja3@ == "browserleaks"@,
        o.sources.ja3n@ == "browserleaks"@,
        o.sources.ja4@ == "browserleaks"@,
        o.sources.ja4_o@ == "browserleaks"@,
        o.sources.http2@ == "browserleaks"@,
        o.sources.peetprint@.len() == 0,
        o.sources.headers@.len() == 0,
{
    let mut tls = blank_tls();
    tls.ja3_hash = string_at(raw, "ja3_hash");
    tls.ja3n_hash = string_at(raw, "ja3n_hash");
    tls.ja4 = string_at(raw, "ja4");
    tls.ja4_o = string_at(raw, "ja4_o");
    let o = Observed {
        sources: Sources {
            ja3: String::from_str("browserleaks"),
            ja3n: String::from_str("browserleaks"),
            ja4: String::from_str("browserleaks"),
            ja4_o: String::from_str("browserleaks"),
            peetprint: String::new(),
            http2: String::from_str("browserleaks"),
            headers: String::new(),
        },
        tls,
        http2_akamai_fingerprint: string_at(raw, "akamai_text"),
        header_order: Vec::new(),
        sec_ch_ua: String::new(),
        sec_ch_ua_mobile: String::new(),
        sec_ch_ua_platform: String::new(),
        accept: String::new(),
        accept_language: String::new(),
        accept_encoding: String::new(),
        user_agent: String::new(),
    };
    assert(strings_view(o.header_order@) =~= Seq::<Seq<char>>::empty());
    o
}

/// An element of either part is an element of the concatenation.
proof fn lemma_concat_contains<A>(a: Seq<A>, b: Seq<A>, x: A)
    ensures
        a.contains(x) ==> (a + b).contains(x),
        b.contains(x) ==> (a + b).contains(x),
{
    if a.contains(x) {
        let i = choose|i: int| 0 <= i < a.len() && a[i] == x;
        assert((a + b)[i] == x);
    }
    if b.contains(x) {
        let j = choose|j: int| 0 <= j < b.len() && b[j] == x;
        assert((a + b)[a.len() + j] == x);
    }
}

/// A difference any part of the comparison reports is among its differences.
proof fn lemma_comparison_parts(o: Observed, r: Reference, x: DiffView)
    ensures
        metric_diffs("ja3_hash"@, r.sources.ja3@, o.sources.ja3@, r.tls.ja3_hash@, o.tls.ja3_hash@).contains(x)
            ==> comparison(o, r).0.contains(x),
        optional_metric_diffs("ja3n_hash"@, r.sources.ja3n@, o.sources.ja3n@, r.tls.ja3n_hash@, o.tls.ja3n_hash@).contains(x)
            ==> comparison(o, r).0.contains(x),
        metric_diffs("ja4"@, r.sources.ja4@, o.sources.ja4@, r.tls.ja4@, o.tls.ja4@).contains(x) ==> comparison(o, r).0.contains(x),
        optional_metric_diffs("ja4_o"@, r.sources.ja4_o@, o.sources.ja4_o@, r.tls.ja4_o@, o.tls.ja4_o@).contains(x)
            ==> comparison(o, r).0.contains(x),
        optional_metric_diffs("peetprint_hash"@, r.sources.peetprint@, o.sources.peetprint@, r.tls.peetprint_hash@, o.tls.peetprint_hash@).contains(x)
            ==> comparison(o, r).0.contains(x),
        metric_diffs("http2_akamai"@, r.sources.http2@, o.sources.http2@, r.http2_akamai_fingerprint@, o.http2_akamai_fingerprint@).contains(x)
            ==> comparison(o, r).0.contains(x),
        header_block(o, r, excludes(strings_view(r.notes@), "sec-ch-ua"@)).contains(x) ==> comparison(o, r).0.contains(x),
        (!excludes(strings_view(r.notes@), "user-agent"@) && recorded_diff("user_agent"@, r.user_agent@, o.user_agent@).contains(x))
            ==> comparison(o, r).0.contains(x),
{
    let notes = strings_view(r.notes@);
    let skip_ua = excludes(notes, "user-agent"@);
    let hb = header_block(o, r, excludes(notes, "sec-ch-ua"@));
    let ua = if !skip_ua {
        recorded_diff("user_agent"@, r.user_agent@, o.user_agent@)
    } else {
        Seq::empty()
    };
    let p1 = metric_diffs("ja3_hash"@, r.sources.ja3@, o.sources.ja3@, r.tls.ja3_hash@, o.tls.ja3_hash@);
    let p2 = optional_metric_diffs("ja3n_hash"@, r.sources.ja3n@, o.sources.ja3n@, r.tls.ja3n_hash@, o.tls.ja3n_hash@);
    let p3 = metric_diffs("ja4"@, r.sources.ja4@, o.sources.ja4@, r.tls.ja4@, o.tls.ja4@);
    let p4 = optional_metric_diffs("ja4_o"@, r.sources.ja4_o@, o.sources.ja4_o@, r.tls.ja4_o@, o.tls.ja4_o@);
    let p5 = optional_metric_diffs("peetprint_hash"@, r.sources.peetprint@, o.sources.peetprint@, r.tls.peetprint_hash@, o.tls.peetprint_hash@);
    let p6 = metric_diffs("http2_akamai"@, r.sources.http2@, o.sources.http2@, r.http2_akamai_fingerprint@, o.http2_akamai_fingerprint@);
    let c1 = p1 + p2;
    let c2 = c1 + p3;
    let c3 = c2 + p4;
    let c4 = c3 + p5;
    let c5 = c4 + p6;
    let c6 = c5 + hb;
    let c7 = c6 + ua;
    let c8 = c7 + coherence_diffs(o);
    assert(comparison(o, r).0 == c8);
    lemma_concat_contains(p1, p2, x);
    lemma_concat_contains(c1, p3, x);
    lemma_concat_contains(c2, p4, x);
    lemma_concat_contains(c3, p5, x);
    lemma_concat_contains(c4, p6, x);
    lemma_concat_contains(c5, hb, x);
    lemma_concat_contains(c6, ua, x);
    lemma_concat_contains(c7, coherence_diffs(o), x);
}

/// When the headers were captured by the same service on both sides, every
/// header the reference records (non-empty) and the observation does not
/// match is reported, naming the header, the reference value and the
/// observed value.
pub proof fn law_header_mismatches_are_reported(o: Observed, r: Reference)
    requires
        r.sources.headers@.len() > 0,
        r.sources.headers@ == o.sources.headers@,
    ensures
        (r.accept@.len() > 0 && r.accept@ != o.accept@) ==> comparison(o, r).0.contains(
            DiffView { field: "accept"@, expected: r.accept@, observed: o.accept@ },
        ),
        (r.accept_language@.len() > 0 && r.accept_language@ != o.accept_language@) ==> comparison(o, r).0.contains(
            DiffView { field: "accept_language"@, expected: r.accept_language@, observed: o.accept_language@ },
        ),
        (r.accept_encoding@.len() > 0 && r.accept_encoding@ != o.accept_encoding@) ==> comparison(o, r).0.contains(
            DiffView { field: "accept_encoding"@, expected: r.accept_encoding@, observed: o.accept_encoding@ },
        ),
        (r.sec_ch_ua_mobile@.len() > 0 && r.sec_ch_ua_mobile@ != o.sec_ch_ua_mobile@) ==> comparison(o, r).0.contains(
            DiffView { field: "sec_ch_ua_mobile"@, expected: r.sec_ch_ua_mobile@, observed: o.sec_ch_ua_mobile@ },
        ),
        (r.sec_ch_ua_platform@.len() > 0 && r.sec_ch_ua_platform@ != o.sec_ch_ua_platform@) ==> comparison(o, r).0.contains(
            DiffView { field: "sec_ch_ua_platform"@, expected: r.sec_ch_ua_platform@, observed: o.sec_ch_ua_platform@ },
        ),
{
    let skip_sec = excludes(strings_view(r.notes@), "sec-ch-ua"@);
    let a1 = recorded_diff("sec_ch_ua_mobile"@, r.sec_ch_ua_mobile@, o.sec_ch_ua_mobile@);
    let a2 = recorded_diff("sec_ch_ua_platform"@, r.sec_ch_ua_platform@, o.sec_ch_ua_platform@);
    let a3 = recorded_diff("accept"@, r.accept@, o.accept@);
    let a4 = recorded_diff("accept_language"@, r.accept_language@, o.accept_language@);
    let a5 = recorded_diff("accept_encoding"@, r.accept_encoding@, o.accept_encoding@);
    let head = order_diff(o, r) + sec_ch_ua_diff(o, r, skip_sec);
    assert(source_violation("header_order"@, r.sources.headers@, o.sources.headers@) is None);
    assert(header_block(o, r, skip_sec) == head + ((((a1 + a2) + a3) + a4) + a5));
    let xs = seq![
        DiffView { field: "accept"@, expected: r.accept@, observed: o.accept@ },
        DiffView { field: "accept_language"@, expected: r.accept_language@, observed: o.accept_language@ },
        DiffView { field: "accept_encoding"@, expected: r.accept_encoding@, observed: o.accept_encoding@ },
        DiffView { field: "sec_ch_ua_mobile"@, expected: r.sec_ch_ua_mobile@, observed: o.sec_ch_ua_mobile@ },
        DiffView { field: "sec_ch_ua_platform"@, expected: r.sec_ch_ua_platform@, observed: o.sec_ch_ua_platform@ },
    ];
    assert forall|n: int| 0 <= n < 5 implies (xs[n].expected.len() > 0 && xs[n].expected != xs[n].observed)
        ==> comparison(o, r).0.contains(xs[n]) by {
        let x = xs[n];
        if x.expected.len() > 0 && x.expected != x.observed {
            assert(seq![x][0] == x);
            if n == 0 {
                assert(a3 == seq![x]);
            } else if n == 1 {
                assert(a4 == seq![x]);
            } else if n == 2 {
                assert(a5 == seq![x]);
            } else if n == 3 {
                assert(a1 == seq![x]);
            } else {
                assert(a2 == seq![x]);
            }
            assert(seq![x].contains(x));
            lemma_concat_contains(a1, a2, x);
            lemma_concat_contains(a1 + a2, a3, x);
            lemma_concat_contains((a1 + a2) + a3, a4, x);
            lemma_concat_contains(((a1 + a2) + a3) + a4, a5, x);
            lemma_concat_contains(head, (((a1 + a2) + a3) + a4) + a5, x);
            lemma_comparison_parts(o, r, x);
        }
    }
    assert(xs[0] == DiffView { field: "accept"@, expected: r.accept@, observed: o.accept@ });
    assert(xs[1] == DiffView { field: "accept_language"@, expected: r.accept_language@, observed: o.accept_language@ });
    assert(xs[2] == DiffView { field: "accept_encoding"@, expected: r.accept_encoding@, observed: o.accept_encoding@ });
    assert(xs[3] == DiffView { field: "sec_ch_ua_mobile"@, expected: r.sec_ch_ua_mobile@, observed: o.sec_ch_ua_mobile@ });
    assert(xs[4] == DiffView { field: "sec_ch_ua_platform"@, expected: r.sec_ch_ua_platform@, observed: o.sec_ch_ua_platform@ });
}

/// When both sides name the same service for a metric (or neither names
/// one), a metric whose values differ is reported with the reference and
/// observed values; the optional metrics only when the reference records a
/// value; the user agent unless a reference note excludes it.
pub proof fn law_metric_mismatches_are_reported(o: Observed, r: Reference)
    ensures
        (r.sources.ja3@ == o.sources.ja3@ && r.tls.ja3_hash@ != o.tls.ja3_hash@) ==> comparison(o, r).0.contains(
            DiffView { field: "ja3_hash"@, expected: r.tls.ja3_hash@, observed: o.tls.ja3_hash@ },
        ),
        (r.sources.ja4@ == o.sources.ja4@ && r.tls.ja4@ != o.tls.ja4@) ==> comparison(o, r).0.contains(
            DiffView { field: "ja4"@, expected: r.tls.ja4@, observed: o.tls.ja4@ },
        ),
        (r.sources.http2@ == o.sources.http2@ && r.http2_akamai_fingerprint@ != o.http2_akamai_fingerprint@)
            ==> comparison(o, r).0.contains(
            DiffView { field: "http2_akamai"@, expected: r.http2_akamai_fingerprint@, observed: o.http2_akamai_fingerprint@ },
        ),
        (r.sources.ja3n@ == o.sources.ja3n@ && r.tls.ja3n_hash@.len() > 0 && r.tls.ja3n_hash@ != o.tls.ja3n_hash@)
            ==> comparison(o, r).0.contains(
            DiffView { field: "ja3n_hash"@, expected: r.tls.ja3n_hash@, observed: o.tls.ja3n_hash@ },
        ),
        (r.sources.ja4_o@ == o.sources.ja4_o@ && r.tls.ja4_o@.len() > 0 && r.tls.ja4_o@ != o.tls.ja4_o@)
            ==> comparison(o, r).0.contains(DiffView { field: "ja4_o"@, expected: r.tls.ja4_o@, observed: o.tls.ja4_o@ }),
        (r.sources.peetprint@ == o.sources.peetprint@ && r.tls.peetprint_hash@.len() > 0 && r.tls.peetprint_hash@
            != o.tls.peetprint_hash@) ==> comparison(o, r).0.contains(
            DiffView { field: "peetprint_hash"@, expected: r.tls.peetprint_hash@, observed: o.tls.peetprint_hash@ },
        ),
        (!excludes(strings_view(r.notes@), "user-agent"@) && r.user_agent@.len() > 0 && r.user_agent@ != o.user_agent@)
            ==> comparison(o, r).0.contains(
            DiffView { field: "user_agent"@, expected: r.user_agent@, observed: o.user_agent@ },
        ),
{
    let d1 = DiffView { field: "ja3_hash"@, expected: r.tls.ja3_hash@, observed: o.tls.ja3_hash@ };
    let d2 = DiffView { field: "ja4"@, expected: r.tls.ja4@, observed: o.tls.ja4@ };
    let d3 = DiffView { field: "http2_akamai"@, expected: r.http2_akamai_fingerprint@, observed: o.http2_akamai_fingerprint@ };
    let d4 = DiffView { field: "ja3n_hash"@, expected: r.tls.ja3n_hash@, observed: o.tls.ja3n_hash@ };
    let d5 = DiffView { field: "ja4_o"@, expected: r.tls.ja4_o@, observed: o.tls.ja4_o@ };
    let d6 = DiffView { field: "peetprint_hash"@, expected: r.tls.peetprint_hash@, observed: o.tls.peetprint_hash@ };
    let d7 = DiffView { field: "user_agent"@, expected: r.user_agent@, observed: o.user_agent@ };
    assert(seq![d1][0] == d1 && seq![d2][0] == d2 && seq![d3][0] == d3 && seq![d4][0] == d4);
    assert(seq![d5][0] == d5 && seq![d6][0] == d6 && seq![d7][0] == d7);
    assert(seq![d1].contains(d1) && seq![d2].contains(d2) && seq![d3].contains(d3) && seq![d4].contains(d4));
    assert(seq![d5].contains(d5) && seq![d6].contains(d6) && seq![d7].contains(d7));
    lemma_comparison_parts(o, r, d1);
    lemma_comparison_parts(o, r, d2);
    lemma_comparison_parts(o, r, d3);
    lemma_comparison_parts(o, r, d4);
    lemma_comparison_parts(o, r, d5);
    lemma_comparison_parts(o, r, d6);
    lemma_comparison_parts(o, r, d7);
}

} // verus!
