//! URL and content deduplication, and crawler-trap detection.
//!
//! - [`UrlDedup`] tracks seen URLs by their xxh3-64 hash.
//! - [`ContentDedup`] tracks seen page bodies by their blake3 digest.
//! - [`is_cycle`] detects crawler traps (repeating paths, extreme length).
//!
//! Both sets are bounded by `max_capacity`: they keep their hashes in
//! insertion order and, when a new hash arrives at a full set, the eldest
//! hash is evicted first.

use vstd::prelude::*;
use vstd::string::*;

verus! {

/// Default capacity of a dedup set.
pub const DEFAULT_DEDUP_CAPACITY: usize = 100_000;

/// The xxh3-64 hash of a byte sequence, as `xxhash_rust::xxh3::xxh3_64`
/// computes it.
pub uninterp spec fn xxh3_64_of(bytes: Seq<u8>) -> u64;

/// Calls `xxhash_rust::xxh3::xxh3_64`; the result is named `xxh3_64_of` of
/// the input bytes (the hash is a fixed function of its input).
#[verifier::external_body]
fn xxh3_64(bytes: &[u8]) -> (h: u64)
    ensures
        h == xxh3_64_of(bytes@),
{
    xxhash_rust::xxh3::xxh3_64(bytes)
}

/// The blake3 digest of a byte sequence, as `blake3::hash` computes it.
pub uninterp spec fn blake3_of(bytes: Seq<u8>) -> Seq<u8>;

/// Calls `blake3::hash` and returns the digest's bytes; the result is named
/// `blake3_of` of the input bytes.
#[verifier::external_body]
fn blake3_digest(bytes: &[u8]) -> (d: [u8; 32])
    ensures
        d@ == blake3_of(bytes@),
{
    *blake3::hash(bytes).as_bytes()
}

/// The hash under which a URL is recorded.
pub open spec fn url_key(url: &str) -> u64 {
    xxh3_64_of(url.spec_bytes())
}

/// The digest under which a body is recorded.
pub open spec fn content_key(content: Seq<u8>) -> Seq<u8> {
    blake3_of(content)
}

/// No element appears twice.
pub open spec fn all_distinct<T>(s: Seq<T>) -> bool {
    forall|i: int, j: int| 0 <= i < s.len() && 0 <= j < s.len() && i != j ==> s[i] != s[j]
}

/// Record `k` in an insertion-ordered bounded set: a known key changes
/// nothing; a new key is appended, first evicting the eldest key when the set
/// already holds `cap` keys.
pub open spec fn fifo_insert<T>(s: Seq<T>, k: T, cap: nat) -> Seq<T> {
    if s.contains(k) {
        s
    } else if s.len() >= cap {
        s.drop_first().push(k)
    } else {
        s.push(k)
    }
}

/// Inserting keeps elements distinct and the set within `cap`, and the key is
/// present afterwards.
pub proof fn lemma_fifo_insert<T>(s: Seq<T>, k: T, cap: nat)
    requires
        all_distinct(s),
        s.len() <= cap,
        cap >= 1,
    ensures
        all_distinct(fifo_insert(s, k, cap)),
        fifo_insert(s, k, cap).len() <= cap,
        fifo_insert(s, k, cap).contains(k),
{
    let u = fifo_insert(s, k, cap);
    if !s.contains(k) {
        assert(u[u.len() - 1] == k);
        assert forall|a: int, b: int| 0 <= a < u.len() && 0 <= b < u.len() && a != b implies u[a]
            != u[b] by {
            if s.len() >= cap {
                if a < u.len() - 1 {
                    assert(u[a] == s[a + 1]);
                }
                if b < u.len() - 1 {
                    assert(u[b] == s[b + 1]);
                }
            }
        }
    }
}

/// A set of seen URLs, keyed by the xxh3-64 hash of the normalized URL.
#[derive(Debug)]
pub struct UrlDedup {
    seen: Vec<u64>,
    max_capacity: usize,
}

impl View for UrlDedup {
    type V = Seq<u64>;

    /// The recorded hashes, eldest first.
    closed spec fn view(&self) -> Seq<u64> {
        self.seen@
    }
}

impl UrlDedup {
    /// The set's internal invariant.
    pub closed spec fn wf(&self) -> bool {
        &&& all_distinct(self.seen@)
        &&& self.seen@.len() <= self.max_capacity
        &&& self.max_capacity >= 1
    }

    /// The bound on the number of recorded hashes.
    pub closed spec fn capacity(&self) -> nat {
        self.max_capacity as nat
    }

    /// An empty set with the default capacity.
    pub fn new() -> (d: Self)
        ensures
            d.wf(),
            d@.len() == 0,
            d.capacity() == DEFAULT_DEDUP_CAPACITY,
    {
        Self::with_capacity(DEFAULT_DEDUP_CAPACITY)
    }

    /// An empty set holding at most `max_capacity` (at least one) hashes.
    pub fn with_capacity(max_capacity: usize) -> (d: Self)
        ensures
            d.wf(),
            d@.len() == 0,
            d.capacity() == if max_capacity >= 1 { max_capacity as nat } else { 1 },
    {
        UrlDedup { seen: Vec::new(), max_capacity: if max_capacity >= 1 { max_capacity } else { 1 } }
    }

    fn position(&self, h: u64) -> (r: Option<usize>)
        ensures
            r matches Some(i) ==> i < self@.len() && self@[i as int] == h,
            r is None <==> !self@.contains(h),
    {
        let mut i: usize = 0;
        while i < self.seen.len()
            invariant
                i <= self.seen@.len(),
                forall|j: int| 0 <= j < i ==> self.seen@[j] != h,
            decreases self.seen@.len() - i,
        {
            if self.seen[i] == h {
                return Some(i);
            }
            i += 1;
        }
        None
    }

    /// Insert a normalized URL. Returns `true` if it was new; a new URL at a
    /// full set evicts the eldest recorded hash first.
    pub fn insert(&mut self, normalized_url: &str) -> (new: bool)
        requires
            old(self).wf(),
        ensures
            final(self).wf(),
            final(self).capacity() == old(self).capacity(),
            new == !old(self)@.contains(url_key(normalized_url)),
            final(self)@ == fifo_insert(old(self)@, url_key(normalized_url), old(self).capacity()),
    {
        let h = xxh3_64(normalized_url.as_bytes());
        proof {
            lemma_fifo_insert(self@, h, self.capacity());
        }
        if self.position(h).is_some() {
            return false;
        }
        if self.seen.len() >= self.max_capacity {
            self.seen.remove(0);
        }
        self.seen.push(h);
        assert(self@ =~= fifo_insert(old(self)@, h, old(self).capacity()));
        true
    }

    /// Whether a normalized URL has been recorded (and not evicted).
    pub fn contains(&self, normalized_url: &str) -> (r: bool)
        ensures
            r == self@.contains(url_key(normalized_url)),
    {
        let h = xxh3_64(normalized_url.as_bytes());
        self.position(h).is_some()
    }

    /// The number of recorded hashes.
    pub fn len(&self) -> (n: usize)
        ensures
            n == self@.len(),
    {
        self.seen.len()
    }

    /// Whether nothing is recorded.
    pub fn is_empty(&self) -> (r: bool)
        ensures
            r == (self@.len() == 0),
    {
        self.seen.len() == 0
    }

    /// The configured maximum number of entries.
    pub fn max_capacity(&self) -> (n: usize)
        ensures
            n == self.capacity(),
            self.wf() ==> n >= 1,
    {
        self.max_capacity
    }

    /// Remove every recorded hash.
    pub fn clear(&mut self)
        requires
            old(self).wf(),
        ensures
            final(self).wf(),
            final(self)@.len() == 0,
            final(self).capacity() == old(self).capacity(),
    {
        self.seen.clear();
    }
}

/// Whether two digests are equal.
fn digest_eq(a: &[u8; 32], b: &[u8; 32]) -> (r: bool)
    ensures
        r == (a@ == b@),
{
    let mut i: usize = 0;
    while i < 32
        invariant
            i <= 32,
            a@.len() == 32,
            b@.len() == 32,
            forall|j: int| 0 <= j < i ==> a@[j] == b@[j],
        decreases 32 - i,
    {
        if a[i] != b[i] {
            return false;
        }
        i += 1;
    }
    assert(a@ =~= b@);
    true
}

/// A set of seen page bodies, keyed by their blake3 digest.
#[derive(Debug)]
pub struct ContentDedup {
    seen: Vec<[u8; 32]>,
    max_capacity: usize,
}

/// The digests of a table of arrays.
pub open spec fn digests_view(v: Seq<[u8; 32]>) -> Seq<Seq<u8>> {
    v.map_values(|d: [u8; 32]| d@)
}

impl View for ContentDedup {
    type V = Seq<Seq<u8>>;

    /// The recorded digests, eldest first.
    closed spec fn view(&self) -> Seq<Seq<u8>> {
        digests_view(self.seen@)
    }
}

impl ContentDedup {
    /// The set's internal invariant.
    pub closed spec fn wf(&self) -> bool {
        &&& all_distinct(self@)
        &&& self.seen@.len() <= self.max_capacity
        &&& self.max_capacity >= 1
    }

    /// The bound on the number of recorded digests.
    pub closed spec fn capacity(&self) -> nat {
        self.max_capacity as nat
    }

    /// An empty set with the default capacity.
    pub fn new() -> (d: Self)
        ensures
            d.wf(),
            d@.len() == 0,
            d.capacity() == DEFAULT_DEDUP_CAPACITY,
    {
        Self::with_capacity(DEFAULT_DEDUP_CAPACITY)
    }

    /// An empty set holding at most `max_capacity` (at least one) digests.
    pub fn with_capacity(max_capacity: usize) -> (d: Self)
        ensures
            d.wf(),
            d@.len() == 0,
            d.capacity() == if max_capacity >= 1 { max_capacity as nat } else { 1 },
    {
        let d = ContentDedup {
            seen: Vec::new(),
            max_capacity: if max_capacity >= 1 { max_capacity } else { 1 },
        };
        assert(d@ =~= Seq::<Seq<u8>>::empty());
        d
    }

    /// Insert content bytes. Returns `true` if the content was new; new
    /// content at a full set evicts the eldest digest first.
    pub fn insert(&mut self, content: &[u8]) -> (new: bool)
        requires
            old(self).wf(),
        ensures
            final(self).wf(),
            final(self).capacity() == old(self).capacity(),
            new == !old(self)@.contains(content_key(content@)),
            final(self)@ == fifo_insert(old(self)@, content_key(content@), old(self).capacity()),
    {
        let d = blake3_digest(content);
        proof {
            lemma_fifo_insert(self@, d@, self.capacity());
        }
        let mut i: usize = 0;
        while i < self.seen.len()
            invariant
                self.wf(),
                self@ == old(self)@,
                self.capacity() == old(self).capacity(),
                d@ == content_key(content@),
                i <= self.seen@.len(),
                forall|j: int| 0 <= j < i ==> self@[j] != d@,
            decreases self.seen@.len() - i,
        {
            if digest_eq(&self.seen[i], &d) {
                assert(self@[i as int] == d@);
                return false;
            }
            i += 1;
        }
        assert(!self@.contains(d@));
        let ghost v0 = self.seen@;
        if self.seen.len() >= self.max_capacity {
            self.seen.remove(0);
            assert(digests_view(self.seen@) =~= digests_view(v0).drop_first());
        }
        let ghost v1 = self.seen@;
        self.seen.push(d);
        assert(digests_view(self.seen@) =~= digests_view(v1).push(d@));
        assert(self@ =~= fifo_insert(old(self)@, d@, old(self).capacity()));
        true
    }

    /// The number of recorded digests.
    pub fn len(&self) -> (n: usize)
        ensures
            n == self@.len(),
    {
        self.seen.len()
    }

    /// Whether nothing is recorded.
    pub fn is_empty(&self) -> (r: bool)
        ensures
            r == (self@.len() == 0),
    {
        self.seen.len() == 0
    }

    /// The configured maximum number of entries.
    pub fn max_capacity(&self) -> (n: usize)
        ensures
            n == self.capacity(),
            self.wf() ==> n >= 1,
    {
        self.max_capacity
    }

    /// Remove every recorded digest.
    pub fn clear(&mut self)
        requires
            old(self).wf(),
        ensures
            final(self).wf(),
            final(self)@.len() == 0,
            final(self).capacity() == old(self).capacity(),
    {
        self.seen.clear();
        assert(self@ =~= Seq::<Seq<u8>>::empty());
    }
}

} // verus!

verus! {

// ---------------------------------------------------------------------------
// Cycle (crawler-trap) detection
// ---------------------------------------------------------------------------

/// URLs longer than this many bytes are treated as traps.
pub const MAX_URL_LENGTH: usize = 2048;

/// The path of `raw` as the `url` crate parses it (`Url::parse` then
/// `Url::path`), or `None` when `raw` is not an absolute URL.
pub uninterp spec fn parsed_url_path(raw: Seq<char>) -> Option<Seq<char>>;

/// Calls `url::Url::parse` and reads the parsed URL's `path()`; the result is
/// named `parsed_url_path(raw@)`, which depends on `raw` alone, and exists
/// exactly when `raw` parses.
#[verifier::external_body]
pub(crate) fn url_path(raw: &str) -> (r: Option<String>)
    ensures
        r is Some <==> crate::urls::url_parses(raw@),
        match r {
            Some(p) => parsed_url_path(raw@) == Some(p@),
            None => parsed_url_path(raw@) is None,
        },
{
    url::Url::parse(raw).ok().map(|u| u.path().to_string())
}

/// Splitting the first `i` characters of `s` on `'/'`: the completed
/// non-empty segments and the segment in progress.
pub open spec fn seg_state(s: Seq<char>, i: nat) -> (Seq<Seq<char>>, Seq<char>)
    decreases i,
{
    if i == 0 || i > s.len() {
        (Seq::empty(), Seq::empty())
    } else {
        let (done, cur) = seg_state(s, (i - 1) as nat);
        if s[i - 1] == '/' {
            if cur.len() == 0 {
                (done, cur)
            } else {
                (done.push(cur), Seq::empty())
            }
        } else {
            (done, cur.push(s[i - 1]))
        }
    }
}

/// The non-empty `'/'`-separated segments of a path, in order.
pub open spec fn path_segments(s: Seq<char>) -> Seq<Seq<char>> {
    let (done, cur) = seg_state(s, s.len());
    if cur.len() == 0 {
        done
    } else {
        done.push(cur)
    }
}

/// `segs` is whole repetitions of its first `k` segments.
pub open spec fn repeats_with_period(segs: Seq<Seq<char>>, k: int) -> bool {
    &&& 1 <= k
    &&& (segs.len() as int) % k == 0
    &&& forall|i: int| 0 <= i < segs.len() ==> #[trigger] segs[i] == segs[i % k]
}

/// At least four segments that are two or more repetitions of one pattern.
pub open spec fn has_repeating_pattern(segs: Seq<Seq<char>>) -> bool {
    &&& segs.len() >= 4
    &&& exists|k: int| 1 <= k <= segs.len() / 2 && #[trigger] repeats_with_period(segs, k)
}

/// `url` looks like a crawler trap: it is longer than [`MAX_URL_LENGTH`]
/// bytes, or it parses and its path repeats a segment pattern.
pub open spec fn is_trap(url: &str) -> bool {
    ||| url.spec_bytes().len() > MAX_URL_LENGTH
    ||| match parsed_url_path(url@) {
        Some(p) => has_repeating_pattern(path_segments(p)),
        None => false,
    }
}

/// The characters of each vector.
pub open spec fn vecs_view(v: Seq<Vec<char>>) -> Seq<Seq<char>> {
    v.map_values(|x: Vec<char>| x@)
}

/// Whether two character vectors are equal.
fn chars_eq(a: &Vec<char>, b: &Vec<char>) -> (r: bool)
    ensures
        r == (a@ == b@),
{
    if a.len() != b.len() {
        return false;
    }
    let mut i: usize = 0;
    while i < a.len()
        invariant
            a@.len() == b@.len(),
            i <= a@.len(),
            forall|j: int| 0 <= j < i ==> a@[j] == b@[j],
        decreases a@.len() - i,
    {
        if a[i] != b[i] {
            return false;
        }
        i += 1;
    }
    assert(a@ =~= b@);
    true
}

/// Split a path into its non-empty `'/'`-separated segments.
fn split_segments(path: &str) -> (segs: Vec<Vec<char>>)
    ensures
        vecs_view(segs@) == path_segments(path@),
{
    let chars = crate::text::chars_of(path);
    let mut done: Vec<Vec<char>> = Vec::new();
    let mut cur: Vec<char> = Vec::new();
    let mut i: usize = 0;
    while i < chars.len()
        invariant
            chars@ == path@,
            i <= chars@.len(),
            (vecs_view(done@), cur@) == seg_state(chars@, i as nat),
        decreases chars@.len() - i,
    {
        let c = chars[i];
        let ghost d0 = done@;
        if c == '/' {
            if cur.len() != 0 {
                let finished = cur;
                cur = Vec::new();
                done.push(finished);
                assert(vecs_view(done@) =~= vecs_view(d0).push(finished@));
            }
        } else {
            cur.push(c);
        }
        i += 1;
    }
    if cur.len() != 0 {
        let ghost d0 = done@;
        let ghost c0 = cur@;
        done.push(cur);
        assert(vecs_view(done@) =~= vecs_view(d0).push(c0));
    }
    done
}

/// Whether a path's segments are at least four repetitions-worth of one
/// pattern (two or more copies).
pub fn path_has_repeating_pattern(path: &str) -> (r: bool)
    ensures
        r == has_repeating_pattern(path_segments(path@)),
{
    let segs = split_segments(path);
    segments_repeat(&segs)
}

/// Whether a segment list is whole repetitions of its first `k` segments.
fn has_period(segs: &Vec<Vec<char>>, k: usize) -> (r: bool)
    requires
        1 <= k <= segs@.len(),
    ensures
        r == repeats_with_period(vecs_view(segs@), k as int),
{
    let ghost sv = vecs_view(segs@);
    let n = segs.len();
    if n % k != 0 {
        return false;
    }
    let mut i: usize = 0;
    while i < n
        invariant
            sv == vecs_view(segs@),
            n == sv.len(),
            1 <= k <= n,
            i <= n,
            forall|t: int| 0 <= t < i ==> #[trigger] sv[t] == sv[t % (k as int)],
        decreases n - i,
    {
        assert(i % k < k) by (nonlinear_arith)
            requires
                k >= 1,
        ;
        let same = chars_eq(&segs[i], &segs[i % k]);
        assert(sv[i as int] == segs@[i as int]@);
        assert(sv[(i % k) as int] == segs@[(i % k) as int]@);
        if !same {
            return false;
        }
        i += 1;
    }
    true
}

/// Whether a segment list is at least four segments that repeat a pattern.
fn segments_repeat(segs: &Vec<Vec<char>>) -> (r: bool)
    ensures
        r == has_repeating_pattern(vecs_view(segs@)),
{
    let ghost sv = vecs_view(segs@);
    let n = segs.len();
    if n < 4 {
        return false;
    }
    let mut k: usize = 1;
    while k <= n / 2
        invariant
            sv == vecs_view(segs@),
            n == sv.len(),
            n >= 4,
            1 <= k <= n / 2 + 1,
            forall|j: int| 1 <= j < k ==> !#[trigger] repeats_with_period(sv, j),
        decreases n / 2 + 1 - k,
    {
        if has_period(segs, k) {
            return true;
        }
        k += 1;
    }
    false
}

/// Detect crawler traps: URLs longer than [`MAX_URL_LENGTH`] bytes, and URLs
/// whose path repeats a segment pattern (e.g. `/a/b/a/b`). A URL that does
/// not parse is not a trap (unless it is over-long).
pub fn is_cycle(url: &str) -> (r: bool)
    ensures
        r == is_trap(url),
{
    if url.as_bytes().len() > MAX_URL_LENGTH {
        return true;
    }
    match url_path(url) {
        Some(p) => path_has_repeating_pattern(p.as_str()),
        None => false,
    }
}

/// A key just inserted is recorded, the set stays within its capacity, and no
/// key is recorded twice.
pub proof fn law_insert_then_contains<T>(s: Seq<T>, k: T, cap: nat)
    requires
        all_distinct(s),
        s.len() <= cap,
        cap >= 1,
    ensures
        fifo_insert(s, k, cap).contains(k),
        fifo_insert(s, k, cap).len() <= cap,
        all_distinct(fifo_insert(s, k, cap)),
        s.contains(k) ==> fifo_insert(s, k, cap) == s,
{
    lemma_fifo_insert(s, k, cap);
}


/// A URL dedup set never records more hashes than its capacity (at least
/// one), so a runaway crawl cannot exhaust memory; no hash is recorded twice.
pub proof fn law_url_dedup_bounded(d: UrlDedup)
    requires
        d.wf(),
    ensures
        d@.len() <= d.capacity(),
        d.capacity() >= 1,
        all_distinct(d@),
{
}

/// A content dedup set never records more digests than its capacity (at
/// least one); no digest is recorded twice.
pub proof fn law_content_dedup_bounded(d: ContentDedup)
    requires
        d.wf(),
    ensures
        d@.len() <= d.capacity(),
        d.capacity() >= 1,
        all_distinct(d@),
{
}

} // verus!
