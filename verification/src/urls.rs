//! URL handling for the crawler: normalisation for deduplication, resolving
//! links, and the parts of a URL that scope checks read. Parsing and
//! serialisation are the `url` crate's; what is done with the parts is
//! verified here.

use vstd::prelude::*;
use vstd::string::*;
use crate::text::{join, str_eq};

verus! {

// ---------------------------------------------------------------------------
// The url crate
// ---------------------------------------------------------------------------

/// `Url::parse` accepts `raw` (an absolute URL).
pub uninterp spec fn url_parses(raw: Seq<char>) -> bool;

/// The decoded `(name, value)` query pairs of `raw`, in order, as
/// `Url::query_pairs` yields them.
pub uninterp spec fn query_pairs_of(raw: Seq<char>) -> Seq<(Seq<char>, Seq<char>)>;

/// The serialisation of `Url::parse(raw)` when it parses.
pub uninterp spec fn parsed_text(raw: Seq<char>) -> Seq<char>;

/// The serialisation of a parsed URL (`Url::as_str`); a `Url` is fixed by it.
pub uninterp spec fn url_text(u: url::Url) -> Seq<char>;

/// The serialisation after `Url::set_fragment(fragment)` on the URL
/// serialised as `text`.
pub uninterp spec fn fragment_set(text: Seq<char>, fragment: Option<Seq<char>>) -> Seq<char>;

/// The serialisation after `Url::set_query(query)` on the URL serialised as
/// `text`.
pub uninterp spec fn query_set(text: Seq<char>, query: Option<Seq<char>>) -> Seq<char>;

/// The characters of an optional string slice.
pub open spec fn opt_str_view(o: Option<&str>) -> Option<Seq<char>> {
    match o {
        Some(s) => Some(s@),
        None => None,
    }
}

/// `raw` parsed, its fragment removed and its query set to `query`, then
/// serialised.
pub open spec fn rebuilt_url(raw: Seq<char>, query: Option<Seq<char>>) -> Seq<char> {
    query_set(fragment_set(parsed_text(raw), None), query)
}

/// `rel` resolved against `base` and serialised (`Url::parse(base)` then
/// `Url::join(rel)`), or `None` when either step fails.
pub uninterp spec fn joined_url(base: Seq<char>, rel: Seq<char>) -> Option<Seq<char>>;

/// The host of `raw` (`Url::host_str`) when it parses.
pub uninterp spec fn host_of(raw: Seq<char>) -> Option<Seq<char>>;

/// The scheme of `raw` (`Url::scheme`) when it parses.
pub uninterp spec fn scheme_of(raw: Seq<char>) -> Seq<char>;

/// The ASCII serialisation of the origin of `raw` (`Url::origin`) when that
/// origin is a (scheme, host, port) tuple; `None` when it is opaque.
pub uninterp spec fn tuple_origin_of(raw: Seq<char>) -> Option<Seq<char>>;

/// What the characters of each pair are.
pub open spec fn pairs_view(v: Seq<(String, String)>) -> Seq<(Seq<char>, Seq<char>)> {
    v.map_values(|p: (String, String)| (p.0@, p.1@))
}

/// Calls `Url::parse` and collects `query_pairs()`; the pairs are named
/// `query_pairs_of(raw@)` and exist exactly when `raw` parses.
#[verifier::external_body]
fn url_query_pairs(raw: &str) -> (r: Option<Vec<(String, String)>>)
    ensures
        r is Some <==> url_parses(raw@),
        r matches Some(v) ==> pairs_view(v@) == query_pairs_of(raw@),
{
    let u = url::Url::parse(raw).ok()?;
    Some(u.query_pairs().map(|(k, v)| (k.into_owned(), v.into_owned())).collect())
}

#[verifier::external_type_specification]
#[verifier::external_body]
pub struct ExUrl(url::Url);

/// Calls `Url::parse`: a URL exactly when `raw` parses, serialised as
/// `parsed_text(raw@)`.
#[verifier::external_body]
fn url_parse(raw: &str) -> (r: Option<url::Url>)
    ensures
        r is Some <==> url_parses(raw@),
        r matches Some(u) ==> url_text(u) == parsed_text(raw@),
{
    url::Url::parse(raw).ok()
}

/// Calls `Url::set_fragment`; the new serialisation is named `fragment_set`.
#[verifier::external_body]
fn url_set_fragment(u: &mut url::Url, fragment: Option<&str>)
    ensures
        url_text(*final(u)) == fragment_set(url_text(*old(u)), opt_str_view(fragment)),
{
    u.set_fragment(fragment)
}

/// Calls `Url::set_query`; the new serialisation is named `query_set`.
#[verifier::external_body]
fn url_set_query(u: &mut url::Url, query: Option<&str>)
    ensures
        url_text(*final(u)) == query_set(url_text(*old(u)), opt_str_view(query)),
{
    u.set_query(query)
}

/// Calls `Url::as_str` and copies the serialisation.
#[verifier::external_body]
fn url_serialize(u: &url::Url) -> (r: String)
    ensures
        r@ == url_text(*u),
{
    u.as_str().to_string()
}

/// Parses `raw`, removes its fragment, sets its query to `query` and
/// serialises it; `None` when `raw` does not parse.
fn rebuild_url(raw: &str, query: Option<&str>) -> (r: Option<String>)
    ensures
        r is Some <==> url_parses(raw@),
        r matches Some(s) ==> s@ == rebuilt_url(raw@, opt_str_view(query)),
{
    let mut u = match url_parse(raw) {
        Some(u) => u,
        None => return None,
    };
    url_set_fragment(&mut u, None);
    url_set_query(&mut u, query);
    Some(url_serialize(&u))
}

/// Calls `Url::parse(base)` and `Url::join(rel)`; the result is named
/// `joined_url`.
#[verifier::external_body]
fn url_join(base: &str, rel: &str) -> (r: Option<String>)
    ensures
        match r {
            Some(s) => joined_url(base@, rel@) == Some(s@),
            None => joined_url(base@, rel@) is None,
        },
{
    let b = url::Url::parse(base).ok()?;
    Some(b.join(rel).ok()?.to_string())
}

/// Calls `Url::parse` and `host_str`; the host is named `host_of` and the
/// result is `None` when `raw` does not parse.
#[verifier::external_body]
fn url_host(raw: &str) -> (r: Option<Option<String>>)
    ensures
        r is Some <==> url_parses(raw@),
        r matches Some(h) ==> match h {
            Some(s) => host_of(raw@) == Some(s@),
            None => host_of(raw@) is None,
        },
{
    let u = url::Url::parse(raw).ok()?;
    Some(u.host_str().map(|h| h.to_string()))
}

/// Calls `Url::parse` and `scheme`; the scheme is named `scheme_of`.
#[verifier::external_body]
fn url_scheme(raw: &str) -> (r: Option<String>)
    ensures
        r is Some <==> url_parses(raw@),
        r matches Some(s) ==> s@ == scheme_of(raw@),
{
    let u = url::Url::parse(raw).ok()?;
    Some(u.scheme().to_string())
}

/// Calls `Url::parse` and `origin`; a tuple origin's `ascii_serialization`
/// is named `tuple_origin_of`, an opaque origin (file, data and other
/// non-network schemes) gives `Some(None)`, and a URL that does not parse
/// gives `None`.
#[verifier::external_body]
fn url_tuple_origin(raw: &str) -> (r: Option<Option<String>>)
    ensures
        r is Some <==> url_parses(raw@),
        r matches Some(o) ==> match o {
            Some(s) => tuple_origin_of(raw@) == Some(s@),
            None => tuple_origin_of(raw@) is None,
        },
{
    let u = url::Url::parse(raw).ok()?;
    let o = u.origin();
    match o {
        url::Origin::Tuple(..) => Some(Some(o.ascii_serialization())),
        url::Origin::Opaque(_) => Some(None),
    }
}

// ---------------------------------------------------------------------------
// Ordering of query pairs
// ---------------------------------------------------------------------------

/// Lexicographic order of character sequences (the order of `String`s: by
/// code point, a proper prefix first).
pub open spec fn chars_le(a: Seq<char>, b: Seq<char>) -> bool
    decreases a.len(),
{
    if a.len() == 0 {
        true
    } else if b.len() == 0 {
        false
    } else if a[0] != b[0] {
        (a[0] as u32) < (b[0] as u32)
    } else {
        chars_le(a.drop_first(), b.drop_first())
    }
}

/// The order of `(String, String)` pairs: by name, then by value.
pub open spec fn pair_le(a: (Seq<char>, Seq<char>), b: (Seq<char>, Seq<char>)) -> bool {
    (chars_le(a.0, b.0) && a.0 != b.0) || (a.0 == b.0 && chars_le(a.1, b.1))
}

/// Every pair is ordered before every later one.
pub open spec fn pairs_sorted(q: Seq<(Seq<char>, Seq<char>)>) -> bool {
    forall|i: int, j: int| 0 <= i < j < q.len() ==> pair_le(#[trigger] q[i], #[trigger] q[j])
}

/// Calls `slice::sort` on the pairs: afterwards they are in `(String,
/// String)` order and are the same pairs as before.
#[verifier::external_body]
fn sort_pairs(v: &mut Vec<(String, String)>)
    ensures
        pairs_sorted(pairs_view(final(v)@)),
        pairs_view(final(v)@).to_multiset() == pairs_view(old(v)@).to_multiset(),
{
    v.sort();
}

/// `chars_le` is antisymmetric.
pub proof fn lemma_chars_le_antisymmetric(a: Seq<char>, b: Seq<char>)
    requires
        chars_le(a, b),
        chars_le(b, a),
    ensures
        a == b,
    decreases a.len(),
{
    if a.len() > 0 && b.len() > 0 && a[0] == b[0] {
        lemma_chars_le_antisymmetric(a.drop_first(), b.drop_first());
        assert(a =~= seq![a[0]] + a.drop_first());
        assert(b =~= seq![b[0]] + b.drop_first());
    } else if a.len() == 0 && b.len() == 0 {
        assert(a =~= b);
    }
}

/// `pair_le` is antisymmetric.
pub proof fn lemma_pair_le_antisymmetric(a: (Seq<char>, Seq<char>), b: (Seq<char>, Seq<char>))
    requires
        pair_le(a, b),
        pair_le(b, a),
    ensures
        a == b,
{
    if chars_le(a.0, b.0) && a.0 != b.0 {
        if chars_le(b.0, a.0) && b.0 != a.0 {
            lemma_chars_le_antisymmetric(a.0, b.0);
        }
    } else if chars_le(b.0, a.0) && b.0 != a.0 {
    } else {
        lemma_chars_le_antisymmetric(a.1, b.1);
    }
}

/// Two sorted sequences holding the same pairs are equal: the sorted order
/// of a collection of pairs is unique.
pub proof fn lemma_sorted_unique(a: Seq<(Seq<char>, Seq<char>)>, b: Seq<(Seq<char>, Seq<char>)>)
    requires
        pairs_sorted(a),
        pairs_sorted(b),
        a.to_multiset() == b.to_multiset(),
    ensures
        a == b,
    decreases a.len(),
{
    broadcast use vstd::seq_lib::group_to_multiset_ensures;

    vstd::seq_lib::to_multiset_len(a);
    vstd::seq_lib::to_multiset_len(b);
    if a.len() > 0 {
        let x = a[0];
        let y = b[0];
        vstd::seq_lib::to_multiset_contains(a, y);
        vstd::seq_lib::to_multiset_contains(b, x);
        assert(b.contains(y));
        assert(a.contains(y));
        let j = choose|j: int| 0 <= j < a.len() && a[j] == y;
        let k = choose|k: int| 0 <= k < b.len() && b[k] == x;
        if j > 0 {
            assert(pair_le(a[0], a[j]));
        }
        if k > 0 {
            assert(pair_le(b[0], b[k]));
        }
        assert(pair_le(x, y) || x == y);
        assert(pair_le(y, x) || x == y);
        if x != y {
            lemma_pair_le_antisymmetric(x, y);
        }
        vstd::seq_lib::to_multiset_remove(a, 0);
        vstd::seq_lib::to_multiset_remove(b, 0);
        assert(a.remove(0) =~= a.drop_first());
        assert(b.remove(0) =~= b.drop_first());
        assert(pairs_sorted(a.drop_first())) by {
            assert forall|i: int, l: int| 0 <= i < l < a.drop_first().len() implies pair_le(
                #[trigger] a.drop_first()[i],
                #[trigger] a.drop_first()[l],
            ) by {
                assert(pair_le(a[i + 1], a[l + 1]));
            }
        }
        assert(pairs_sorted(b.drop_first())) by {
            assert forall|i: int, l: int| 0 <= i < l < b.drop_first().len() implies pair_le(
                #[trigger] b.drop_first()[i],
                #[trigger] b.drop_first()[l],
            ) by {
                assert(pair_le(b[i + 1], b[l + 1]));
            }
        }
        lemma_sorted_unique(a.drop_first(), b.drop_first());
        assert(a =~= seq![x] + a.drop_first());
        assert(b =~= seq![y] + b.drop_first());
    } else {
        assert(a =~= b);
    }
}

/// The pairs in sorted order.
pub open spec fn sorted_pairs(p: Seq<(Seq<char>, Seq<char>)>) -> Seq<(Seq<char>, Seq<char>)> {
    choose|q: Seq<(Seq<char>, Seq<char>)>| pairs_sorted(q) && q.to_multiset() == p.to_multiset()
}

// ---------------------------------------------------------------------------
// Normalisation
// ---------------------------------------------------------------------------

/// A query pair as text: `name=value`, or just `name` when the value is empty.
pub open spec fn pair_text(p: (Seq<char>, Seq<char>)) -> Seq<char> {
    if p.1.len() == 0 {
        p.0
    } else {
        p.0 + "="@ + p.1
    }
}

/// The query string of some pairs: their texts joined by `&`.
pub open spec fn query_text(q: Seq<(Seq<char>, Seq<char>)>) -> Seq<char> {
    join(q.map_values(|p: (Seq<char>, Seq<char>)| pair_text(p)), "&"@)
}

/// `r` is how `raw` normalises: nothing when it does not parse; otherwise the
/// URL without its fragment and with its query pairs sorted (and no query at
/// all when there are none).
pub open spec fn normalizes_to(raw: Seq<char>, r: Option<Seq<char>>) -> bool {
    if !url_parses(raw) {
        r is None
    } else if query_pairs_of(raw).len() == 0 {
        r == Some(rebuilt_url(raw, None))
    } else {
        exists|q: Seq<(Seq<char>, Seq<char>)>|
            pairs_sorted(q) && q.to_multiset() == query_pairs_of(raw).to_multiset() && r == Some(
                rebuilt_url(raw, Some(query_text(q))),
            )
    }
}

/// The normalised form of `raw` (see `normalizes_to`).
pub open spec fn normalized_url(raw: Seq<char>) -> Option<Seq<char>> {
    if !url_parses(raw) {
        None
    } else if query_pairs_of(raw).len() == 0 {
        Some(rebuilt_url(raw, None))
    } else {
        Some(rebuilt_url(raw, Some(query_text(sorted_pairs(query_pairs_of(raw))))))
    }
}

/// Normalises a URL for deduplication: strips the fragment and sorts the
/// query parameters (the `url` crate lowercases scheme and host). `None` for
/// a URL that does not parse.
pub fn normalize_url(raw: &str) -> (r: Option<String>)
    ensures
        normalizes_to(
            raw@,
            match r {
                Some(s) => Some(s@),
                None => None,
            },
        ),
        match r {
            Some(s) => normalized_url(raw@) == Some(s@),
            None => normalized_url(raw@) is None,
        },
{
    let mut pairs = match url_query_pairs(raw) {
        Some(p) => p,
        None => return None,
    };
    if pairs.len() == 0 {
        return rebuild_url(raw, None);
    }
    sort_pairs(&mut pairs);
    let ghost q = pairs_view(pairs@);
    let mut qs = String::new();
    let mut i: usize = 0;
    while i < pairs.len()
        invariant
            i <= pairs@.len(),
            q == pairs_view(pairs@),
            qs@ == join(q.map_values(|p: (Seq<char>, Seq<char>)| pair_text(p)).take(i as int), "&"@),
        decreases pairs@.len() - i,
    {
        let ghost ts = q.map_values(|p: (Seq<char>, Seq<char>)| pair_text(p));
        assert(ts.take(i + 1).drop_last() =~= ts.take(i as int));
        if i > 0 {
            qs.append("&");
        }
        let (k, v) = &pairs[i];
        qs.append(k.as_str());
        if v.as_str().as_bytes().len() > 0 {
            qs.append("=");
            qs.append(v.as_str());
        }
        assert(ts[i as int] == pair_text(q[i as int]));
        i += 1;
    }
    let ghost ts = q.map_values(|p: (Seq<char>, Seq<char>)| pair_text(p));
    assert(ts.take(ts.len() as int) =~= ts);
    let r = rebuild_url(raw, Some(qs.as_str()));
    proof {
        let p = query_pairs_of(raw@);
        assert(pairs_sorted(q) && q.to_multiset() == p.to_multiset());
        let c = sorted_pairs(p);
        lemma_sorted_unique(q, c);
    }
    r
}

/// Resolves `relative` against `base`, as a browser follows a link.
pub fn resolve_url(base: &str, relative: &str) -> (r: Option<String>)
    ensures
        match r {
            Some(s) => joined_url(base@, relative@) == Some(s@),
            None => joined_url(base@, relative@) is None,
        },
{
    url_join(base, relative)
}

/// The host of a URL, when it parses and has one.
pub fn host(raw: &str) -> (r: Option<String>)
    ensures
        match r {
            Some(h) => url_parses(raw@) && host_of(raw@) == Some(h@),
            None => !url_parses(raw@) || host_of(raw@) is None,
        },
{
    match url_host(raw) {
        Some(h) => h,
        None => None,
    }
}

/// The scheme of a URL, when it parses.
pub fn scheme(raw: &str) -> (r: Option<String>)
    ensures
        r is Some <==> url_parses(raw@),
        r matches Some(s) ==> s@ == scheme_of(raw@),
{
    url_scheme(raw)
}

/// Resolves a possibly relative link against the page's URL; without a base,
/// or when resolving fails, the link is kept as written.
pub fn resolve_href(href: &str, base_url: Option<&str>) -> (r: String)
    ensures
        r@ == match base_url {
            Some(b) => match joined_url(b@, href@) {
                Some(j) => j,
                None => href@,
            },
            None => href@,
        },
{
    if let Some(base) = base_url {
        if let Some(abs) = url_join(base, href) {
            return abs;
        }
    }
    href.to_string()
}

/// The two URLs share an origin: both parse and their origins are the same
/// (scheme, host, port) tuple. An opaque origin (file, data, ...) is never
/// the same as another.
pub open spec fn same_origin(a: Seq<char>, b: Seq<char>) -> bool {
    &&& url_parses(a)
    &&& url_parses(b)
    &&& tuple_origin_of(a) is Some
    &&& tuple_origin_of(a) == tuple_origin_of(b)
}

/// Whether two URLs have the same origin.
pub fn is_same_origin(url1: &str, url2: &str) -> (r: bool)
    ensures
        r == same_origin(url1@, url2@),
{
    match (url_tuple_origin(url1), url_tuple_origin(url2)) {
        (Some(Some(a)), Some(Some(b))) => str_eq(a.as_str(), b.as_str()),
        _ => false,
    }
}

} // verus!
