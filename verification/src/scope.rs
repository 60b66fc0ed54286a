//! Crawl scope: which discovered URLs a crawl may follow.

use vstd::prelude::*;
use vstd::string::*;
use crate::text::{char_vecs_view, chars_of, join, split_chars, split_on, string_from_chars};
use crate::urls::{host, host_of, url_parses};

verus! {

#[verifier::external_type_specification]
#[verifier::external_body]
pub struct ExRegex(regex::Regex);

/// `regex::Regex::new` accepts `pattern`.
pub uninterp spec fn regex_compiles(pattern: Seq<char>) -> bool;

/// A regular expression compiled from `pattern` matches somewhere in `text`
/// (`Regex::is_match`).
pub uninterp spec fn regex_matches(pattern: Seq<char>, text: Seq<char>) -> bool;

/// Calls `regex::Regex::new`; it succeeds exactly when the pattern compiles.
#[verifier::external_body]
fn compile_regex(pattern: &str) -> (r: Option<regex::Regex>)
    ensures
        r is Some <==> regex_compiles(pattern@),
{
    regex::Regex::new(pattern).ok()
}

/// A compiled URL pattern together with its source text.
#[derive(Debug)]
pub struct UrlPattern {
    source: String,
    re: regex::Regex,
}

impl UrlPattern {
    /// The pattern's source text.
    pub closed spec fn pattern(&self) -> Seq<char> {
        self.source@
    }

    /// Compiles a pattern; `None` when it is not a valid regular expression.
    pub fn new(source: &str) -> (r: Option<UrlPattern>)
        ensures
            r is Some <==> regex_compiles(source@),
            r matches Some(p) ==> p.pattern() == source@,
    {
        match compile_regex(source) {
            Some(re) => Some(UrlPattern { source: String::from_str(source), re }),
            None => None,
        }
    }

    /// Calls `Regex::is_match` on the pattern's compiled form (every
    /// `UrlPattern` holds the regex compiled from its own source).
    #[verifier::external_body]
    pub fn is_match(&self, text: &str) -> (r: bool)
        ensures
            r == regex_matches(self.pattern(), text@),
    {
        self.re.is_match(text)
    }
}

/// Which URLs are in scope for a crawl.
#[derive(Debug)]
pub enum CrawlScope {
    /// Any URL with the same registrable domain (a subdomain of the same
    /// site matches).
    SameDomain,
    /// Only URLs with exactly the same host.
    SameHost,
    /// A URL must match at least one allow pattern (or there are none) and
    /// none of the block patterns.
    Custom { allow: Vec<UrlPattern>, block: Vec<UrlPattern> },
}

impl Default for CrawlScope {
    fn default() -> (s: CrawlScope)
        ensures
            s is SameDomain,
    {
        CrawlScope::SameDomain
    }
}

/// The host of `raw`: absent when it does not parse or has none.
pub open spec fn host_part(raw: Seq<char>) -> Option<Seq<char>> {
    if url_parses(raw) {
        host_of(raw)
    } else {
        None
    }
}

/// The last two dot-separated labels of a host (the whole host when it has
/// fewer).
pub open spec fn last_two_labels(h: Seq<char>) -> Seq<char> {
    let parts = split_on(h, "."@);
    if parts.len() >= 2 {
        join(parts.subrange(parts.len() - 2, parts.len() as int), "."@)
    } else {
        h
    }
}

/// A rough registrable domain (eTLD+1): the last two labels of the host, or
/// empty when there is no host. It does not consult the Public Suffix List.
pub open spec fn registrable(raw: Seq<char>) -> Seq<char> {
    match host_part(raw) {
        Some(h) => last_two_labels(h),
        None => Seq::empty(),
    }
}

/// The rough registrable domain of a URL (see `registrable`).
pub fn registrable_domain(url: &str) -> (r: String)
    ensures
        r@ == registrable(url@),
{
    match host(url) {
        None => String::new(),
        Some(h) => {
            let v = chars_of(h.as_str());
            let dot = chars_of(".");
            proof {
                reveal_strlit(".");
            }
            let parts = split_chars(v.as_slice(), dot.as_slice());
            let n = parts.len();
            if n >= 2 {
                let ghost ps = char_vecs_view(parts@);
                let ghost last2 = ps.subrange(n - 2, n as int);
                let a = string_from_chars(&parts[n - 2]);
                let b = string_from_chars(&parts[n - 1]);
                let mut r = a;
                r.append(".");
                r.append(b.as_str());
                proof {
                    assert(ps == split_on(h@, "."@));
                    assert(ps[n - 2] == a@);
                    assert(ps[n - 1] == b@);
                    assert(last2.drop_last() =~= seq![ps[n - 2]]);
                    assert(last2.last() == ps[n - 1]);
                    assert(join(seq![ps[n - 2]], "."@) == ps[n - 2]);
                    assert(join(last2, "."@) == ps[n - 2] + "."@ + ps[n - 1]);
                    assert(r@ == join(last2, "."@));
                }
                r
            } else {
                h
            }
        },
    }
}

/// Whether some pattern matches `text`.
fn any_match(ps: &Vec<UrlPattern>, text: &str) -> (r: bool)
    ensures
        r == exists|i: int| 0 <= i < ps@.len() && regex_matches(#[trigger] ps@[i].pattern(), text@),
{
    let mut i: usize = 0;
    while i < ps.len()
        invariant
            i <= ps@.len(),
            forall|j: int| 0 <= j < i ==> !regex_matches(#[trigger] ps@[j].pattern(), text@),
        decreases ps@.len() - i,
    {
        if ps[i].is_match(text) {
            return true;
        }
        i += 1;
    }
    false
}

/// Whether `candidate` is in scope for a crawl that started at `origin`.
pub open spec fn in_scope(scope: CrawlScope, origin: Seq<char>, candidate: Seq<char>) -> bool {
    match scope {
        CrawlScope::SameDomain => {
            let o = registrable(origin);
            let c = registrable(candidate);
            o.len() > 0 && c.len() > 0 && o == c
        },
        CrawlScope::SameHost => host_part(origin) == host_part(candidate),
        CrawlScope::Custom { allow, block } => {
            let matched_allow = allow@.len() == 0 || exists|i: int|
                0 <= i < allow@.len() && regex_matches(#[trigger] allow@[i].pattern(), candidate);
            let matched_block = exists|i: int|
                0 <= i < block@.len() && regex_matches(#[trigger] block@[i].pattern(), candidate);
            matched_allow && !matched_block
        },
    }
}

impl CrawlScope {
    /// Whether `candidate` (a serialised URL) is in scope given the crawl's
    /// `origin` URL.
    pub fn is_allowed(&self, origin: &str, candidate: &str) -> (r: bool)
        ensures
            r == in_scope(*self, origin@, candidate@),
    {
        match self {
            CrawlScope::SameDomain => {
                let o = registrable_domain(origin);
                let c = registrable_domain(candidate);
                o.as_str().as_bytes().len() > 0 && c.as_str().as_bytes().len() > 0
                    && crate::text::str_eq(o.as_str(), c.as_str())
            },
            CrawlScope::SameHost => {
                let o = host(origin);
                let c = host(candidate);
                match (o, c) {
                    (None, None) => true,
                    (Some(a), Some(b)) => crate::text::str_eq(a.as_str(), b.as_str()),
                    _ => false,
                }
            },
            CrawlScope::Custom { allow, block } => {
                let matched_allow = allow.len() == 0 || any_match(allow, candidate);
                let matched_block = any_match(block, candidate);
                matched_allow && !matched_block
            },
        }
    }
}

// ---------------------------------------------------------------------------
// Laws
// ---------------------------------------------------------------------------

/// Same-domain scope: a candidate is in scope exactly when both URLs have a
/// (rough) registrable domain and the two are the same text; URLs whose
/// domains differ are never in scope.
pub proof fn law_same_domain_scope(origin: Seq<char>, candidate: Seq<char>)
    ensures
        in_scope(CrawlScope::SameDomain, origin, candidate) <==> (registrable(origin).len() > 0
            && registrable(origin) =~= registrable(candidate)),
        registrable(origin) != registrable(candidate) ==> !in_scope(CrawlScope::SameDomain, origin, candidate),
        in_scope(CrawlScope::SameDomain, origin, candidate) ==> in_scope(CrawlScope::SameDomain, candidate, origin),
{
}

/// Same-host scope: a candidate is in scope exactly when it has the same
/// host as the origin (or neither has one).
pub proof fn law_same_host_scope(origin: Seq<char>, candidate: Seq<char>)
    ensures
        in_scope(CrawlScope::SameHost, origin, candidate) <==> host_part(origin) == host_part(candidate),
        in_scope(CrawlScope::SameHost, origin, origin),
{
}

/// Custom scope: a candidate some block pattern matches is never in scope;
/// one that no block pattern matches is in scope when there are no allow
/// patterns or some allow pattern matches it, and out of scope when allow
/// patterns exist and none matches.
pub proof fn law_custom_scope(allow: Vec<UrlPattern>, block: Vec<UrlPattern>, origin: Seq<char>, candidate: Seq<char>, k: int)
    ensures
        (0 <= k < block@.len() && regex_matches(block@[k].pattern(), candidate)) ==> !in_scope(
            CrawlScope::Custom { allow, block },
            origin,
            candidate,
        ),
        (allow@.len() == 0 && forall|j: int| 0 <= j < block@.len() ==> !regex_matches(#[trigger] block@[j].pattern(), candidate))
            ==> in_scope(CrawlScope::Custom { allow, block }, origin, candidate),
        (0 <= k < allow@.len() && regex_matches(allow@[k].pattern(), candidate) && forall|j: int|
            0 <= j < block@.len() ==> !regex_matches(#[trigger] block@[j].pattern(), candidate)) ==> in_scope(
            CrawlScope::Custom { allow, block },
            origin,
            candidate,
        ),
        (allow@.len() > 0 && forall|j: int| 0 <= j < allow@.len() ==> !regex_matches(#[trigger] allow@[j].pattern(), candidate))
            ==> !in_scope(CrawlScope::Custom { allow, block }, origin, candidate),
{
    let sc = CrawlScope::Custom { allow, block };
    if 0 <= k < allow@.len() && regex_matches(allow@[k].pattern(), candidate) {
        match sc {
            CrawlScope::Custom { allow: a, block: b } => {
                assert(a == allow);
                assert(regex_matches(a@[k].pattern(), candidate));
            },
            _ => {},
        }
    }
    if 0 <= k < block@.len() && regex_matches(block@[k].pattern(), candidate) {
        match sc {
            CrawlScope::Custom { allow: a, block: b } => {
                assert(b == block);
                assert(regex_matches(b@[k].pattern(), candidate));
            },
            _ => {},
        }
    }
}

} // verus!
