//! Sitemap discovery: where to look for sitemaps, and the walk through
//! sitemap indexes that collects page entries. The fetching is done by the
//! caller; every decision of the walk is made here, one step at a time.

use vstd::prelude::*;
use vstd::string::*;
use crate::robots::{extract_sitemaps, lossy_text, sitemaps};
use crate::sitemap::{
    entries_view, filter_nested, filter_since, nested_kept, recent, EntryView, SitemapContent,
    SitemapEntry,
};
use crate::text::{contains_bytes, str_eq, strings_view, utf8};
use crate::urls::{host, scheme, host_of, scheme_of, url_parses};

verus! {

// ---------------------------------------------------------------------------
// Where sitemaps are looked for
// ---------------------------------------------------------------------------

/// The origin sitemaps are looked for under: `scheme://host` of the seed
/// (with an empty host when it has none); `None` when the seed does not
/// parse.
pub open spec fn sitemap_origin_of(seed: Seq<char>) -> Option<Seq<char>> {
    if !url_parses(seed) {
        None
    } else {
        Some(
            scheme_of(seed) + "://"@ + match host_of(seed) {
                Some(h) => h,
                None => Seq::empty(),
            },
        )
    }
}

/// The origin of the seed URL.
pub fn sitemap_origin(seed: &str) -> (r: Option<String>)
    ensures
        match r {
            Some(o) => sitemap_origin_of(seed@) == Some(o@),
            None => sitemap_origin_of(seed@) is None,
        },
{
    let sch = match scheme(seed) {
        Some(s) => s,
        None => return None,
    };
    let mut o = sch;
    o.append("://");
    if let Some(h) = host(seed) {
        o.append(h.as_str());
    }
    Some(o)
}

/// The places sitemaps are looked for, in order: the origin's robots.txt,
/// then the two standard sitemap paths.
pub fn sitemap_candidates(origin: &str) -> (r: (String, String, String))
    ensures
        r.0@ == origin@ + "/robots.txt"@,
        r.1@ == origin@ + "/sitemap.xml"@,
        r.2@ == origin@ + "/sitemap_index.xml"@,
{
    let mut robots = String::from_str(origin);
    robots.append("/robots.txt");
    let mut plain = String::from_str(origin);
    plain.append("/sitemap.xml");
    let mut index = String::from_str(origin);
    index.append("/sitemap_index.xml");
    (robots, plain, index)
}

/// The sitemaps a robots.txt response names: those of its `Sitemap:` lines
/// when the response is a 200, none otherwise.
pub fn sitemaps_from_robots(status: u16, body: &[u8]) -> (r: Vec<String>)
    ensures
        strings_view(r@) == if status == 200 {
            sitemaps(lossy_text(body@))
        } else {
            Seq::<Seq<char>>::empty()
        },
{
    if status == 200 {
        extract_sitemaps(body)
    } else {
        let r: Vec<String> = Vec::new();
        assert(strings_view(r@) =~= Seq::<Seq<char>>::empty());
        r
    }
}

/// A response at a standard path counts as a sitemap when it is a 200 whose
/// body holds markup (a `<`).
pub fn is_sitemap_response(status: u16, body: &str) -> (r: bool)
    ensures
        r == (status == 200 && crate::text::contains(utf8(body@), seq![60u8])),
{
    let lt: Vec<u8> = vec![60u8];
    assert(lt@ =~= seq![60u8]);
    status == 200 && contains_bytes(body.as_bytes(), lt.as_slice())
}

// ---------------------------------------------------------------------------
// Walking sitemap indexes
// ---------------------------------------------------------------------------

/// One level of the walk: the sitemap URLs of one index (or the roots),
/// how many have been taken, and their depth.
pub struct ResolveFrame {
    urls: Vec<String>,
    next: usize,
    depth: u32,
}

/// A level of the walk as the specifications see it.
pub struct FrameView {
    pub urls: Seq<Seq<char>>,
    pub next: nat,
    pub depth: u32,
}

impl View for ResolveFrame {
    type V = FrameView;

    closed spec fn view(&self) -> FrameView {
        FrameView { urls: strings_view(self.urls@), next: self.next as nat, depth: self.depth }
    }
}

/// The levels of the walk.
pub open spec fn frames_view(v: Seq<ResolveFrame>) -> Seq<FrameView> {
    v.map_values(|f: ResolveFrame| f@)
}

/// The walk through sitemaps, depth first and in document order, as
/// `resolve_recursive` does it: every URL is fetched at most once, at most
/// `max_files` sitemaps are read, and indexes deeper than `max_depth` are
/// not followed.
pub struct SitemapResolver {
    frames: Vec<ResolveFrame>,
    seen: Vec<String>,
    entries: Vec<SitemapEntry>,
    found: usize,
    max_depth: u32,
    max_files: usize,
    filter: Vec<String>,
    pending_depth: u32,
}

/// What the walk does next.
pub enum ResolveStep {
    /// Fetch this sitemap and report the outcome with `record`.
    Fetch(String),
    /// Nothing to fetch at this step; step again.
    Continue,
    /// The walk is over.
    Finished,
}

/// What came of fetching the sitemap the walk asked for.
pub enum SitemapFetch {
    /// The fetch failed or did not answer 200.
    Failed,
    /// The body is not a sitemap.
    Unparsable,
    /// The body parsed.
    Content(SitemapContent),
}

/// The walk as the specifications see it.
pub struct ResolverView {
    pub frames: Seq<FrameView>,
    pub seen: Seq<Seq<char>>,
    pub entries: Seq<EntryView>,
    pub found: nat,
    pub max_depth: u32,
    pub max_files: nat,
    pub filter: Seq<Seq<char>>,
    pub pending_depth: u32,
}

impl View for SitemapResolver {
    type V = ResolverView;

    closed spec fn view(&self) -> ResolverView {
        ResolverView {
            frames: frames_view(self.frames@),
            seen: strings_view(self.seen@),
            entries: entries_view(self.entries@),
            found: self.found as nat,
            max_depth: self.max_depth,
            max_files: self.max_files as nat,
            filter: strings_view(self.filter@),
            pending_depth: self.pending_depth,
        }
    }
}

/// A level is well formed: it has not taken more URLs than it holds.
pub open spec fn frame_wf(f: FrameView) -> bool {
    f.next <= f.urls.len()
}

/// The walk after one step, and what the step asks for (`None` for
/// `Continue` and `Finished` alike; `steps_done` tells them apart).
pub open spec fn step_of(v: ResolverView) -> (ResolverView, Option<Seq<char>>) {
    if v.frames.len() == 0 {
        (v, None)
    } else {
        let top = v.frames.last();
        if top.next >= top.urls.len() {
            (ResolverView { frames: v.frames.drop_last(), ..v }, None)
        } else if v.found >= v.max_files {
            (ResolverView { frames: Seq::empty(), ..v }, None)
        } else {
            let url = top.urls[top.next as int];
            let frames2 = v.frames.update(
                v.frames.len() - 1,
                FrameView { next: top.next + 1, ..top },
            );
            if v.seen.contains(url) {
                (ResolverView { frames: frames2, ..v }, None)
            } else {
                (
                    ResolverView {
                        frames: frames2,
                        seen: v.seen.push(url),
                        pending_depth: top.depth,
                        ..v
                    },
                    Some(url),
                )
            }
        }
    }
}

/// Whether the step ends the walk.
pub open spec fn steps_done(v: ResolverView) -> bool {
    v.frames.len() == 0 || (v.frames.last().next < v.frames.last().urls.len() && v.found
        >= v.max_files)
}

/// The walk after recording the outcome of the fetch it asked for: a failed
/// fetch changes nothing; any answered fetch counts as a sitemap read; a URL
/// set adds its entries; an index above the depth limit adds a level with
/// its sitemaps that pass the filter.
pub open spec fn record_of(v: ResolverView, outcome: Option<Result<Seq<Seq<char>>, Seq<EntryView>>>) -> ResolverView {
    match outcome {
        None => v,
        Some(parsed) => {
            let v2 = ResolverView { found: v.found + 1, ..v };
            match parsed {
                Err(es) => ResolverView { entries: v.entries + es, ..v2 },
                Ok(urls) => if v.pending_depth >= v.max_depth {
                    v2
                } else {
                    ResolverView {
                        frames: v.frames.push(
                            FrameView {
                                urls: nested_kept(urls, v.filter),
                                next: 0,
                                depth: (v.pending_depth + 1) as u32,
                            },
                        ),
                        ..v2
                    }
                },
            }
        },
    }
}

/// How an outcome is seen by `record_of`: `None` for a failed fetch, the
/// parsed content for a sitemap, and no content at all (an empty URL set)
/// for a body that does not parse.
pub open spec fn outcome_view(f: SitemapFetch) -> Option<Result<Seq<Seq<char>>, Seq<EntryView>>> {
    match f {
        SitemapFetch::Failed => None,
        SitemapFetch::Unparsable => Some(Err(Seq::empty())),
        SitemapFetch::Content(SitemapContent::Index(urls)) => Some(Ok(strings_view(urls@))),
        SitemapFetch::Content(SitemapContent::UrlSet(es)) => Some(Err(entries_view(es@))),
    }
}

impl SitemapResolver {
    /// Every level is well formed.
    pub open spec fn wf(&self) -> bool {
        forall|i: int| 0 <= i < self@.frames.len() ==> #[trigger] frame_wf(self@.frames[i])
    }

    /// A walk starting from `urls` at depth 0. A `max_depth` of 0 means no
    /// depth limit.
    pub fn new(urls: Vec<String>, max_depth: u32, max_files: usize, filter: Vec<String>) -> (r: Self)
        ensures
            r.wf(),
            r@.frames == seq![FrameView { urls: strings_view(urls@), next: 0, depth: 0 }],
            r@.seen.len() == 0,
            r@.entries.len() == 0,
            r@.found == 0,
            r@.max_depth == if max_depth == 0 { u32::MAX } else { max_depth },
            r@.max_files == max_files,
            r@.filter == strings_view(filter@),
    {
        let limit = if max_depth == 0 {
            u32::MAX
        } else {
            max_depth
        };
        let mut frames: Vec<ResolveFrame> = Vec::new();
        frames.push(ResolveFrame { urls, next: 0, depth: 0 });
        let r = SitemapResolver {
            frames,
            seen: Vec::new(),
            entries: Vec::new(),
            found: 0,
            max_depth: limit,
            max_files,
            filter,
            pending_depth: 0,
        };
        assert(r@.frames =~= seq![FrameView { urls: strings_view(r.frames@[0].urls@), next: 0, depth: 0 }]);
        assert(strings_view(r.seen@) =~= Seq::<Seq<char>>::empty());
        assert(entries_view(r.entries@) =~= Seq::<EntryView>::empty());
        r
    }

    /// One step of the walk.
    pub fn step(&mut self) -> (r: ResolveStep)
        requires
            old(self).wf(),
        ensures
            final(self).wf(),
            final(self)@ == step_of(old(self)@).0,
            match r {
                ResolveStep::Fetch(u) => step_of(old(self)@).1 == Some(u@),
                ResolveStep::Continue => step_of(old(self)@).1 is None && !steps_done(old(self)@),
                ResolveStep::Finished => step_of(old(self)@).1 is None && steps_done(old(self)@),
            },
    {
        let n = self.frames.len();
        if n == 0 {
            return ResolveStep::Finished;
        }
        let ghost v = self@;
        let top_exhausted = self.frames[n - 1].next >= self.frames[n - 1].urls.len();
        if top_exhausted {
            let _ = self.frames.pop();
            assert(self@.frames =~= v.frames.drop_last());
            return ResolveStep::Continue;
        }
        if self.found >= self.max_files {
            self.frames = Vec::new();
            assert(self@.frames =~= Seq::<FrameView>::empty());
            return ResolveStep::Finished;
        }
        let mut top = self.frames.pop().unwrap();
        let url = top.urls[top.next].clone();
        assert(url@ == v.frames.last().urls[v.frames.last().next as int]);
        top.next = top.next + 1;
        let depth = top.depth;
        self.frames.push(top);
        assert(self@.frames =~= v.frames.update(
            v.frames.len() - 1,
            FrameView { next: v.frames.last().next + 1, ..v.frames.last() },
        ));
        let ghost mid = self@;
        assert(mid == ResolverView {
            frames: v.frames.update(
                v.frames.len() - 1,
                FrameView { next: v.frames.last().next + 1, ..v.frames.last() },
            ),
            ..v
        });
        assert(v.seen.contains(url@) ==> mid == step_of(v).0);
        assert(!steps_done(v));
        assert(self.wf()) by {
            assert forall|k: int| 0 <= k < self@.frames.len() implies #[trigger] frame_wf(
                self@.frames[k],
            ) by {
                if k < v.frames.len() - 1 {
                    assert(self@.frames[k] == v.frames[k]);
                }
            }
        }
        let mut i: usize = 0;
        while i < self.seen.len()
            invariant
                i <= self.seen@.len(),
                self@ == mid,
                self.wf(),
                v == old(self)@,
                mid.seen == v.seen,
                v.seen.contains(url@) ==> mid == step_of(v).0,
                step_of(v).1 == (if v.seen.contains(url@) { None } else { Some(url@) }),
                !steps_done(v),
                forall|j: int| 0 <= j < i ==> #[trigger] strings_view(self.seen@)[j] != url@,
            decreases self.seen@.len() - i,
        {
            if str_eq(self.seen[i].as_str(), url.as_str()) {
                assert(strings_view(self.seen@)[i as int] == url@);
                assert(self@.seen.contains(url@));
                return ResolveStep::Continue;
            }
            i += 1;
        }
        assert(!self@.seen.contains(url@));
        let ghost seen0 = self.seen@;
        self.seen.push(url.clone());
        assert(strings_view(self.seen@) =~= strings_view(seen0).push(url@));
        self.pending_depth = depth;
        ResolveStep::Fetch(url)
    }

    /// Records what came of fetching the sitemap the last step asked for.
    pub fn record(&mut self, fetched: SitemapFetch)
        requires
            old(self).wf(),
            old(self)@.found < usize::MAX,
        ensures
            final(self).wf(),
            final(self)@ == record_of(old(self)@, outcome_view(fetched)),
    {
        let ghost v = self@;
        match fetched {
            SitemapFetch::Failed => {
                assert(self@ == v);
            },
            SitemapFetch::Unparsable => {
                self.found = self.found + 1;
                assert(self@.entries =~= v.entries + Seq::<EntryView>::empty());
            },
            SitemapFetch::Content(SitemapContent::UrlSet(es)) => {
                self.found = self.found + 1;
                let ghost e0 = self.entries@;
                let mut es = es;
                let ghost add = es@;
                self.entries.append(&mut es);
                assert(entries_view(self.entries@) =~= entries_view(e0) + entries_view(add));
            },
            SitemapFetch::Content(SitemapContent::Index(urls)) => {
                self.found = self.found + 1;
                if self.pending_depth < self.max_depth {
                    let kept = filter_nested(urls, &self.filter);
                    let ghost f0 = self.frames@;
                    self.frames.push(ResolveFrame { urls: kept, next: 0, depth: self.pending_depth + 1 });
                    assert(frames_view(self.frames@) =~= frames_view(f0).push(self.frames@.last()@));
                    assert forall|k: int| 0 <= k < self@.frames.len() implies #[trigger] frame_wf(
                        self@.frames[k],
                    ) by {
                        if k < v.frames.len() {
                            assert(self@.frames[k] == v.frames[k]);
                        }
                    }
                }
            },
        }
    }

    /// Whether the walk can read another sitemap (its count is below the
    /// largest `usize`).
    pub fn can_record(&self) -> (r: bool)
        ensures
            r == (self@.found < usize::MAX),
    {
        self.found < usize::MAX
    }

    /// The number of sitemaps read.
    pub fn sitemaps_found(&self) -> (n: usize)
        ensures
            n == self@.found,
    {
        self.found
    }

    /// Ends the walk: the entries collected, with those not modified since
    /// `since` (when given) left out, and the counts.
    pub fn finish(self, since: Option<&str>) -> (r: DiscoveryResult)
        ensures
            entries_view(r.entries@) == match since {
                Some(s) => recent(self@.entries, s@),
                None => self@.entries,
            },
            r.sitemaps_found == self@.found,
            r.urls_total == self@.entries.len(),
            r.urls_filtered == self@.entries.len() - entries_view(r.entries@).len(),
    {
        let total = self.entries.len();
        let found = self.found;
        let entries = match since {
            Some(s) => filter_since(self.entries, s),
            None => self.entries,
        };
        proof {
            let es = entries_view(self.entries@);
            if since is Some {
                let sv = since.unwrap()@;
                es.lemma_filter_len(|e: EntryView| match e.lastmod {
                    Some(d) => crate::urls::chars_le(sv, d),
                    None => true,
                });
                assert(recent(es, sv).len() <= es.len());
            }
        }
        let kept = entries.len();
        DiscoveryResult { entries, sitemaps_found: found, urls_total: total, urls_filtered: total - kept }
    }
}

/// What sitemap discovery found.
#[derive(Debug)]
pub struct DiscoveryResult {
    pub entries: Vec<SitemapEntry>,
    pub sitemaps_found: usize,
    pub urls_total: usize,
    pub urls_filtered: usize,
}

impl DiscoveryResult {
    /// No sitemaps.
    pub fn empty() -> (r: DiscoveryResult)
        ensures
            r.entries@.len() == 0,
            r.sitemaps_found == 0,
            r.urls_total == 0,
            r.urls_filtered == 0,
    {
        DiscoveryResult { entries: Vec::new(), sitemaps_found: 0, urls_total: 0, urls_filtered: 0 }
    }
}

/// The walk never fetches a sitemap twice: a step asks for a URL only when
/// it was not fetched before, and from then on it counts as fetched; no
/// step and no recorded outcome forgets a fetched URL.
pub proof fn law_each_sitemap_fetched_once(
    v: ResolverView,
    outcome: Option<Result<Seq<Seq<char>>, Seq<EntryView>>>,
)
    ensures
        step_of(v).1 matches Some(u) ==> !v.seen.contains(u) && step_of(v).0.seen.contains(u),
        forall|x: Seq<char>| v.seen.contains(x) ==> #[trigger] step_of(v).0.seen.contains(x),
        record_of(v, outcome).seen == v.seen,
{
    if step_of(v).1 is Some {
        let u = step_of(v).1.unwrap();
        assert(step_of(v).0.seen == v.seen.push(u));
        assert(step_of(v).0.seen[v.seen.len() as int] == u);
    }
    assert forall|x: Seq<char>| v.seen.contains(x) implies #[trigger] step_of(v).0.seen.contains(x) by {
        let i = choose|i: int| 0 <= i < v.seen.len() && v.seen[i] == x;
        if step_of(v).1 is Some {
            assert(step_of(v).0.seen[i] == x);
        }
    }
}

/// The walk asks for a sitemap only while fewer than `max_files` were read,
/// and reading one adds exactly one; so starting from none, at most
/// `max_files` sitemaps are read.
pub proof fn law_file_limit(v: ResolverView, outcome: Option<Result<Seq<Seq<char>>, Seq<EntryView>>>)
    ensures
        step_of(v).1 is Some ==> v.found < v.max_files,
        step_of(v).0.found == v.found,
        record_of(v, outcome).found <= v.found + 1,
{
}

} // verus!
