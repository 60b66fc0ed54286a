//! Crawler settings and crawl statistics.

use vstd::prelude::*;
use vstd::string::*;
use crate::budget::{consume, Budget, Table};
use crate::dedup::{fifo_insert, is_cycle, parsed_url_path, url_path, xxh3_64_of, UrlDedup, MAX_URL_LENGTH};
use crate::dedup::{has_repeating_pattern, path_segments};
use crate::frontier::{EntrySource, EntryView, Frontier, SourceView, DEFAULT_PRIORITY};
use crate::sitemap::SitemapEntry;
use crate::page::Link;
use crate::scope::{in_scope, CrawlScope};
use crate::text::{chars_of, str_eq, utf8};
use crate::fingerprint::{decimal, decimal_string};
use crate::urls::{normalize_url, normalized_url, joined_url, resolve_url, scheme, scheme_of, url_parses};

verus! {

/// Crawler defaults as a configuration file gives them; every field has a
/// default, so a partial section is accepted.
#[derive(Debug)]
pub struct CrawlerSection {
    pub default_max_depth: u32,
    pub default_max_pages: usize,
    pub default_concurrency: usize,
    pub default_delay_ms: u64,
    pub respect_robots: bool,
    pub include_markdown: bool,
}

impl Default for CrawlerSection {
    fn default() -> (s: CrawlerSection)
        ensures
            s.default_max_depth == 3,
            s.default_max_pages == 100,
            s.default_concurrency == 5,
            s.default_delay_ms == 200,
            s.respect_robots,
            s.include_markdown,
    {
        CrawlerSection {
            default_max_depth: 3,
            default_max_pages: 100,
            default_concurrency: 5,
            default_delay_ms: 200,
            respect_robots: true,
            include_markdown: true,
        }
    }
}

/// Aggregate statistics of a completed crawl.
#[derive(Debug, Clone)]
pub struct CrawlStats {
    pub pages_crawled: usize,
    pub pages_skipped: usize,
    pub errors: usize,
    pub total_elapsed_ms: u64,
    pub discovery: String,
    pub sitemaps_found: usize,
    pub sitemap_urls_total: usize,
    pub sitemap_urls_filtered: usize,
    pub output_dir: Option<String>,
}

impl Default for CrawlStats {
    fn default() -> (s: CrawlStats)
        ensures
            s.pages_crawled == 0,
            s.pages_skipped == 0,
            s.errors == 0,
            s.total_elapsed_ms == 0,
            s.discovery@.len() == 0,
            s.sitemaps_found == 0,
            s.sitemap_urls_total == 0,
            s.sitemap_urls_filtered == 0,
            s.output_dir is None,
    {
        CrawlStats {
            pages_crawled: 0,
            pages_skipped: 0,
            errors: 0,
            total_elapsed_ms: 0,
            discovery: String::new(),
            sitemaps_found: 0,
            sitemap_urls_total: 0,
            sitemap_urls_filtered: 0,
            output_dir: None,
        }
    }
}

/// Settings of one crawl job.
#[derive(Debug)]
pub struct CrawlConfig {
    /// Maximum link-follow depth from the seed URL.
    pub max_depth: u32,
    /// Maximum number of pages to crawl.
    pub max_pages: usize,
    /// Number of concurrent fetches.
    pub concurrency: usize,
    /// Which discovered URLs may be followed.
    pub scope: CrawlScope,
    /// Per-path page budget (path prefix, `"*"` for all, to maximum pages).
    pub budget: Vec<(String, usize)>,
    /// Whether to honour robots.txt.
    pub respect_robots: bool,
    /// Whether to convert pages to Markdown in results.
    pub include_markdown: bool,
    /// Polite delay between requests in milliseconds.
    pub delay_ms: u64,
}

impl Default for CrawlConfig {
    fn default() -> (c: CrawlConfig)
        ensures
            c.max_depth == 3,
            c.max_pages == 100,
            c.concurrency == 5,
            c.scope is SameDomain,
            c.budget@.len() == 0,
            c.respect_robots,
            c.include_markdown,
            c.delay_ms == 200,
    {
        CrawlConfig {
            max_depth: 3,
            max_pages: 100,
            concurrency: 5,
            scope: CrawlScope::SameDomain,
            budget: Vec::new(),
            respect_robots: true,
            include_markdown: true,
            delay_ms: 200,
        }
    }
}

// ---------------------------------------------------------------------------
// Following the links of a page
// ---------------------------------------------------------------------------

/// The state the links of a page update: the budget's counters, the
/// recorded URL hashes and the frontier.
pub struct LinkState {
    pub counts: Table,
    pub seen: Seq<u64>,
    pub queued: Seq<EntryView>,
    pub next_seq: nat,
}

/// What bounds the link state: the budget's limits and counter capacity, the
/// dedup capacity and the frontier's size.
pub struct LinkLimits {
    pub limits: Table,
    pub budget_cap: nat,
    pub dedup_cap: nat,
    pub frontier_max: nat,
}

/// A link's target: resolved against the page and normalised.
pub open spec fn link_target(page: Seq<char>, href: Seq<char>) -> Option<Seq<char>> {
    match joined_url(page, href) {
        Some(res) => normalized_url(res),
        None => None,
    }
}

/// `n` looks like a crawler trap (as `dedup::is_trap`, on characters).
pub open spec fn is_trap_url(n: Seq<char>) -> bool {
    ||| utf8(n).len() > MAX_URL_LENGTH
    ||| match parsed_url_path(n) {
        Some(p) => has_repeating_pattern(path_segments(p)),
        None => false,
    }
}

/// A normalised target the crawl may consider: it parses, is http(s), is in
/// scope for the seed, and is not a trap.
pub open spec fn followable(n: Seq<char>, scope: CrawlScope, seed: Seq<char>) -> bool {
    &&& url_parses(n)
    &&& (scheme_of(n) == "http"@ || scheme_of(n) == "https"@)
    &&& in_scope(scope, seed, n)
    &&& !is_trap_url(n)
}

/// The path a budget is charged for.
pub open spec fn path_or_empty(n: Seq<char>) -> Seq<char> {
    match parsed_url_path(n) {
        Some(p) => p,
        None => Seq::empty(),
    }
}

/// One link's effect: a followable target is charged to the budget; if the
/// budget admits it and it was not seen before, it is recorded as seen and
/// queued one level deeper (when the frontier has room).
pub open spec fn admit_link(
    st: LinkState,
    lim: LinkLimits,
    page: Seq<char>,
    href: Seq<char>,
    seed: Seq<char>,
    scope: CrawlScope,
    depth: u32,
) -> LinkState {
    match link_target(page, href) {
        None => st,
        Some(n) => if !followable(n, scope, seed) {
            st
        } else {
            let (ok, c2) = consume(lim.limits, st.counts, lim.budget_cap, path_or_empty(n));
            let key = xxh3_64_of(utf8(n));
            if !ok || st.seen.contains(key) {
                LinkState { counts: c2, ..st }
            } else if st.queued.len() < lim.frontier_max {
                LinkState {
                    counts: c2,
                    seen: fifo_insert(st.seen, key, lim.dedup_cap),
                    queued: st.queued.push(
                        EntryView {
                            url: n,
                            depth: (depth + 1) as u32,
                            priority: DEFAULT_PRIORITY,
                            source: SourceView::Bfs,
                            sequence: st.next_seq as u64,
                        },
                    ),
                    next_seq: st.next_seq + 1,
                }
            } else {
                LinkState { counts: c2, seen: fifo_insert(st.seen, key, lim.dedup_cap), ..st }
            }
        },
    }
}

/// The effect of the first `i` links, in order.
pub open spec fn admit_links(
    st: LinkState,
    lim: LinkLimits,
    page: Seq<char>,
    hrefs: Seq<Seq<char>>,
    i: nat,
    seed: Seq<char>,
    scope: CrawlScope,
    depth: u32,
) -> LinkState
    decreases i,
{
    if i == 0 || i > hrefs.len() {
        st
    } else {
        admit_link(
            admit_links(st, lim, page, hrefs, (i - 1) as nat, seed, scope, depth),
            lim,
            page,
            hrefs[i - 1],
            seed,
            scope,
            depth,
        )
    }
}

/// The targets of some links.
pub open spec fn hrefs_of(links: Seq<Link>) -> Seq<Seq<char>> {
    links.map_values(|l: Link| l.href@)
}

/// The link state held by a budget, a dedup set and a frontier.
pub open spec fn state_of(b: Budget, d: UrlDedup, f: Frontier) -> LinkState {
    LinkState { counts: b@.counts, seen: d@, queued: f@.entries, next_seq: f@.next_seq }
}

/// The bounds of a budget, a dedup set and a frontier.
pub open spec fn limits_of(b: Budget, d: UrlDedup, f: Frontier) -> LinkLimits {
    LinkLimits {
        limits: b@.limits,
        budget_cap: b@.max_capacity,
        dedup_cap: d.capacity(),
        frontier_max: f@.max_size,
    }
}

/// Whether a followable target: parses, is http(s), is in scope, not a trap.
fn is_followable(n: &str, scope: &CrawlScope, seed: &str) -> (r: bool)
    ensures
        r == followable(n@, *scope, seed@),
{
    let sch = match scheme(n) {
        Some(s) => s,
        None => return false,
    };
    if !str_eq(sch.as_str(), "http") && !str_eq(sch.as_str(), "https") {
        return false;
    }
    if !scope.is_allowed(seed, n) {
        return false;
    }
    !is_cycle(n)
}

/// Follows the links found on a page (when links are followed and the page
/// is above the depth limit): each target is resolved and normalised, and a
/// followable one is charged to the budget, recorded and queued one level
/// deeper.
pub fn enqueue_links(
    page_url: &str,
    links: &Vec<Link>,
    depth: u32,
    follow_links: bool,
    config: &CrawlConfig,
    seed_url: &str,
    budget: &mut Budget,
    dedup: &mut UrlDedup,
    frontier: &mut Frontier,
)
    requires
        old(budget).wf(),
        old(dedup).wf(),
        old(frontier).wf(),
        old(frontier)@.next_seq + links@.len() < u64::MAX,
    ensures
        final(budget).wf(),
        final(dedup).wf(),
        final(frontier).wf(),
        final(budget)@.limits == old(budget)@.limits,
        final(budget)@.max_capacity == old(budget)@.max_capacity,
        final(dedup).capacity() == old(dedup).capacity(),
        final(frontier)@.max_size == old(frontier)@.max_size,
        state_of(*final(budget), *final(dedup), *final(frontier)) == if follow_links && depth
            < config.max_depth {
            admit_links(
                state_of(*old(budget), *old(dedup), *old(frontier)),
                limits_of(*old(budget), *old(dedup), *old(frontier)),
                page_url@,
                hrefs_of(links@),
                links@.len(),
                seed_url@,
                config.scope,
                depth,
            )
        } else {
            state_of(*old(budget), *old(dedup), *old(frontier))
        },
{
    if !(follow_links && depth < config.max_depth) {
        return;
    }
    let ghost st0 = state_of(*budget, *dedup, *frontier);
    let ghost lim = limits_of(*budget, *dedup, *frontier);
    let ghost hrefs = hrefs_of(links@);
    let mut i: usize = 0;
    while i < links.len()
        invariant
            i <= links@.len(),
            budget.wf(),
            dedup.wf(),
            frontier.wf(),
            hrefs == hrefs_of(links@),
            depth < config.max_depth,
            lim == limits_of(*budget, *dedup, *frontier),
            frontier@.next_seq <= old(frontier)@.next_seq + i,
            old(frontier)@.next_seq + links@.len() < u64::MAX,
            state_of(*budget, *dedup, *frontier) == admit_links(
                st0,
                lim,
                page_url@,
                hrefs,
                i as nat,
                seed_url@,
                config.scope,
                depth,
            ),
        decreases links@.len() - i,
    {
        let ghost before = state_of(*budget, *dedup, *frontier);
        let href = links[i].href.as_str();
        assert(hrefs[i as int] == href@);
        if let Some(resolved) = resolve_url(page_url, href) {
            if let Some(normalized) = normalize_url(resolved.as_str()) {
                let n = normalized.as_str();
                if is_followable(n, &config.scope, seed_url) {
                    let path = match url_path(n) {
                        Some(p) => p,
                        None => String::new(),
                    };
                    let admitted = budget.try_consume(path.as_str());
                    if admitted && dedup.insert(n) {
                        frontier.push(normalized, depth + 1);
                    }
                }
            }
        }
        proof {
            assert(state_of(*budget, *dedup, *frontier) == admit_link(
                before,
                lim,
                page_url@,
                hrefs[i as int],
                seed_url@,
                config.scope,
                depth,
            ));
        }
        i += 1;
    }
}


/// A link is queued only when its target is followable (http(s), in scope,
/// not a trap), was not seen before, and the frontier had room; it is queued
/// one level deeper, and a link that queues nothing leaves the frontier as
/// it was.
pub proof fn law_only_new_followable_links_are_queued(
    st: LinkState,
    lim: LinkLimits,
    page: Seq<char>,
    href: Seq<char>,
    seed: Seq<char>,
    scope: CrawlScope,
    depth: u32,
)
    requires
        depth < u32::MAX,
    ensures
        ({
            let after = admit_link(st, lim, page, href, seed, scope, depth);
            &&& after.queued.len() == st.queued.len() || after.queued.len() == st.queued.len() + 1
            &&& after.queued.len() == st.queued.len() ==> after.queued == st.queued
            &&& after.queued.len() == st.queued.len() + 1 ==> (link_target(page, href) matches Some(n)
                && followable(n, scope, seed) && !st.seen.contains(xxh3_64_of(utf8(n)))
                && st.queued.len() < lim.frontier_max && after.queued.last().url == n
                && after.queued.last().depth == depth + 1 && after.queued.drop_last() == st.queued)
        }),
{
    let after = admit_link(st, lim, page, href, seed, scope, depth);
    if after.queued.len() == st.queued.len() + 1 {
        assert(after.queued.drop_last() =~= st.queued);
    }
}

// ---------------------------------------------------------------------------
// Seeding the frontier
// ---------------------------------------------------------------------------

/// The part of the crawl state that seeding changes: the recorded URL
/// hashes and the frontier.
pub struct SeedState {
    pub seen: Seq<u64>,
    pub queued: Seq<EntryView>,
    pub next_seq: nat,
}

/// The seed state held by a dedup set and a frontier.
pub open spec fn seed_state_of(d: UrlDedup, f: Frontier) -> SeedState {
    SeedState { seen: d@, queued: f@.entries, next_seq: f@.next_seq }
}

/// `url` queued at depth 0 with `priority` and `source` when the frontier
/// has room.
pub open spec fn queue_at_root(
    st: SeedState,
    frontier_max: nat,
    url: Seq<char>,
    priority: u32,
    source: SourceView,
) -> SeedState {
    if st.queued.len() < frontier_max {
        SeedState {
            queued: st.queued.push(
                EntryView { url, depth: 0, priority, source, sequence: st.next_seq as u64 },
            ),
            next_seq: st.next_seq + 1,
            ..st
        }
    } else {
        st
    }
}

/// The seed URL is recorded (by its normalised form when it has one) and
/// queued as written, unless only sitemap URLs are crawled and the sitemaps
/// gave some.
pub open spec fn seed_start(
    st: SeedState,
    dedup_cap: nat,
    frontier_max: nat,
    seed: Seq<char>,
    follow_links: bool,
    n_entries: nat,
) -> SeedState {
    if follow_links || n_entries == 0 {
        let k = match normalized_url(seed) {
            Some(n) => n,
            None => seed,
        };
        let st2 = SeedState { seen: fifo_insert(st.seen, xxh3_64_of(utf8(k)), dedup_cap), ..st };
        queue_at_root(st2, frontier_max, seed, DEFAULT_PRIORITY, SourceView::Bfs)
    } else {
        st
    }
}

/// One sitemap URL: when it normalises and was not seen before, it is
/// recorded and queued at depth 0 with its priority, marked as coming from
/// the sitemap with its `lastmod`.
pub open spec fn seed_sitemap_url(
    st: SeedState,
    dedup_cap: nat,
    frontier_max: nat,
    url: Seq<char>,
    priority: u32,
    lastmod: Option<Seq<char>>,
) -> SeedState {
    match normalized_url(url) {
        None => st,
        Some(n) => {
            let key = xxh3_64_of(utf8(n));
            if st.seen.contains(key) {
                st
            } else {
                queue_at_root(
                    SeedState { seen: fifo_insert(st.seen, key, dedup_cap), ..st },
                    frontier_max,
                    n,
                    priority,
                    SourceView::Sitemap { lastmod },
                )
            }
        },
    }
}

/// The first `i` sitemap URLs seeded in order.
pub open spec fn seed_sitemap_urls(
    st: SeedState,
    dedup_cap: nat,
    frontier_max: nat,
    urls: Seq<Seq<char>>,
    priorities: Seq<u32>,
    lastmods: Seq<Option<Seq<char>>>,
    i: nat,
) -> SeedState
    decreases i,
{
    if i == 0 || i > urls.len() {
        st
    } else {
        seed_sitemap_url(
            seed_sitemap_urls(st, dedup_cap, frontier_max, urls, priorities, lastmods, (i - 1) as nat),
            dedup_cap,
            frontier_max,
            urls[i - 1],
            priorities[i - 1],
            lastmods[i - 1],
        )
    }
}

/// The URLs of sitemap entries.
pub open spec fn entry_urls(entries: Seq<SitemapEntry>) -> Seq<Seq<char>> {
    entries.map_values(|e: SitemapEntry| e.url@)
}

/// The `lastmod` dates of sitemap entries.
pub open spec fn entry_lastmods(entries: Seq<SitemapEntry>) -> Seq<Option<Seq<char>>> {
    entries.map_values(
        |e: SitemapEntry|
            match e.lastmod {
                Some(l) => Some(l@),
                None => None,
            },
    )
}

/// Seeds the frontier before crawling: the seed URL first (unless only
/// sitemap URLs are crawled and the sitemaps gave some), then every sitemap
/// URL that normalises and is new, at depth 0 with its priority
/// (`priorities[i]`, in thousandths, belongs to `entries[i]`).
pub fn seed_frontier(
    seed: &str,
    entries: &Vec<SitemapEntry>,
    priorities: &Vec<u32>,
    follow_links: bool,
    dedup: &mut UrlDedup,
    frontier: &mut Frontier,
)
    requires
        old(dedup).wf(),
        old(frontier).wf(),
        priorities@.len() == entries@.len(),
        old(frontier)@.next_seq + entries@.len() + 1 < u64::MAX,
    ensures
        final(dedup).wf(),
        final(frontier).wf(),
        final(dedup).capacity() == old(dedup).capacity(),
        final(frontier)@.max_size == old(frontier)@.max_size,
        seed_state_of(*final(dedup), *final(frontier)) == seed_sitemap_urls(
            seed_start(
                seed_state_of(*old(dedup), *old(frontier)),
                old(dedup).capacity(),
                old(frontier)@.max_size,
                seed@,
                follow_links,
                entries@.len(),
            ),
            old(dedup).capacity(),
            old(frontier)@.max_size,
            entry_urls(entries@),
            priorities@,
            entry_lastmods(entries@),
            entries@.len(),
        ),
{
    let ghost cap = dedup.capacity();
    let ghost fmax = frontier@.max_size;
    if follow_links || entries.len() == 0 {
        let key = match normalize_url(seed) {
            Some(n) => n,
            None => seed.to_string(),
        };
        let _ = dedup.insert(key.as_str());
        frontier.push(seed.to_string(), 0);
    }
    let ghost st0 = seed_state_of(*dedup, *frontier);
    let ghost urls = entry_urls(entries@);
    let ghost lastmods = entry_lastmods(entries@);
    let mut i: usize = 0;
    while i < entries.len()
        invariant
            i <= entries@.len(),
            priorities@.len() == entries@.len(),
            dedup.wf(),
            frontier.wf(),
            dedup.capacity() == cap,
            frontier@.max_size == fmax,
            urls == entry_urls(entries@),
            lastmods == entry_lastmods(entries@),
            frontier@.next_seq <= st0.next_seq + i,
            st0.next_seq <= old(frontier)@.next_seq + 1,
            old(frontier)@.next_seq + entries@.len() + 1 < u64::MAX,
            seed_state_of(*dedup, *frontier) == seed_sitemap_urls(
                st0,
                cap,
                fmax,
                urls,
                priorities@,
                lastmods,
                i as nat,
            ),
        decreases entries@.len() - i,
    {
        let ghost before = seed_state_of(*dedup, *frontier);
        let entry = &entries[i];
        assert(urls[i as int] == entry.url@);
        assert(lastmods[i as int] == match entry.lastmod {
            Some(l) => Some(l@),
            None => None::<Seq<char>>,
        });
        if let Some(normalized) = normalize_url(entry.url.as_str()) {
            if dedup.insert(normalized.as_str()) {
                let source = EntrySource::Sitemap { lastmod: copy_opt(&entry.lastmod) };
                frontier.push_with_priority(normalized, 0, priorities[i], source);
            }
        }
        assert(seed_state_of(*dedup, *frontier) == seed_sitemap_url(
            before,
            cap,
            fmax,
            urls[i as int],
            priorities@[i as int],
            lastmods[i as int],
        ));
        i += 1;
    }
}

// ---------------------------------------------------------------------------
// What a crawled page reports
// ---------------------------------------------------------------------------

/// The result for one crawled page.
#[derive(Debug)]
pub struct CrawlResult {
    pub url: String,
    pub status: u16,
    pub depth: u32,
    pub title: String,
    pub markdown: String,
    pub content_length: usize,
    pub links_found: usize,
    pub elapsed_ms: u64,
    pub error: Option<String>,
    pub source: Option<String>,
    pub sitemap_lastmod: Option<String>,
    /// Sitemap priority in thousandths.
    pub sitemap_priority: Option<u32>,
    pub file_path: Option<String>,
}

/// A result that carries no content: a page that was skipped or failed.
pub open spec fn is_empty_result(r: CrawlResult, url: Seq<char>, status: u16, depth: u32, elapsed_ms: u64) -> bool {
    &&& r.url@ == url
    &&& r.status == status
    &&& r.depth == depth
    &&& r.title@.len() == 0
    &&& r.markdown@.len() == 0
    &&& r.content_length == 0
    &&& r.links_found == 0
    &&& r.elapsed_ms == elapsed_ms
    &&& r.source is None
    &&& r.sitemap_lastmod is None
    &&& r.sitemap_priority is None
    &&& r.file_path is None
}

fn empty_result(url: &str, status: u16, depth: u32, elapsed_ms: u64, error: String) -> (r: CrawlResult)
    ensures
        is_empty_result(r, url@, status, depth, elapsed_ms),
        r.error == Some(error),
{
    CrawlResult {
        url: url.to_string(),
        status,
        depth,
        title: String::new(),
        markdown: String::new(),
        content_length: 0,
        links_found: 0,
        elapsed_ms,
        error: Some(error),
        source: None,
        sitemap_lastmod: None,
        sitemap_priority: None,
        file_path: None,
    }
}

impl CrawlResult {
    /// The result for a page that robots.txt disallows (status 0).
    pub fn blocked_by_robots(url: &str, depth: u32, elapsed_ms: u64) -> (r: CrawlResult)
        ensures
            is_empty_result(r, url@, 0, depth, elapsed_ms),
            r.error matches Some(e) && e@ == "blocked by robots.txt"@,
    {
        empty_result(url, 0, depth, elapsed_ms, String::from_str("blocked by robots.txt"))
    }

    /// The result for a page whose fetch failed (status 0), naming the
    /// failure.
    pub fn fetch_failed(url: &str, depth: u32, elapsed_ms: u64, reason: &str) -> (r: CrawlResult)
        ensures
            is_empty_result(r, url@, 0, depth, elapsed_ms),
            r.error matches Some(e) && e@ == "fetch error: "@ + reason@,
    {
        let mut msg = String::from_str("fetch error: ");
        msg.append(reason);
        empty_result(url, 0, depth, elapsed_ms, msg)
    }

    /// The result for a page whose body was already seen on another URL.
    pub fn duplicate_content(url: &str, status: u16, depth: u32, elapsed_ms: u64) -> (r: CrawlResult)
        ensures
            is_empty_result(r, url@, status, depth, elapsed_ms),
            r.error matches Some(e) && e@ == "duplicate content"@,
    {
        empty_result(url, status, depth, elapsed_ms, String::from_str("duplicate content"))
    }

    /// The result for a page that was fetched and processed: the source
    /// names how it was found (`bfs` or `sitemap`, with the sitemap's last
    /// modification date), and when the markdown was saved to a file it is
    /// not repeated inline.
    pub fn crawled(
        url: &str,
        status: u16,
        depth: u32,
        title: String,
        markdown: String,
        content_length: usize,
        links_found: usize,
        elapsed_ms: u64,
        source: &EntrySource,
        file_path: Option<String>,
    ) -> (r: CrawlResult)
        ensures
            r.url@ == url@,
            r.status == status,
            r.depth == depth,
            r.title == title,
            r.markdown@ == if file_path is Some { Seq::<char>::empty() } else { markdown@ },
            r.content_length == content_length,
            r.links_found == links_found,
            r.elapsed_ms == elapsed_ms,
            r.error is None,
            r.source matches Some(s) && s@ == match source {
                EntrySource::Bfs => "bfs"@,
                EntrySource::Sitemap { .. } => "sitemap"@,
            },
            r.sitemap_lastmod == match source {
                EntrySource::Sitemap { lastmod } => *lastmod,
                EntrySource::Bfs => None,
            },
            r.sitemap_priority is None,
            r.file_path == file_path,
    {
        let markdown = if file_path.is_some() {
            String::new()
        } else {
            markdown
        };
        let (name, lastmod) = match source {
            EntrySource::Bfs => (String::from_str("bfs"), None),
            EntrySource::Sitemap { lastmod } => (String::from_str("sitemap"), copy_opt(lastmod)),
        };
        CrawlResult {
            url: url.to_string(),
            status,
            depth,
            title,
            markdown,
            content_length,
            links_found,
            elapsed_ms,
            error: None,
            source: Some(name),
            sitemap_lastmod: lastmod,
            sitemap_priority: None,
            file_path,
        }
    }
}

fn copy_opt(o: &Option<String>) -> (r: Option<String>)
    ensures
        r == *o,
{
    match o {
        Some(s) => {
            Some(s.clone())
        },
        None => None,
    }
}

// ---------------------------------------------------------------------------
// Saving pages to files
// ---------------------------------------------------------------------------

/// `d` left-padded with `0` to at least four characters.
pub open spec fn zero_pad4(d: Seq<char>) -> Seq<char> {
    if d.len() >= 4 {
        d
    } else {
        Seq::new((4 - d.len()) as nat, |i: int| '0') + d
    }
}

/// The file a crawled page's markdown is saved under: `page_` and the page's
/// sequence number, zero-padded to four digits, then `.md`.
pub fn page_file_name(seq: usize) -> (r: String)
    ensures
        r@ == "page_"@ + zero_pad4(decimal(seq as nat)) + ".md"@,
{
    let digits = decimal_string(seq as u64);
    let mut r = String::from_str("page_");
    let n = chars_of(digits.as_str()).len();
    let mut k: usize = 0;
    let pad: usize = if n < 4 {
        4 - n
    } else {
        0
    };
    while k < pad
        invariant
            k <= pad,
            r@ == "page_"@ + Seq::new(k as nat, |i: int| '0'),
        decreases pad - k,
    {
        r.append("0");
        proof {
            reveal_strlit("0");
        }
        assert(Seq::new((k + 1) as nat, |i: int| '0') =~= Seq::new(k as nat, |i: int| '0').push('0'));
        k += 1;
    }
    r.append(digits.as_str());
    r.append(".md");
    proof {
        if n >= 4 {
            assert(Seq::new(0nat, |i: int| '0') =~= Seq::<char>::empty());
        }
    }
    assert(r@ =~= "page_"@ + zero_pad4(decimal(seq as nat)) + ".md"@);
    r
}

/// The line recorded for a saved page in the crawl's `index.jsonl`.
pub fn index_line(url: &str, file: &str, status: u16) -> (r: String)
    ensures
        r@ == "{\"url\":\""@ + url@ + "\",\"file\":\""@ + file@ + "\",\"status\":"@ + decimal(
            status as nat,
        ) + "}\n"@,
{
    let mut r = String::from_str("{\"url\":\"");
    r.append(url);
    r.append("\",\"file\":\"");
    r.append(file);
    r.append("\",\"status\":");
    let d = decimal_string(status as u64);
    r.append(d.as_str());
    r.append("}\n");
    r
}

// ---------------------------------------------------------------------------
// When the crawl loop ends
// ---------------------------------------------------------------------------

/// The crawl loop stops taking work once the consumer of results is gone
/// or `max_pages` pages were crawled successfully.
pub fn crawl_should_stop(receiver_closed: bool, pages_crawled: usize, max_pages: usize) -> (r: bool)
    ensures
        r == (receiver_closed || pages_crawled >= max_pages),
{
    receiver_closed || pages_crawled >= max_pages
}

/// With nothing left in the frontier, the crawl is over once no page is
/// being processed, that is, once every one of the `concurrency` slots is
/// free again.
pub fn crawl_is_drained(frontier_empty: bool, free_slots: usize, concurrency: usize) -> (r: bool)
    ensures
        r == (frontier_empty && free_slots == concurrency),
{
    frontier_empty && free_slots == concurrency
}

impl CrawlResult {
    /// A page counts towards `max_pages` when it was crawled without error.
    pub fn counts_as_crawled(&self) -> (r: bool)
        ensures
            r == self.error is None,
    {
        self.error.is_none()
    }
}

} // verus!
