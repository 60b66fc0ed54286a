//! Per-domain cache of solved Cloudflare challenges, with a TTL and a bound
//! on the number of domains.
//!
//! Storing a domain that is already cached refreshes it (it becomes the most
//! recently written and does not grow the cache); storing a new domain into
//! a full cache first evicts the least recently written one. Reads return
//! only entries whose TTL has not run out.

use vstd::prelude::*;
use crate::clock::{duration_nanos, ticks_of, Clock};
use crate::cloudflare::ChallengeType;
use crate::lru::{entry_of, keys_distinct, live_entries, live_value, write_entry, EntryView, TtlLru};

verus! {

/// Default maximum number of distinct domains.
pub const DEFAULT_MAX_SIZE: usize = 4096;

/// Result of a successfully solved Cloudflare challenge.
#[derive(Debug)]
pub struct SolvedChallenge {
    /// Cookie name/value pairs, in the order the solver reported them.
    pub cookies: Vec<(String, String)>,
    /// The user agent the cookies are bound to.
    pub user_agent: String,
    /// Optional page body returned by the solver.
    pub body: Option<String>,
}

/// A service that solves Cloudflare challenges and hands back the cookies
/// that clear them (implemented by the solvers the application plugs in).
pub trait CookieProvider {
    /// Solves the challenge of kind `challenge_type` guarding `url`, or says
    /// why it could not.
    fn solve(&self, url: &str, challenge_type: ChallengeType) -> Result<SolvedChallenge, String>;
}

/// A solved challenge as the specifications see it.
pub struct SolvedView {
    pub cookies: Seq<(Seq<char>, Seq<char>)>,
    pub user_agent: Seq<char>,
    pub body: Option<Seq<char>>,
}

impl View for SolvedChallenge {
    type V = SolvedView;

    open spec fn view(&self) -> SolvedView {
        SolvedView {
            cookies: self.cookies@.map_values(|c: (String, String)| (c.0@, c.1@)),
            user_agent: self.user_agent@,
            body: match self.body {
                Some(b) => Some(b@),
                None => None,
            },
        }
    }
}

impl SolvedChallenge {
    /// A copy of this solution.
    pub fn duplicate(&self) -> (r: SolvedChallenge)
        ensures
            r@ == self@,
    {
        let mut cookies: Vec<(String, String)> = Vec::new();
        let mut i: usize = 0;
        while i < self.cookies.len()
            invariant
                i <= self.cookies@.len(),
                cookies@.len() == i,
                forall|j: int| 0 <= j < i ==> cookies@[j].0@ == self.cookies@[j].0@ && cookies@[j].1@
                    == self.cookies@[j].1@,
            decreases self.cookies@.len() - i,
        {
            let name = self.cookies[i].0.clone();
            let value = self.cookies[i].1.clone();
            cookies.push((name, value));
            i += 1;
        }
        let body = match &self.body {
            Some(b) => Some(b.clone()),
            None => None,
        };
        let r = SolvedChallenge { cookies, user_agent: self.user_agent.clone(), body };
        assert(r@.cookies =~= self@.cookies);
        r
    }

    /// The value of the cookie called `name`, if present (the first such).
    pub fn cookie(&self, name: &str) -> (r: Option<&String>)
        ensures
            match r {
                Some(v) => exists|i: int|
                    0 <= i < self.cookies@.len() && self.cookies@[i].0@ == name@ && self.cookies@[i].1
                        == *v && forall|j: int| 0 <= j < i ==> self.cookies@[j].0@ != name@,
                None => forall|j: int| 0 <= j < self.cookies@.len() ==> self.cookies@[j].0@ != name@,
            },
    {
        let mut i: usize = 0;
        while i < self.cookies.len()
            invariant
                i <= self.cookies@.len(),
                forall|j: int| 0 <= j < i ==> self.cookies@[j].0@ != name@,
            decreases self.cookies@.len() - i,
        {
            if crate::text::str_eq(self.cookies[i].0.as_str(), name) {
                return Some(&self.cookies[i].1);
            }
            i += 1;
        }
        None
    }
}

/// The tick at which an entry written at `now` with TTL `ttl` expires.
pub open spec fn expiry(now: u64, ttl: u64) -> u64 {
    if now + ttl > u64::MAX {
        u64::MAX
    } else {
        (now + ttl) as u64
    }
}

/// Cache of solved challenges keyed by domain.
pub struct CookieCache {
    store: TtlLru<SolvedChallenge>,
    ttl_ticks: u64,
    clock: Clock,
}

impl CookieCache {
    /// The cache's internal invariant.
    pub closed spec fn wf(&self) -> bool {
        self.store.wf()
    }

    /// The cached entries, least recently written first.
    pub closed spec fn entries(&self) -> Seq<EntryView<SolvedChallenge>> {
        self.store@
    }

    /// The entry lifetime in clock ticks.
    pub closed spec fn ttl(&self) -> u64 {
        self.ttl_ticks
    }

    /// The bound on the number of cached domains.
    pub closed spec fn capacity(&self) -> nat {
        self.store.capacity()
    }

    /// A cache whose entries live for `ttl`, holding the default number of
    /// domains.
    pub fn new(ttl: std::time::Duration) -> (c: Self)
        ensures
            c.wf(),
            c.entries().len() == 0,
            c.capacity() == DEFAULT_MAX_SIZE,
            c.ttl() == ticks_of(ttl),
    {
        Self::with_max_size(ttl, DEFAULT_MAX_SIZE)
    }

    /// A cache whose entries live for `ttl`, holding at most `max_size` (at
    /// least one) domains.
    pub fn with_max_size(ttl: std::time::Duration, max_size: usize) -> (c: Self)
        ensures
            c.wf(),
            c.entries().len() == 0,
            c.capacity() == if max_size >= 1 { max_size as nat } else { 1 },
            c.ttl() == ticks_of(ttl),
    {
        CookieCache { store: TtlLru::new(max_size), ttl_ticks: duration_nanos(&ttl), clock: Clock::new() }
    }

    /// The configured maximum number of entries.
    pub fn max_size(&self) -> (n: usize)
        ensures
            n == self.capacity(),
    {
        self.store.max_size()
    }

    /// A copy of the solution cached for `domain` if its entry is live at
    /// tick `now`.
    pub fn get_at(&self, domain: &str, now: u64) -> (r: Option<SolvedChallenge>)
        requires
            self.wf(),
        ensures
            match r {
                Some(s) => live_value(self.entries(), domain@, now) matches Some(v) && s@ == v@,
                None => live_value(self.entries(), domain@, now) is None,
            },
    {
        match self.store.get_live(domain, now) {
            Some(s) => Some(s.duplicate()),
            None => None,
        }
    }

    /// A copy of the solution cached for `domain`, if present and not
    /// expired at the current time.
    pub fn get(&self, domain: &str) -> (r: Option<SolvedChallenge>)
        requires
            self.wf(),
        ensures
            exists|now: u64|
                match r {
                    Some(s) => #[trigger] live_value(self.entries(), domain@, now) matches Some(v) && s@ == v@,
                    None => live_value(self.entries(), domain@, now) is None,
                },
    {
        let now = self.clock.now();
        self.get_at(domain, now)
    }

    /// Store `solution` for `domain`, written at tick `now`.
    pub fn put_at(&mut self, domain: &str, solution: SolvedChallenge, now: u64)
        requires
            old(self).wf(),
        ensures
            final(self).wf(),
            final(self).capacity() == old(self).capacity(),
            final(self).ttl() == old(self).ttl(),
            final(self).entries() == write_entry(
                old(self).entries(),
                EntryView { key: domain@, value: solution, expires_at: expiry(now, old(self).ttl()) },
                old(self).capacity(),
            ),
    {
        let expires_at = now.saturating_add(self.ttl_ticks);
        self.store.put(domain.to_owned(), solution, expires_at);
    }

    /// Store `solution` for `domain` with the configured TTL from now.
    pub fn put(&mut self, domain: &str, solution: SolvedChallenge)
        requires
            old(self).wf(),
        ensures
            final(self).wf(),
            final(self).capacity() == old(self).capacity(),
            final(self).ttl() == old(self).ttl(),
            exists|now: u64|
                final(self).entries() == write_entry(
                    old(self).entries(),
                    EntryView { key: domain@, value: solution, expires_at: expiry(now, old(self).ttl()) },
                    old(self).capacity(),
                ),
    {
        let now = self.clock.now();
        self.put_at(domain, solution, now);
    }

    /// Remove every entry that has expired at tick `now`.
    pub fn evict_expired_at(&mut self, now: u64)
        requires
            old(self).wf(),
        ensures
            final(self).wf(),
            final(self).capacity() == old(self).capacity(),
            final(self).ttl() == old(self).ttl(),
            final(self).entries() == live_entries(old(self).entries(), now),
    {
        self.store.retain_live(now);
    }

    /// Remove every entry that has expired at the current time.
    pub fn evict_expired(&mut self)
        requires
            old(self).wf(),
        ensures
            final(self).wf(),
            final(self).capacity() == old(self).capacity(),
            final(self).ttl() == old(self).ttl(),
            exists|now: u64| final(self).entries() == live_entries(old(self).entries(), now),
    {
        let now = self.clock.now();
        self.evict_expired_at(now);
    }

    /// The number of entries, including expired ones not yet evicted.
    pub fn len(&self) -> (n: usize)
        ensures
            n == self.entries().len(),
    {
        self.store.len()
    }

    /// Whether the cache holds no entries.
    pub fn is_empty(&self) -> (r: bool)
        ensures
            r == (self.entries().len() == 0),
    {
        self.store.len() == 0
    }
}

/// The cookie cache never holds more domains than its capacity, and holds
/// each domain at most once.
pub proof fn law_cookie_cache_bounded(c: CookieCache)
    requires
        c.wf(),
    ensures
        c.entries().len() <= c.capacity(),
        keys_distinct(c.entries()),
{
    c.store.lemma_wf_bounds();
}

/// A solution put for a domain at tick `written` is what a read of that
/// domain at a later tick `read` returns while less than the TTL has passed
/// (and the clock has not reached its last tick), and nothing once the TTL
/// has run out.
pub proof fn law_put_then_get_within_ttl(
    c: CookieCache,
    domain: Seq<char>,
    solution: SolvedChallenge,
    written: u64,
    read: u64,
)
    requires
        c.wf(),
        written <= read,
    ensures
        ({
            let after = write_entry(
                c.entries(),
                EntryView { key: domain, value: solution, expires_at: expiry(written, c.ttl()) },
                c.capacity(),
            );
            &&& (read - written < c.ttl() && read < u64::MAX) ==> live_value(after, domain, read) == Some(solution)
            &&& (read - written >= c.ttl() && written + c.ttl() <= u64::MAX) ==> live_value(
                after,
                domain,
                read,
            ) is None
        }),
{
    c.store.lemma_wf_bounds();
    crate::lru::law_read_after_write(
        c.entries(),
        EntryView { key: domain, value: solution, expires_at: expiry(written, c.ttl()) },
        c.capacity(),
        read,
    );
}

/// Evicting the expired entries at tick `now` changes what no read at that
/// tick returns: every domain reads the same before and after.
pub proof fn law_evict_keeps_reads(c: CookieCache, domain: Seq<char>, now: u64)
    requires
        c.wf(),
    ensures
        live_value(live_entries(c.entries(), now), domain, now) == live_value(c.entries(), domain, now),
{
    c.store.lemma_wf_bounds();
    crate::lru::law_evict_keeps_live_reads(c.entries(), domain, now);
}

} // verus!
