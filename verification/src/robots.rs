//! robots.txt: the `Sitemap:` directives of a robots.txt body, and a
//! per-host cache of parsed robots.txt files, bounded in size (eldest
//! written first out) and with a TTL after which an entry counts as missing.

use vstd::prelude::*;
use vstd::string::*;
use vstd::utf8::*;
use crate::clock::{duration_nanos, ticks_of, Clock};
use crate::cookie_cache::expiry;
use crate::lru::{entry_of, keys_distinct, live_value, write_entry, EntryView, TtlLru};
use crate::text::{
    ascii_lower, ascii_lower_all, char_vecs_view, chars_of, lines, split_lines, string_from_chars,
    strings_view,
    to_ascii_lower, trim, trim_chars,
};

verus! {

/// The text `String::from_utf8_lossy` makes of some bytes: invalid sequences
/// become U+FFFD.
pub uninterp spec fn lossy_text(b: Seq<u8>) -> Seq<char>;

/// Calls `String::from_utf8_lossy`, whose result is named `lossy_text`; its
/// documentation says that valid UTF-8 comes back unchanged.
#[verifier::external_body]
fn from_utf8_lossy(b: &[u8]) -> (s: String)
    ensures
        s@ == lossy_text(b@),
        valid_utf8(b@) ==> s@ == decode_utf8(b@),
{
    String::from_utf8_lossy(b).into_owned()
}

/// The sitemap URL a robots.txt line names: the trimmed line must be longer
/// than 8 characters and start with `sitemap:` in any ASCII case; the URL is
/// the trimmed rest.
pub open spec fn sitemap_of_line(line: Seq<char>) -> Option<Seq<char>> {
    let t = trim(line);
    if t.len() > 8 && ascii_lower_all(t.take(8)) == "sitemap:"@ {
        Some(trim(t.skip(8)))
    } else {
        None
    }
}

/// The non-empty sitemap URLs of the first `i` lines.
pub open spec fn sitemaps_of_lines(ls: Seq<Seq<char>>, i: nat) -> Seq<Seq<char>>
    decreases i,
{
    if i == 0 || i > ls.len() {
        Seq::empty()
    } else {
        let prev = sitemaps_of_lines(ls, (i - 1) as nat);
        match sitemap_of_line(ls[i - 1]) {
            Some(u) => if u.len() > 0 {
                prev.push(u)
            } else {
                prev
            },
            None => prev,
        }
    }
}

/// The sitemap URLs declared in a robots.txt text, in order.
pub open spec fn sitemaps(text: Seq<char>) -> Seq<Seq<char>> {
    sitemaps_of_lines(lines(text), lines(text).len())
}

/// Whether the first eight characters of `t` spell `sitemap:` in any ASCII case.
fn starts_with_sitemap(t: &Vec<char>) -> (r: bool)
    requires
        t@.len() > 8,
    ensures
        r == (ascii_lower_all(t@.take(8)) == "sitemap:"@),
{
    let want = chars_of("sitemap:");
    proof {
        reveal_strlit("sitemap:");
    }
    assert(want@.len() == 8);
    let mut i: usize = 0;
    while i < 8
        invariant
            i <= 8,
            t@.len() > 8,
            want@ == "sitemap:"@,
            want@.len() == 8,
            forall|k: int| 0 <= k < i ==> ascii_lower(t@[k]) == want@[k],
        decreases 8 - i,
    {
        if to_ascii_lower(t[i]) != want[i] {
            assert(ascii_lower_all(t@.take(8))[i as int] != want@[i as int]);
            return false;
        }
        i += 1;
    }
    assert(ascii_lower_all(t@.take(8)) =~= want@);
    true
}

/// The sitemap URL a robots.txt line names, if any.
fn line_sitemap(line: &Vec<char>) -> (r: Option<Vec<char>>)
    ensures
        match r {
            Some(u) => sitemap_of_line(line@) == Some(u@),
            None => sitemap_of_line(line@) is None,
        },
{
    let t = trim_chars(line.as_slice());
    if t.len() > 8 && starts_with_sitemap(&t) {
        let rest = t.as_slice().split_at(8).1;
        assert(rest@ =~= t@.skip(8));
        Some(trim_chars(rest))
    } else {
        None
    }
}

/// Extracts the `Sitemap:` URLs from a robots.txt body.
pub fn extract_sitemaps(robots_txt: &[u8]) -> (r: Vec<String>)
    ensures
        strings_view(r@) == sitemaps(lossy_text(robots_txt@)),
{
    let text = from_utf8_lossy(robots_txt);
    let chars = chars_of(text.as_str());
    let ls = split_lines(chars.as_slice());
    let mut out: Vec<String> = Vec::new();
    let mut i: usize = 0;
    while i < ls.len()
        invariant
            i <= ls@.len(),
            char_vecs_view(ls@) == lines(text@),
            text@ == lossy_text(robots_txt@),
            strings_view(out@) == sitemaps_of_lines(lines(text@), i as nat),
        decreases ls@.len() - i,
    {
        assert(char_vecs_view(ls@)[i as int] == ls@[i as int]@);
        match line_sitemap(&ls[i]) {
            Some(u) => {
                if u.len() > 0 {
                    let s = string_from_chars(&u);
                    let ghost o0 = out@;
                    out.push(s);
                    assert(strings_view(out@) =~= strings_view(o0).push(s@));
                }
            },
            None => {},
        }
        i += 1;
    }
    out
}

// ---------------------------------------------------------------------------
// Parsed robots.txt files
// ---------------------------------------------------------------------------

#[verifier::external_type_specification]
#[verifier::external_body]
pub struct ExRobot(texting_robots::Robot);

/// `texting_robots::Robot::new` accepts this robots.txt body for this user
/// agent.
pub uninterp spec fn robots_parse(user_agent: Seq<char>, body: Seq<u8>) -> bool;

/// The robots.txt `body`, parsed for `user_agent`, allows fetching `url`
/// (`Robot::allowed`).
pub uninterp spec fn robots_allow(user_agent: Seq<char>, body: Seq<u8>, url: Seq<char>) -> bool;

/// Calls `texting_robots::Robot::new`; it succeeds exactly when the body
/// parses for the user agent.
#[verifier::external_body]
fn parse_robot(user_agent: &str, body: &[u8]) -> (r: Option<texting_robots::Robot>)
    ensures
        r is Some <==> robots_parse(user_agent@, body@),
{
    texting_robots::Robot::new(user_agent, body).ok()
}

/// A robots.txt body parsed for a user agent, with the text it came from.
#[derive(Debug)]
pub struct ParsedRobots {
    user_agent: String,
    body: Vec<u8>,
    robot: texting_robots::Robot,
}

impl ParsedRobots {
    /// The user agent the rules were parsed for.
    pub closed spec fn agent(&self) -> Seq<char> {
        self.user_agent@
    }

    /// The robots.txt body the rules were parsed from.
    pub closed spec fn source(&self) -> Seq<u8> {
        self.body@
    }

    /// Parses `body` for `user_agent`; `None` when it does not parse.
    pub fn parse(user_agent: &str, body: &[u8]) -> (r: Option<ParsedRobots>)
        ensures
            r is Some <==> robots_parse(user_agent@, body@),
            r matches Some(p) ==> p.agent() == user_agent@ && p.source() == body@,
    {
        match parse_robot(user_agent, body) {
            Some(robot) => {
                let mut copy: Vec<u8> = Vec::new();
                let mut i: usize = 0;
                while i < body.len()
                    invariant
                        i <= body@.len(),
                        copy@ == body@.take(i as int),
                    decreases body@.len() - i,
                {
                    copy.push(body[i]);
                    assert(body@.take(i + 1) =~= body@.take(i as int).push(body@[i as int]));
                    i += 1;
                }
                assert(body@.take(body@.len() as int) =~= body@);
                Some(ParsedRobots { user_agent: String::from_str(user_agent), body: copy, robot })
            },
            None => None,
        }
    }

    /// Calls `Robot::allowed` on the rules (every `ParsedRobots` holds the
    /// robot parsed from its own user agent and body).
    #[verifier::external_body]
    pub fn allows(&self, url: &str) -> (r: bool)
        ensures
            r == robots_allow(self.agent(), self.source(), url@),
    {
        self.robot.allowed(url)
    }

    /// The rules parsed from the agent and body.
    pub closed spec fn rules(&self) -> texting_robots::Robot {
        self.robot
    }

    /// The parsed rules.
    pub fn robot(&self) -> (r: &texting_robots::Robot)
        ensures
            *r == self.rules(),
    {
        &self.robot
    }
}

// ---------------------------------------------------------------------------
// The cache
// ---------------------------------------------------------------------------

/// Default maximum number of hosts tracked.
pub const DEFAULT_ROBOTS_MAX_CAPACITY: usize = 4096;

/// Default lifetime of a cached entry, in seconds.
pub const DEFAULT_ROBOTS_TTL_SECS: u64 = 300;

/// Where a site's robots.txt lives: `{scheme}://{host}/robots.txt`.
pub fn robots_txt_url(scheme: &str, host: &str) -> (r: String)
    ensures
        r@ == scheme@ + "://"@ + host@ + "/robots.txt"@,
{
    let mut r = String::from_str(scheme);
    r.append("://");
    r.append(host);
    r.append("/robots.txt");
    r
}

/// Whether rules for `agent` parsed from `body` allow `url`: an
/// unavailable robots.txt allows everything.
pub open spec fn rules_allow(rules: Option<ParsedRobots>, url: Seq<char>) -> bool {
    match rules {
        Some(p) => robots_allow(p.agent(), p.source(), url),
        None => true,
    }
}

/// Per-host robots.txt cache.
pub struct RobotsCache {
    user_agent: String,
    store: TtlLru<Option<ParsedRobots>>,
    in_flight: Vec<String>,
    max_capacity: usize,
    ttl: std::time::Duration,
    ttl_ticks: u64,
    clock: Clock,
}

impl RobotsCache {
    /// The cache's invariant.
    pub closed spec fn wf(&self) -> bool {
        &&& self.store.wf()
        &&& self.store.capacity() == self.max_capacity
        &&& forall|i: int, j: int|
            0 <= i < j < self.in_flight@.len() ==> #[trigger] self.in_flight@[i]@
                != #[trigger] self.in_flight@[j]@
    }

    /// The cached entries (`None` values mark hosts without a usable
    /// robots.txt), eldest written first.
    pub closed spec fn entries(&self) -> Seq<EntryView<Option<ParsedRobots>>> {
        self.store@
    }

    /// The hosts whose robots.txt is being fetched.
    pub closed spec fn fetching(&self) -> Seq<Seq<char>> {
        self.in_flight@.map_values(|h: String| h@)
    }

    /// The user agent the rules are parsed for.
    pub closed spec fn agent(&self) -> Seq<char> {
        self.user_agent@
    }

    /// The entry lifetime in clock ticks.
    pub closed spec fn ttl_ticks(&self) -> u64 {
        self.ttl_ticks
    }

    /// The lifetime of an entry, as configured.
    pub closed spec fn entry_ttl(&self) -> std::time::Duration {
        self.ttl
    }

    /// The bound on the number of hosts.
    pub closed spec fn capacity(&self) -> nat {
        self.max_capacity as nat
    }

    /// A cache for `user_agent` with the default capacity and TTL.
    pub fn new(user_agent: &str) -> (c: RobotsCache)
        ensures
            c.wf(),
            c.entries().len() == 0,
            c.fetching().len() == 0,
            c.agent() == user_agent@,
            c.capacity() == DEFAULT_ROBOTS_MAX_CAPACITY,
            c.entry_ttl() == crate::deadline::duration_of_secs(DEFAULT_ROBOTS_TTL_SECS),
            c.ttl_ticks() == DEFAULT_ROBOTS_TTL_SECS * 1_000_000_000,
    {
        let ttl = crate::deadline::duration_from_secs(DEFAULT_ROBOTS_TTL_SECS);
        Self::with_limits(user_agent, DEFAULT_ROBOTS_MAX_CAPACITY, ttl)
    }

    /// A cache for `user_agent` holding at most `max_capacity` (at least one)
    /// hosts, whose entries live for `ttl`.
    pub fn with_limits(user_agent: &str, max_capacity: usize, ttl: std::time::Duration) -> (c: RobotsCache)
        ensures
            c.wf(),
            c.entries().len() == 0,
            c.fetching().len() == 0,
            c.agent() == user_agent@,
            c.capacity() == if max_capacity >= 1 { max_capacity as nat } else { 1 },
            c.entry_ttl() == ttl,
            c.ttl_ticks() == ticks_of(ttl),
    {
        let cap = if max_capacity >= 1 { max_capacity } else { 1 };
        let c = RobotsCache {
            user_agent: String::from_str(user_agent),
            store: TtlLru::new(cap),
            in_flight: Vec::new(),
            max_capacity: cap,
            ttl,
            ttl_ticks: duration_nanos(&ttl),
            clock: Clock::new(),
        };
        assert(c.fetching() =~= Seq::<Seq<char>>::empty());
        c
    }

    /// The configured maximum number of hosts.
    pub fn max_capacity(&self) -> (n: usize)
        ensures
            n == self.capacity(),
    {
        self.max_capacity
    }

    /// The configured entry lifetime.
    pub fn ttl(&self) -> (d: std::time::Duration)
        ensures
            d == self.entry_ttl(),
    {
        self.ttl
    }

    /// Records `rules` for `host`, written at tick `now`.
    fn put_at(&mut self, host: &str, rules: Option<ParsedRobots>, now: u64)
        requires
            old(self).wf(),
        ensures
            final(self).wf(),
            final(self).capacity() == old(self).capacity(),
            final(self).entry_ttl() == old(self).entry_ttl(),
            final(self).ttl_ticks() == old(self).ttl_ticks(),
            final(self).agent() == old(self).agent(),
            final(self).fetching() == old(self).fetching(),
            final(self).entries() == write_entry(
                old(self).entries(),
                EntryView { key: host@, value: rules, expires_at: expiry(now, old(self).ttl_ticks()) },
                old(self).capacity(),
            ),
    {
        let expires_at = now.saturating_add(self.ttl_ticks);
        self.store.put(String::from_str(host), rules, expires_at);
    }

    /// Records the robots.txt `body` fetched for `host`, written at tick
    /// `now`; a body that does not parse is recorded as unavailable.
    pub fn insert_at(&mut self, host: &str, robots_txt_body: &[u8], now: u64)
        requires
            old(self).wf(),
        ensures
            final(self).wf(),
            final(self).capacity() == old(self).capacity(),
            final(self).entry_ttl() == old(self).entry_ttl(),
            final(self).ttl_ticks() == old(self).ttl_ticks(),
            final(self).agent() == old(self).agent(),
            final(self).fetching() == old(self).fetching(),
            exists|rules: Option<ParsedRobots>|
                (rules is Some <==> robots_parse(old(self).agent(), robots_txt_body@)) && (
                rules matches Some(p) ==> p.agent() == old(self).agent() && p.source()
                    == robots_txt_body@) && final(self).entries() == write_entry(
                    old(self).entries(),
                    EntryView {
                        key: host@,
                        value: rules,
                        expires_at: expiry(now, old(self).ttl_ticks()),
                    },
                    old(self).capacity(),
                ),
    {
        let rules = ParsedRobots::parse(self.user_agent.as_str(), robots_txt_body);
        self.put_at(host, rules, now);
    }

    /// Records the robots.txt `body` fetched for `host`, now.
    pub fn insert(&mut self, host: &str, robots_txt_body: &[u8])
        requires
            old(self).wf(),
        ensures
            final(self).wf(),
            final(self).capacity() == old(self).capacity(),
            final(self).entry_ttl() == old(self).entry_ttl(),
            final(self).ttl_ticks() == old(self).ttl_ticks(),
            final(self).agent() == old(self).agent(),
            final(self).fetching() == old(self).fetching(),
            exists|rules: Option<ParsedRobots>, now: u64|
                (rules is Some <==> robots_parse(old(self).agent(), robots_txt_body@)) && (
                rules matches Some(p) ==> p.agent() == old(self).agent() && p.source()
                    == robots_txt_body@) && final(self).entries() == write_entry(
                    old(self).entries(),
                    EntryView {
                        key: host@,
                        value: rules,
                        expires_at: expiry(now, old(self).ttl_ticks()),
                    },
                    old(self).capacity(),
                ),
    {
        let now = self.clock.now();
        self.insert_at(host, robots_txt_body, now);
    }

    /// Marks `host` as having no usable robots.txt, written at tick `now`.
    pub fn insert_unavailable_at(&mut self, host: &str, now: u64)
        requires
            old(self).wf(),
        ensures
            final(self).wf(),
            final(self).capacity() == old(self).capacity(),
            final(self).entry_ttl() == old(self).entry_ttl(),
            final(self).ttl_ticks() == old(self).ttl_ticks(),
            final(self).agent() == old(self).agent(),
            final(self).fetching() == old(self).fetching(),
            final(self).entries() == write_entry(
                old(self).entries(),
                EntryView { key: host@, value: None, expires_at: expiry(now, old(self).ttl_ticks()) },
                old(self).capacity(),
            ),
    {
        self.put_at(host, None, now);
    }

    /// Marks `host` as having no usable robots.txt, now.
    pub fn insert_unavailable(&mut self, host: &str)
        requires
            old(self).wf(),
        ensures
            final(self).wf(),
            final(self).capacity() == old(self).capacity(),
            final(self).entry_ttl() == old(self).entry_ttl(),
            final(self).ttl_ticks() == old(self).ttl_ticks(),
            final(self).agent() == old(self).agent(),
            final(self).fetching() == old(self).fetching(),
            exists|now: u64|
                final(self).entries() == write_entry(
                    old(self).entries(),
                    EntryView { key: host@, value: None, expires_at: expiry(now, old(self).ttl_ticks()) },
                    old(self).capacity(),
                ),
    {
        let now = self.clock.now();
        self.insert_unavailable_at(host, now);
    }

    /// Whether `url` may be crawled, judged at tick `now`: yes when no live
    /// entry exists for `host`, when its robots.txt is unavailable, or when
    /// its rules allow the URL.
    pub fn is_allowed_at(&self, host: &str, url: &str, now: u64) -> (r: bool)
        requires
            self.wf(),
        ensures
            r == match live_value(self.entries(), host@, now) {
                Some(rules) => rules_allow(rules, url@),
                None => true,
            },
    {
        match self.store.get_live(host, now) {
            None => true,
            Some(rules) => match rules {
                Some(p) => p.allows(url),
                None => true,
            },
        }
    }

    /// Whether `url` may be crawled now (see `is_allowed_at`).
    pub fn is_allowed(&self, host: &str, url: &str) -> (r: bool)
        requires
            self.wf(),
        ensures
            exists|now: u64|
                r == match #[trigger] live_value(self.entries(), host@, now) {
                    Some(rules) => rules_allow(rules, url@),
                    None => true,
                },
    {
        let now = self.clock.now();
        self.is_allowed_at(host, url, now)
    }

    /// Whether a live entry (rules or unavailable) exists for `host` at
    /// tick `now`.
    pub fn has_host_at(&self, host: &str, now: u64) -> (r: bool)
        requires
            self.wf(),
        ensures
            r == live_value(self.entries(), host@, now) is Some,
    {
        self.store.get_live(host, now).is_some()
    }

    /// Whether a live entry exists for `host` now.
    pub fn has_host(&self, host: &str) -> (r: bool)
        requires
            self.wf(),
        ensures
            exists|now: u64| r == #[trigger] live_value(self.entries(), host@, now) is Some,
    {
        let now = self.clock.now();
        self.has_host_at(host, now)
    }

    /// The live rules for `host` at tick `now`, if it has a parsed robots.txt.
    pub fn live_rules_at(&self, host: &str, now: u64) -> (r: Option<&ParsedRobots>)
        requires
            self.wf(),
        ensures
            match r {
                Some(p) => live_value(self.entries(), host@, now) == Some(Some(*p)),
                None => !(live_value(self.entries(), host@, now) matches Some(Some(_))),
            },
    {
        match self.store.get_live(host, now) {
            Some(Some(p)) => Some(p),
            _ => None,
        }
    }

    /// The live rules for `host` now, if it has a parsed robots.txt.
    pub fn live_rules(&self, host: &str) -> (r: Option<&ParsedRobots>)
        requires
            self.wf(),
        ensures
            exists|now: u64|
                match r {
                    Some(p) => #[trigger] live_value(self.entries(), host@, now) == Some(Some(*p)),
                    None => !(live_value(self.entries(), host@, now) matches Some(Some(_))),
                },
    {
        let now = self.clock.now();
        self.live_rules_at(host, now)
    }

    /// Registers an in-flight fetch for `host`: `true` when this caller is
    /// the fetcher (no fetch for it was in flight), `false` otherwise.
    pub fn begin_fetch(&mut self, host: &str) -> (r: bool)
        requires
            old(self).wf(),
        ensures
            final(self).wf(),
            final(self).entries() == old(self).entries(),
            final(self).capacity() == old(self).capacity(),
            final(self).entry_ttl() == old(self).entry_ttl(),
            final(self).ttl_ticks() == old(self).ttl_ticks(),
            final(self).agent() == old(self).agent(),
            r == !old(self).fetching().contains(host@),
            final(self).fetching() == if r {
                old(self).fetching().push(host@)
            } else {
                old(self).fetching()
            },
    {
        if self.is_fetching(host) {
            return false;
        }
        let ghost f0 = self.in_flight@;
        assert forall|j: int| 0 <= j < f0.len() implies f0[j]@ != host@ by {
            assert(self.fetching()[j] == f0[j]@);
        }
        self.in_flight.push(String::from_str(host));
        assert(self.fetching() =~= f0.map_values(|h: String| h@).push(host@));
        true
    }

    /// Whether a fetch for `host` is in flight.
    pub fn is_fetching(&self, host: &str) -> (r: bool)
        ensures
            r == self.fetching().contains(host@),
    {
        let mut i: usize = 0;
        while i < self.in_flight.len()
            invariant
                i <= self.in_flight@.len(),
                forall|j: int| 0 <= j < i ==> self.in_flight@[j]@ != host@,
            decreases self.in_flight@.len() - i,
        {
            if crate::text::str_eq(self.in_flight[i].as_str(), host) {
                assert(self.fetching()[i as int] == host@);
                return true;
            }
            i += 1;
        }
        proof {
            if self.fetching().contains(host@) {
                let k = choose|k: int| 0 <= k < self.fetching().len() && self.fetching()[k] == host@;
                assert(self.in_flight@[k]@ == host@);
            }
        }
        false
    }

    /// Clears the in-flight mark of `host` (nothing happens when it has none).
    pub fn end_fetch(&mut self, host: &str)
        requires
            old(self).wf(),
        ensures
            final(self).wf(),
            final(self).entries() == old(self).entries(),
            final(self).capacity() == old(self).capacity(),
            final(self).entry_ttl() == old(self).entry_ttl(),
            final(self).ttl_ticks() == old(self).ttl_ticks(),
            final(self).agent() == old(self).agent(),
            !final(self).fetching().contains(host@),
            forall|h: Seq<char>| h != host@ ==> (final(self).fetching().contains(h) <==> old(self).fetching().contains(h)),
    {
        let mut i: usize = 0;
        while i < self.in_flight.len()
            invariant
                self.wf(),
                self.entries() == old(self).entries(),
                self.capacity() == old(self).capacity(),
                self.agent() == old(self).agent(),
                self.entry_ttl() == old(self).entry_ttl(),
                self.ttl_ticks() == old(self).ttl_ticks(),
                self.fetching() == old(self).fetching(),
                i <= self.in_flight@.len(),
                forall|j: int| 0 <= j < i ==> self.in_flight@[j]@ != host@,
            decreases self.in_flight@.len() - i,
        {
            if crate::text::str_eq(self.in_flight[i].as_str(), host) {
                let ghost f0 = self.fetching();
                self.in_flight.remove(i);
                proof {
                    assert(self.fetching() =~= f0.remove(i as int));
                    assert forall|h: Seq<char>| h != host@ implies (self.fetching().contains(h) <==> f0.contains(h)) by {
                        if f0.contains(h) {
                            let k = choose|k: int| 0 <= k < f0.len() && f0[k] == h;
                            assert(k != i);
                            if k < i {
                                assert(self.fetching()[k] == h);
                            } else {
                                assert(self.fetching()[k - 1] == h);
                            }
                        }
                    }
                    if self.fetching().contains(host@) {
                        let k = choose|k: int| 0 <= k < self.fetching().len() && self.fetching()[k] == host@;
                        if k < i {
                            assert(f0[k] == host@);
                        } else {
                            assert(f0[k + 1] == host@);
                            assert(f0[i as int] == host@);
                        }
                    }
                }
                return;
            }
            i += 1;
        }
        proof {
            if self.fetching().contains(host@) {
                let k = choose|k: int| 0 <= k < self.fetching().len() && self.fetching()[k] == host@;
                assert(self.in_flight@[k]@ == host@);
            }
        }
    }

    /// The number of entries, including expired ones.
    pub fn len(&self) -> (n: usize)
        requires
            self.wf(),
        ensures
            n == self.entries().len(),
    {
        self.store.len()
    }

    /// Whether the cache holds no entries.
    pub fn is_empty(&self) -> (b: bool)
        requires
            self.wf(),
        ensures
            b == (self.entries().len() == 0),
    {
        self.store.len() == 0
    }
}

/// The robots cache never holds more hosts than its capacity, and holds
/// each host at most once.
pub proof fn law_robots_cache_bounded(c: RobotsCache)
    requires
        c.wf(),
    ensures
        c.entries().len() <= c.capacity(),
        keys_distinct(c.entries()),
{
    c.store.lemma_wf_bounds();
}

} // verus!
