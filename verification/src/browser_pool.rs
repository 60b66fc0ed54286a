//! The bookkeeping of a pool of shared browsers grouped by proxy: which
//! sessions (tabs) are open, when each was last used, and how many tabs
//! each browser holds. The browsers and tabs themselves are driven by the
//! caller; every decision about them is made here.

use vstd::prelude::*;
use vstd::string::*;
use crate::text::str_eq;

verus! {

/// How long an idle session lives, in seconds.
pub const DEFAULT_SESSION_TTL_SECS: u64 = 300;

/// How often expired sessions are reaped, in seconds.
pub const REAPER_INTERVAL_SECS: u64 = 30;

/// One open session: its id, the proxy its browser uses, when it was last
/// used and how long it may stay idle (clock ticks).
#[derive(Debug)]
pub struct PooledTab {
    pub id: String,
    pub proxy: Option<String>,
    pub last_used: u64,
    pub ttl: u64,
}

/// A session as the specifications see it.
pub struct TabView {
    pub id: Seq<char>,
    pub proxy: Option<Seq<char>>,
    pub last_used: u64,
    pub ttl: u64,
}

/// The characters of an optional string.
pub open spec fn opt_view(o: Option<String>) -> Option<Seq<char>> {
    match o {
        Some(s) => Some(s@),
        None => None,
    }
}

impl View for PooledTab {
    type V = TabView;

    open spec fn view(&self) -> TabView {
        TabView { id: self.id@, proxy: opt_view(self.proxy), last_used: self.last_used, ttl: self.ttl }
    }
}

/// A session has been idle longer than its lifetime at `now` (a clock that
/// went backwards counts as no time passed).
pub open spec fn tab_expired(t: TabView, now: u64) -> bool {
    (if now >= t.last_used {
        now - t.last_used
    } else {
        0
    }) > t.ttl
}

/// The browsers of the pool: the proxy each serves and how many tabs it
/// holds.
struct BrowserSlot {
    proxy: Option<String>,
    tab_count: usize,
}

/// The pool's bookkeeping.
pub struct PoolBook {
    tabs: Vec<PooledTab>,
    browsers: Vec<BrowserSlot>,
}

/// The pool as the specifications see it.
pub struct PoolView {
    pub tabs: Seq<TabView>,
    pub browsers: Seq<(Option<Seq<char>>, nat)>,
}

/// The views of some sessions.
pub open spec fn tabs_view(v: Seq<PooledTab>) -> Seq<TabView> {
    v.map_values(|t: PooledTab| t@)
}

impl View for PoolBook {
    type V = PoolView;

    closed spec fn view(&self) -> PoolView {
        PoolView {
            tabs: tabs_view(self.tabs@),
            browsers: self.browsers@.map_values(
                |b: BrowserSlot| (opt_view(b.proxy), b.tab_count as nat),
            ),
        }
    }
}

/// Where session `id` is.
pub open spec fn tab_index(tabs: Seq<TabView>, id: Seq<char>) -> Option<int> {
    if exists|i: int| 0 <= i < tabs.len() && (#[trigger] tabs[i]).id == id {
        Some(choose|i: int| 0 <= i < tabs.len() && (#[trigger] tabs[i]).id == id)
    } else {
        None
    }
}

/// Where the browser for `proxy` is.
pub open spec fn browser_index(bs: Seq<(Option<Seq<char>>, nat)>, proxy: Option<Seq<char>>) -> Option<int> {
    if exists|i: int| 0 <= i < bs.len() && (#[trigger] bs[i]).0 == proxy {
        Some(choose|i: int| 0 <= i < bs.len() && (#[trigger] bs[i]).0 == proxy)
    } else {
        None
    }
}

/// What looking a session up found.
#[derive(Debug)]
pub enum TabLookup {
    /// No such session.
    Missing,
    /// The session had expired; it was removed and is handed back for
    /// cleanup.
    Expired(PooledTab),
    /// The session is live; its idle time starts over.
    Live,
}

fn same_proxy(a: &Option<String>, b: &Option<String>) -> (r: bool)
    ensures
        r == (opt_view(*a) == opt_view(*b)),
{
    match (a, b) {
        (Some(x), Some(y)) => str_eq(x.as_str(), y.as_str()),
        (None, None) => true,
        _ => false,
    }
}

fn copy_proxy(p: &Option<String>) -> (r: Option<String>)
    ensures
        opt_view(r) == opt_view(*p),
{
    match p {
        Some(s) => Some(s.clone()),
        None => None,
    }
}

impl PoolBook {
    /// Session ids are unique, and there is one browser per proxy.
    pub open spec fn wf(&self) -> bool {
        &&& forall|i: int, j: int|
            0 <= i < j < self@.tabs.len() ==> (#[trigger] self@.tabs[i]).id != (#[trigger] self@.tabs[j]).id
        &&& forall|i: int, j: int|
            0 <= i < j < self@.browsers.len() ==> (#[trigger] self@.browsers[i]).0 != (#[trigger] self@.browsers[j]).0
    }

    /// An empty pool.
    pub fn new() -> (r: PoolBook)
        ensures
            r.wf(),
            r@.tabs.len() == 0,
            r@.browsers.len() == 0,
    {
        let r = PoolBook { tabs: Vec::new(), browsers: Vec::new() };
        assert(r@.tabs =~= Seq::<TabView>::empty());
        r
    }

    fn find_tab(&self, id: &str) -> (r: Option<usize>)
        requires
            self.wf(),
        ensures
            match r {
                Some(i) => tab_index(self@.tabs, id@) == Some(i as int) && i < self@.tabs.len(),
                None => tab_index(self@.tabs, id@) is None,
            },
    {
        let mut i: usize = 0;
        while i < self.tabs.len()
            invariant
                i <= self.tabs@.len(),
                self.wf(),
                forall|j: int| 0 <= j < i ==> (#[trigger] self@.tabs[j]).id != id@,
            decreases self.tabs@.len() - i,
        {
            if str_eq(self.tabs[i].id.as_str(), id) {
                assert(self@.tabs[i as int].id == id@);
                proof {
                    let c = choose|c: int| 0 <= c < self@.tabs.len() && (#[trigger] self@.tabs[c]).id == id@;
                    if c != i {
                        if c < i {
                            assert(self@.tabs[c].id != self@.tabs[i as int].id);
                        } else {
                            assert(self@.tabs[i as int].id != self@.tabs[c].id);
                        }
                    }
                }
                return Some(i);
            }
            i += 1;
        }
        None
    }

    fn find_browser(&self, proxy: &Option<String>) -> (r: Option<usize>)
        requires
            self.wf(),
        ensures
            match r {
                Some(i) => browser_index(self@.browsers, opt_view(*proxy)) == Some(i as int) && i
                    < self@.browsers.len(),
                None => browser_index(self@.browsers, opt_view(*proxy)) is None,
            },
    {
        let mut i: usize = 0;
        while i < self.browsers.len()
            invariant
                i <= self.browsers@.len(),
                self.wf(),
                forall|j: int| 0 <= j < i ==> (#[trigger] self@.browsers[j]).0 != opt_view(*proxy),
            decreases self.browsers@.len() - i,
        {
            if same_proxy(&self.browsers[i].proxy, proxy) {
                assert(self@.browsers[i as int].0 == opt_view(*proxy));
                proof {
                    let c = choose|c: int|
                        0 <= c < self@.browsers.len() && (#[trigger] self@.browsers[c]).0 == opt_view(*proxy);
                    if c != i {
                        if c < i {
                            assert(self@.browsers[c].0 != self@.browsers[i as int].0);
                        } else {
                            assert(self@.browsers[i as int].0 != self@.browsers[c].0);
                        }
                    }
                }
                return Some(i);
            }
            i += 1;
        }
        None
    }

    /// The number of tabs of the browser serving `proxy`, if there is one.
    pub fn tab_count(&self, proxy: &Option<String>) -> (r: Option<usize>)
        requires
            self.wf(),
        ensures
            match browser_index(self@.browsers, opt_view(*proxy)) {
                Some(i) => r == Some(self@.browsers[i].1 as usize),
                None => r is None,
            },
    {
        match self.find_browser(proxy) {
            Some(i) => Some(self.browsers[i].tab_count),
            None => None,
        }
    }

    /// Records a newly launched browser for `proxy`, with no tabs.
    pub fn add_browser(&mut self, proxy: Option<String>)
        requires
            old(self).wf(),
            browser_index(old(self)@.browsers, opt_view(proxy)) is None,
        ensures
            final(self).wf(),
            final(self)@.tabs == old(self)@.tabs,
            final(self)@.browsers == old(self)@.browsers.push((opt_view(proxy), 0nat)),
    {
        let ghost old_b = self@.browsers;
        proof {
            assert forall|i: int| 0 <= i < old_b.len() implies (#[trigger] old_b[i]).0 != opt_view(proxy) by {
                if old_b[i].0 == opt_view(proxy) {
                    assert(exists|k: int| 0 <= k < old_b.len() && (#[trigger] old_b[k]).0 == opt_view(proxy));
                }
            }
        }
        self.browsers.push(BrowserSlot { proxy, tab_count: 0 });
        assert(self@.browsers =~= old_b.push((opt_view(proxy), 0nat)));
    }

    /// Records a tab opened in the browser serving `proxy` as session `id`,
    /// used at `now`; a session already called `id` is replaced.
    pub fn open_tab(&mut self, id: String, proxy: Option<String>, now: u64, ttl: u64)
        requires
            old(self).wf(),
            browser_index(old(self)@.browsers, opt_view(proxy)) matches Some(i) && old(self)@.browsers[i].1
                < usize::MAX,
        ensures
            final(self).wf(),
            ({
                let bi = browser_index(old(self)@.browsers, opt_view(proxy)).unwrap();
                final(self)@.browsers == old(self)@.browsers.update(
                    bi,
                    (old(self)@.browsers[bi].0, old(self)@.browsers[bi].1 + 1),
                )
            }),
            ({
                let t = TabView { id: id@, proxy: opt_view(proxy), last_used: now, ttl };
                final(self)@.tabs == match tab_index(old(self)@.tabs, id@) {
                    Some(k) => old(self)@.tabs.update(k, t),
                    None => old(self)@.tabs.push(t),
                }
            }),
    {
        let bi = self.find_browser(&proxy).unwrap();
        let ghost old_tabs = self@.tabs;
        let ghost old_b = self@.browsers;
        let mut slot = self.browsers.remove(bi);
        slot.tab_count = slot.tab_count + 1;
        self.browsers.insert(bi, slot);
        assert(self@.browsers =~= old_b.update(bi as int, (old_b[bi as int].0, old_b[bi as int].1 + 1)));
        let ghost t = TabView { id: id@, proxy: opt_view(proxy), last_used: now, ttl };
        let tab = PooledTab { id, proxy, last_used: now, ttl };
        let k = self.find_tab(tab.id.as_str());
        match k {
            Some(k) => {
                self.tabs.set(k, tab);
                assert(self@.tabs =~= old_tabs.update(k as int, t));
            },
            None => {
                self.tabs.push(tab);
                assert(self@.tabs =~= old_tabs.push(t));
                proof {
                    assert forall|i: int| 0 <= i < old_tabs.len() implies (#[trigger] old_tabs[i]).id != t.id by {
                        if old_tabs[i].id == t.id {
                            assert(exists|c: int| 0 <= c < old_tabs.len() && (#[trigger] old_tabs[c]).id == t.id);
                        }
                    }
                }
            },
        }
        proof {
            assert forall|i: int, j: int|
                0 <= i < j < self@.browsers.len() implies (#[trigger] self@.browsers[i]).0 != (#[trigger] self@.browsers[j]).0 by {
                assert(self@.browsers[i].0 == old_b[i].0);
                assert(self@.browsers[j].0 == old_b[j].0);
            }
        }
    }

    /// Looks session `id` up at `now`: a live session's idle time starts
    /// over; an expired one is removed and handed back.
    pub fn lookup(&mut self, id: &str, now: u64) -> (r: TabLookup)
        requires
            old(self).wf(),
        ensures
            final(self).wf(),
            final(self)@.browsers == old(self)@.browsers,
            match tab_index(old(self)@.tabs, id@) {
                None => r is Missing && final(self)@ == old(self)@,
                Some(k) => if tab_expired(old(self)@.tabs[k], now) {
                    r matches TabLookup::Expired(t) && t@ == old(self)@.tabs[k]
                        && final(self)@.tabs == old(self)@.tabs.remove(k)
                } else {
                    r is Live && final(self)@.tabs == old(self)@.tabs.update(
                        k,
                        TabView { last_used: now, ..old(self)@.tabs[k] },
                    )
                },
            },
    {
        let ghost old_tabs = self@.tabs;
        match self.find_tab(id) {
            None => TabLookup::Missing,
            Some(k) => {
                let last = self.tabs[k].last_used;
                let idle = if now >= last {
                    now - last
                } else {
                    0
                };
                if idle > self.tabs[k].ttl {
                    let t = self.tabs.remove(k);
                    assert(self@.tabs =~= old_tabs.remove(k as int));
                    assert(self@.browsers =~= old(self)@.browsers);
                    proof {
                        assert forall|i: int, j: int|
                            0 <= i < j < self@.tabs.len() implies (#[trigger] self@.tabs[i]).id != (#[trigger] self@.tabs[j]).id by {
                            let oi = if i < k { i } else { i + 1 };
                            let oj = if j < k { j } else { j + 1 };
                            assert(self@.tabs[i] == old_tabs[oi]);
                            assert(self@.tabs[j] == old_tabs[oj]);
                        }
                    }
                    TabLookup::Expired(t)
                } else {
                    let mut t = self.tabs.remove(k);
                    t.last_used = now;
                    self.tabs.insert(k, t);
                    assert(self@.tabs =~= old_tabs.update(k as int, TabView { last_used: now, ..old_tabs[k as int] }));
                    assert(self@.browsers =~= old(self)@.browsers);
                    proof {
                        assert forall|i: int, j: int|
                            0 <= i < j < self@.tabs.len() implies (#[trigger] self@.tabs[i]).id != (#[trigger] self@.tabs[j]).id by {
                            assert(self@.tabs[i].id == old_tabs[i].id);
                            assert(self@.tabs[j].id == old_tabs[j].id);
                        }
                    }
                    TabLookup::Live
                }
            },
        }
    }

    /// Removes session `id`, handing it back for cleanup.
    pub fn remove_tab(&mut self, id: &str) -> (r: Option<PooledTab>)
        requires
            old(self).wf(),
        ensures
            final(self).wf(),
            final(self)@.browsers == old(self)@.browsers,
            match tab_index(old(self)@.tabs, id@) {
                None => r is None && final(self)@.tabs == old(self)@.tabs,
                Some(k) => r matches Some(t) && t@ == old(self)@.tabs[k] && final(self)@.tabs
                    == old(self)@.tabs.remove(k),
            },
    {
        let ghost old_tabs = self@.tabs;
        match self.find_tab(id) {
            None => None,
            Some(k) => {
                let t = self.tabs.remove(k);
                assert(self@.tabs =~= old_tabs.remove(k as int));
                assert(self@.browsers =~= old(self)@.browsers);
                proof {
                    assert forall|i: int, j: int|
                        0 <= i < j < self@.tabs.len() implies (#[trigger] self@.tabs[i]).id != (#[trigger] self@.tabs[j]).id by {
                        let oi = if i < k { i } else { i + 1 };
                        let oj = if j < k { j } else { j + 1 };
                        assert(self@.tabs[i] == old_tabs[oi]);
                        assert(self@.tabs[j] == old_tabs[oj]);
                    }
                }
                Some(t)
            },
        }
    }

    /// The ids of the sessions expired at `now`, in order.
    pub fn expired_ids(&self, now: u64) -> (r: Vec<String>)
        ensures
            r@.map_values(|s: String| s@) == self@.tabs.filter(|t: TabView| tab_expired(t, now)).map_values(
                |t: TabView| t.id,
            ),
    {
        let ghost ts = self@.tabs;
        let mut out: Vec<String> = Vec::new();
        let mut i: usize = 0;
        while i < self.tabs.len()
            invariant
                i <= self.tabs@.len(),
                ts == self@.tabs,
                out@.map_values(|s: String| s@) == ts.take(i as int).filter(|t: TabView| tab_expired(t, now)).map_values(
                    |t: TabView| t.id,
                ),
            decreases self.tabs@.len() - i,
        {
            let ghost before = out@;
            proof {
                assert(ts.take(i + 1).drop_last() =~= ts.take(i as int));
                reveal(Seq::filter);
            }
            let last = self.tabs[i].last_used;
            let idle = if now >= last {
                now - last
            } else {
                0
            };
            if idle > self.tabs[i].ttl {
                out.push(self.tabs[i].id.clone());
                assert(out@.map_values(|s: String| s@) =~= before.map_values(|s: String| s@).push(ts[i as int].id));
            }
            assert(ts.take(i + 1).filter(|t: TabView| tab_expired(t, now)).map_values(|t: TabView| t.id)
                =~= out@.map_values(|s: String| s@));
            i += 1;
        }
        assert(ts.take(ts.len() as int) =~= ts);
        out
    }

    /// A tab of the browser serving `proxy` was closed (its count does not
    /// go below zero).
    pub fn release_tab(&mut self, proxy: &Option<String>)
        requires
            old(self).wf(),
        ensures
            final(self).wf(),
            final(self)@.tabs == old(self)@.tabs,
            final(self)@.browsers == match browser_index(old(self)@.browsers, opt_view(*proxy)) {
                Some(i) => old(self)@.browsers.update(
                    i,
                    (
                        old(self)@.browsers[i].0,
                        if old(self)@.browsers[i].1 > 0 {
                            (old(self)@.browsers[i].1 - 1) as nat
                        } else {
                            0nat
                        },
                    ),
                ),
                None => old(self)@.browsers,
            },
    {
        let ghost old_b = self@.browsers;
        if let Some(i) = self.find_browser(proxy) {
            let mut slot = self.browsers.remove(i);
            slot.tab_count = if slot.tab_count > 0 {
                slot.tab_count - 1
            } else {
                0
            };
            self.browsers.insert(i, slot);
            let ghost c = old_b[i as int].1;
            assert(self@.browsers =~= old_b.update(
                i as int,
                (old_b[i as int].0, if c > 0 { (c - 1) as nat } else { 0nat }),
            ));
            proof {
                assert forall|a: int, b: int|
                    0 <= a < b < self@.browsers.len() implies (#[trigger] self@.browsers[a]).0 != (#[trigger] self@.browsers[b]).0 by {
                    assert(self@.browsers[a].0 == old_b[a].0);
                    assert(self@.browsers[b].0 == old_b[b].0);
                }
            }
        }
    }

    /// Removes the browsers that hold no tab, handing back the proxies they
    /// served so they can be closed.
    pub fn take_empty_browsers(&mut self) -> (r: Vec<Option<String>>)
        requires
            old(self).wf(),
        ensures
            final(self).wf(),
            final(self)@.tabs == old(self)@.tabs,
            final(self)@.browsers == old(self)@.browsers.filter(|b: (Option<Seq<char>>, nat)| b.1 > 0),
            r@.map_values(|p: Option<String>| opt_view(p)) == old(self)@.browsers.filter(
                |b: (Option<Seq<char>>, nat)| b.1 == 0,
            ).map_values(|b: (Option<Seq<char>>, nat)| b.0),
    {
        let ghost bs = self@.browsers;
        let mut rest: Vec<BrowserSlot> = Vec::new();
        std::mem::swap(&mut rest, &mut self.browsers);
        let ghost orig = rest@;
        let mut stack: Vec<BrowserSlot> = Vec::new();
        while rest.len() > 0
            invariant
                rest@ == orig.take(rest@.len() as int),
                rest@.len() <= orig.len(),
                stack@.len() == orig.len() - rest@.len(),
                forall|j: int| 0 <= j < stack@.len() ==> #[trigger] stack@[j] == orig[orig.len() - 1 - j],
            decreases rest@.len(),
        {
            let x = rest.pop().unwrap();
            stack.push(x);
        }
        let mut kept: Vec<BrowserSlot> = Vec::new();
        let mut empty: Vec<Option<String>> = Vec::new();
        let ghost mut done: int = 0;
        while stack.len() > 0
            invariant
                stack@.len() + done == orig.len(),
                0 <= done <= orig.len(),
                bs == orig.map_values(|b: BrowserSlot| (opt_view(b.proxy), b.tab_count as nat)),
                forall|j: int| 0 <= j < stack@.len() ==> #[trigger] stack@[j] == orig[orig.len() - 1 - j],
                kept@.map_values(|b: BrowserSlot| (opt_view(b.proxy), b.tab_count as nat)) == bs.take(done).filter(
                    |b: (Option<Seq<char>>, nat)| b.1 > 0,
                ),
                empty@.map_values(|p: Option<String>| opt_view(p)) == bs.take(done).filter(
                    |b: (Option<Seq<char>>, nat)| b.1 == 0,
                ).map_values(|b: (Option<Seq<char>>, nat)| b.0),
                forall|i: int, j: int| 0 <= i < j < bs.len() ==> (#[trigger] bs[i]).0 != (#[trigger] bs[j]).0,
                forall|a: int, b: int|
                    0 <= a < b < kept@.len() ==> opt_view((#[trigger] kept@[a]).proxy) != opt_view((#[trigger] kept@[b]).proxy),
                forall|a: int|
                    0 <= a < kept@.len() ==> exists|j: int| 0 <= j < done && #[trigger] opt_view(kept@[a].proxy) == bs[j].0,
            decreases stack@.len(),
        {
            let slot = stack.pop().unwrap();
            proof {
                assert(bs.take(done + 1).drop_last() =~= bs.take(done));
                reveal(Seq::filter);
            }
            let ghost kv = kept@;
            let ghost ev = empty@;
            if slot.tab_count > 0 {
                proof {
                    assert(opt_view(slot.proxy) == bs[done].0);
                    assert forall|a: int| 0 <= a < kv.len() implies opt_view((#[trigger] kv[a]).proxy) != bs[done].0 by {
                        let j = choose|j: int| 0 <= j < done && #[trigger] opt_view(kv[a].proxy) == bs[j].0;
                        assert(bs[j].0 != bs[done].0);
                    }
                }
                kept.push(slot);
                assert(kept@.map_values(|b: BrowserSlot| (opt_view(b.proxy), b.tab_count as nat)) =~= kv.map_values(
                    |b: BrowserSlot| (opt_view(b.proxy), b.tab_count as nat),
                ).push(bs[done]));
            } else {
                empty.push(slot.proxy);
                assert(empty@.map_values(|p: Option<String>| opt_view(p)) =~= ev.map_values(
                    |p: Option<String>| opt_view(p),
                ).push(bs[done].0));
            }
            proof {
                done = done + 1;
            }
        }
        assert(bs.take(done) =~= bs);
        self.browsers = kept;
        proof {
            assert forall|a: int, b: int|
                0 <= a < b < self@.browsers.len() implies (#[trigger] self@.browsers[a]).0 != (#[trigger] self@.browsers[b]).0 by {
                assert(self@.browsers[a].0 == opt_view(self.browsers@[a].proxy));
                assert(self@.browsers[b].0 == opt_view(self.browsers@[b].proxy));
            }
        }
        empty
    }

    /// The number of open sessions.
    pub fn len(&self) -> (n: usize)
        ensures
            n == self@.tabs.len(),
    {
        self.tabs.len()
    }
}

} // verus!
