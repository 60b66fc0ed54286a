//! Per-path URL budgets for crawl scope control.
//!
//! A budget limits how many URLs may be crawled under each path prefix. The
//! key `"*"` is a global budget checked before any path-specific one; other
//! keys are matched by longest (byte) prefix against the URL path.
//!
//! The consumed-count table is bounded by `max_capacity`: it is kept in
//! least-recently-used order, every touch moves a key to the most recent end,
//! and a new key arriving at a full table evicts the least recently used one.

use vstd::prelude::*;
use crate::text::{is_prefix, lemma_utf8_injective, str_eq, str_starts_with, utf8};

verus! {

/// Default capacity of the counts table.
pub const DEFAULT_BUDGET_CAPACITY: usize = 100_000;

/// A table of `(key, number)` pairs as the specifications see it.
pub type Table = Seq<(Seq<char>, usize)>;

/// The key of the global budget, `"*"`.
pub open spec fn global_key() -> Seq<char> {
    seq!['*']
}

/// The characters of each key of a table of strings.
pub open spec fn table_view(v: Seq<(String, usize)>) -> Table {
    v.map_values(|e: (String, usize)| (e.0@, e.1))
}

/// No key appears twice.
pub open spec fn keys_distinct(t: Table) -> bool {
    forall|i: int, j: int| 0 <= i < t.len() && 0 <= j < t.len() && i != j ==> t[i].0 != t[j].0
}

/// `k` is a key of `t`.
pub open spec fn has_key(t: Table, k: Seq<char>) -> bool {
    exists|i: int| 0 <= i < t.len() && t[i].0 == k
}

/// The position of key `k` in `t` (meaningful when `has_key(t, k)`).
pub open spec fn key_index(t: Table, k: Seq<char>) -> int {
    choose|i: int| 0 <= i < t.len() && t[i].0 == k
}

/// The number stored under `k`, if any.
pub open spec fn lookup(t: Table, k: Seq<char>) -> Option<usize> {
    if has_key(t, k) {
        Some(t[key_index(t, k)].1)
    } else {
        None
    }
}

/// The consumed count under `k` (zero when untracked).
pub open spec fn count_of(t: Table, k: Seq<char>) -> nat {
    match lookup(t, k) {
        Some(c) => c as nat,
        None => 0,
    }
}

/// Mark `k` most recently used: an existing key moves to the end keeping its
/// count; a new key is appended with count zero, first evicting the least
/// recently used key when the table already holds `cap` keys.
#[verifier::opaque]
pub open spec fn touch(t: Table, k: Seq<char>, cap: nat) -> Table {
    if has_key(t, k) {
        let i = key_index(t, k);
        t.remove(i).push((k, t[i].1))
    } else if t.len() >= cap {
        t.drop_first().push((k, 0usize))
    } else {
        t.push((k, 0usize))
    }
}

/// Touch `k`, then add one to its count.
#[verifier::opaque]
pub open spec fn touch_add(t: Table, k: Seq<char>, cap: nat) -> Table {
    let u = touch(t, k, cap);
    u.update(u.len() - 1, (k, (u.last().1 + 1) as usize))
}

/// Entry `i` of `limits` is a non-global key that is a byte prefix of `path`.
pub open spec fn prefix_candidate(limits: Table, path: Seq<char>, i: int) -> bool {
    &&& 0 <= i < limits.len()
    &&& limits[i].0 != global_key()
    &&& is_prefix(utf8(limits[i].0), utf8(path))
}

/// Entry `i` is the longest (in bytes) non-global key that prefixes `path`.
pub open spec fn is_longest_prefix(limits: Table, path: Seq<char>, i: int) -> bool {
    &&& prefix_candidate(limits, path, i)
    &&& forall|j: int| #[trigger] prefix_candidate(limits, path, j)
        ==> utf8(limits[j].0).len() <= utf8(limits[i].0).len()
}

/// The limit entry whose key is the longest prefix of `path`, if any.
pub open spec fn longest_prefix(limits: Table, path: Seq<char>) -> Option<(Seq<char>, usize)> {
    if exists|i: int| is_longest_prefix(limits, path, i) {
        Some(limits[choose|i: int| is_longest_prefix(limits, path, i)])
    } else {
        None
    }
}

/// The outcome of `try_consume`: whether the request was admitted, and the
/// counts table afterwards.
pub open spec fn consume(limits: Table, counts: Table, cap: nat, path: Seq<char>) -> (bool, Table) {
    let g = lookup(limits, global_key());
    let c1 = if g is Some { touch(counts, global_key(), cap) } else { counts };
    if g matches Some(gl) && count_of(c1, global_key()) >= gl {
        (false, c1)
    } else {
        let p = longest_prefix(limits, path);
        let c2 = match p {
            Some(e) => touch(c1, e.0, cap),
            None => c1,
        };
        if p matches Some(e) && count_of(c2, e.0) >= e.1 {
            (false, c2)
        } else {
            let c3 = if g is Some { touch_add(c2, global_key(), cap) } else { c2 };
            let c4 = match p {
                Some(e) => touch_add(c3, e.0, cap),
                None => c3,
            };
            (true, c4)
        }
    }
}

/// What a [`Budget`] holds, as the specifications see it.
pub struct BudgetView {
    /// Path-prefix limits (`"*"` is the global limit).
    pub limits: Table,
    /// Consumed counts, least recently used first.
    pub counts: Table,
    /// Bound on the number of tracked counters.
    pub max_capacity: nat,
}

/// Per-path budget tracker.
pub struct Budget {
    limits: Vec<(String, usize)>,
    counts: Vec<(String, usize)>,
    max_capacity: usize,
}

impl View for Budget {
    type V = BudgetView;

    closed spec fn view(&self) -> BudgetView {
        BudgetView {
            limits: table_view(self.limits@),
            counts: table_view(self.counts@),
            max_capacity: self.max_capacity as nat,
        }
    }
}

/// Two equally long byte prefixes of one sequence are equal.
proof fn lemma_prefixes_same_len(a: Seq<u8>, b: Seq<u8>, s: Seq<u8>)
    requires
        is_prefix(a, s),
        is_prefix(b, s),
        a.len() == b.len(),
    ensures
        a == b,
{
}

/// With distinct keys there is at most one longest prefix.
proof fn lemma_longest_unique(limits: Table, path: Seq<char>, i: int, j: int)
    requires
        keys_distinct(limits),
        is_longest_prefix(limits, path, i),
        is_longest_prefix(limits, path, j),
    ensures
        i == j,
{
    assert(prefix_candidate(limits, path, j));
    assert(prefix_candidate(limits, path, i));
    lemma_prefixes_same_len(utf8(limits[i].0), utf8(limits[j].0), utf8(path));
    lemma_utf8_injective(limits[i].0, limits[j].0);
}

/// With distinct keys, a position holding `k` is the key's index.
proof fn lemma_key_index(t: Table, k: Seq<char>, i: int)
    requires
        keys_distinct(t),
        0 <= i < t.len(),
        t[i].0 == k,
    ensures
        has_key(t, k),
        key_index(t, k) == i,
        lookup(t, k) == Some(t[i].1),
{
    let j = key_index(t, k);
    assert(0 <= j < t.len() && t[j].0 == k);
}

/// `touch` keeps keys distinct, bounds the table by `cap`, and leaves `k` last.
proof fn lemma_touch(t: Table, k: Seq<char>, cap: nat)
    requires
        keys_distinct(t),
        t.len() <= cap,
        cap >= 1,
    ensures
        keys_distinct(touch(t, k, cap)),
        touch(t, k, cap).len() <= cap,
        touch(t, k, cap).len() >= 1,
        touch(t, k, cap).last().0 == k,
        touch(t, k, cap).last().1 == count_of(t, k),
        count_of(touch(t, k, cap), k) == count_of(t, k),
{
    reveal(touch);
    let u = touch(t, k, cap);
    if has_key(t, k) {
        let i = key_index(t, k);
        assert forall|a: int, b: int| 0 <= a < u.len() && 0 <= b < u.len() && a != b implies u[a].0
            != u[b].0 by {
            let ia = if a == u.len() - 1 { i } else if a < i { a } else { a + 1 };
            let ib = if b == u.len() - 1 { i } else if b < i { b } else { b + 1 };
            assert(u[a].0 == t[ia].0);
            assert(u[b].0 == t[ib].0);
        }
    } else {
        assert forall|a: int, b: int| 0 <= a < u.len() && 0 <= b < u.len() && a != b implies u[a].0
            != u[b].0 by {
            if a != u.len() - 1 && b != u.len() - 1 {
                if t.len() >= cap {
                    assert(u[a].0 == t[a + 1].0);
                    assert(u[b].0 == t[b + 1].0);
                } else {
                    assert(u[a].0 == t[a].0);
                    assert(u[b].0 == t[b].0);
                }
            } else if a != u.len() - 1 {
                if t.len() >= cap {
                    assert(u[a].0 == t[a + 1].0);
                } else {
                    assert(u[a].0 == t[a].0);
                }
            } else if b != u.len() - 1 {
                if t.len() >= cap {
                    assert(u[b].0 == t[b + 1].0);
                } else {
                    assert(u[b].0 == t[b].0);
                }
            }
        }
    }
    lemma_key_index(u, k, u.len() - 1);
}

/// `touch_add` keeps keys distinct and bounds the table by `cap`.
proof fn lemma_touch_add(t: Table, k: Seq<char>, cap: nat)
    requires
        keys_distinct(t),
        t.len() <= cap,
        cap >= 1,
        count_of(t, k) < usize::MAX,
    ensures
        keys_distinct(touch_add(t, k, cap)),
        touch_add(t, k, cap).len() <= cap,
        count_of(touch_add(t, k, cap), k) == count_of(t, k) + 1,
{
    reveal(touch_add);
    lemma_touch(t, k, cap);
    let u = touch(t, k, cap);
    let w = touch_add(t, k, cap);
    assert forall|a: int, b: int| 0 <= a < w.len() && 0 <= b < w.len() && a != b implies w[a].0
        != w[b].0 by {
        assert(w[a].0 == u[a].0);
        assert(w[b].0 == u[b].0);
    }
    lemma_key_index(w, k, w.len() - 1);
}

/// Touching one key never raises the count of another.
proof fn lemma_touch_other(t: Table, k: Seq<char>, cap: nat, k2: Seq<char>)
    requires
        keys_distinct(t),
        t.len() <= cap,
        cap >= 1,
        k2 != k,
    ensures
        count_of(touch(t, k, cap), k2) <= count_of(t, k2),
{
    reveal(touch);
    lemma_touch(t, k, cap);
    let u = touch(t, k, cap);
    if has_key(u, k2) {
        let a = key_index(u, k2);
        assert(a != u.len() - 1);
        if has_key(t, k) {
            let i = key_index(t, k);
            let ia = if a < i { a } else { a + 1 };
            assert(u[a] == t[ia]);
            lemma_key_index(t, k2, ia);
        } else if t.len() >= cap {
            assert(u[a] == t[a + 1]);
            lemma_key_index(t, k2, a + 1);
        } else {
            assert(u[a] == t[a]);
            lemma_key_index(t, k2, a);
        }
    }
}

/// Touching and counting one key never raises the count of another.
proof fn lemma_touch_add_other(t: Table, k: Seq<char>, cap: nat, k2: Seq<char>)
    requires
        keys_distinct(t),
        t.len() <= cap,
        cap >= 1,
        k2 != k,
        count_of(t, k) < usize::MAX,
    ensures
        count_of(touch_add(t, k, cap), k2) <= count_of(t, k2),
{
    reveal(touch_add);
    lemma_touch(t, k, cap);
    lemma_touch_add(t, k, cap);
    lemma_touch_other(t, k, cap, k2);
    let u = touch(t, k, cap);
    let w = touch_add(t, k, cap);
    if has_key(w, k2) {
        let a = key_index(w, k2);
        assert(a != w.len() - 1);
        assert(w[a] == u[a]);
        lemma_key_index(u, k2, a);
    }
}

/// The table view commutes with removing one entry and appending another.
proof fn lemma_view_remove_push(v: Seq<(String, usize)>, i: int, e: (String, usize))
    requires
        0 <= i < v.len(),
    ensures
        table_view(v.remove(i).push(e)) =~= table_view(v).remove(i).push((e.0@, e.1)),
{
}

/// The table view commutes with appending an entry.
proof fn lemma_view_push(v: Seq<(String, usize)>, e: (String, usize))
    ensures
        table_view(v.push(e)) =~= table_view(v).push((e.0@, e.1)),
{
}


/// The limits a list of `(key, limit)` pairs sets when a later pair overrides
/// an earlier one under the same key (as a map built from the pairs keeps
/// it): each key once, in the order of its first pair, with the limit of its
/// last.
pub open spec fn merged_limits(t: Table) -> Table
    decreases t.len(),
{
    if t.len() == 0 {
        Seq::empty()
    } else {
        let m = merged_limits(t.drop_last());
        let e = t.last();
        if has_key(m, e.0) {
            m.update(key_index(m, e.0), e)
        } else {
            m.push(e)
        }
    }
}

/// Merged limits hold each key once.
pub proof fn lemma_merged_limits_distinct(t: Table)
    ensures
        keys_distinct(merged_limits(t)),
    decreases t.len(),
{
    if t.len() > 0 {
        let m = merged_limits(t.drop_last());
        lemma_merged_limits_distinct(t.drop_last());
        let e = t.last();
        if has_key(m, e.0) {
            let i = key_index(m, e.0);
            assert(0 <= i < m.len() && m[i].0 == e.0);
            let r = m.update(i, e);
            assert forall|a: int, b: int| 0 <= a < r.len() && 0 <= b < r.len() && a != b implies r[a].0
                != r[b].0 by {
                assert(r[a].0 == m[a].0);
                assert(r[b].0 == m[b].0);
            }
        } else {
            let r = m.push(e);
            assert forall|a: int, b: int| 0 <= a < r.len() && 0 <= b < r.len() && a != b implies r[a].0
                != r[b].0 by {
                if a == m.len() as int {
                    assert(m[b].0 != e.0);
                } else if b == m.len() as int {
                    assert(m[a].0 != e.0);
                }
            }
        }
    }
}

/// The limits `limits` sets with a later pair overriding an earlier one
/// under the same key (see `merged_limits`); the keys of the result are
/// distinct, as a budget needs.
pub fn distinct_limits(limits: &Vec<(String, usize)>) -> (r: Vec<(String, usize)>)
    ensures
        table_view(r@) == merged_limits(table_view(limits@)),
        keys_distinct(table_view(r@)),
{
    let ghost t = table_view(limits@);
    let mut out: Vec<(String, usize)> = Vec::new();
    let mut i: usize = 0;
    assert(t.take(0) =~= Seq::<(Seq<char>, usize)>::empty());
    assert(table_view(out@) =~= Seq::<(Seq<char>, usize)>::empty());
    while i < limits.len()
        invariant
            i <= limits@.len(),
            t == table_view(limits@),
            table_view(out@) == merged_limits(t.take(i as int)),
        decreases limits@.len() - i,
    {
        proof {
            lemma_merged_limits_distinct(t.take(i as int));
        }
        let ghost m = table_view(out@);
        let key = &limits[i].0;
        let value = limits[i].1;
        assert(t.take(i + 1).drop_last() =~= t.take(i as int));
        assert(t.take(i + 1).last() == (key@, value));
        let mut j: usize = 0;
        let mut found = false;
        while j < out.len()
            invariant
                j <= out@.len(),
                m == table_view(out@),
                forall|a: int| 0 <= a < j ==> out@[a].0@ != key@,
                found ==> j < out@.len() && out@[j as int].0@ == key@,
            ensures
                j <= out@.len(),
                forall|a: int| 0 <= a < j ==> out@[a].0@ != key@,
                found ==> j < out@.len() && out@[j as int].0@ == key@,
                !found ==> j == out@.len(),
            decreases out@.len() - j,
        {
            if str_eq(out[j].0.as_str(), key.as_str()) {
                found = true;
                break;
            }
            j += 1;
        }
        if found {
            proof {
                assert(m[j as int].0 == key@);
                lemma_key_index(m, key@, j as int);
            }
            let existing = out[j].0.clone();
            out.set(j, (existing, value));
            assert(table_view(out@) =~= m.update(j as int, (key@, value)));
        } else {
            proof {
                assert forall|a: int| 0 <= a < m.len() implies m[a].0 != key@ by {
                    assert(m[a].0 == out@[a].0@);
                }
            }
            out.push((key.clone(), value));
            assert(table_view(out@) =~= m.push((key@, value)));
        }
        i += 1;
    }
    assert(t.take(t.len() as int) =~= t);
    proof {
        lemma_merged_limits_distinct(t);
    }
    out
}

/// A request that no limit covers (no global budget and no matching prefix)
/// is always admitted and leaves the counters untouched.
pub proof fn law_uncovered_path_admitted(limits: Table, counts: Table, cap: nat, path: Seq<char>)
    requires
        lookup(limits, global_key()) is None,
        longest_prefix(limits, path) is None,
    ensures
        consume(limits, counts, cap, path) == (true, counts),
{
}

/// An admitted request leaves every applicable counter at or below its limit;
/// a refused request is refused because an applicable counter has reached
/// its limit.
pub proof fn law_admission_respects_limits(limits: Table, counts: Table, cap: nat, path: Seq<char>)
    requires
        keys_distinct(limits),
        keys_distinct(counts),
        counts.len() <= cap,
        cap >= 1,
    ensures
        ({
            let (admitted, after) = consume(limits, counts, cap, path);
            let g = lookup(limits, global_key());
            let p = longest_prefix(limits, path);
            &&& admitted ==> (g matches Some(gl) ==> count_of(after, global_key()) <= gl)
            &&& admitted ==> (p matches Some(e) ==> count_of(after, e.0) <= e.1)
            &&& !admitted ==> (g matches Some(gl) && count_of(after, global_key()) >= gl) || (
            p matches Some(e) && count_of(after, e.0) >= e.1)
        }),
{
    let g = lookup(limits, global_key());
    let p = longest_prefix(limits, path);
    lemma_touch(counts, global_key(), cap);
    let c1 = if g is Some { touch(counts, global_key(), cap) } else { counts };
    if p is Some {
        let b = choose|b: int| is_longest_prefix(limits, path, b);
        let e = p->0;
        assert(e.0 != global_key());
        lemma_touch(c1, e.0, cap);
        lemma_touch_other(c1, e.0, cap, global_key());
        let c2 = touch(c1, e.0, cap);
        if g is Some {
            lemma_touch(c2, global_key(), cap);
            if count_of(c2, global_key()) < usize::MAX {
                lemma_touch_add(c2, global_key(), cap);
                lemma_touch_add_other(c2, global_key(), cap, e.0);
                let c3 = touch_add(c2, global_key(), cap);
                if count_of(c3, e.0) < usize::MAX {
                    lemma_touch_add(c3, e.0, cap);
                    lemma_touch_add_other(c3, e.0, cap, global_key());
                }
            }
        } else {
            if count_of(c2, e.0) < usize::MAX {
                lemma_touch_add(c2, e.0, cap);
            }
        }
    } else if g is Some {
        if count_of(c1, global_key()) < usize::MAX {
            lemma_touch_add(c1, global_key(), cap);
        }
    }
}

/// From an empty counts table (a fresh or reset budget) a request is
/// admitted exactly when every applicable limit is positive.
pub proof fn law_fresh_budget_admits(limits: Table, cap: nat, path: Seq<char>)
    requires
        keys_distinct(limits),
        cap >= 1,
    ensures
        consume(limits, Seq::empty(), cap, path).0 == ((lookup(limits, global_key()) matches Some(
            gl,
        ) ==> gl > 0) && (longest_prefix(limits, path) matches Some(e) ==> e.1 > 0)),
{
    let empty: Table = Seq::empty();
    let g = lookup(limits, global_key());
    let p = longest_prefix(limits, path);
    assert(count_of(empty, global_key()) == 0);
    lemma_touch(empty, global_key(), cap);
    let c1 = if g is Some { touch(empty, global_key(), cap) } else { empty };
    if p is Some {
        let b = choose|b: int| is_longest_prefix(limits, path, b);
        let e = p->0;
        assert(e.0 != global_key());
        if g is Some {
            lemma_touch_other(empty, global_key(), cap, e.0);
        }
        assert(count_of(c1, e.0) == 0);
        lemma_touch(c1, e.0, cap);
    }
}

impl Budget {
    /// The budget's internal invariant.
    pub open spec fn wf(&self) -> bool {
        &&& keys_distinct(self@.limits)
        &&& keys_distinct(self@.counts)
        &&& self@.counts.len() <= self@.max_capacity
        &&& self@.max_capacity >= 1
    }

    /// Create a budget with the given path-prefix limits and the default
    /// capacity. Use `"*"` as the key for a global (total) budget.
    pub fn new(limits: Vec<(String, usize)>) -> (b: Self)
        requires
            keys_distinct(table_view(limits@)),
        ensures
            b.wf(),
            b@.limits == table_view(limits@),
            b@.counts.len() == 0,
            b@.max_capacity == DEFAULT_BUDGET_CAPACITY,
    {
        Self::with_capacity(limits, DEFAULT_BUDGET_CAPACITY)
    }

    /// Create a budget with an explicit cap (at least one) on the number of
    /// tracked counters.
    pub fn with_capacity(limits: Vec<(String, usize)>, max_capacity: usize) -> (b: Self)
        requires
            keys_distinct(table_view(limits@)),
        ensures
            b.wf(),
            b@.limits == table_view(limits@),
            b@.counts.len() == 0,
            b@.max_capacity == if max_capacity >= 1 { max_capacity as nat } else { 1 },
    {
        Budget {
            limits,
            counts: Vec::new(),
            max_capacity: if max_capacity >= 1 { max_capacity } else { 1 },
        }
    }

    /// Position of the limit stored under `key`, if any.
    fn limit_index(&self, key: &str) -> (r: Option<usize>)
        requires
            self.wf(),
        ensures
            r matches Some(i) ==> i < self@.limits.len() && self@.limits[i as int].0 == key@
                && lookup(self@.limits, key@) == Some(self@.limits[i as int].1),
            r is None ==> lookup(self@.limits, key@) is None,
    {
        let mut i: usize = 0;
        while i < self.limits.len()
            invariant
                self.wf(),
                i <= self.limits@.len(),
                forall|j: int| 0 <= j < i ==> self@.limits[j].0 != key@,
            decreases self.limits@.len() - i,
        {
            if str_eq(self.limits[i].0.as_str(), key) {
                proof {
                    lemma_key_index(self@.limits, key@, i as int);
                }
                return Some(i);
            }
            i += 1;
        }
        None
    }

    /// Position of the limit whose key is the longest prefix of `path`.
    fn longest_prefix_index(&self, path: &str) -> (r: Option<usize>)
        requires
            self.wf(),
        ensures
            r matches Some(i) ==> i < self@.limits.len() && longest_prefix(self@.limits, path@)
                == Some(self@.limits[i as int]),
            r is None ==> longest_prefix(self@.limits, path@) is None,
    {
        let ghost lim = self@.limits;
        let mut best: Option<usize> = None;
        let mut best_len: usize = 0;
        let mut i: usize = 0;
        while i < self.limits.len()
            invariant
                self.wf(),
                lim == self@.limits,
                i <= lim.len(),
                best matches Some(b) ==> b < i && prefix_candidate(lim, path@, b as int) && best_len
                    == utf8(lim[b as int].0).len() && forall|j: int|
                    0 <= j < i && #[trigger] prefix_candidate(lim, path@, j) ==> utf8(
                        lim[j].0,
                    ).len() <= best_len,
                best is None ==> forall|j: int| 0 <= j < i ==> !#[trigger] prefix_candidate(lim, path@, j),
            decreases lim.len() - i,
        {
            let key = self.limits[i].0.as_str();
            proof {
                reveal_strlit("*");
            }
            let is_global = str_eq(key, "*");
            assert("*"@ =~= global_key());
            let is_pre = str_starts_with(path, key);
            assert(key@ == lim[i as int].0);
            assert((!is_global && is_pre) == prefix_candidate(lim, path@, i as int));
            if !is_global && is_pre {
                let klen = key.as_bytes().len();
                assert(klen == utf8(lim[i as int].0).len());
                match best {
                    Some(_) => {
                        if klen > best_len {
                            best = Some(i);
                            best_len = klen;
                        }
                    },
                    None => {
                        best = Some(i);
                        best_len = klen;
                    },
                }
            }
            i += 1;
        }
        proof {
            match best {
                Some(b) => {
                    assert(is_longest_prefix(lim, path@, b as int));
                    let c = choose|c: int| is_longest_prefix(lim, path@, c);
                    lemma_longest_unique(lim, path@, b as int, c);
                },
                None => {
                    assert(!exists|c: int| is_longest_prefix(lim, path@, c));
                },
            }
        }
        best
    }

    /// Mark `key` most recently used in the counts table and return its count.
    fn touch(&mut self, key: &String) -> (count: usize)
        requires
            old(self).wf(),
        ensures
            final(self).wf(),
            final(self)@.limits == old(self)@.limits,
            final(self)@.max_capacity == old(self)@.max_capacity,
            final(self)@.counts == touch(old(self)@.counts, key@, old(self)@.max_capacity),
            count == count_of(old(self)@.counts, key@),
    {
        proof {
            lemma_touch(self@.counts, key@, self@.max_capacity);
        }
        let ghost t = self@.counts;
        let mut i: usize = 0;
        while i < self.counts.len()
            invariant
                self.wf(),
                self@ == old(self)@,
                t == self@.counts,
                i <= t.len(),
                forall|j: int| 0 <= j < i ==> t[j].0 != key@,
            decreases t.len() - i,
        {
            if str_eq(self.counts[i].0.as_str(), key.as_str()) {
                proof {
                    lemma_key_index(t, key@, i as int);
                }
                let ghost v = self.counts@;
                let e = self.counts.remove(i);
                let c = e.1;
                self.counts.push(e);
                proof {
                    lemma_view_remove_push(v, i as int, e);
                }
                assert(self@.counts =~= touch(t, key@, self@.max_capacity)) by {
                    reveal(touch);
                }
                return c;
            }
            i += 1;
        }
        assert(!has_key(t, key@));
        if self.counts.len() >= self.max_capacity {
            let ghost v = self.counts@;
            self.counts.remove(0);
            assert(table_view(self.counts@) =~= table_view(v).drop_first());
        }
        let ghost v2 = self.counts@;
        let k2 = key.clone();
        let ghost e = (k2, 0usize);
        self.counts.push((k2, 0));
        proof {
            lemma_view_push(v2, e);
        }
        assert(self@.counts =~= touch(t, key@, self@.max_capacity)) by {
            reveal(touch);
        }
        0
    }

    /// Add one to the count of the most recently used key.
    fn bump_last(&mut self, Ghost(key): Ghost<Seq<char>>)
        requires
            old(self).wf(),
            old(self)@.counts.len() >= 1,
            old(self)@.counts.last().0 == key,
            old(self)@.counts.last().1 < usize::MAX,
        ensures
            final(self)@.limits == old(self)@.limits,
            final(self)@.max_capacity == old(self)@.max_capacity,
            final(self)@.counts == old(self)@.counts.update(
                old(self)@.counts.len() - 1,
                (key, (old(self)@.counts.last().1 + 1) as usize),
            ),
    {
        let (k, c) = self.counts.pop().unwrap();
        self.counts.push((k, c + 1));
        assert(self@.counts =~= old(self)@.counts.update(
            old(self)@.counts.len() - 1,
            (key, (old(self)@.counts.last().1 + 1) as usize),
        ));
    }

    /// Try to consume one unit of budget for a URL path.
    ///
    /// Checks the global `"*"` budget first, then the longest matching path
    /// prefix. Returns `true` (and counts the request against every
    /// applicable budget) when the request is within budget, `false` when an
    /// applicable limit is already reached. A path that no limit covers is
    /// always admitted.
    pub fn try_consume(&mut self, path: &str) -> (admitted: bool)
        requires
            old(self).wf(),
        ensures
            final(self).wf(),
            final(self)@.limits == old(self)@.limits,
            final(self)@.max_capacity == old(self)@.max_capacity,
            (admitted, final(self)@.counts) == consume(
                old(self)@.limits,
                old(self)@.counts,
                old(self)@.max_capacity,
                path@,
            ),
    {
        let ghost lim = self@.limits;
        let ghost cap = self@.max_capacity;
        let ghost c0 = self@.counts;
        proof {
            reveal_strlit("*");
            assert("*"@ =~= global_key());
            lemma_touch(c0, global_key(), cap);
        }
        let g = self.limit_index("*");
        let ghost gs = lookup(lim, global_key());
        let mut global_key_string: Option<String> = None;
        if let Some(gi) = g {
            let key = self.limits[gi].0.clone();
            let count = self.touch(&key);
            if count >= self.limits[gi].1 {
                return false;
            }
            global_key_string = Some(key);
        }
        let ghost c1 = self@.counts;
        assert(c1 == if gs is Some { touch(c0, global_key(), cap) } else { c0 });
        assert(gs matches Some(gl) ==> count_of(c1, global_key()) < gl);
        let p = self.longest_prefix_index(path);
        let ghost ps = longest_prefix(lim, path@);
        let mut prefix_key_string: Option<String> = None;
        if let Some(pi) = p {
            let key = self.limits[pi].0.clone();
            proof {
                let b = choose|b: int| is_longest_prefix(lim, path@, b);
                assert(key@ != global_key());
                lemma_touch(c1, key@, cap);
                lemma_touch_other(c1, key@, cap, global_key());
            }
            let count = self.touch(&key);
            if count >= self.limits[pi].1 {
                return false;
            }
            prefix_key_string = Some(key);
        }
        let ghost c2 = self@.counts;
        assert(c2 == match ps { Some(e) => touch(c1, e.0, cap), None => c1 });
        assert(ps matches Some(e) ==> count_of(c2, e.0) < e.1);
        assert(gs matches Some(gl) ==> count_of(c2, global_key()) < gl);
        if let Some(key) = &global_key_string {
            proof {
                lemma_touch(c2, key@, cap);
                lemma_touch_add(c2, key@, cap);
                if let Some(e) = ps {
                    lemma_touch_add_other(c2, key@, cap, e.0);
                }
            }
            let _ = self.touch(key);
            self.bump_last(Ghost(key@));
            assert(self@.counts =~= touch_add(c2, key@, cap)) by {
                reveal(touch_add);
            }
        }
        let ghost c3 = self@.counts;
        assert(c3 == if gs is Some { touch_add(c2, global_key(), cap) } else { c2 });
        assert(ps matches Some(e) ==> count_of(c3, e.0) < e.1);
        if let Some(key) = &prefix_key_string {
            proof {
                lemma_touch(c3, key@, cap);
                lemma_touch_add(c3, key@, cap);
            }
            let _ = self.touch(key);
            self.bump_last(Ghost(key@));
            assert(self@.counts =~= touch_add(c3, key@, cap)) by {
                reveal(touch_add);
            }
        }
        true
    }

    /// Reset all counters, releasing the counts table.
    pub fn reset(&mut self)
        requires
            old(self).wf(),
        ensures
            final(self).wf(),
            final(self)@.limits == old(self)@.limits,
            final(self)@.max_capacity == old(self)@.max_capacity,
            final(self)@.counts.len() == 0,
    {
        self.counts.clear();
    }

    /// The number of tracked path-prefix counters.
    pub fn len(&self) -> (n: usize)
        ensures
            n == self@.counts.len(),
    {
        self.counts.len()
    }

    /// The configured maximum number of counters.
    pub fn max_capacity(&self) -> (n: usize)
        ensures
            n == self@.max_capacity,
    {
        self.max_capacity
    }
}

} // verus!
