//! A bounded, expiring, least-recently-written keyed store.
//!
//! Entries are kept oldest-written first. Writing a key moves it to the
//! newest end (a refresh does not grow the store); writing a new key into a
//! full store first evicts the oldest entry. Every entry carries the instant
//! (in clock ticks) at which it expires; an entry is live strictly before
//! that instant.

use vstd::prelude::*;
use crate::text::str_eq;

verus! {

/// One stored entry.
pub struct Entry<V> {
    /// The key (a host or domain name).
    pub key: String,
    /// The stored value.
    pub value: V,
    /// The tick at which the entry expires.
    pub expires_at: u64,
}

/// An entry as the specifications see it.
pub struct EntryView<V> {
    pub key: Seq<char>,
    pub value: V,
    pub expires_at: u64,
}

/// The entries of a vector, as the specifications see them.
pub open spec fn entries_view<V>(v: Seq<Entry<V>>) -> Seq<EntryView<V>> {
    v.map_values(|e: Entry<V>| EntryView { key: e.key@, value: e.value, expires_at: e.expires_at })
}

/// No key appears twice.
pub open spec fn keys_distinct<V>(s: Seq<EntryView<V>>) -> bool {
    forall|i: int, j: int| 0 <= i < s.len() && 0 <= j < s.len() && i != j ==> s[i].key != s[j].key
}

/// `k` is stored in `s`.
pub open spec fn has_key<V>(s: Seq<EntryView<V>>, k: Seq<char>) -> bool {
    exists|i: int| 0 <= i < s.len() && s[i].key == k
}

/// The position of `k` in `s` (meaningful when `has_key(s, k)`).
pub open spec fn key_index<V>(s: Seq<EntryView<V>>, k: Seq<char>) -> int {
    choose|i: int| 0 <= i < s.len() && s[i].key == k
}

/// The entry stored under `k`, expired or not.
pub open spec fn entry_of<V>(s: Seq<EntryView<V>>, k: Seq<char>) -> Option<EntryView<V>> {
    if has_key(s, k) {
        Some(s[key_index(s, k)])
    } else {
        None
    }
}

/// The value stored under `k` if its entry is live at tick `now`.
pub open spec fn live_value<V>(s: Seq<EntryView<V>>, k: Seq<char>, now: u64) -> Option<V> {
    match entry_of(s, k) {
        Some(e) => if now < e.expires_at {
            Some(e.value)
        } else {
            None
        },
        None => None,
    }
}

/// Write `k`: an existing entry is removed and the new one appended; a new
/// key at a full store (`cap` entries) first evicts the oldest entry.
pub open spec fn write_entry<V>(s: Seq<EntryView<V>>, e: EntryView<V>, cap: nat) -> Seq<EntryView<V>> {
    if has_key(s, e.key) {
        s.remove(key_index(s, e.key)).push(e)
    } else if s.len() >= cap {
        s.drop_first().push(e)
    } else {
        s.push(e)
    }
}

/// The entries still live at tick `now`, in order.
pub open spec fn live_entries<V>(s: Seq<EntryView<V>>, now: u64) -> Seq<EntryView<V>> {
    s.filter(|e: EntryView<V>| now < e.expires_at)
}

/// With distinct keys, a position holding `k` is the key's index.
pub proof fn lemma_key_index<V>(s: Seq<EntryView<V>>, k: Seq<char>, i: int)
    requires
        keys_distinct(s),
        0 <= i < s.len(),
        s[i].key == k,
    ensures
        has_key(s, k),
        key_index(s, k) == i,
        entry_of(s, k) == Some(s[i]),
{
    let j = key_index(s, k);
    assert(0 <= j < s.len() && s[j].key == k);
}

/// Writing keeps keys distinct and the store within `cap`; the written entry
/// is the newest; every other key keeps its entry unless it was the evicted
/// oldest one.
pub proof fn lemma_write<V>(s: Seq<EntryView<V>>, e: EntryView<V>, cap: nat)
    requires
        keys_distinct(s),
        s.len() <= cap,
        cap >= 1,
    ensures
        keys_distinct(write_entry(s, e, cap)),
        write_entry(s, e, cap).len() <= cap,
        write_entry(s, e, cap).last() == e,
        entry_of(write_entry(s, e, cap), e.key) == Some(e),
        has_key(s, e.key) ==> write_entry(s, e, cap).len() == s.len(),
        forall|k: Seq<char>|
            k != e.key && !(s.len() >= cap && !has_key(s, e.key) && s[0].key == k) ==> #[trigger] entry_of(
                write_entry(s, e, cap),
                k,
            ) == entry_of(s, k),
        forall|k: Seq<char>| k != e.key && has_key(write_entry(s, e, cap), k) ==> has_key(s, k),
{
    let u = write_entry(s, e, cap);
    if has_key(s, e.key) {
        let i = key_index(s, e.key);
        assert forall|a: int, b: int| 0 <= a < u.len() && 0 <= b < u.len() && a != b implies u[a].key
            != u[b].key by {
            let ia = if a == u.len() - 1 { i } else if a < i { a } else { a + 1 };
            let ib = if b == u.len() - 1 { i } else if b < i { b } else { b + 1 };
            assert(u[a].key == s[ia].key);
            assert(u[b].key == s[ib].key);
        }
        assert forall|k: Seq<char>| k != e.key implies #[trigger] entry_of(u, k) == entry_of(s, k)
            && (has_key(u, k) ==> has_key(s, k)) by {
            if has_key(s, k) {
                let j = key_index(s, k);
                let ju = if j < i { j } else { j - 1 };
                assert(u[ju] == s[j]);
                lemma_key_index(u, k, ju);
            }
            if has_key(u, k) {
                let ju = key_index(u, k);
                let j = if ju < i { ju } else { ju + 1 };
                assert(u[ju] == s[j]);
            }
        }
    } else {
        let shift: int = if s.len() >= cap { 1 } else { 0 };
        assert forall|a: int, b: int| 0 <= a < u.len() && 0 <= b < u.len() && a != b implies u[a].key
            != u[b].key by {
            if a < u.len() - 1 {
                assert(u[a] == s[a + shift]);
            }
            if b < u.len() - 1 {
                assert(u[b] == s[b + shift]);
            }
        }
        assert forall|k: Seq<char>|
            k != e.key && !(s.len() >= cap && s[0].key == k) implies #[trigger] entry_of(u, k)
            == entry_of(s, k) by {
            if has_key(s, k) {
                let j = key_index(s, k);
                assert(j >= shift);
                assert(u[j - shift] == s[j]);
                lemma_key_index(u, k, j - shift);
            }
            if has_key(u, k) {
                let ju = key_index(u, k);
                assert(u[ju] == s[ju + shift]);
            }
        }
        assert forall|k: Seq<char>| k != e.key && has_key(u, k) implies has_key(s, k) by {
            let ju = key_index(u, k);
            assert(u[ju] == s[ju + shift]);
        }
    }
    lemma_key_index(u, e.key, u.len() - 1);
}

/// The bounded expiring store.
pub struct TtlLru<V> {
    entries: Vec<Entry<V>>,
    max_size: usize,
}

impl<V> View for TtlLru<V> {
    type V = Seq<EntryView<V>>;

    /// The entries, oldest-written first.
    closed spec fn view(&self) -> Seq<EntryView<V>> {
        entries_view(self.entries@)
    }
}

impl<V> TtlLru<V> {
    /// The store's internal invariant.
    pub closed spec fn wf(&self) -> bool {
        &&& keys_distinct(self@)
        &&& self@.len() <= self.max_size
        &&& self.max_size >= 1
    }

    /// The bound on the number of entries.
    pub closed spec fn capacity(&self) -> nat {
        self.max_size as nat
    }

    /// A well-formed store holds at most its capacity (at least one), each
    /// key once.
    pub proof fn lemma_wf_bounds(&self)
        requires
            self.wf(),
        ensures
            self@.len() <= self.capacity(),
            self.capacity() >= 1,
            keys_distinct(self@),
    {
    }

    /// An empty store holding at most `max_size` (at least one) entries.
    pub fn new(max_size: usize) -> (s: Self)
        ensures
            s.wf(),
            s@.len() == 0,
            s.capacity() == if max_size >= 1 { max_size as nat } else { 1 },
    {
        let s = TtlLru { entries: Vec::new(), max_size: if max_size >= 1 { max_size } else { 1 } };
        assert(s@ =~= Seq::<EntryView<V>>::empty());
        s
    }

    /// The configured maximum number of entries.
    pub fn max_size(&self) -> (n: usize)
        ensures
            n == self.capacity(),
    {
        self.max_size
    }

    /// The number of entries, expired ones included.
    pub fn len(&self) -> (n: usize)
        ensures
            n == self@.len(),
    {
        self.entries.len()
    }

    /// Position of `key`, if stored.
    fn position(&self, key: &str) -> (r: Option<usize>)
        requires
            self.wf(),
        ensures
            r matches Some(i) ==> i < self@.len() && self@[i as int].key == key@ && entry_of(
                self@,
                key@,
            ) == Some(self@[i as int]),
            r is None ==> !has_key(self@, key@) && entry_of(self@, key@) is None,
    {
        let mut i: usize = 0;
        while i < self.entries.len()
            invariant
                self.wf(),
                i <= self@.len(),
                forall|j: int| 0 <= j < i ==> self@[j].key != key@,
            decreases self@.len() - i,
        {
            if str_eq(self.entries[i].key.as_str(), key) {
                proof {
                    lemma_key_index(self@, key@, i as int);
                }
                return Some(i);
            }
            i += 1;
        }
        None
    }

    /// The entry stored under `key`, expired or not.
    pub fn get_entry(&self, key: &str) -> (r: Option<&Entry<V>>)
        requires
            self.wf(),
        ensures
            match r {
                Some(e) => entry_of(self@, key@) == Some(
                    EntryView { key: e.key@, value: e.value, expires_at: e.expires_at },
                ),
                None => entry_of(self@, key@) is None,
            },
    {
        match self.position(key) {
            Some(i) => Some(&self.entries[i]),
            None => None,
        }
    }

    /// The value under `key` if its entry is live at tick `now`.
    pub fn get_live(&self, key: &str, now: u64) -> (r: Option<&V>)
        requires
            self.wf(),
        ensures
            match r {
                Some(v) => live_value(self@, key@, now) == Some(*v),
                None => live_value(self@, key@, now) is None,
            },
    {
        match self.get_entry(key) {
            Some(e) => if now < e.expires_at {
                Some(&e.value)
            } else {
                None
            },
            None => None,
        }
    }

    /// Write `value` under `key`, expiring at tick `expires_at`.
    pub fn put(&mut self, key: String, value: V, expires_at: u64)
        requires
            old(self).wf(),
        ensures
            final(self).wf(),
            final(self).capacity() == old(self).capacity(),
            final(self)@ == write_entry(
                old(self)@,
                EntryView { key: key@, value, expires_at },
                old(self).capacity(),
            ),
    {
        let ghost e = EntryView { key: key@, value, expires_at };
        let ghost s0 = self@;
        proof {
            lemma_write(s0, e, self.capacity());
        }
        match self.position(key.as_str()) {
            Some(i) => {
                let ghost v0 = self.entries@;
                self.entries.remove(i);
                assert(entries_view(self.entries@) =~= entries_view(v0).remove(i as int));
            },
            None => {
                if self.entries.len() >= self.max_size {
                    let ghost v0 = self.entries@;
                    self.entries.remove(0);
                    assert(entries_view(self.entries@) =~= entries_view(v0).drop_first());
                }
            },
        }
        let ghost v1 = self.entries@;
        self.entries.push(Entry { key, value, expires_at });
        assert(self@ =~= write_entry(s0, e, old(self).capacity()));
    }

    /// Drop every entry that is no longer live at tick `now`.
    pub fn retain_live(&mut self, now: u64)
        requires
            old(self).wf(),
        ensures
            final(self).wf(),
            final(self).capacity() == old(self).capacity(),
            final(self)@ == live_entries(old(self)@, now),
    {
        let ghost s0 = self@;
        let mut rest: Vec<Entry<V>> = Vec::new();
        std::mem::swap(&mut rest, &mut self.entries);
        let ghost orig = rest@;
        let n = rest.len();
        // First pass: move everything onto a stack, so that popping it
        // yields the entries oldest first.
        let mut stack: Vec<Entry<V>> = Vec::new();
        while rest.len() > 0
            invariant
                rest@.len() + stack@.len() == n,
                n == orig.len(),
                rest@ == orig.subrange(0, rest@.len() as int),
                forall|t: int| 0 <= t < stack@.len() ==> stack@[t] == orig[n - 1 - t],
            decreases rest@.len(),
        {
            let e = rest.pop().unwrap();
            stack.push(e);
        }
        // Second pass: keep the live ones, in order.
        let mut kept: Vec<Entry<V>> = Vec::new();
        let mut j: usize = 0;
        while stack.len() > 0
            invariant
                n == orig.len(),
                j + stack@.len() == n,
                forall|t: int| 0 <= t < stack@.len() ==> stack@[t] == orig[n - 1 - t],
                entries_view(kept@) == live_entries(entries_view(orig).take(j as int), now),
                keys_distinct(entries_view(orig)),
            decreases stack@.len(),
        {
            let ghost sv = entries_view(orig);
            let ghost k0 = kept@;
            let e = stack.pop().unwrap();
            assert(e == orig[j as int]);
            assert(sv.take(j + 1).drop_last() =~= sv.take(j as int));
            proof {
                reveal(Seq::filter);
            }
            if now < e.expires_at {
                kept.push(e);
                assert(entries_view(kept@) =~= entries_view(k0).push(sv[j as int]));
            }
            j += 1;
        }
        assert(entries_view(orig).take(n as int) =~= entries_view(orig));
        self.entries = kept;
        proof {
            let f = |e: EntryView<V>| now < e.expires_at;
            entries_view(orig).lemma_filter_len(f);
            assert forall|a: int, b: int| 0 <= a < self@.len() && 0 <= b < self@.len() && a != b implies self@[a].key != self@[b].key by {
                lemma_filter_injective_keys(entries_view(orig), now, a, b);
            }
        }
    }
}

/// Filtering a sequence with distinct keys keeps them distinct.
proof fn lemma_filter_injective_keys<V>(s: Seq<EntryView<V>>, now: u64, a: int, b: int)
    requires
        keys_distinct(s),
        0 <= a < live_entries(s, now).len(),
        0 <= b < live_entries(s, now).len(),
        a != b,
    ensures
        live_entries(s, now)[a].key != live_entries(s, now)[b].key,
    decreases s.len(),
{
    reveal(Seq::filter);
    let f = |e: EntryView<V>| now < e.expires_at;
    let init = s.drop_last();
    assert(keys_distinct(init)) by {
        assert forall|i: int, j: int| 0 <= i < init.len() && 0 <= j < init.len() && i != j implies init[i].key != init[j].key by {
            assert(init[i] == s[i]);
            assert(init[j] == s[j]);
        }
    }
    let fi = live_entries(init, now);
    if f(s.last()) && (a == fi.len() || b == fi.len()) {
        let other = if a == fi.len() { b } else { a };
        init.lemma_filter_contains_rev(f, fi[other]);
        let idx = choose|i: int| 0 <= i < init.len() && init[i] == fi[other];
        assert(s[idx] == init[idx]);
        assert(s[s.len() - 1] == s.last());
    } else {
        lemma_filter_injective_keys(init, now, a, b);
    }
}

/// What was written is read back while it is live: after writing entry `e`
/// (at any fill level), the value stored under its key is `e`'s value at
/// every tick before it expires, and nothing after.
pub proof fn law_read_after_write<V>(s: Seq<EntryView<V>>, e: EntryView<V>, cap: nat, now: u64)
    requires
        keys_distinct(s),
        s.len() <= cap,
        cap >= 1,
    ensures
        now < e.expires_at ==> live_value(write_entry(s, e, cap), e.key, now) == Some(e.value),
        now >= e.expires_at ==> live_value(write_entry(s, e, cap), e.key, now) is None,
{
    lemma_write(s, e, cap);
}

/// A store never holds more than its capacity, and rewriting a key already
/// stored does not grow it.
pub proof fn law_bounded_and_refresh_keeps_size<V>(s: Seq<EntryView<V>>, e: EntryView<V>, cap: nat)
    requires
        keys_distinct(s),
        s.len() <= cap,
        cap >= 1,
    ensures
        write_entry(s, e, cap).len() <= cap,
        has_key(s, e.key) ==> write_entry(s, e, cap).len() == s.len(),
{
    lemma_write(s, e, cap);
}

/// Writing one key leaves every other key's entry as it was, except the
/// oldest entry, which a new key evicts from a full store.
pub proof fn law_other_keys_unaffected<V>(s: Seq<EntryView<V>>, e: EntryView<V>, cap: nat, k: Seq<char>)
    requires
        keys_distinct(s),
        s.len() <= cap,
        cap >= 1,
        k != e.key,
        !(s.len() >= cap && !has_key(s, e.key) && s[0].key == k),
    ensures
        entry_of(write_entry(s, e, cap), k) == entry_of(s, k),
{
    lemma_write(s, e, cap);
}


/// Dropping the expired entries at tick `now` changes no read at that tick.
pub proof fn law_evict_keeps_live_reads<V>(s: Seq<EntryView<V>>, k: Seq<char>, now: u64)
    requires
        keys_distinct(s),
    ensures
        live_value(live_entries(s, now), k, now) == live_value(s, k, now),
{
    let f = |e: EntryView<V>| now < e.expires_at;
    let fs = live_entries(s, now);
    assert(fs == s.filter(f));
    assert(keys_distinct(fs)) by {
        assert forall|a: int, b: int| 0 <= a < fs.len() && 0 <= b < fs.len() && a != b implies fs[a].key
            != fs[b].key by {
            lemma_filter_injective_keys(s, now, a, b);
        }
    }
    if has_key(s, k) {
        let i = key_index(s, k);
        lemma_key_index(s, k, i);
        if now < s[i].expires_at {
            s.lemma_filter_contains(f, i);
            let j = choose|j: int| 0 <= j < fs.len() && fs[j] == s[i];
            lemma_key_index(fs, k, j);
        } else if has_key(fs, k) {
            let j = key_index(fs, k);
            s.filter_lemma(f);
            assert(f(fs[j]));
            assert(fs.contains(fs[j]));
            s.lemma_filter_contains_rev(f, fs[j]);
            let idx = choose|idx: int| 0 <= idx < s.len() && s[idx] == fs[j];
            lemma_key_index(s, k, idx);
        }
    } else if has_key(fs, k) {
        let j = key_index(fs, k);
        assert(fs.contains(fs[j]));
        s.lemma_filter_contains_rev(f, fs[j]);
        let idx = choose|idx: int| 0 <= idx < s.len() && s[idx] == fs[j];
        assert(s[idx].key == k);
    }
}

} // verus!
