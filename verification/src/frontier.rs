//! The crawl frontier: a bounded priority queue of URLs to visit.
//!
//! Entries leave highest priority first; among equal priorities, in the order
//! they were pushed. Priorities are integers in thousandths (`500` is one
//! half), so the order is total.

use vstd::prelude::*;

verus! {

/// Where a frontier entry came from.
#[derive(Debug, Clone)]
pub enum EntrySource {
    Bfs,
    Sitemap { lastmod: Option<String> },
}

/// Where a frontier entry came from, as the specifications see it.
pub enum SourceView {
    Bfs,
    Sitemap { lastmod: Option<Seq<char>> },
}

impl View for EntrySource {
    type V = SourceView;

    open spec fn view(&self) -> SourceView {
        match self {
            EntrySource::Bfs => SourceView::Bfs,
            EntrySource::Sitemap { lastmod } => SourceView::Sitemap {
                lastmod: match lastmod {
                    Some(l) => Some(l@),
                    None => None,
                },
            },
        }
    }
}

/// The priority of a link found by breadth-first discovery (one half).
pub const DEFAULT_PRIORITY: u32 = 500;

/// A single entry in the crawl frontier.
#[derive(Debug)]
pub struct FrontierEntry {
    pub url: String,
    pub depth: u32,
    /// Priority in thousandths; higher leaves first.
    pub priority: u32,
    pub source: EntrySource,
    /// Insertion number: entries pushed earlier have smaller numbers.
    pub sequence: u64,
}

/// What a frontier entry holds.
pub struct EntryView {
    pub url: Seq<char>,
    pub depth: u32,
    pub priority: u32,
    pub source: SourceView,
    pub sequence: u64,
}

impl View for FrontierEntry {
    type V = EntryView;

    open spec fn view(&self) -> EntryView {
        EntryView {
            url: self.url@,
            depth: self.depth,
            priority: self.priority,
            source: self.source@,
            sequence: self.sequence,
        }
    }
}

impl FrontierEntry {
    /// The entry's insertion number (earlier entries have smaller numbers).
    pub fn sequence(&self) -> (s: u64)
        ensures
            s == self@.sequence,
    {
        self.sequence
    }
}

/// Entry `a` leaves before entry `b`: higher priority, or equal priority and
/// pushed earlier.
pub open spec fn leaves_before(a: EntryView, b: EntryView) -> bool {
    a.priority > b.priority || (a.priority == b.priority && a.sequence < b.sequence)
}

/// Entry `k` of `s` leaves before every other entry.
pub open spec fn is_next(s: Seq<EntryView>, k: int) -> bool {
    &&& 0 <= k < s.len()
    &&& forall|j: int| 0 <= j < s.len() && j != k ==> leaves_before(s[k], #[trigger] s[j])
}

/// What a frontier holds.
pub struct FrontierView {
    pub entries: Seq<EntryView>,
    pub max_size: nat,
    pub next_seq: nat,
}

/// A priority frontier with a maximum size.
#[derive(Debug)]
pub struct Frontier {
    entries: Vec<FrontierEntry>,
    max_size: usize,
    next_seq: u64,
}

impl View for Frontier {
    type V = FrontierView;

    closed spec fn view(&self) -> FrontierView {
        FrontierView {
            entries: self.entries@.map_values(|e: FrontierEntry| e@),
            max_size: self.max_size as nat,
            next_seq: self.next_seq as nat,
        }
    }
}

impl Frontier {
    /// The frontier's invariant: at most `max_size` entries, each numbered
    /// below `next_seq` and no two with the same number.
    pub open spec fn wf(&self) -> bool {
        &&& self@.entries.len() <= self@.max_size
        &&& forall|i: int| 0 <= i < self@.entries.len() ==> #[trigger] self@.entries[i].sequence < self@.next_seq
        &&& forall|i: int, j: int|
            0 <= i < j < self@.entries.len() ==> #[trigger] self@.entries[i].sequence
                != #[trigger] self@.entries[j].sequence
    }

    /// An empty frontier holding at most `max_size` entries.
    pub fn new(max_size: usize) -> (f: Frontier)
        ensures
            f.wf(),
            f@.entries.len() == 0,
            f@.max_size == max_size,
            f@.next_seq == 0,
    {
        Frontier { entries: Vec::new(), max_size, next_seq: 0 }
    }

    /// Pushes a URL found by breadth-first discovery, at the default priority.
    pub fn push(&mut self, url: String, depth: u32)
        requires
            old(self).wf(),
            old(self)@.next_seq < u64::MAX,
        ensures
            final(self).wf(),
            final(self)@.max_size == old(self)@.max_size,
            old(self)@.entries.len() >= old(self)@.max_size ==> final(self)@ == old(self)@,
            old(self)@.entries.len() < old(self)@.max_size ==> final(self)@.entries
                == old(self)@.entries.push(
                EntryView {
                    url: url@,
                    depth: depth,
                    priority: DEFAULT_PRIORITY,
                    source: SourceView::Bfs,
                    sequence: old(self)@.next_seq as u64,
                },
            ) && final(self)@.next_seq == old(self)@.next_seq + 1,
    {
        self.push_with_priority(url, depth, DEFAULT_PRIORITY, EntrySource::Bfs);
    }

    /// Pushes a URL with an explicit priority and source; does nothing when
    /// the frontier is full.
    pub fn push_with_priority(&mut self, url: String, depth: u32, priority: u32, source: EntrySource)
        requires
            old(self).wf(),
            old(self)@.next_seq < u64::MAX,
        ensures
            final(self).wf(),
            final(self)@.max_size == old(self)@.max_size,
            old(self)@.entries.len() >= old(self)@.max_size ==> final(self)@ == old(self)@,
            old(self)@.entries.len() < old(self)@.max_size ==> final(self)@.entries
                == old(self)@.entries.push(
                EntryView {
                    url: url@,
                    depth: depth,
                    priority: priority,
                    source: source@,
                    sequence: old(self)@.next_seq as u64,
                },
            ) && final(self)@.next_seq == old(self)@.next_seq + 1,
    {
        if self.entries.len() >= self.max_size {
            return;
        }
        let sequence = self.next_seq;
        self.next_seq = self.next_seq + 1;
        let ghost old_entries = self.entries@;
        self.entries.push(FrontierEntry { url, depth, priority, source, sequence });
        assert(self@.entries =~= old_entries.map_values(|e: FrontierEntry| e@).push(
            self.entries@.last()@,
        ));
    }

    /// Removes and returns the entry that leaves next: the highest priority,
    /// earliest pushed among equals.
    pub fn pop(&mut self) -> (r: Option<FrontierEntry>)
        requires
            old(self).wf(),
        ensures
            final(self).wf(),
            final(self)@.max_size == old(self)@.max_size,
            final(self)@.next_seq == old(self)@.next_seq,
            old(self)@.entries.len() == 0 ==> r is None && final(self)@ == old(self)@,
            old(self)@.entries.len() > 0 ==> (r matches Some(e) && exists|k: int|
                is_next(old(self)@.entries, k) && e@ == old(self)@.entries[k]
                    && final(self)@.entries == old(self)@.entries.remove(k)),
    {
        let n = self.entries.len();
        if n == 0 {
            return None;
        }
        let ghost s = self@.entries;
        let mut best: usize = 0;
        let mut i: usize = 1;
        while i < n
            invariant
                n == self.entries@.len(),
                s == self@.entries,
                self.wf(),
                best < i <= n,
                forall|j: int| 0 <= j < i && j != best ==> leaves_before(s[best as int], #[trigger] s[j]),
            decreases n - i,
        {
            let e = &self.entries[i];
            let b = &self.entries[best];
            assert(s[i as int] == self.entries@[i as int]@);
            assert(s[best as int] == self.entries@[best as int]@);
            if e.priority > b.priority || (e.priority == b.priority && e.sequence < b.sequence) {
                proof {
                    assert forall|j: int| 0 <= j < i + 1 && j != i implies leaves_before(
                        s[i as int],
                        #[trigger] s[j],
                    ) by {
                        if j != best {
                            assert(leaves_before(s[best as int], s[j]));
                        }
                    }
                }
                best = i;
            } else {
                assert(s[best as int].sequence != s[i as int].sequence);
            }
            i += 1;
        }
        let ghost old_entries = self.entries@;
        let e = self.entries.remove(best);
        assert(self@.entries =~= s.remove(best as int));
        assert(e@ == s[best as int]);
        proof {
            assert forall|a: int, b: int|
                0 <= a < b < self@.entries.len() implies #[trigger] self@.entries[a].sequence
                != #[trigger] self@.entries[b].sequence by {
                let a0 = if a < best { a } else { a + 1 };
                let b0 = if b < best { b } else { b + 1 };
                assert(self@.entries[a] == s[a0]);
                assert(self@.entries[b] == s[b0]);
            }
            assert forall|a: int| 0 <= a < self@.entries.len() implies #[trigger] self@.entries[a].sequence
                < self@.next_seq by {
                let a0 = if a < best { a } else { a + 1 };
                assert(self@.entries[a] == s[a0]);
            }
        }
        Some(e)
    }

    /// The number of entries.
    pub fn len(&self) -> (n: usize)
        ensures
            n == self@.entries.len(),
    {
        self.entries.len()
    }

    /// Whether the frontier holds no entry.
    pub fn is_empty(&self) -> (b: bool)
        ensures
            b == (self@.entries.len() == 0),
    {
        self.entries.len() == 0
    }

    /// The sequence number the next pushed entry gets.
    pub fn next_sequence(&self) -> (n: u64)
        ensures
            n == self@.next_seq,
    {
        self.next_seq
    }
}

/// The entry that leaves next has the highest priority, and among entries of
/// equal priority the one pushed first leaves first.
pub proof fn law_pop_order(s: Seq<EntryView>, k: int, j: int)
    requires
        is_next(s, k),
        0 <= j < s.len(),
    ensures
        s[j].priority <= s[k].priority,
        s[j].priority == s[k].priority ==> s[k].sequence <= s[j].sequence,
{
    if j != k {
        assert(leaves_before(s[k], s[j]));
    }
}

/// The entry that leaves next is unique.
pub proof fn law_next_unique(s: Seq<EntryView>, k: int, j: int)
    requires
        is_next(s, k),
        is_next(s, j),
    ensures
        j == k,
{
    if j != k {
        assert(leaves_before(s[k], s[j]));
        assert(leaves_before(s[j], s[k]));
    }
}


} // verus!
