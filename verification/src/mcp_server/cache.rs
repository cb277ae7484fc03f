//! A small cache of file contents, keyed by path: an entry is served while
//! the file's modification time is unchanged and the entry is younger than
//! its time to live; when full, the oldest entry makes room.
//!
//! Modification times are nanoseconds relative to the Unix epoch; the times
//! at which entries were cached are nanoseconds of a monotonic clock.

use crate::text::str_eq;
use vstd::prelude::*;

verus! {

/// The most entries the cache holds.
pub const MAX_CACHED_FILES: usize = 50;

/// How long an entry is served, in nanoseconds.
pub const CACHE_TTL_NANOS: u128 = 60_000_000_000;

/// A cached file as plain values.
pub struct CachedFile {
    pub content: Seq<char>,
    pub mtime: i128,
    pub cached_at: u128,
}

/// A cached file.
pub struct FileCacheEntry {
    pub content: String,
    pub mtime: i128,
    pub cached_at: u128,
}

/// The cache.
pub struct FileCache {
    entries: Vec<(String, FileCacheEntry)>,
    max_entries: usize,
    ttl: u128,
}

/// An entry as plain values.
pub open spec fn cached_file(e: FileCacheEntry) -> CachedFile {
    CachedFile { content: e.content@, mtime: e.mtime, cached_at: e.cached_at }
}

/// The map from path to cached file that a list of entries stands for.
pub open spec fn entries_map(s: Seq<(String, FileCacheEntry)>) -> Map<Seq<char>, CachedFile>
    decreases s.len(),
{
    if s.len() == 0 {
        Map::empty()
    } else {
        entries_map(s.drop_last()).insert(s.last().0@, cached_file(s.last().1))
    }
}

/// No path occurs twice.
pub open spec fn keys_distinct(s: Seq<(String, FileCacheEntry)>) -> bool {
    forall|i: int, j: int| 0 <= i < j < s.len() ==> s[i].0@ != s[j].0@
}

/// `now` is less than the time to live after `cached_at` (elapsed time
/// counts as zero where the clock reads earlier).
pub open spec fn within_ttl(cached_at: u128, now: u128) -> bool {
    now < cached_at || now - cached_at < CACHE_TTL_NANOS
}

/// What a read of `key` at time `now`, for a file last modified at `mtime`,
/// is served from the cache `c`.
pub open spec fn cache_hit(c: Map<Seq<char>, CachedFile>, key: Seq<char>, mtime: i128, now: u128) -> Option<
    Seq<char>,
> {
    if c.dom().contains(key) && within_ttl(c[key].cached_at, now) && c[key].mtime == mtime {
        Some(c[key].content)
    } else {
        None
    }
}

/// `v` is a path of `c` whose entry is cached no later than any other.
pub open spec fn is_oldest(c: Map<Seq<char>, CachedFile>, v: Seq<char>) -> bool {
    c.dom().contains(v) && forall|k: Seq<char>|
        #[trigger] c.dom().contains(k) ==> c[v].cached_at <= c[k].cached_at
}

/// `new` is `old` after storing `content` for `key` at time `now`: when
/// `old` is full, an oldest entry is dropped first.
pub open spec fn stored(
    old: Map<Seq<char>, CachedFile>,
    key: Seq<char>,
    content: Seq<char>,
    mtime: i128,
    now: u128,
    new: Map<Seq<char>, CachedFile>,
) -> bool {
    let e = CachedFile { content, mtime, cached_at: now };
    if old.dom().len() >= MAX_CACHED_FILES {
        exists|v: Seq<char>| is_oldest(old, v) && new == old.remove(v).insert(key, e)
    } else {
        new == old.insert(key, e)
    }
}

/// The entry of the path at index `i` is the one the map gives for it.
proof fn lemma_entries_map(s: Seq<(String, FileCacheEntry)>)
    requires
        keys_distinct(s),
    ensures
        entries_map(s).dom().finite(),
        entries_map(s).dom().len() == s.len(),
        forall|i: int| 0 <= i < s.len() ==> #[trigger] entries_map(s).dom().contains(s[i].0@),
        forall|i: int|
            0 <= i < s.len() ==> entries_map(s)[#[trigger] s[i].0@] == cached_file(s[i].1),
        forall|k: Seq<char>|
            #[trigger] entries_map(s).dom().contains(k) ==> exists|i: int|
                0 <= i < s.len() && s[i].0@ == k,
    decreases s.len(),
{
    if s.len() > 0 {
        let d = s.drop_last();
        assert(keys_distinct(d));
        lemma_entries_map(d);
        let x = s.last();
        assert(!entries_map(d).dom().contains(x.0@)) by {
            if entries_map(d).dom().contains(x.0@) {
                let i = choose|i: int| 0 <= i < d.len() && d[i].0@ == x.0@;
                assert(s[i].0@ == s[s.len() - 1].0@);
            }
        }
        assert forall|i: int| 0 <= i < s.len() implies #[trigger] entries_map(s).dom().contains(
            s[i].0@,
        ) by {
            if i < d.len() {
                assert(d[i] == s[i]);
            }
        }
        assert forall|i: int| 0 <= i < s.len() implies entries_map(s)[#[trigger] s[i].0@]
            == cached_file(s[i].1) by {
            if i < d.len() {
                assert(d[i] == s[i]);
                assert(s[i].0@ != x.0@);
            }
        }
        assert forall|k: Seq<char>| #[trigger] entries_map(s).dom().contains(k) implies exists|
            i: int,
        | 0 <= i < s.len() && s[i].0@ == k by {
            if k != x.0@ {
                assert(entries_map(d).dom().contains(k));
                let i = choose|i: int| 0 <= i < d.len() && d[i].0@ == k;
                assert(s[i] == d[i]);
            } else {
                assert(s[s.len() - 1].0@ == k);
            }
        }
    }
}

/// Removing the entry at `j` removes its path from the map.
proof fn lemma_entries_map_remove(s: Seq<(String, FileCacheEntry)>, j: int)
    requires
        keys_distinct(s),
        0 <= j < s.len(),
    ensures
        keys_distinct(s.remove(j)),
        entries_map(s.remove(j)) == entries_map(s).remove(s[j].0@),
{
    let r = s.remove(j);
    assert(keys_distinct(r)) by {
        assert forall|a: int, b: int| 0 <= a < b < r.len() implies r[a].0@ != r[b].0@ by {
            let a2 = if a < j { a } else { a + 1 };
            let b2 = if b < j { b } else { b + 1 };
            assert(r[a] == s[a2]);
            assert(r[b] == s[b2]);
        }
    }
    lemma_entries_map(s);
    lemma_entries_map(r);
    let m = entries_map(s).remove(s[j].0@);
    assert forall|k: Seq<char>| #[trigger] entries_map(r).dom().contains(k) <==> m.dom().contains(
        k,
    ) by {
        if entries_map(r).dom().contains(k) {
            let i = choose|i: int| 0 <= i < r.len() && r[i].0@ == k;
            let i2 = if i < j { i } else { i + 1 };
            assert(r[i] == s[i2]);
            assert(entries_map(s).dom().contains(s[i2].0@));
        }
        if m.dom().contains(k) {
            let i = choose|i: int| 0 <= i < s.len() && s[i].0@ == k;
            assert(i != j);
            let i2 = if i < j { i } else { i - 1 };
            assert(r[i2] == s[i]);
            assert(entries_map(r).dom().contains(r[i2].0@));
        }
    }
    assert forall|k: Seq<char>| #[trigger] entries_map(r).dom().contains(k) implies entries_map(
        r,
    )[k] == m[k] by {
        let i = choose|i: int| 0 <= i < r.len() && r[i].0@ == k;
        let i2 = if i < j { i } else { i + 1 };
        assert(r[i] == s[i2]);
        assert(entries_map(r)[r[i].0@] == cached_file(r[i].1));
        assert(entries_map(s)[s[i2].0@] == cached_file(s[i2].1));
    }
    assert(entries_map(r) =~= m);
}

impl FileCache {
    /// The cached files by path.
    pub closed spec fn view(&self) -> Map<Seq<char>, CachedFile> {
        entries_map(self.entries@)
    }

    /// The cache's invariant: no path twice, at most the maximum of entries,
    /// the fixed limits.
    pub closed spec fn wf(&self) -> bool {
        &&& keys_distinct(self.entries@)
        &&& self.entries@.len() <= MAX_CACHED_FILES
        &&& self.max_entries == MAX_CACHED_FILES
        &&& self.ttl == CACHE_TTL_NANOS
    }

    /// The invariant bounds the number of cached files.
    pub proof fn lemma_wf(&self)
        requires
            self.wf(),
        ensures
            self.view().dom().finite(),
            self.view().dom().len() <= MAX_CACHED_FILES,
    {
        lemma_entries_map(self.entries@);
    }

    /// An empty cache.
    pub fn new() -> (c: Self)
        ensures
            c.wf(),
            c.view() == Map::<Seq<char>, CachedFile>::empty(),
    {
        FileCache { entries: Vec::new(), max_entries: MAX_CACHED_FILES, ttl: CACHE_TTL_NANOS }
    }

    /// The index of the entry for `key`.
    fn position(&self, key: &str) -> (r: Option<usize>)
        requires
            self.wf(),
        ensures
            match r {
                Some(i) => i < self.entries@.len() && self.entries@[i as int].0@ == key@,
                None => forall|i: int|
                    0 <= i < self.entries@.len() ==> self.entries@[i].0@ != key@,
            },
    {
        let mut i: usize = 0;
        while i < self.entries.len()
            invariant
                i <= self.entries@.len(),
                forall|q: int| 0 <= q < i ==> self.entries@[q].0@ != key@,
            decreases self.entries@.len() - i,
        {
            if str_eq(self.entries[i].0.as_str(), key) {
                return Some(i);
            }
            i = i + 1;
        }
        None
    }

    /// The cached content of the file at `key`, where it is still valid: the
    /// file's modification time is `mtime` as when it was cached, and the
    /// entry is younger than the time to live at time `now`.
    pub fn lookup(&self, key: &str, mtime: i128, now: u128) -> (r: Option<String>)
        requires
            self.wf(),
        ensures
            crate::models::opt_view(r) == cache_hit(self.view(), key@, mtime, now),
    {
        proof {
            lemma_entries_map(self.entries@);
        }
        match self.position(key) {
            None => {
                assert(!self.view().dom().contains(key@)) by {
                    if self.view().dom().contains(key@) {
                        let i = choose|i: int|
                            0 <= i < self.entries@.len() && self.entries@[i].0@ == key@;
                    }
                }
                None
            },
            Some(i) => {
                let e = &self.entries[i].1;
                assert(self.view()[key@] == cached_file(*e));
                let young = now < e.cached_at || now - e.cached_at < self.ttl;
                if young && e.mtime == mtime {
                    Some(e.content.clone())
                } else {
                    None
                }
            },
        }
    }

    /// The index of an entry cached no later than any other.
    fn oldest(&self) -> (r: usize)
        requires
            self.entries@.len() > 0,
        ensures
            r < self.entries@.len(),
            forall|q: int|
                0 <= q < self.entries@.len() ==> self.entries@[r as int].1.cached_at
                    <= self.entries@[q].1.cached_at,
    {
        let mut best: usize = 0;
        let mut i: usize = 1;
        while i < self.entries.len()
            invariant
                1 <= i <= self.entries@.len(),
                best < i,
                forall|q: int|
                    0 <= q < i ==> self.entries@[best as int].1.cached_at
                        <= self.entries@[q].1.cached_at,
            decreases self.entries@.len() - i,
        {
            if self.entries[i].1.cached_at < self.entries[best].1.cached_at {
                best = i;
            }
            i = i + 1;
        }
        best
    }

    /// Caches `content` for `key`, read at time `now` from a file last
    /// modified at `mtime`; when the cache is full, an oldest entry is
    /// dropped first.
    pub fn store(&mut self, key: String, content: String, mtime: i128, now: u128)
        requires
            old(self).wf(),
        ensures
            final(self).wf(),
            stored(old(self).view(), key@, content@, mtime, now, final(self).view()),
    {
        let ghost old_map = self.view();
        let ghost k = key@;
        let ghost e = CachedFile { content: content@, mtime, cached_at: now };
        proof {
            lemma_entries_map(self.entries@);
        }
        let ghost after_evict: Map<Seq<char>, CachedFile>;
        if self.entries.len() >= self.max_entries {
            let j = self.oldest();
            let ghost before = self.entries@;
            let ghost v = before[j as int].0@;
            proof {
                lemma_entries_map_remove(before, j as int);
                assert(is_oldest(old_map, v)) by {
                    assert forall|q: Seq<char>| #[trigger] old_map.dom().contains(q) implies old_map[v].cached_at
                        <= old_map[q].cached_at by {
                        let i = choose|i: int| 0 <= i < before.len() && before[i].0@ == q;
                        assert(old_map[before[i].0@] == cached_file(before[i].1));
                    }
                }
                after_evict = old_map.remove(v);
            }
            self.entries.remove(j);
            assert(self.entries@ == before.remove(j as int));
        } else {
            proof {
                after_evict = old_map;
            }
        }
        assert(self.view() == after_evict);
        assert(keys_distinct(self.entries@));
        match self.position(key.as_str()) {
            Some(i) => {
                let ghost before = self.entries@;
                proof {
                    lemma_entries_map_remove(before, i as int);
                }
                self.entries.remove(i);
            },
            None => {},
        }
        let ghost mid = self.entries@;
        assert(keys_distinct(mid));
        assert(!entries_map(mid).dom().contains(k)) by {
            lemma_entries_map(mid);
            if entries_map(mid).dom().contains(k) {
                let q = choose|q: int| 0 <= q < mid.len() && mid[q].0@ == k;
            }
        }
        assert(entries_map(mid) == after_evict.remove(k));
        self.entries.push((key, FileCacheEntry { content, mtime, cached_at: now }));
        proof {
            assert(self.entries@.drop_last() =~= mid);
            assert(keys_distinct(self.entries@)) by {
                assert forall|a: int, b: int| 0 <= a < b < self.entries@.len() implies self.entries@[a].0@
                    != self.entries@[b].0@ by {
                    if b == self.entries@.len() - 1 {
                        assert(self.entries@[a] == mid[a]);
                        lemma_entries_map(mid);
                    } else {
                        assert(self.entries@[a] == mid[a]);
                        assert(self.entries@[b] == mid[b]);
                    }
                }
            }
            assert(self.view() =~= after_evict.remove(k).insert(k, e));
            assert(after_evict.remove(k).insert(k, e) =~= after_evict.insert(k, e));
            lemma_entries_map(self.entries@);
            lemma_entries_map(mid);
        }
    }
}

/// Law: a file just stored is served back from the cache, with the content
/// stored, as long as its modification time is unchanged and the entry is
/// younger than the time to live.
pub proof fn lemma_stored_then_hit(
    old: Map<Seq<char>, CachedFile>,
    key: Seq<char>,
    content: Seq<char>,
    mtime: i128,
    now: u128,
    new: Map<Seq<char>, CachedFile>,
    later: u128,
)
    requires
        stored(old, key, content, mtime, now, new),
        within_ttl(now, later),
    ensures
        cache_hit(new, key, mtime, later) == Some(content),
{
}

} // verus!
