//! LRU frame cache.

use vstd::prelude::*;
use std::num::NonZeroUsize;
use std::sync::Arc;
use lru::LruCache;
use crate::frame::Frame;

verus! {

#[verifier::external_type_specification]
#[verifier::external_body]
#[verifier::reject_recursive_types(K)]
#[verifier::reject_recursive_types(V)]
#[verifier::reject_recursive_types(S)]
pub struct ExLruCache<K, V, S>(LruCache<K, V, S>);

#[verifier::external_type_specification]
#[verifier::external_body]
pub struct ExLruDefaultHasher(lru::DefaultHasher);

/// What an LRU cache of frames holds: `(index, frame)` entries ordered from
/// least recently used (first) to most recently used (last).
pub uninterp spec fn lru_entries(cache: LruCache<u64, Arc<Frame>>) -> Seq<(u64, Frame)>;

/// The most entries the cache keeps (the capacity it was made with).
pub uninterp spec fn lru_cap(cache: LruCache<u64, Arc<Frame>>) -> nat;

/// Whether some entry carries key `k`.
pub open spec fn has_key(s: Seq<(u64, Frame)>, k: u64) -> bool {
    exists|i: int| 0 <= i < s.len() && #[trigger] s[i].0 == k
}

/// The position of the entry with key `k` (meaningful when `has_key(s, k)`).
pub open spec fn key_index(s: Seq<(u64, Frame)>, k: u64) -> int {
    choose|i: int| 0 <= i < s.len() && #[trigger] s[i].0 == k
}

/// No key occurs twice.
pub open spec fn distinct_keys(s: Seq<(u64, Frame)>) -> bool {
    forall|i: int, j: int|
        0 <= i < s.len() && 0 <= j < s.len() && i != j ==> #[trigger] s[i].0 != #[trigger] s[j].0
}

/// The entries after a lookup of `k`: a hit becomes the most recently used.
pub open spec fn after_get(s: Seq<(u64, Frame)>, k: u64) -> Seq<(u64, Frame)> {
    if has_key(s, k) {
        let i = key_index(s, k);
        s.remove(i).push(s[i])
    } else {
        s
    }
}

/// The entries after storing `f` under `k` with room for `cap` entries: an
/// existing entry is replaced and becomes the most recently used; a new key
/// evicts the least recently used entry when the cache is full.
pub open spec fn after_put(s: Seq<(u64, Frame)>, cap: nat, k: u64, f: Frame) -> Seq<(u64, Frame)> {
    if has_key(s, k) {
        s.remove(key_index(s, k)).push((k, f))
    } else if s.len() >= cap {
        s.drop_first().push((k, f))
    } else {
        s.push((k, f))
    }
}

/// `LruCache::new`: an empty cache holding at most `cap` entries.
#[verifier::external_body]
fn lru_new(cap: usize) -> (c: LruCache<u64, Arc<Frame>>)
    requires
        cap > 0,
    ensures
        lru_entries(c) == Seq::<(u64, Frame)>::empty(),
        lru_cap(c) == cap,
{
    LruCache::new(NonZeroUsize::new(cap).unwrap())
}

/// `LruCache::get`: the value under `k`, which becomes the most recently used.
#[verifier::external_body]
fn lru_get(c: &mut LruCache<u64, Arc<Frame>>, k: u64) -> (r: Option<Arc<Frame>>)
    requires
        distinct_keys(lru_entries(*old(c))),
    ensures
        lru_entries(*final(c)) == after_get(lru_entries(*old(c)), k),
        lru_cap(*final(c)) == lru_cap(*old(c)),
        has_key(lru_entries(*old(c)), k) ==> (r matches Some(a) && *a == lru_entries(
            *old(c),
        )[key_index(lru_entries(*old(c)), k)].1),
        !has_key(lru_entries(*old(c)), k) ==> r is None,
{
    c.get(&k).cloned()
}

/// `LruCache::put`: stores `v` under `k` (the replaced value is discarded).
#[verifier::external_body]
fn lru_put(c: &mut LruCache<u64, Arc<Frame>>, k: u64, v: Arc<Frame>)
    requires
        distinct_keys(lru_entries(*old(c))),
        lru_entries(*old(c)).len() <= lru_cap(*old(c)),
    ensures
        lru_entries(*final(c)) == after_put(lru_entries(*old(c)), lru_cap(*old(c)), k, *v),
        lru_cap(*final(c)) == lru_cap(*old(c)),
{
    c.put(k, v);
}

/// `LruCache::contains`: whether `k` is cached, leaving the order untouched.
#[verifier::external_body]
fn lru_contains(c: &LruCache<u64, Arc<Frame>>, k: u64) -> (r: bool)
    ensures
        r == has_key(lru_entries(*c), k),
{
    c.contains(&k)
}

/// `LruCache::len`: the number of entries.
#[verifier::external_body]
fn lru_len(c: &LruCache<u64, Arc<Frame>>) -> (r: usize)
    ensures
        r == lru_entries(*c).len(),
{
    c.len()
}

/// `Arc::clone`: another handle to the same frame.
#[verifier::external_body]
fn share(a: &Arc<Frame>) -> (r: Arc<Frame>)
    ensures
        *r == **a,
{
    Arc::clone(a)
}

/// An LRU cache of decoded frames keyed by frame index.
///
/// Frames are stored as `Arc<Frame>` so the preview, scrubbing, and the
/// processing graph can share a decoded frame without copying. When the cache
/// is full the least-recently-used frame is evicted.
pub struct FrameCache {
    inner: LruCache<u64, Arc<Frame>>,
}

impl FrameCache {
    /// Cached entries, least recently used first.
    pub closed spec fn entries(&self) -> Seq<(u64, Frame)> {
        lru_entries(self.inner)
    }

    /// The most frames the cache keeps.
    pub closed spec fn capacity(&self) -> nat {
        lru_cap(self.inner)
    }

    /// Keys are distinct and the entries never exceed the capacity.
    pub open spec fn wf(&self) -> bool {
        &&& distinct_keys(self.entries())
        &&& self.entries().len() <= self.capacity()
        &&& self.capacity() >= 1
    }

    /// Creates a cache holding up to `capacity` frames.
    pub fn new(capacity: usize) -> (c: FrameCache)
        requires
            capacity > 0,
        ensures
            c.wf(),
            c.entries() == Seq::<(u64, Frame)>::empty(),
            c.capacity() == capacity,
    {
        FrameCache { inner: lru_new(capacity) }
    }

    /// Returns the cached frame at `index`, marking it most-recently-used.
    pub fn get(&mut self, index: u64) -> (r: Option<Arc<Frame>>)
        requires
            old(self).wf(),
        ensures
            final(self).wf(),
            final(self).entries() == after_get(old(self).entries(), index),
            final(self).capacity() == old(self).capacity(),
            has_key(old(self).entries(), index) ==> (r matches Some(a) && *a == old(
                self,
            ).entries()[key_index(old(self).entries(), index)].1),
            !has_key(old(self).entries(), index) ==> r is None,
    {
        let r = lru_get(&mut self.inner, index);
        proof {
            lemma_after_get_wf(old(self).entries(), index);
        }
        r
    }

    /// Inserts a frame and returns the shared handle, evicting the LRU entry if
    /// the cache is full.
    pub fn insert(&mut self, index: u64, frame: Frame) -> (r: Arc<Frame>)
        requires
            old(self).wf(),
        ensures
            final(self).wf(),
            *r == frame,
            final(self).entries() == after_put(
                old(self).entries(),
                old(self).capacity(),
                index,
                frame,
            ),
            final(self).capacity() == old(self).capacity(),
    {
        let shared = Arc::new(frame);
        lru_put(&mut self.inner, index, share(&shared));
        proof {
            lemma_after_put_wf(old(self).entries(), old(self).capacity(), index, frame);
        }
        shared
    }

    /// Whether a frame at `index` is currently cached (without touching LRU order).
    pub fn contains(&self, index: u64) -> (r: bool)
        ensures
            r == has_key(self.entries(), index),
    {
        lru_contains(&self.inner, index)
    }

    /// Number of frames currently cached.
    pub fn len(&self) -> (r: usize)
        ensures
            r == self.entries().len(),
    {
        lru_len(&self.inner)
    }

    /// Whether the cache is empty.
    pub fn is_empty(&self) -> (r: bool)
        ensures
            r == (self.entries().len() == 0),
    {
        lru_len(&self.inner) == 0
    }
}

/// A lookup keeps the keys distinct and the length unchanged.
pub proof fn lemma_after_get_wf(s: Seq<(u64, Frame)>, k: u64)
    requires
        distinct_keys(s),
    ensures
        distinct_keys(after_get(s, k)),
        after_get(s, k).len() == s.len(),
{
    if has_key(s, k) {
        let i = key_index(s, k);
        let t = after_get(s, k);
        assert forall|a: int, b: int|
            0 <= a < t.len() && 0 <= b < t.len() && a != b implies #[trigger] t[a].0
            != #[trigger] t[b].0 by {
            let ia = if a == t.len() - 1 { i } else if a < i { a } else { a + 1 };
            let ib = if b == t.len() - 1 { i } else if b < i { b } else { b + 1 };
            assert(t[a] == s[ia]);
            assert(t[b] == s[ib]);
        }
    }
}

/// Storing keeps the keys distinct and the entries within the capacity.
pub proof fn lemma_after_put_wf(s: Seq<(u64, Frame)>, cap: nat, k: u64, f: Frame)
    requires
        distinct_keys(s),
        s.len() <= cap,
        cap >= 1,
    ensures
        distinct_keys(after_put(s, cap, k, f)),
        after_put(s, cap, k, f).len() <= cap,
{
    let t = after_put(s, cap, k, f);
    if has_key(s, k) {
        let i = key_index(s, k);
        assert forall|a: int, b: int|
            0 <= a < t.len() && 0 <= b < t.len() && a != b implies #[trigger] t[a].0
            != #[trigger] t[b].0 by {
            let ia = if a == t.len() - 1 { i } else if a < i { a } else { a + 1 };
            let ib = if b == t.len() - 1 { i } else if b < i { b } else { b + 1 };
            assert(t[a].0 == s[ia].0);
            assert(t[b].0 == s[ib].0);
        }
    } else if s.len() >= cap {
        assert forall|a: int, b: int|
            0 <= a < t.len() && 0 <= b < t.len() && a != b implies #[trigger] t[a].0
            != #[trigger] t[b].0 by {
            if a < t.len() - 1 {
                assert(t[a] == s[a + 1]);
            }
            if b < t.len() - 1 {
                assert(t[b] == s[b + 1]);
            }
        }
    } else {
        assert forall|a: int, b: int|
            0 <= a < t.len() && 0 <= b < t.len() && a != b implies #[trigger] t[a].0
            != #[trigger] t[b].0 by {
            if a < t.len() - 1 {
                assert(t[a] == s[a]);
            }
            if b < t.len() - 1 {
                assert(t[b] == s[b]);
            }
        }
    }
}

} // verus!
