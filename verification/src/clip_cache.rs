//! In-memory caches of transcoded clip bytes and preview-frame bitmaps.
//!
//! Both caches are least-recently-used: the clip cache is additionally
//! bounded by total byte size, evicting least-recently-used entries until
//! it is back under the ceiling or a single entry remains. The cache
//! contents are modeled as a sequence of key-value pairs in
//! most-recently-used-first order with unique keys.

use vstd::prelude::*;
use lru::LruCache;
use std::num::NonZeroUsize;
use crate::bmp::bmp_bytes;
use crate::bmp::pixels_to_bmp;

verus! {

/// Entries the clip cache holds at most.
pub const CLIP_CACHE_ENTRIES: usize = 20;

/// Entries the preview-frame cache holds at most.
pub const FRAME_CACHE_ENTRIES: usize = 50;

/// Byte ceiling of the clip cache: half a gigabyte.
pub const CACHE_BYTE_CEILING: u64 = 500000000;

/// A clip key: canonicalized start and end timestamps.
pub type ClipKey = (i64, i64);

/// Contents of a clip store, most-recently-used first.
pub type ClipEntries = Seq<(ClipKey, Seq<u8>)>;

/// Contents of a frame store, most-recently-used first.
pub type FrameEntries = Seq<(i64, Seq<u8>)>;

/// A bounded least-recently-used map from clip keys to clip bytes.
#[verifier::external_body]
pub struct ClipStore {
    inner: LruCache<ClipKey, Vec<u8>>,
}

/// What the clip store holds, most-recently-used first.
pub uninterp spec fn clip_store_seq(c: &ClipStore) -> ClipEntries;

/// The entry bound the clip store was created with.
pub uninterp spec fn clip_store_cap(c: &ClipStore) -> nat;

/// A bounded least-recently-used map from frame timestamps to bitmap
/// bytes.
#[verifier::external_body]
pub struct FrameStore {
    inner: LruCache<i64, Vec<u8>>,
}

/// What the frame store holds, most-recently-used first.
pub uninterp spec fn frame_store_seq(c: &FrameStore) -> FrameEntries;

/// The entry bound the frame store was created with.
pub uninterp spec fn frame_store_cap(c: &FrameStore) -> nat;

/// Index of `k` among the clip entries, or -1.
pub open spec fn clip_key_at(s: ClipEntries, k: ClipKey) -> int
    decreases s.len(),
{
    if s.len() == 0 {
        -1
    } else if s[0].0 == k {
        0
    } else {
        let r = clip_key_at(s.drop_first(), k);
        if r < 0 {
            -1
        } else {
            1 + r
        }
    }
}

/// Index of `k` among the frame entries, or -1.
pub open spec fn frame_key_at(s: FrameEntries, k: i64) -> int
    decreases s.len(),
{
    if s.len() == 0 {
        -1
    } else if s[0].0 == k {
        0
    } else {
        let r = frame_key_at(s.drop_first(), k);
        if r < 0 {
            -1
        } else {
            1 + r
        }
    }
}

/// No key occurs twice.
pub open spec fn clip_keys_unique(s: ClipEntries) -> bool {
    forall|i: int, j: int| 0 <= i < j < s.len() ==> (#[trigger] s[i]).0 != (#[trigger] s[j]).0
}

/// No key occurs twice.
pub open spec fn frame_keys_unique(s: FrameEntries) -> bool {
    forall|i: int, j: int| 0 <= i < j < s.len() ==> (#[trigger] s[i]).0 != (#[trigger] s[j]).0
}

impl ClipStore {
    /// Relies on lru::LruCache::new: a fresh empty cache with the given
    /// entry bound.
    #[verifier::external_body]
    pub(crate) fn new(cap: usize) -> (r: ClipStore)
        requires
            cap >= 1,
        ensures
            clip_store_seq(&r) == Seq::<(ClipKey, Seq<u8>)>::empty(),
            clip_store_cap(&r) == cap,
    {
        ClipStore { inner: LruCache::new(NonZeroUsize::new(cap).unwrap()) }
    }

    /// Relies on lru::LruCache::len.
    #[verifier::external_body]
    pub(crate) fn len(&self) -> (r: usize)
        ensures
            r == clip_store_seq(self).len(),
    {
        self.inner.len()
    }

    /// Relies on lru::LruCache::get: a hit is moved to the
    /// most-recently-used position and its value returned; a miss leaves
    /// the cache unchanged.
    #[verifier::external_body]
    pub(crate) fn get(&mut self, key: ClipKey) -> (r: Option<Vec<u8>>)
        requires
            clip_keys_unique(clip_store_seq(old(self))),
        ensures
            clip_store_cap(final(self)) == clip_store_cap(old(self)),
            clip_keys_unique(clip_store_seq(final(self))),
            ({
                let s = clip_store_seq(old(self));
                let i = clip_key_at(s, key);
                if i >= 0 {
                    match r {
                        Some(v) => v@ == s[i].1 && clip_store_seq(final(self)) == s.remove(i)
                            .insert(0, s[i]),
                        None => false,
                    }
                } else {
                    r is None && clip_store_seq(final(self)) == s
                }
            }),
    {
        self.inner.get(&key).cloned()
    }

    /// Relies on lru::LruCache::push: an existing key's value is
    /// replaced and moved to the most-recently-used position, returning
    /// the old pair; a new key evicts the least-recently-used entry when
    /// the cache is full, returning it; otherwise nothing comes back.
    #[verifier::external_body]
    pub(crate) fn push(&mut self, key: ClipKey, value: Vec<u8>) -> (r: Option<(ClipKey, Vec<u8>)>)
        requires
            clip_keys_unique(clip_store_seq(old(self))),
            clip_store_seq(old(self)).len() <= clip_store_cap(old(self)),
        ensures
            clip_store_cap(final(self)) == clip_store_cap(old(self)),
            clip_keys_unique(clip_store_seq(final(self))),
            clip_store_seq(final(self)).len() <= clip_store_cap(final(self)),
            ({
                let s = clip_store_seq(old(self));
                let i = clip_key_at(s, key);
                if i >= 0 {
                    clip_store_seq(final(self)) == s.remove(i).insert(0, (key, value@)) && (
                    match r {
                        Some(old_pair) => old_pair.0 == key && old_pair.1@ == s[i].1,
                        None => false,
                    })
                } else if s.len() == clip_store_cap(old(self)) {
                    clip_store_seq(final(self)) == s.drop_last().insert(0, (key, value@)) && (
                    match r {
                        Some(evicted) => evicted.0 == s.last().0 && evicted.1@ == s.last().1,
                        None => false,
                    })
                } else {
                    clip_store_seq(final(self)) == s.insert(0, (key, value@)) && r is None
                }
            }),
    {
        self.inner.push(key, value)
    }

    /// Relies on lru::LruCache::pop_lru: removes and returns the
    /// least-recently-used entry, if any.
    #[verifier::external_body]
    pub(crate) fn pop_lru(&mut self) -> (r: Option<(ClipKey, Vec<u8>)>)
        requires
            clip_keys_unique(clip_store_seq(old(self))),
        ensures
            clip_store_cap(final(self)) == clip_store_cap(old(self)),
            clip_keys_unique(clip_store_seq(final(self))),
            ({
                let s = clip_store_seq(old(self));
                if s.len() == 0 {
                    r is None && clip_store_seq(final(self)) == s
                } else {
                    clip_store_seq(final(self)) == s.drop_last() && (match r {
                        Some(last) => last.0 == s.last().0 && last.1@ == s.last().1,
                        None => false,
                    })
                }
            }),
    {
        self.inner.pop_lru()
    }
}

impl FrameStore {
    /// Relies on lru::LruCache::new: a fresh empty cache with the given
    /// entry bound.
    #[verifier::external_body]
    pub(crate) fn new(cap: usize) -> (r: FrameStore)
        requires
            cap >= 1,
        ensures
            frame_store_seq(&r) == Seq::<(i64, Seq<u8>)>::empty(),
            frame_store_cap(&r) == cap,
    {
        FrameStore { inner: LruCache::new(NonZeroUsize::new(cap).unwrap()) }
    }

    /// Relies on lru::LruCache::get: a hit is moved to the
    /// most-recently-used position and its value returned; a miss leaves
    /// the cache unchanged.
    #[verifier::external_body]
    pub(crate) fn get(&mut self, key: i64) -> (r: Option<Vec<u8>>)
        requires
            frame_keys_unique(frame_store_seq(old(self))),
        ensures
            frame_store_cap(final(self)) == frame_store_cap(old(self)),
            frame_keys_unique(frame_store_seq(final(self))),
            ({
                let s = frame_store_seq(old(self));
                let i = frame_key_at(s, key);
                if i >= 0 {
                    match r {
                        Some(v) => v@ == s[i].1 && frame_store_seq(final(self)) == s.remove(i)
                            .insert(0, s[i]),
                        None => false,
                    }
                } else {
                    r is None && frame_store_seq(final(self)) == s
                }
            }),
    {
        self.inner.get(&key).cloned()
    }

    /// Relies on lru::LruCache::push: an existing key's value is
    /// replaced and moved to the most-recently-used position, returning
    /// the old pair; a new key evicts the least-recently-used entry when
    /// the cache is full, returning it; otherwise nothing comes back.
    #[verifier::external_body]
    pub(crate) fn push(&mut self, key: i64, value: Vec<u8>) -> (r: Option<(i64, Vec<u8>)>)
        requires
            frame_keys_unique(frame_store_seq(old(self))),
            frame_store_seq(old(self)).len() <= frame_store_cap(old(self)),
        ensures
            frame_store_cap(final(self)) == frame_store_cap(old(self)),
            frame_keys_unique(frame_store_seq(final(self))),
            frame_store_seq(final(self)).len() <= frame_store_cap(final(self)),
            ({
                let s = frame_store_seq(old(self));
                let i = frame_key_at(s, key);
                if i >= 0 {
                    frame_store_seq(final(self)) == s.remove(i).insert(0, (key, value@)) && (
                    match r {
                        Some(old_pair) => old_pair.0 == key && old_pair.1@ == s[i].1,
                        None => false,
                    })
                } else if s.len() == frame_store_cap(old(self)) {
                    frame_store_seq(final(self)) == s.drop_last().insert(0, (key, value@)) && (
                    match r {
                        Some(evicted) => evicted.0 == s.last().0 && evicted.1@ == s.last().1,
                        None => false,
                    })
                } else {
                    frame_store_seq(final(self)) == s.insert(0, (key, value@)) && r is None
                }
            }),
    {
        self.inner.push(key, value)
    }
}

/// The index `clip_key_at` finds is in range and holds the key.
pub proof fn lemma_clip_key_at_props(s: ClipEntries, k: ClipKey)
    ensures
        -1 <= clip_key_at(s, k) < s.len(),
        clip_key_at(s, k) >= 0 ==> s[clip_key_at(s, k)].0 == k,
    decreases s.len(),
{
    if s.len() > 0 && s[0].0 != k {
        lemma_clip_key_at_props(s.drop_first(), k);
        if clip_key_at(s.drop_first(), k) >= 0 {
            assert(s.drop_first()[clip_key_at(s.drop_first(), k)] == s[1 + clip_key_at(
                s.drop_first(),
                k,
            )]);
        }
    }
}

/// The index `frame_key_at` finds is in range and holds the key.
pub proof fn lemma_frame_key_at_props(s: FrameEntries, k: i64)
    ensures
        -1 <= frame_key_at(s, k) < s.len(),
        frame_key_at(s, k) >= 0 ==> s[frame_key_at(s, k)].0 == k,
    decreases s.len(),
{
    if s.len() > 0 && s[0].0 != k {
        lemma_frame_key_at_props(s.drop_first(), k);
        if frame_key_at(s.drop_first(), k) >= 0 {
            assert(s.drop_first()[frame_key_at(s.drop_first(), k)] == s[1 + frame_key_at(
                s.drop_first(),
                k,
            )]);
        }
    }
}

/// Total byte size of all cached clip values.
pub open spec fn total_bytes(s: ClipEntries) -> int
    decreases s.len(),
{
    if s.len() == 0 {
        0
    } else {
        total_bytes(s.drop_last()) + s.last().1.len()
    }
}

proof fn lemma_total_bytes_nonneg(s: ClipEntries)
    ensures
        total_bytes(s) >= 0,
    decreases s.len(),
{
    if s.len() > 0 {
        lemma_total_bytes_nonneg(s.drop_last());
    }
}

/// After the store shrinks to a prefix, any key that lived only in the
/// dropped suffix is gone: looking it up misses, so its clip is
/// re-transcoded.
pub proof fn lemma_evicted_key_gone(s: ClipEntries, m: int, j: int)
    requires
        clip_keys_unique(s),
        0 <= m <= j < s.len(),
    ensures
        clip_key_at(s.take(m), s[j].0) == -1,
    decreases m,
{
    let k = s[j].0;
    if m > 0 {
        assert(s.take(m)[0] == s[0]);
        assert(s[0].0 != k);
        let rest = s.take(m).drop_first();
        assert(rest =~= s.drop_first().take(m - 1));
        lemma_evicted_key_gone(s.drop_first(), m - 1, j - 1);
        assert(s.drop_first()[j - 1] == s[j]);
    }
}

/// One decoded frame kept for previewing: its presentation timestamp and
/// its packed RGB pixels.
pub struct PreviewFrame {
    pub width: u32,
    pub height: u32,
    pub pts: i64,
    pub pixels: Vec<u8>,
}

/// The in-memory caches the clip- and frame-serving layer reads: clip
/// bytes keyed by canonicalized time range, preview bitmaps keyed by
/// presentation timestamp.
pub struct Cache {
    clip_cache: ClipStore,
    clip_bytes: u64,
    frame_cache: FrameStore,
}

impl Cache {
    /// The clip entries, most-recently-used first.
    pub closed spec fn clips_view(&self) -> ClipEntries {
        clip_store_seq(&self.clip_cache)
    }

    /// The frame entries, most-recently-used first.
    pub closed spec fn frames_view(&self) -> FrameEntries {
        frame_store_seq(&self.frame_cache)
    }

    /// Internal consistency: unique keys, bounded entry counts, and the
    /// running byte total equal to the sum of the cached clip sizes.
    pub closed spec fn wf(&self) -> bool {
        &&& clip_keys_unique(self.clips_view())
        &&& self.clips_view().len() <= clip_store_cap(&self.clip_cache)
        &&& clip_store_cap(&self.clip_cache) == CLIP_CACHE_ENTRIES
        &&& frame_keys_unique(self.frames_view())
        &&& self.frames_view().len() <= frame_store_cap(&self.frame_cache)
        &&& frame_store_cap(&self.frame_cache) == FRAME_CACHE_ENTRIES
        &&& self.clip_bytes == total_bytes(self.clips_view())
    }

    /// Empty caches.
    pub fn new() -> (r: Cache)
        ensures
            r.wf(),
            r.clips_view() == Seq::<(ClipKey, Seq<u8>)>::empty(),
            r.frames_view() == Seq::<(i64, Seq<u8>)>::empty(),
    {
        let c = Cache {
            clip_cache: ClipStore::new(CLIP_CACHE_ENTRIES),
            clip_bytes: 0,
            frame_cache: FrameStore::new(FRAME_CACHE_ENTRIES),
        };
        c
    }

    /// The cached bytes of a clip, promoting a hit to most recently
    /// used; a miss leaves the cache unchanged, and the caller
    /// transcodes and inserts.
    pub fn lookup_clip(&mut self, key: ClipKey) -> (r: Option<Vec<u8>>)
        requires
            old(self).wf(),
        ensures
            final(self).wf(),
            final(self).frames_view() == old(self).frames_view(),
            ({
                let s = old(self).clips_view();
                let i = clip_key_at(s, key);
                if i >= 0 {
                    match r {
                        Some(v) => v@ == s[i].1 && final(self).clips_view() == s.remove(i).insert(
                            0,
                            s[i],
                        ),
                        None => false,
                    }
                } else {
                    r is None && final(self).clips_view() == s
                }
            }),
    {
        proof {
            let s = self.clips_view();
            let i = clip_key_at(s, key);
            lemma_clip_key_at_props(s, key);
            if i >= 0 {
                lemma_total_bytes_promote(s, i);
            }
        }
        self.clip_cache.get(key)
    }

    /// Evicts least-recently-used clips while the cache exceeds its byte
    /// ceiling and holds at least two entries: afterwards the remaining
    /// entries are a most-recently-used prefix of what was there, and
    /// the total is under the ceiling unless a single entry alone
    /// exceeds it.
    pub fn limit_size(&mut self)
        requires
            old(self).wf(),
        ensures
            final(self).wf(),
            final(self).frames_view() == old(self).frames_view(),
            final(self).clips_view() == old(self).clips_view().take(
                final(self).clips_view().len() as int,
            ),
            final(self).clips_view().len() <= old(self).clips_view().len(),
            old(self).clips_view().len() >= 1 ==> final(self).clips_view().len() >= 1,
            total_bytes(final(self).clips_view()) <= CACHE_BYTE_CEILING
                || final(self).clips_view().len() <= 1,
            final(self).clips_view().len() < old(self).clips_view().len() ==> total_bytes(
                old(self).clips_view().take(final(self).clips_view().len() as int + 1),
            ) > CACHE_BYTE_CEILING,
    {
        let ghost orig = self.clips_view();
        proof {
            assert(orig.take(orig.len() as int) =~= orig);
        }
        loop
            invariant
                self.wf(),
                self.frames_view() == old(self).frames_view(),
                self.clips_view().len() <= orig.len(),
                orig.len() >= 1 ==> self.clips_view().len() >= 1,
                self.clips_view() == orig.take(self.clips_view().len() as int),
                self.clips_view().len() < orig.len() ==> total_bytes(orig.take(
                    self.clips_view().len() as int + 1,
                )) > CACHE_BYTE_CEILING,
            ensures
                self.wf(),
                self.frames_view() == old(self).frames_view(),
                self.clips_view().len() <= orig.len(),
                orig.len() >= 1 ==> self.clips_view().len() >= 1,
                self.clips_view() == orig.take(self.clips_view().len() as int),
                self.clips_view().len() < orig.len() ==> total_bytes(orig.take(
                    self.clips_view().len() as int + 1,
                )) > CACHE_BYTE_CEILING,
                total_bytes(self.clips_view()) <= CACHE_BYTE_CEILING || self.clips_view().len()
                    <= 1,
            decreases self.clips_view().len(),
        {
            if !(self.clip_bytes > CACHE_BYTE_CEILING && self.clip_cache.len() >= 2) {
                break;
            }
            let ghost pre = self.clips_view();
            let popped = self.clip_cache.pop_lru();
            match popped {
                Some((_, v)) => {
                    proof {
                        lemma_total_bytes_nonneg(pre.drop_last());
                    }
                    self.clip_bytes = self.clip_bytes - v.len() as u64;
                },
                None => {},
            }
            proof {
                assert(self.clips_view() =~= orig.take(pre.len() - 1)) by {
                    assert(pre == orig.take(pre.len() as int));
                    assert(self.clips_view() == pre.drop_last());
                    assert forall|j: int| 0 <= j < pre.len() - 1 implies pre.drop_last()[j]
                        == orig[j] by {
                        assert(pre[j] == orig.take(pre.len() as int)[j]);
                    }
                }
                // the prefix one longer than what remains was still over
                // the ceiling: that is why this entry was evicted
                assert(orig.take(self.clips_view().len() as int + 1) == pre);
                assert(total_bytes(pre) > CACHE_BYTE_CEILING);
            }
        }
    }

    /// Caches a transcoded clip's bytes and brings the cache back under
    /// its byte ceiling. The new entry itself always survives the
    /// eviction pass at the most-recently-used position.
    pub fn insert_clip(&mut self, key: ClipKey, data: Vec<u8>)
        requires
            old(self).wf(),
            total_bytes(old(self).clips_view()) + data@.len() <= u64::MAX,
        ensures
            final(self).wf(),
            final(self).frames_view() == old(self).frames_view(),
            final(self).clips_view().len() >= 1,
            final(self).clips_view()[0] == (key, data@),
            total_bytes(final(self).clips_view()) <= CACHE_BYTE_CEILING
                || final(self).clips_view().len() <= 1,
            ({
                let s = old(self).clips_view();
                let i = clip_key_at(s, key);
                let pushed = if i >= 0 {
                    s.remove(i).insert(0, (key, data@))
                } else if s.len() == CLIP_CACHE_ENTRIES {
                    s.drop_last().insert(0, (key, data@))
                } else {
                    s.insert(0, (key, data@))
                };
                &&& final(self).clips_view() == pushed.take(final(self).clips_view().len() as int)
                &&& (final(self).clips_view().len() < pushed.len() ==> total_bytes(pushed.take(
                    final(self).clips_view().len() as int + 1,
                )) > CACHE_BYTE_CEILING)
            }),
    {
        let ghost s = self.clips_view();
        let len = data.len();
        proof {
            let i = clip_key_at(s, key);
            lemma_clip_key_at_props(s, key);
            lemma_total_bytes_nonneg(s);
            if i >= 0 {
                lemma_total_bytes_remove(s, i);
                lemma_total_bytes_nonneg(s.remove(i));
            } else if s.len() == CLIP_CACHE_ENTRIES {
                lemma_total_bytes_remove(s, s.len() - 1);
                assert(s.remove(s.len() - 1) =~= s.drop_last());
                lemma_total_bytes_nonneg(s.drop_last());
            }
        }
        let evicted = self.clip_cache.push(key, data);
        match evicted {
            Some((_, v)) => {
                self.clip_bytes = self.clip_bytes - v.len() as u64 + len as u64;
            },
            None => {
                self.clip_bytes = self.clip_bytes + len as u64;
            },
        }
        proof {
            let i = clip_key_at(s, key);
            if i >= 0 {
                lemma_total_bytes_insert_front(s.remove(i), (key, data@));
            } else if s.len() == CLIP_CACHE_ENTRIES {
                lemma_total_bytes_insert_front(s.drop_last(), (key, data@));
            } else {
                lemma_total_bytes_insert_front(s, (key, data@));
            }
        }
        let ghost pushed = self.clips_view();
        self.limit_size();
        proof {
            assert(self.clips_view()[0] == pushed.take(self.clips_view().len() as int)[0]);
        }
    }

    /// The cached bitmap for a presentation timestamp, if any.
    pub fn get_frame(&mut self, pts: i64) -> (r: Option<Vec<u8>>)
        requires
            old(self).wf(),
        ensures
            final(self).wf(),
            final(self).clips_view() == old(self).clips_view(),
            ({
                let s = old(self).frames_view();
                let i = frame_key_at(s, pts);
                if i >= 0 {
                    match r {
                        Some(v) => v@ == s[i].1 && final(self).frames_view() == s.remove(i).insert(
                            0,
                            s[i],
                        ),
                        None => false,
                    }
                } else {
                    r is None && final(self).frames_view() == s
                }
            }),
    {
        proof {
            lemma_frame_key_at_props(self.frames_view(), pts);
        }
        self.frame_cache.get(pts)
    }

    /// Encodes a preview frame as a bitmap and caches it under its
    /// presentation timestamp, returning whatever entry this displaced.
    pub fn insert_frame(&mut self, frame: &PreviewFrame) -> (r: Option<(i64, Vec<u8>)>)
        requires
            old(self).wf(),
            frame.pixels@.len() == 3 * (frame.width as int * frame.height as int),
            1 <= frame.width <= 0x4000,
            1 <= frame.height <= 0x4000,
        ensures
            final(self).wf(),
            final(self).clips_view() == old(self).clips_view(),
            ({
                let s = old(self).frames_view();
                let i = frame_key_at(s, frame.pts);
                let image = bmp_bytes(frame.pixels@, frame.width, frame.height);
                if i >= 0 {
                    final(self).frames_view() == s.remove(i).insert(0, (frame.pts, image)) && (
                    match r {
                        Some(displaced) => displaced.0 == frame.pts && displaced.1@ == s[i].1,
                        None => false,
                    })
                } else if s.len() == FRAME_CACHE_ENTRIES {
                    final(self).frames_view() == s.drop_last().insert(0, (frame.pts, image)) && (
                    match r {
                        Some(displaced) => displaced.0 == s.last().0 && displaced.1@ == s.last().1,
                        None => false,
                    })
                } else {
                    final(self).frames_view() == s.insert(0, (frame.pts, image)) && r is None
                }
            }),
    {
        let image = pixels_to_bmp(&frame.pixels, frame.width, frame.height);
        self.frame_cache.push(frame.pts, image)
    }
}

/// Promoting an entry to the front does not change the byte total.
proof fn lemma_total_bytes_promote(s: ClipEntries, i: int)
    requires
        0 <= i < s.len(),
    ensures
        total_bytes(s.remove(i).insert(0, s[i])) == total_bytes(s),
{
    lemma_total_bytes_remove(s, i);
    lemma_total_bytes_insert_front(s.remove(i), s[i]);
}

/// Removing an entry subtracts exactly its size.
proof fn lemma_total_bytes_remove(s: ClipEntries, i: int)
    requires
        0 <= i < s.len(),
    ensures
        total_bytes(s.remove(i)) == total_bytes(s) - s[i].1.len(),
    decreases s.len(),
{
    if i == s.len() - 1 {
        assert(s.remove(i) =~= s.drop_last());
    } else {
        lemma_total_bytes_remove(s.drop_last(), i);
        assert(s.remove(i).drop_last() =~= s.drop_last().remove(i));
        assert(s.remove(i).last() == s.last());
    }
}

/// Prepending an entry adds exactly its size.
proof fn lemma_total_bytes_insert_front(s: ClipEntries, e: (ClipKey, Seq<u8>))
    ensures
        total_bytes(s.insert(0, e)) == total_bytes(s) + e.1.len(),
    decreases s.len(),
{
    let x = s.insert(0, e);
    assert(x.len() == s.len() + 1);
    if s.len() == 0 {
        assert(x.drop_last() =~= Seq::<(ClipKey, Seq<u8>)>::empty());
        assert(x.last() == e);
        assert(total_bytes(Seq::<(ClipKey, Seq<u8>)>::empty()) == 0);
        assert(total_bytes(x) == total_bytes(x.drop_last()) + x.last().1.len());
        assert(total_bytes(s) == 0);
    } else {
        lemma_total_bytes_insert_front(s.drop_last(), e);
        assert(x.drop_last() =~= s.drop_last().insert(0, e));
        assert(x.last() == s.last());
        assert(total_bytes(x) == total_bytes(x.drop_last()) + x.last().1.len());
        assert(total_bytes(s) == total_bytes(s.drop_last()) + s.last().1.len());
    }
}

} // verus!
