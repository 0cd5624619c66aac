//! Durable scan-result cache.
//!
//! A scan's clip list is memoized per detection-option key, together with
//! the keyframe table and the source file's byte length. A stored record
//! is only valid while the file's byte length is unchanged; a mismatch
//! invalidates every stored clip list and the record is rebuilt around
//! fresh keyframes. Reading and writing the record on disk is the host's
//! concern; this module owns the record's contents and validity rules.

use vstd::prelude::*;
use crate::clip::Clip;

verus! {

/// Detection options that key a memoized clip list.
#[derive(Clone, Copy, PartialEq, Eq, Structural, Hash, Debug)]
pub struct CacheKey {
    pub include_spectating: bool,
    pub include_assists: bool,
}

/// One durable cache record: file identity, keyframe table, and one clip
/// list per detection-option key (keys unique).
pub struct EclipperCache {
    pub file_size: u64,
    pub keyframes: Vec<i64>,
    pub clips: Vec<(CacheKey, Vec<Clip>)>,
}

/// Index of the entry with key `k`, or -1 when absent.
pub open spec fn key_index(entries: Seq<(CacheKey, Vec<Clip>)>, k: CacheKey) -> int
    decreases entries.len(),
{
    if entries.len() == 0 {
        -1
    } else if entries[0].0 == k {
        0
    } else {
        let r = key_index(entries.drop_first(), k);
        if r < 0 {
            -1
        } else {
            1 + r
        }
    }
}

/// The clip list stored under key `k`, if any.
pub open spec fn lookup_in(entries: Seq<(CacheKey, Vec<Clip>)>, k: CacheKey) -> Option<Seq<Clip>> {
    let i = key_index(entries, k);
    if i >= 0 {
        Some(entries[i].1@)
    } else {
        None
    }
}

/// The entry list after storing `clips` under `k`: the existing entry is
/// replaced in place, or a new entry is appended.
pub open spec fn store_in(
    entries: Seq<(CacheKey, Vec<Clip>)>,
    k: CacheKey,
    clips: Vec<Clip>,
) -> Seq<(CacheKey, Vec<Clip>)> {
    let i = key_index(entries, k);
    if i >= 0 {
        entries.update(i, (k, clips))
    } else {
        entries.push((k, clips))
    }
}

pub proof fn lemma_key_index_props(entries: Seq<(CacheKey, Vec<Clip>)>, k: CacheKey)
    ensures
        -1 <= key_index(entries, k) < entries.len(),
        key_index(entries, k) == -1
            ==> forall|i: int| 0 <= i < entries.len() ==> (#[trigger] entries[i]).0 != k,
        key_index(entries, k) >= 0 ==> entries[key_index(entries, k)].0 == k,
        forall|i: int| 0 <= i < key_index(entries, k) ==> (#[trigger] entries[i]).0 != k,
    decreases entries.len(),
{
    if entries.len() == 0 {
    } else if entries[0].0 == k {
    } else {
        let rest = entries.drop_first();
        lemma_key_index_props(rest, k);
        let r = key_index(rest, k);
        if r < 0 {
            assert forall|i: int| 0 <= i < entries.len() implies (#[trigger] entries[i]).0 != k by {
                if i > 0 {
                    assert(rest[i - 1] == entries[i]);
                }
            }
        } else {
            assert(entries[1 + r] == rest[r]);
            assert forall|i: int| 0 <= i < 1 + r implies (#[trigger] entries[i]).0 != k by {
                if i > 0 {
                    assert(rest[i - 1] == entries[i]);
                }
            }
        }
    }
}

/// The first index holding key `k` is exactly `key_index`.
pub proof fn lemma_key_index_unique(entries: Seq<(CacheKey, Vec<Clip>)>, k: CacheKey, i: int)
    requires
        0 <= i < entries.len(),
        entries[i].0 == k,
        forall|j: int| 0 <= j < i ==> (#[trigger] entries[j]).0 != k,
    ensures
        key_index(entries, k) == i,
    decreases entries.len(),
{
    if entries[0].0 == k {
        assert(i == 0);
    } else {
        let rest = entries.drop_first();
        assert(rest[i - 1] == entries[i]);
        assert forall|j: int| 0 <= j < i - 1 implies (#[trigger] rest[j]).0 != k by {
            assert(rest[j] == entries[j + 1]);
        }
        lemma_key_index_unique(rest, k, i - 1);
    }
}

/// Looking a key up right after storing it yields exactly what was
/// stored: a repeated scan with unchanged options is served verbatim
/// from the cache.
pub proof fn lemma_cache_round_trip(
    entries: Seq<(CacheKey, Vec<Clip>)>,
    k: CacheKey,
    clips: Vec<Clip>,
)
    ensures
        lookup_in(store_in(entries, k, clips), k) == Some(clips@),
{
    lemma_key_index_props(entries, k);
    let i = key_index(entries, k);
    if i >= 0 {
        let stored = entries.update(i, (k, clips));
        assert forall|j: int| 0 <= j < i implies (#[trigger] stored[j]).0 != k by {
            assert(stored[j] == entries[j]);
        }
        lemma_key_index_unique(stored, k, i);
    } else {
        let stored = entries.push((k, clips));
        assert forall|j: int| 0 <= j < entries.len() implies (#[trigger] stored[j]).0 != k by {
            assert(stored[j] == entries[j]);
        }
        lemma_key_index_unique(stored, k, entries.len() as int);
    }
}

/// Storing under one key leaves every other key's stored clip list
/// untouched: changing only detection options never clobbers the lists
/// memoized for other options.
pub proof fn lemma_store_preserves_others(
    entries: Seq<(CacheKey, Vec<Clip>)>,
    k: CacheKey,
    clips: Vec<Clip>,
    k2: CacheKey,
)
    requires
        k2 != k,
    ensures
        lookup_in(store_in(entries, k, clips), k2) == lookup_in(entries, k2),
{
    lemma_key_index_props(entries, k);
    lemma_key_index_props(entries, k2);
    let i = key_index(entries, k);
    let i2 = key_index(entries, k2);
    let stored = store_in(entries, k, clips);
    if i2 >= 0 {
        assert(stored[i2].0 == k2 && stored[i2].1 == entries[i2].1) by {
            if i >= 0 {
                assert(entries[i].0 == k);
                assert(i != i2);
            }
        }
        assert forall|j: int| 0 <= j < i2 implies (#[trigger] stored[j]).0 != k2 by {
            if i >= 0 && j == i {
                assert(stored[j].0 == k);
            } else {
                assert(stored[j] == entries[j]);
            }
        }
        lemma_key_index_unique(stored, k2, i2);
    } else {
        lemma_key_index_props(stored, k2);
        if key_index(stored, k2) >= 0 {
            let w = key_index(stored, k2);
            assert(stored[w].0 == k2);
            if i >= 0 {
                assert(stored[w] == entries[w]);
            } else {
                if w < entries.len() {
                    assert(stored[w] == entries[w]);
                } else {
                    assert(stored[w].0 == k);
                }
            }
        }
    }
}

/// An empty record freshly keyed by one entry holds nothing under any
/// other key: a byte-length change invalidates every previously stored
/// clip list.
pub proof fn lemma_fresh_record_single_key(k: CacheKey, clips: Vec<Clip>, k2: CacheKey)
    requires
        k2 != k,
    ensures
        lookup_in(store_in(Seq::empty(), k, clips), k2) == None::<Seq<Clip>>,
{
    lemma_store_preserves_others(Seq::empty(), k, clips, k2);
}

/// Copies a clip list.
pub fn copy_clips(v: &Vec<Clip>) -> (r: Vec<Clip>)
    ensures
        r@ == v@,
{
    let mut r: Vec<Clip> = Vec::new();
    let mut i: usize = 0;
    while i < v.len()
        invariant
            i <= v@.len(),
            r@ == v@.subrange(0, i as int),
        decreases v@.len() - i,
    {
        r.push(v[i]);
        i += 1;
    }
    proof {
        assert(v@.subrange(0, v@.len() as int) =~= v@);
    }
    r
}

/// The clip list memoized for `key`, provided the record still describes
/// a file of `file_size` bytes; any mismatch is a cache miss.
pub fn clips_from_cache(cache: &EclipperCache, file_size: u64, key: CacheKey) -> (r: Option<
    Vec<Clip>,
>)
    ensures
        match r {
            Some(v) => cache.file_size == file_size
                && lookup_in(cache.clips@, key) == Some(v@),
            None => cache.file_size != file_size
                || lookup_in(cache.clips@, key) is None,
        },
{
    proof {
        lemma_key_index_props(cache.clips@, key);
    }
    if cache.file_size != file_size {
        return None;
    }
    let mut i: usize = 0;
    while i < cache.clips.len()
        invariant
            i <= cache.clips@.len(),
            cache.file_size == file_size,
            forall|j: int| 0 <= j < i ==> (#[trigger] cache.clips@[j]).0 != key,
        decreases cache.clips@.len() - i,
    {
        if cache.clips[i].0 == key {
            proof {
                lemma_key_index_unique(cache.clips@, key, i as int);
            }
            return Some(copy_clips(&cache.clips[i].1));
        }
        i += 1;
    }
    None
}

/// Builds the record to persist after a scan: a record whose byte length
/// still matches keeps its keyframes and its other keys' entries; any
/// other record is replaced wholesale by a fresh one holding the new
/// keyframes and only the new entry.
pub fn cache_clips(
    cache: Option<EclipperCache>,
    file_size: u64,
    clips: Vec<Clip>,
    keyframes: Vec<i64>,
    key: CacheKey,
) -> (r: EclipperCache)
    ensures
        r.file_size == file_size,
        match cache {
            Some(c) => {
                if c.file_size == file_size {
                    r.keyframes@ == c.keyframes@ && r.clips@ == store_in(c.clips@, key, clips)
                } else {
                    r.keyframes@ == keyframes@
                        && r.clips@ == store_in(Seq::empty(), key, clips)
                }
            },
            None => r.keyframes@ == keyframes@ && r.clips@ == store_in(Seq::empty(), key, clips),
        },
{
    let ghost gcache = cache;
    let ghost gkeyframes = keyframes@;
    let mut base = match cache {
        Some(c) => {
            if c.file_size == file_size {
                EclipperCache { file_size, keyframes: c.keyframes, clips: c.clips }
            } else {
                EclipperCache { file_size, keyframes, clips: Vec::new() }
            }
        },
        None => EclipperCache { file_size, keyframes, clips: Vec::new() },
    };
    let ghost entries = base.clips@;
    proof {
        lemma_key_index_props(entries, key);
    }
    let mut i: usize = 0;
    while i < base.clips.len()
        invariant
            i <= base.clips@.len(),
            base.clips@ == entries,
            base.file_size == file_size,
            gcache == cache,
            gkeyframes == keyframes@,
            match gcache {
                Some(c) => {
                    if c.file_size == file_size {
                        base.keyframes@ == c.keyframes@ && entries == c.clips@
                    } else {
                        base.keyframes@ == gkeyframes && entries =~= Seq::<(CacheKey, Vec<Clip>)>::empty()
                    }
                },
                None => base.keyframes@ == gkeyframes && entries =~= Seq::<(CacheKey, Vec<Clip>)>::empty(),
            },
            forall|j: int| 0 <= j < i ==> (#[trigger] entries[j]).0 != key,
        decreases base.clips@.len() - i,
    {
        if base.clips[i].0 == key {
            proof {
                lemma_key_index_unique(entries, key, i as int);
            }
            base.clips[i] = (key, clips);
            return base;
        }
        i += 1;
    }
    proof {
        assert(key_index(entries, key) < 0) by {
            if key_index(entries, key) >= 0 {
                assert(entries[key_index(entries, key)].0 == key);
            }
        }
    }
    base.clips.push((key, clips));
    base
}

} // verus!
