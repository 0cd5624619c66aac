use eclipper::cache_store::{cache_clips, clips_from_cache, CacheKey, EclipperCache};
use eclipper::clip::Clip;
use eclipper::clip_cache::{Cache, PreviewFrame};

const C: i64 = 1048576;

fn span(start: i64, end: i64) -> Clip {
    Clip { start, end }
}

fn key(spectating: bool, assists: bool) -> CacheKey {
    CacheKey { include_spectating: spectating, include_assists: assists }
}

#[test]
fn second_scan_is_served_from_cache() {
    let clips = vec![span(0, 4 * C), span(10 * C, 14 * C)];
    let kfs = vec![0, 2 * C, 4 * C];
    let stored = cache_clips(None, 1000, clips.clone(), kfs.clone(), key(false, false));
    // the same file and options yield the stored list, byte for byte
    assert_eq!(clips_from_cache(&stored, 1000, key(false, false)), Some(clips));
    assert_eq!(stored.keyframes, kfs);
}

#[test]
fn size_change_invalidates_every_entry() {
    let clips = vec![span(0, 4 * C)];
    let kfs = vec![0, 2 * C];
    let stored = cache_clips(None, 1000, clips.clone(), kfs, key(false, false));
    // a different byte length misses regardless of key
    assert_eq!(clips_from_cache(&stored, 1001, key(false, false)), None);
    // storing against the changed size rebuilds the record wholesale
    let kfs2 = vec![0, 3 * C];
    let restored = cache_clips(
        Some(stored),
        1001,
        vec![span(C, 2 * C)],
        kfs2.clone(),
        key(true, false),
    );
    assert_eq!(restored.file_size, 1001);
    assert_eq!(restored.keyframes, kfs2);
    assert_eq!(clips_from_cache(&restored, 1001, key(false, false)), None);
    assert_eq!(
        clips_from_cache(&restored, 1001, key(true, false)),
        Some(vec![span(C, 2 * C)])
    );
}

#[test]
fn option_change_reuses_keyframes_and_other_entries() {
    let kfs = vec![0, 2 * C, 4 * C];
    let stored = cache_clips(None, 500, vec![span(0, 2 * C)], kfs.clone(), key(false, false));
    // a second option set is stored beside the first, keyframes untouched
    let stored = cache_clips(
        Some(stored),
        500,
        vec![span(2 * C, 4 * C)],
        vec![9 * C],
        key(false, true),
    );
    assert_eq!(stored.keyframes, kfs);
    assert_eq!(
        clips_from_cache(&stored, 500, key(false, false)),
        Some(vec![span(0, 2 * C)])
    );
    assert_eq!(
        clips_from_cache(&stored, 500, key(false, true)),
        Some(vec![span(2 * C, 4 * C)])
    );
}

#[test]
fn storing_a_key_twice_replaces_its_list() {
    let stored = cache_clips(None, 7, vec![span(0, C)], vec![0], key(true, true));
    let stored = cache_clips(Some(stored), 7, vec![span(C, 2 * C)], vec![0], key(true, true));
    assert_eq!(
        clips_from_cache(&stored, 7, key(true, true)),
        Some(vec![span(C, 2 * C)])
    );
    assert_eq!(stored.clips.len(), 1);
}

#[test]
fn empty_record_misses() {
    let empty = EclipperCache { file_size: 3, keyframes: vec![], clips: vec![] };
    assert_eq!(clips_from_cache(&empty, 3, key(false, false)), None);
}

#[test]
fn clip_cache_hit_returns_inserted_bytes() {
    let mut cache = Cache::new();
    assert_eq!(cache.lookup_clip((2 * C, 6 * C)), None);
    cache.insert_clip((2 * C, 6 * C), vec![1, 2, 3, 4]);
    assert_eq!(cache.lookup_clip((2 * C, 6 * C)), Some(vec![1, 2, 3, 4]));
    // a different canonical range is a miss
    assert_eq!(cache.lookup_clip((2 * C, 6 * C + 1)), None);
}

#[test]
fn clip_cache_evicts_by_total_size() {
    let mut cache = Cache::new();
    // two entries of 260 MB exceed the 500 MB ceiling: the older one goes
    cache.insert_clip((0, C), vec![0u8; 260_000_000]);
    cache.insert_clip((C, 2 * C), vec![1u8; 260_000_000]);
    assert_eq!(cache.lookup_clip((0, C)), None);
    let kept = cache.lookup_clip((C, 2 * C)).expect("newest entry survives");
    assert_eq!(kept.len(), 260_000_000);
    assert_eq!(kept[0], 1);
}

#[test]
fn clip_cache_single_oversized_entry_survives() {
    let mut cache = Cache::new();
    cache.insert_clip((0, C), vec![7u8; 600_000_000]);
    // over the ceiling, but eviction never empties the cache
    assert!(cache.lookup_clip((0, C)).is_some());
}

#[test]
fn clip_cache_eviction_is_least_recently_used() {
    let mut cache = Cache::new();
    cache.insert_clip((0, 1), vec![0u8; 200_000_000]);
    cache.insert_clip((0, 2), vec![0u8; 200_000_000]);
    // touch the older entry so the middle one becomes least recently used
    assert!(cache.lookup_clip((0, 1)).is_some());
    cache.insert_clip((0, 3), vec![0u8; 200_000_000]);
    assert_eq!(cache.lookup_clip((0, 2)), None);
    assert!(cache.lookup_clip((0, 1)).is_some());
    assert!(cache.lookup_clip((0, 3)).is_some());
}

#[test]
fn frame_cache_round_trip_yields_bitmap() {
    let mut cache = Cache::new();
    let frame = PreviewFrame { width: 1, height: 1, pts: 42, pixels: vec![10, 20, 30] };
    assert_eq!(cache.insert_frame(&frame), None);
    let expected: Vec<u8> = vec![
        66, 77, 58, 0, 0, 0, 0, 0, 0, 0, 54, 0, 0, 0, 40, 0, 0, 0, 1, 0, 0, 0, 1, 0, 0, 0, 1, 0,
        24, 0, 0, 0, 0, 0, 4, 0, 0, 0, 35, 46, 0, 0, 35, 46, 0, 0, 0, 0, 0, 0, 0, 0, 0, 0, 30,
        20, 10, 0,
    ];
    assert_eq!(cache.get_frame(42), Some(expected.clone()));
    assert_eq!(cache.get_frame(43), None);
    // re-inserting the same timestamp hands back the displaced bitmap
    let replacement = PreviewFrame { width: 1, height: 1, pts: 42, pixels: vec![1, 2, 3] };
    assert_eq!(cache.insert_frame(&replacement), Some((42, expected)));
}

#[test]
fn frame_cache_evicts_after_fifty_entries() {
    let mut cache = Cache::new();
    for pts in 0..50 {
        let frame = PreviewFrame { width: 1, height: 1, pts, pixels: vec![0, 0, 0] };
        assert_eq!(cache.insert_frame(&frame), None);
    }
    // the fifty-first insert displaces the least recently used entry
    let frame = PreviewFrame { width: 1, height: 1, pts: 50, pixels: vec![0, 0, 0] };
    let evicted = cache.insert_frame(&frame).expect("cache is full");
    assert_eq!(evicted.0, 0);
    assert_eq!(cache.get_frame(0), None);
    assert!(cache.get_frame(1).is_some());
    assert!(cache.get_frame(50).is_some());
}
