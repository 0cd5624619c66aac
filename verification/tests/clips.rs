use eclipper::clip::{
    find_seek_keyframe, join_segment_clips, lower_bound, merge_overlapping_clips,
    post_process_clips, push_clip, snap_clips_to_keyframes, Clip,
};

const C: i64 = 1048576;

fn clip(start: i64, end: i64) -> Clip {
    Clip { start, end }
}

#[test]
fn lower_bound_finds_first_at_or_after() {
    let kf = vec![0, 10, 20, 20, 30];
    assert_eq!(lower_bound(&kf, -5), 0);
    assert_eq!(lower_bound(&kf, 0), 0);
    assert_eq!(lower_bound(&kf, 1), 1);
    assert_eq!(lower_bound(&kf, 20), 2);
    assert_eq!(lower_bound(&kf, 21), 4);
    assert_eq!(lower_bound(&kf, 31), 5);
}

#[test]
fn seek_keyframe_is_latest_strictly_before() {
    let kf = vec![0, 1000, 2000, 3000];
    assert_eq!(find_seek_keyframe(&kf, 2500), Some(2000));
    assert_eq!(find_seek_keyframe(&kf, 2000), Some(1000));
    assert_eq!(find_seek_keyframe(&kf, 500), Some(0));
    assert_eq!(find_seek_keyframe(&kf, 0), None);
}

#[test]
fn push_clip_merges_touching_windows() {
    let mut clips = Vec::new();
    push_clip(&mut clips, 2 * C, 6 * C);
    assert_eq!(clips, vec![clip(2 * C, 6 * C)]);
    // overlapping window extends the last clip
    push_clip(&mut clips, 5 * C, 9 * C);
    assert_eq!(clips, vec![clip(2 * C, 9 * C)]);
    // disjoint window is appended
    push_clip(&mut clips, 12 * C, 14 * C);
    assert_eq!(clips, vec![clip(2 * C, 9 * C), clip(12 * C, 14 * C)]);
}

#[test]
fn push_clip_clamps_negative_start() {
    let mut clips = Vec::new();
    push_clip(&mut clips, -3 * C, 2 * C);
    assert_eq!(clips, vec![clip(0, 2 * C)]);
}

#[test]
fn join_coalesces_segment_seams() {
    let lists = vec![
        vec![clip(1 * C, 4 * C)],
        vec![clip(3 * C, 6 * C), clip(8 * C, 9 * C)],
    ];
    let joined = join_segment_clips(&lists);
    assert_eq!(joined, vec![clip(1 * C, 6 * C), clip(8 * C, 9 * C)]);
}

#[test]
fn join_keeps_disjoint_segments_apart() {
    let lists = vec![vec![clip(0, C)], vec![clip(2 * C, 3 * C)]];
    let joined = join_segment_clips(&lists);
    assert_eq!(joined, vec![clip(0, C), clip(2 * C, 3 * C)]);
}

#[test]
fn snap_start_falls_back_past_half_second() {
    // keyframes every two seconds
    let kf: Vec<i64> = (0..5).map(|k| 2 * k * C).collect();
    // 2.0s - 1.2s > 0.5s: the start falls back to the previous keyframe
    let mut clips = vec![clip((12 * C) / 10, (37 * C) / 10)];
    snap_clips_to_keyframes(&mut clips, &kf);
    assert_eq!(clips, vec![clip(0, 4 * C)]);
    // 2.0s - 1.8s <= 0.5s: the start snaps forward
    let mut clips = vec![clip((18 * C) / 10, (39 * C) / 10)];
    snap_clips_to_keyframes(&mut clips, &kf);
    assert_eq!(clips, vec![clip(2 * C, 4 * C)]);
}

#[test]
fn merge_combines_overlapping_neighbours() {
    let mut clips = vec![clip(0, 3 * C), clip(2 * C, 5 * C), clip(7 * C, 8 * C)];
    merge_overlapping_clips(&mut clips);
    assert_eq!(clips, vec![clip(0, 5 * C), clip(7 * C, 8 * C)]);
}

#[test]
fn post_process_snaps_and_merges() {
    let kf: Vec<i64> = (0..5).map(|k| 2 * k * C).collect();
    let lists = vec![
        vec![clip((12 * C) / 10, (37 * C) / 10)],
        vec![clip((35 * C) / 10, (51 * C) / 10)],
    ];
    let result = post_process_clips(&lists, &kf);
    assert_eq!(result, vec![clip(0, 6 * C)]);
}

#[test]
fn post_process_result_is_sorted_disjoint_and_keyframe_aligned() {
    let kf: Vec<i64> = (0..20).map(|k| k * C).collect();
    let lists = vec![
        vec![clip(C / 2, 3 * C), clip(5 * C + 1, 7 * C - 1)],
        vec![clip(13 * C / 2, 9 * C), clip(11 * C, 12 * C)],
    ];
    let result = post_process_clips(&lists, &kf);
    for w in result.windows(2) {
        assert!(w[0].start <= w[1].start);
        assert!(w[0].end <= w[1].start);
    }
    for c in &result {
        assert!(c.start <= c.end);
        assert!(kf.contains(&c.start));
        assert!(kf.contains(&c.end));
    }
}
