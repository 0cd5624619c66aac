use eclipper::matching::{eq_bytes, find_sub, has_pattern, text_matches, to_lower_bytes};
use eclipper::pixels::FRAC_DEN;
use eclipper::profiles::{
    clip_window, default_search_params, effective_before, initial_last_times,
    needs_spectator_check, profile_blocked, record_match, search_rect, skip_for_assists, Args,
    SearchArea, SearchParam,
};
use eclipper::segments::{plan_segments, scan_speed, segment_progress, ProgressTracker};

const C: i64 = 1048576;

#[test]
fn lowercasing_is_ascii_only() {
    assert_eq!(to_lower_bytes(&b"ELIMinated!9".to_vec()), b"eliminated!9".to_vec());
}

#[test]
fn substring_search() {
    assert!(find_sub(&b"you eliminated x".to_vec(), &b"eliminated".to_vec()));
    assert!(!find_sub(&b"nothing here".to_vec(), &b"eliminated".to_vec()));
    assert!(find_sub(&b"abc".to_vec(), &b"".to_vec()));
    assert!(!find_sub(&b"ab".to_vec(), &b"abc".to_vec()));
}

#[test]
fn recognized_text_matches_lowercased_patterns() {
    let patterns = vec![b"elim".to_vec(), b"assis".to_vec()];
    assert!(text_matches(&b"YOU WERE ELIMINATED".to_vec(), &patterns));
    assert!(text_matches(&b"an AsSist happened".to_vec(), &patterns));
    assert!(!text_matches(&b"round won".to_vec(), &patterns));
    assert!(!text_matches(&b"whatever".to_vec(), &vec![]));
}

#[test]
fn byte_equality_and_membership() {
    assert!(eq_bytes(&b"ass".to_vec(), &b"ass".to_vec()));
    assert!(!eq_bytes(&b"ass".to_vec(), &b"as".to_vec()));
    let patterns = vec![b"iminated".to_vec(), b"x".to_vec()];
    assert!(has_pattern(&patterns, &b"iminated".to_vec()));
    assert!(!has_pattern(&patterns, &b"winners".to_vec()));
}

#[test]
fn elimination_profiles_use_the_configured_duration() {
    let elim = vec![b"elim".to_vec(), b"iminated".to_vec()];
    let other = vec![b"winners".to_vec()];
    assert_eq!(effective_before(&elim, 4 * C, 9 * C), 9 * C);
    assert_eq!(effective_before(&other, 10 * C, 9 * C), 10 * C);
}

#[test]
fn assist_and_spectator_gating() {
    let assists = vec![b"ass".to_vec(), b"ssist".to_vec()];
    let winners = vec![b"winners".to_vec()];
    assert!(skip_for_assists(false, &assists));
    assert!(!skip_for_assists(true, &assists));
    assert!(!skip_for_assists(false, &winners));
    assert!(needs_spectator_check(false, &assists));
    assert!(!needs_spectator_check(false, &winners));
    assert!(!needs_spectator_check(true, &assists));
}

#[test]
fn debounce_blocks_only_the_matched_profile() {
    let params = default_search_params();
    let mut last = initial_last_times(params.len());
    assert!(!profile_blocked(&last, &params, 0, 0));
    assert!(!profile_blocked(&last, &params, 2, 0));
    // the round-win profile has a 30 second timeout: after its match it
    // sits frames out, the elimination profiles stay eligible
    record_match(&mut last, 2, 100 * C);
    assert!(profile_blocked(&last, &params, 2, 110 * C));
    assert!(!profile_blocked(&last, &params, 0, 110 * C));
    assert!(!profile_blocked(&last, &params, 1, 110 * C));
    assert!(!profile_blocked(&last, &params, 2, 130 * C));
    // elimination profiles have no timeout
    record_match(&mut last, 0, 200 * C);
    assert!(!profile_blocked(&last, &params, 0, 200 * C));
}

#[test]
fn built_in_profiles_keep_their_calibration() {
    let params = default_search_params();
    assert_eq!(params.len(), 3);
    match &params[0] {
        SearchParam::Text {
            patterns,
            timeout,
            clip_length_before,
            clip_length_after,
            search_area,
            binarisation_params,
            brightness_contrast_params,
            resize,
        } => {
            assert_eq!(patterns.len(), 37);
            assert_eq!(patterns[0], b"elim".to_vec());
            assert_eq!(*timeout, 0);
            assert_eq!(*clip_length_before, 4 * C);
            assert_eq!(*clip_length_after, 0);
            assert_eq!(
                (search_area.top, search_area.left, search_area.width, search_area.height),
                (604000, 200000, 420000, 91000)
            );
            assert_eq!(binarisation_params.min_rgb, [215, 215, 215]);
            assert_eq!(binarisation_params.max_rgb, [255, 254, 253]);
            let bc = brightness_contrast_params.as_ref().unwrap();
            assert_eq!((bc.brightness, bc.contrast, bc.invert), (-800000, 10000000, true));
            assert_eq!(resize.as_ref().unwrap().height, 720);
        }
        _ => panic!("first profile is a text profile"),
    }
    match &params[2] {
        SearchParam::Text { timeout, clip_length_before, clip_length_after, resize, .. } => {
            assert_eq!(*timeout, 30 * C);
            assert_eq!(*clip_length_before, 10 * C);
            assert_eq!(*clip_length_after, 10 * C);
            assert_eq!(resize.as_ref().unwrap().height, 360);
        }
        _ => panic!("third profile is a text profile"),
    }
    assert_eq!(params[0].timeout(), 0);
    assert_eq!(params[2].timeout(), 30 * C);
}

#[test]
fn search_rectangle_in_pixels() {
    let area = SearchArea { top: 604000, left: 200000, width: 420000, height: 91000 };
    let r = search_rect(&area, 1280, 720);
    assert_eq!((r.left, r.top, r.width, r.height), (256, 434, 537, 65));
}

#[test]
fn match_window_around_the_match_time() {
    assert_eq!(clip_window(10 * C, 4 * C, 0), (6 * C, 10 * C));
    assert_eq!(clip_window(10 * C, 10 * C, 10 * C), (0, 20 * C));
}

#[test]
fn partitioning_respects_thread_cap_and_duration() {
    let kf: Vec<i64> = vec![0, 30 * C, 60 * C, 90 * C];
    let segments = plan_segments(100 * C, 4, &kf);
    assert_eq!(segments.len(), 4);
    assert_eq!(segments[0].start, 0);
    assert_eq!(segments[0].seek, 0);
    assert_eq!(segments[3].end, 100 * C);
    for s in &segments {
        assert!(s.seek <= s.start);
    }
    // a short video refuses extra workers: 45s allows ceil(45/30)+1 = 3
    let segments = plan_segments(45 * C, 16, &kf);
    assert_eq!(segments.len(), 3);
    assert_eq!(segments[0].start, 0);
    assert_eq!(segments[2].end, 45 * C);
    // just over a thirty-second stretch rounds up: ceil(31/30)+1 = 3
    let segments = plan_segments(31 * C, 16, &kf);
    assert_eq!(segments.len(), 3);
    // exactly one stretch: ceil(30/30)+1 = 2
    let segments = plan_segments(30 * C, 16, &kf);
    assert_eq!(segments.len(), 2);
}

#[test]
fn progress_is_averaged_and_closed_workers_count_full() {
    let mut t = ProgressTracker::new(2);
    assert_eq!(t.overall(), 0);
    t.update(0, 5000);
    assert_eq!(t.overall(), 2500);
    t.close(1);
    assert_eq!(t.overall(), 7500);
    assert!(!t.all_closed());
    t.close(0);
    assert!(t.all_closed());
    assert_eq!(t.overall(), 10000);
}

#[test]
fn segment_progress_is_capped() {
    assert_eq!(segment_progress(5 * C, 0, 10 * C), 5000);
    assert_eq!(segment_progress(15 * C, 0, 10 * C), 10000);
    assert_eq!(segment_progress(0, 0, 10 * C), 0);
}

#[test]
fn throughput_in_video_units_per_second() {
    // half the video (50%) of a 100 second recording in one second of
    // wallclock: fifty seconds of video per second
    assert_eq!(scan_speed(5000, 100 * C, 1000), 50 * C);
    assert_eq!(scan_speed(0, 100 * C, 1000), 0);
    assert_eq!(scan_speed(5000, 100 * C, 2000), 25 * C);
}

#[test]
fn scan_options_carry_over() {
    let args = Args {
        include_assists: true,
        include_spectating: false,
        elim_clip_duration: 4 * C,
        threads: 8,
    };
    assert!(args.include_assists);
    assert!(!args.include_spectating);
    assert_eq!(args.elim_clip_duration, 4 * FRAC_DEN / FRAC_DEN * C);
    assert_eq!(args.threads, 8);
}
