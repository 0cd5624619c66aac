use eclipper::bmp::pixels_to_bmp;
use eclipper::decoder::{
    choose_device_type, choose_pixel_format, collect_keyframes, duration_from_raw,
    keyframes_to_secs, keyframes_to_ticks, sample_step, transcode_packet_action, PacketAction,
    PacketInfo,
};
use eclipper::time::{convert_timebase, secs_to_ts, t_to_secs, Timebase};
use eclipper::writer::{build_stream_mapping, warmup_keyframe, ClipWriterState, MediaKind};

const C: i64 = 1048576;

#[test]
fn tick_conversions_are_exact() {
    let tb90k = Timebase { num: 1, den: 90000 };
    let tb_ms = Timebase { num: 1, den: 1000 };
    assert_eq!(t_to_secs(90000, tb90k), C);
    assert_eq!(t_to_secs(45000, tb90k), C / 2);
    assert_eq!(secs_to_ts(C, tb_ms), 1000);
    assert_eq!(secs_to_ts(C, tb90k), 90000);
    assert_eq!(convert_timebase(1000, tb_ms, tb90k), 90000);
    assert_eq!(convert_timebase(90000, tb90k, tb_ms), 1000);
}

#[test]
fn converting_between_equal_timebases_is_the_identity() {
    // the direct rational conversion never drifts between equal
    // timebases, even for ones finer than a canonical unit
    let fine = Timebase { num: 1, den: 0x7fff_ffff };
    assert_eq!(convert_timebase(3, fine, fine), 3);
    assert_eq!(convert_timebase(12345, fine, fine), 12345);
    let tb90k = Timebase { num: 1, den: 90000 };
    assert_eq!(convert_timebase(12345, tb90k, tb90k), 12345);
}

#[test]
fn tick_canonical_round_trip_loses_at_most_one_tick() {
    // a millisecond tick outlasts a canonical unit, so the round trip
    // stays within one tick (here: exactly one below)
    let tb_ms = Timebase { num: 1, den: 1000 };
    let canon = t_to_secs(123, tb_ms);
    assert_eq!(secs_to_ts(canon, tb_ms), 122);
    // an exact second survives unchanged
    let canon = t_to_secs(1000, tb_ms);
    assert_eq!(secs_to_ts(canon, tb_ms), 1000);
}

#[test]
fn duration_handles_missing_timestamp() {
    assert_eq!(duration_from_raw(i64::MIN), 0);
    // one second of the container clock
    assert_eq!(duration_from_raw(1000000), C);
    assert_eq!(duration_from_raw(500000), C / 2);
}

#[test]
fn sampling_hits_ten_frames_per_second() {
    assert_eq!(sample_step(30, 1), 3);
    assert_eq!(sample_step(60, 1), 6);
    // 60000/1001 is 59.94 frames per second: rounds to 6
    assert_eq!(sample_step(60000, 1001), 6);
    // 30000/1001 is 29.97: rounds to 3
    assert_eq!(sample_step(30000, 1001), 3);
    // 24 fps rounds 2.4 down to 2
    assert_eq!(sample_step(24, 1), 2);
}

#[test]
fn device_negotiation_prefers_the_tuned_accelerators() {
    assert_eq!(choose_device_type(&vec![1, 3, 4, 5]), Some(4));
    assert_eq!(choose_device_type(&vec![1, 2, 4]), Some(2));
    assert_eq!(choose_device_type(&vec![1, 3]), Some(1));
    assert_eq!(choose_device_type(&vec![]), None);
}

#[test]
fn pixel_format_negotiation() {
    assert_eq!(choose_pixel_format(Some(7), &vec![5, 7, 9]), 7);
    assert_eq!(choose_pixel_format(Some(7), &vec![5, 6]), 5);
    assert_eq!(choose_pixel_format(Some(7), &vec![]), -1);
    assert_eq!(choose_pixel_format(None, &vec![5, 6]), -1);
}

#[test]
fn keyframe_scan_keeps_key_packets_of_the_video_stream() {
    let packets = vec![
        PacketInfo { stream_index: 0, is_key: true, pts: 10 },
        PacketInfo { stream_index: 1, is_key: true, pts: 20 },
        PacketInfo { stream_index: 0, is_key: false, pts: 30 },
        PacketInfo { stream_index: 0, is_key: true, pts: 40 },
    ];
    assert_eq!(collect_keyframes(&packets, 0), vec![10, 40]);
    assert_eq!(collect_keyframes(&packets, 1), vec![20]);
}

#[test]
fn keyframe_table_converts_both_ways() {
    let tb = Timebase { num: 1, den: 1000 };
    let canon = vec![0, C, 2 * C];
    assert_eq!(keyframes_to_ticks(&canon, tb), vec![0, 1000, 2000]);
    assert_eq!(keyframes_to_secs(&vec![0, 1000, 2000], tb), canon);
}

#[test]
fn stream_mapping_numbers_copied_streams() {
    let kinds = vec![MediaKind::Video, MediaKind::Audio, MediaKind::Other, MediaKind::Subtitle];
    assert_eq!(build_stream_mapping(&kinds), vec![0, 1, -1, 2]);
}

#[test]
fn warmup_seeks_two_keyframes_early() {
    let kf = vec![0, 1000, 2000, 3000];
    assert_eq!(warmup_keyframe(&kf, 2500), Some(1000));
    assert_eq!(warmup_keyframe(&kf, 2000), Some(0));
    assert_eq!(warmup_keyframe(&kf, 500), Some(0));
    assert_eq!(warmup_keyframe(&kf, 3500), None);
}

#[test]
fn remux_timeline_is_contiguous_across_two_clips() {
    // clips [2s, 6s] and [10s, 14s] in millisecond ticks
    let mut w = ClipWriterState::new();

    w.begin_clip();
    let mut first_retimed = None;
    for pts in [2000i64, 3000, 4000, 5000] {
        assert!(ClipWriterState::include_packet(Some(pts), 2000, 6000));
        let offset = w.note_pts(pts);
        if first_retimed.is_none() {
            first_retimed = Some(pts + offset);
        }
        w.note_video_packet(pts, 1000);
    }
    // the first clip starts the output timeline at zero
    assert_eq!(first_retimed, Some(0));
    assert!(!ClipWriterState::include_packet(Some(6000), 2000, 6000));
    assert!(!ClipWriterState::include_packet(Some(1000), 2000, 6000));
    w.finish_clip();
    let clip1_duration = w.end_ts;
    assert_eq!(clip1_duration, 4000);

    w.begin_clip();
    let offset = w.note_pts(10000);
    // the second clip's first frame lands exactly at the first clip's
    // retimed duration: no gap and no overlap at the seam
    assert_eq!(10000 + offset, clip1_duration);
    w.note_video_packet(10000, 1000);
    w.finish_clip();
    assert_eq!(w.end_ts, 5000);
}

#[test]
fn packets_without_timestamps_follow_the_window_defaults() {
    assert!(ClipWriterState::include_packet(None, 0, 1000) == false);
    assert!(ClipWriterState::include_packet(None, -1, 1000) == false);
}

#[test]
fn extraction_packet_decisions() {
    let tb = Timebase { num: 1, den: 1000 };
    let start = 2 * C;
    let end = 6 * C;
    // one second in: before the range
    assert_eq!(transcode_packet_action(1000, tb, start, end), PacketAction::Skip);
    // three seconds in: copied, shifted back by the tick equivalent of 2s
    assert_eq!(
        transcode_packet_action(3000, tb, start, end),
        PacketAction::Include { skip_ticks: 2000 }
    );
    // exactly at the end: still copied
    assert_eq!(
        transcode_packet_action(6000, tb, start, end),
        PacketAction::Include { skip_ticks: 2000 }
    );
    // within the five-second slack past the end: still copied
    assert_eq!(
        transcode_packet_action(10000, tb, start, end),
        PacketAction::Include { skip_ticks: 2000 }
    );
    assert_eq!(
        transcode_packet_action(11000, tb, start, end),
        PacketAction::Include { skip_ticks: 2000 }
    );
    // past the slack: the scan stops
    assert_eq!(transcode_packet_action(11001, tb, start, end), PacketAction::Stop);
}

#[test]
fn seconds_format_as_padded_clock_time() {
    assert_eq!(eclipper::time::format_seconds(0), "00:00:00");
    assert_eq!(eclipper::time::format_seconds(3725), "01:02:05");
    assert_eq!(eclipper::time::format_seconds(59), "00:00:59");
    // hours grow past two digits without truncation
    assert_eq!(eclipper::time::format_seconds(366130), "101:42:10");
}

#[test]
fn bitmap_layout_is_bottom_up_bgr_padded() {
    let bmp = pixels_to_bmp(&vec![10, 20, 30], 1, 1);
    assert_eq!(bmp.len(), 58);
    assert_eq!(&bmp[0..2], &[66, 77]);
    assert_eq!(&bmp[2..6], &[58, 0, 0, 0]);
    assert_eq!(&bmp[18..22], &[1, 0, 0, 0]);
    assert_eq!(&bmp[22..26], &[1, 0, 0, 0]);
    assert_eq!(&bmp[26..30], &[1, 0, 24, 0]);
    assert_eq!(&bmp[54..58], &[30, 20, 10, 0]);

    // 2x2: rows come out bottom-up, each padded to four bytes
    let bmp = pixels_to_bmp(&vec![1, 2, 3, 4, 5, 6, 7, 8, 9, 10, 11, 12], 2, 2);
    assert_eq!(bmp.len(), 70);
    assert_eq!(
        &bmp[54..70],
        &[9, 8, 7, 12, 11, 10, 0, 0, 3, 2, 1, 6, 5, 4, 0, 0]
    );
}
