//! Decode-side decisions.
//!
//! The host owns the demuxer and the codec; every choice the decode layer
//! makes — which accelerator to use, which pixel format to accept, how
//! often to sample frames, which packets belong to an extraction range —
//! is a pure function here, computed from plain values the host reads off
//! the container.

use vstd::prelude::*;
use crate::time::CANON_PER_SEC;
use crate::time::Timebase;
use crate::time::canon_to_ticks;
use crate::time::secs_to_ts;
use crate::time::t_to_secs;
use crate::time::ticks_to_canon;

verus! {

/// Device-type code of the first preferred hardware accelerator.
pub const HW_DEVICE_PREFERRED_A: i64 = 2;

/// Device-type code of the second preferred hardware accelerator.
pub const HW_DEVICE_PREFERRED_B: i64 = 4;

/// Pixel-format code meaning "none".
pub const PIX_FMT_NONE: i64 = -1;

/// Duration value meaning "unknown" in the container's own clock.
pub const NO_TIMESTAMP: i64 = i64::MIN;

/// Ticks per second of the container-level duration clock.
pub const CONTAINER_TIME_BASE: i64 = 1000000;

/// A device type the negotiation prefers over whatever is listed first.
pub open spec fn is_preferred_device(t: i64) -> bool {
    t == HW_DEVICE_PREFERRED_A || t == HW_DEVICE_PREFERRED_B
}

/// Picks the accelerator device type: the first preferred entry of the
/// enumeration when one occurs, else the first entry, else none.
pub fn choose_device_type(available: &Vec<i64>) -> (r: Option<i64>)
    ensures
        match r {
            Some(t) => available@.len() > 0 && {
                if exists|i: int| 0 <= i < available@.len() && is_preferred_device(#[trigger] available@[i]) {
                    exists|i: int| 0 <= i < available@.len() && available@[i] == t
                        && is_preferred_device(t)
                        && forall|j: int| 0 <= j < i ==> !is_preferred_device(#[trigger] available@[j])
                } else {
                    t == available@[0]
                }
            },
            None => available@.len() == 0,
        },
{
    let mut i: usize = 0;
    while i < available.len()
        invariant
            i <= available@.len(),
            forall|j: int| 0 <= j < i ==> !is_preferred_device(#[trigger] available@[j]),
        decreases available@.len() - i,
    {
        if available[i] == HW_DEVICE_PREFERRED_A || available[i] == HW_DEVICE_PREFERRED_B {
            return Some(available[i]);
        }
        i += 1;
    }
    if available.len() > 0 {
        Some(available[0])
    } else {
        None
    }
}

/// Picks the decode pixel format the negotiation callback answers with:
/// the accelerator's native format when the codec offers it, else the
/// first offered format, else none; without an accelerator format the
/// answer is none.
pub fn choose_pixel_format(hw_format: Option<i64>, offered: &Vec<i64>) -> (r: i64)
    ensures
        r == match hw_format {
            Some(h) => {
                if exists|i: int| 0 <= i < offered@.len() && #[trigger] offered@[i] == h {
                    h
                } else if offered@.len() > 0 {
                    offered@[0]
                } else {
                    PIX_FMT_NONE as i64
                }
            },
            None => PIX_FMT_NONE as i64,
        },
{
    match hw_format {
        Some(h) => {
            let mut i: usize = 0;
            while i < offered.len()
                invariant
                    i <= offered@.len(),
                    hw_format == Some(h),
                    forall|j: int| 0 <= j < i ==> #[trigger] offered@[j] != h,
                decreases offered@.len() - i,
            {
                if offered[i] == h {
                    proof {
                        assert(offered@[i as int] == h);
                    }
                    return h;
                }
                i += 1;
            }
            if offered.len() > 0 {
                offered[0]
            } else {
                PIX_FMT_NONE
            }
        },
        None => PIX_FMT_NONE,
    }
}

/// The container's total duration in canonical units: zero when the
/// container reports no duration.
pub fn duration_from_raw(raw: i64) -> (r: i64)
    requires
        raw == NO_TIMESTAMP || raw >= 0,
        raw >= 0 ==> raw * CANON_PER_SEC as int / CONTAINER_TIME_BASE as int <= i64::MAX,
    ensures
        r == if raw == NO_TIMESTAMP {
            0int
        } else {
            raw * CANON_PER_SEC as int / CONTAINER_TIME_BASE as int
        },
        r >= 0,
{
    if raw == NO_TIMESTAMP {
        return 0;
    }
    proof {
        vstd::arithmetic::div_mod::lemma_div_pos_is_pos(
            raw as int * CANON_PER_SEC as int, CONTAINER_TIME_BASE as int);
    }
    let wide: i128 = raw as i128 * CANON_PER_SEC as i128 / CONTAINER_TIME_BASE as i128;
    wide as i64
}

/// How many frames to skip between classified frames so that about ten
/// frames are sampled per second of video: the frame rate over ten,
/// rounded to the nearest whole step.
pub fn sample_step(rate_num: i64, rate_den: i64) -> (r: i64)
    requires
        0 <= rate_num <= 0x7fff_ffff,
        1 <= rate_den <= 0x7fff_ffff,
    ensures
        r == (rate_num + 5 * rate_den) as int / (10 * rate_den) as int,
        r >= 0,
{
    proof {
        vstd::arithmetic::div_mod::lemma_div_pos_is_pos(
            rate_num as int + 5 * rate_den as int, 10 * rate_den as int);
    }
    (rate_num + 5 * rate_den) / (10 * rate_den)
}

/// What the extraction loop does with one packet.
#[derive(Clone, Copy, PartialEq, Eq, Structural, Debug)]
pub enum PacketAction {
    /// The packet lies well past the range: stop reading.
    Stop,
    /// The packet lies outside the range: drop it and read on.
    Skip,
    /// The packet belongs to the range: copy it with its timestamps
    /// shifted backward by `skip_ticks`.
    Include { skip_ticks: i64 },
}

/// Slack past the end of an extraction range before the packet loop
/// stops, in canonical units: five seconds.
pub const EXTRACT_STOP_SLACK: i64 = 5242880;

/// Decides one packet of `extract_range`: a packet more than the slack
/// past `end` stops the scan, one before `start` is skipped, and one
/// whose time lies in `[start, end + slack]` is copied shifted backward
/// by the tick-equivalent of `start` so the extracted range begins at
/// time zero.
pub fn transcode_packet_action(pts: i64, tb: Timebase, start: i64, end: i64) -> (r: PacketAction)
    requires
        pts >= 0,
        tb.wf(),
        0 <= start,
        0 <= end <= i64::MAX - EXTRACT_STOP_SLACK,
        ticks_to_canon(pts as int, tb) <= i64::MAX,
        canon_to_ticks(start as int, tb) <= i64::MAX,
    ensures
        r == {
            let ts = ticks_to_canon(pts as int, tb);
            if ts > end + EXTRACT_STOP_SLACK {
                PacketAction::Stop
            } else if ts < start {
                PacketAction::Skip
            } else {
                PacketAction::Include { skip_ticks: canon_to_ticks(start as int, tb) as i64 }
            }
        },
{
    let ts = t_to_secs(pts, tb);
    if ts > end + EXTRACT_STOP_SLACK {
        PacketAction::Stop
    } else if ts < start {
        PacketAction::Skip
    } else {
        PacketAction::Include { skip_ticks: secs_to_ts(start, tb) }
    }
}

/// What the keyframe scan reads off one demuxed packet.
#[derive(Clone, Copy, PartialEq, Eq, Structural, Debug)]
pub struct PacketInfo {
    pub stream_index: usize,
    pub is_key: bool,
    pub pts: i64,
}

/// The timestamps of the key-flagged packets of stream `vidx`, in packet
/// order.
pub open spec fn keyframe_pts(packets: Seq<PacketInfo>, vidx: usize) -> Seq<i64>
    decreases packets.len(),
{
    if packets.len() == 0 {
        Seq::empty()
    } else {
        let rest = keyframe_pts(packets.drop_last(), vidx);
        if packets.last().stream_index == vidx && packets.last().is_key {
            rest.push(packets.last().pts)
        } else {
            rest
        }
    }
}

/// Collects every key-flagged packet timestamp of the video stream: the
/// full linear scan behind the keyframe table.
pub fn collect_keyframes(packets: &Vec<PacketInfo>, video_index: usize) -> (r: Vec<i64>)
    ensures
        r@ == keyframe_pts(packets@, video_index),
{
    let mut r: Vec<i64> = Vec::new();
    let mut i: usize = 0;
    while i < packets.len()
        invariant
            i <= packets@.len(),
            r@ == keyframe_pts(packets@.take(i as int), video_index),
        decreases packets@.len() - i,
    {
        proof {
            assert(packets@.take(i + 1).drop_last() =~= packets@.take(i as int));
            assert(packets@.take(i + 1).last() == packets@[i as int]);
        }
        let p = packets[i];
        if p.stream_index == video_index && p.is_key {
            r.push(p.pts);
        }
        i += 1;
    }
    proof {
        assert(packets@.take(packets@.len() as int) =~= packets@);
    }
    r
}

/// Converts a keyframe table from canonical units to stream ticks.
pub fn keyframes_to_ticks(kf: &Vec<i64>, tb: Timebase) -> (r: Vec<i64>)
    requires
        tb.wf(),
        forall|i: int| 0 <= i < kf@.len() ==> #[trigger] kf@[i] >= 0
            && canon_to_ticks(kf@[i] as int, tb) <= i64::MAX,
    ensures
        r@.len() == kf@.len(),
        forall|i: int| 0 <= i < kf@.len() ==> #[trigger] r@[i] == canon_to_ticks(kf@[i] as int, tb),
{
    let mut r: Vec<i64> = Vec::new();
    let mut i: usize = 0;
    while i < kf.len()
        invariant
            i <= kf@.len(),
            tb.wf(),
            forall|j: int| 0 <= j < kf@.len() ==> #[trigger] kf@[j] >= 0
                && canon_to_ticks(kf@[j] as int, tb) <= i64::MAX,
            r@.len() == i,
            forall|j: int| 0 <= j < i ==> #[trigger] r@[j] == canon_to_ticks(kf@[j] as int, tb),
        decreases kf@.len() - i,
    {
        r.push(secs_to_ts(kf[i], tb));
        i += 1;
    }
    r
}

/// Converts a keyframe table from stream ticks to canonical units.
pub fn keyframes_to_secs(kf: &Vec<i64>, tb: Timebase) -> (r: Vec<i64>)
    requires
        tb.wf(),
        forall|i: int| 0 <= i < kf@.len() ==> #[trigger] kf@[i] >= 0
            && ticks_to_canon(kf@[i] as int, tb) <= i64::MAX,
    ensures
        r@.len() == kf@.len(),
        forall|i: int| 0 <= i < kf@.len() ==> #[trigger] r@[i] == ticks_to_canon(kf@[i] as int, tb),
    {
    let mut r: Vec<i64> = Vec::new();
    let mut i: usize = 0;
    while i < kf.len()
        invariant
            i <= kf@.len(),
            tb.wf(),
            forall|j: int| 0 <= j < kf@.len() ==> #[trigger] kf@[j] >= 0
                && ticks_to_canon(kf@[j] as int, tb) <= i64::MAX,
            r@.len() == i,
            forall|j: int| 0 <= j < i ==> #[trigger] r@[j] == ticks_to_canon(kf@[j] as int, tb),
        decreases kf@.len() - i,
    {
        r.push(t_to_secs(kf[i], tb));
        i += 1;
    }
    r
}

} // verus!
