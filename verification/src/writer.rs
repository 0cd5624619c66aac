//! Remux bookkeeping.
//!
//! Writing clips copies packets from the input container into the output
//! and retimes them so the output timeline is contiguous: every packet of
//! a clip is shifted by the difference between the output's running end
//! timestamp and the clip's first packet timestamp. The host performs the
//! container I/O; the state, the per-packet decisions and the retiming
//! arithmetic live here, in the video stream's native ticks.

use vstd::prelude::*;
use crate::clip::kf_sorted;
use crate::clip::lb_spec;
use crate::clip::lemma_lb_props;
use crate::clip::lower_bound;

verus! {

/// Tick values the retiming arithmetic accepts without overflow.
pub open spec fn ts_bounded(t: int) -> bool {
    -0x1000_0000_0000_0000 < t < 0x1000_0000_0000_0000
}

/// What a stream carries; only audio, video and subtitle streams are
/// copied into the output container.
#[derive(Clone, Copy, PartialEq, Eq, Structural, Debug)]
pub enum MediaKind {
    Audio,
    Video,
    Subtitle,
    Other,
}

/// Number of copied (non-`Other`) streams in `kinds`.
pub open spec fn copied_count(kinds: Seq<MediaKind>) -> int
    decreases kinds.len(),
{
    if kinds.len() == 0 {
        0
    } else {
        copied_count(kinds.drop_last()) + if kinds.last() is Other {
            0int
        } else {
            1int
        }
    }
}

/// Maps each input stream index to its output stream index: audio, video
/// and subtitle streams are numbered consecutively, everything else maps
/// to -1 and is dropped.
pub fn build_stream_mapping(kinds: &Vec<MediaKind>) -> (r: Vec<i64>)
    requires
        kinds@.len() <= 0x7fff_ffff,
    ensures
        r@.len() == kinds@.len(),
        forall|i: int| 0 <= i < kinds@.len() ==> #[trigger] r@[i] == (
            if kinds@[i] is Other { -1int } else { copied_count(kinds@.take(i)) }
        ),
{
    let mut r: Vec<i64> = Vec::new();
    let mut next: i64 = 0;
    let mut i: usize = 0;
    while i < kinds.len()
        invariant
            i <= kinds@.len(),
            kinds@.len() <= 0x7fff_ffff,
            r@.len() == i,
            next == copied_count(kinds@.take(i as int)),
            0 <= next <= i,
            forall|j: int| 0 <= j < i ==> #[trigger] r@[j] == (
                if kinds@[j] is Other { -1int } else { copied_count(kinds@.take(j)) }
            ),
        decreases kinds@.len() - i,
    {
        proof {
            assert(kinds@.take(i + 1).drop_last() =~= kinds@.take(i as int));
            assert(kinds@.take(i + 1).last() == kinds@[i as int]);
        }
        match kinds[i] {
            MediaKind::Other => {
                r.push(-1);
            },
            _ => {
                r.push(next);
                next += 1;
            },
        }
        i += 1;
    }
    proof {
        assert(kinds@.take(kinds@.len() as int) =~= kinds@);
    }
    r
}

/// Running remux state across `write_clip` calls: `end_ts` is the output
/// timeline's current end; the other fields track the clip being written.
#[derive(Clone, Copy, PartialEq, Eq, Structural, Debug)]
pub struct ClipWriterState {
    /// End of the retimed output timeline so far, in video-stream ticks.
    pub end_ts: i64,
    /// Smallest packet timestamp seen in the current clip.
    pub first_pts: Option<i64>,
    /// Latest video packet timestamp seen in the current clip.
    pub last_pts: i64,
    /// Duration of that latest video packet.
    pub last_duration: i64,
}

/// The retimed timestamp a packet gets: shifted so the clip's first
/// packet lands exactly at the output timeline's current end.
pub open spec fn retimed(pts: int, end_ts: int, first_pts: int) -> int {
    pts + (end_ts - first_pts)
}

/// The output-timeline length one clip contributes.
pub open spec fn clip_retimed_duration(first_pts: int, last_pts: int, last_duration: int) -> int {
    last_pts - first_pts + last_duration
}

impl ClipWriterState {
    /// A fresh writer: the output timeline is empty.
    pub fn new() -> (r: ClipWriterState)
        ensures
            r == (ClipWriterState { end_ts: 0, first_pts: None, last_pts: 0, last_duration: 0 }),
    {
        ClipWriterState { end_ts: 0, first_pts: None, last_pts: 0, last_duration: 0 }
    }

    /// Starts a new clip: forgets the per-clip tracking, keeps the
    /// output timeline's end.
    pub fn begin_clip(&mut self)
        ensures
            *final(self) == (ClipWriterState {
                end_ts: old(self).end_ts,
                first_pts: None,
                last_pts: 0,
                last_duration: 0,
            }),
    {
        self.first_pts = None;
        self.last_pts = 0;
        self.last_duration = 0;
    }

    /// Whether a packet's timestamp falls inside the clip window
    /// `[from_ts, to_ts)`; a packet without a timestamp is kept only when
    /// the window starts at or below zero.
    pub fn include_packet(pts: Option<i64>, from_ts: i64, to_ts: i64) -> (r: bool)
        ensures
            r == {
                let p_lo: i64 = match pts { Some(p) => p, None => 0 };
                let p_hi: i64 = match pts { Some(p) => p, None => i64::MAX };
                p_lo >= from_ts && p_hi < to_ts
            },
    {
        let p_lo = match pts {
            Some(p) => p,
            None => 0,
        };
        let p_hi = match pts {
            Some(p) => p,
            None => i64::MAX,
        };
        p_lo >= from_ts && p_hi < to_ts
    }

    /// Accounts an included packet's timestamp and returns the shift to
    /// apply to it: the clip's first (smallest) timestamp is pinned to
    /// the output timeline's current end.
    pub fn note_pts(&mut self, pts: i64) -> (offset: i64)
        requires
            ts_bounded(pts as int),
            ts_bounded(old(self).end_ts as int),
            match old(self).first_pts {
                Some(f) => ts_bounded(f as int),
                None => true,
            },
        ensures
            final(self).first_pts == Some(
                match old(self).first_pts {
                    Some(f) => if pts < f { pts } else { f },
                    None => pts,
                },
            ),
            final(self).end_ts == old(self).end_ts,
            final(self).last_pts == old(self).last_pts,
            final(self).last_duration == old(self).last_duration,
            offset == old(self).end_ts - final(self).first_pts.unwrap(),
    {
        let first = match self.first_pts {
            Some(f) => {
                if pts < f {
                    pts
                } else {
                    f
                }
            },
            None => pts,
        };
        self.first_pts = Some(first);
        self.end_ts - first
    }

    /// Tracks the latest video packet of the clip, whose end will become
    /// the output timeline's new end.
    pub fn note_video_packet(&mut self, pts: i64, duration: i64)
        ensures
            *final(self) == if pts > old(self).last_pts {
                ClipWriterState { last_pts: pts, last_duration: duration, ..*old(self) }
            } else {
                *old(self)
            },
    {
        if pts > self.last_pts {
            self.last_pts = pts;
            self.last_duration = duration;
        }
    }

    /// Ends the clip: the output timeline grows by the clip's retimed
    /// duration, so the next clip starts exactly where this one ended.
    pub fn finish_clip(&mut self)
        requires
            old(self).first_pts is Some,
            ts_bounded(old(self).end_ts as int),
            ts_bounded(old(self).first_pts.unwrap() as int),
            ts_bounded(old(self).last_pts as int),
            ts_bounded(old(self).last_duration as int),
        ensures
            final(self).end_ts == old(self).end_ts + clip_retimed_duration(
                old(self).first_pts.unwrap() as int,
                old(self).last_pts as int,
                old(self).last_duration as int,
            ),
            final(self).first_pts == old(self).first_pts,
            final(self).last_pts == old(self).last_pts,
            final(self).last_duration == old(self).last_duration,
    {
        let first = match self.first_pts {
            Some(f) => f,
            None => 0,
        };
        let duration = self.last_pts - first + self.last_duration;
        self.end_ts = self.end_ts + duration;
    }
}

/// Remux continuity: after one clip is finished on an empty timeline, the
/// timeline's end equals that clip's retimed duration, and the next
/// clip's first packet (the one whose timestamp equals the recorded
/// `first_pts`) is retimed to exactly that end — the seam has no gap and
/// no overlap.
pub proof fn lemma_remux_continuity(end0: int, first1: int, last1: int, dur1: int, first2: int)
    requires
        end0 == 0,
    ensures
        retimed(first1, end0, first1) == 0,
        retimed(
            first2,
            end0 + clip_retimed_duration(first1, last1, dur1),
            first2,
        ) == clip_retimed_duration(first1, last1, dur1),
        retimed(last1, end0, first1) + dur1 == clip_retimed_duration(first1, last1, dur1),
{
}

/// The keyframe the writer seeks to before copying a clip: two keyframes
/// before the first keyframe at or after the clip start, so the decoder
/// warms up cleanly. `None` when every keyframe lies before the start.
pub fn warmup_keyframe(kf: &Vec<i64>, from_ts: i64) -> (r: Option<i64>)
    requires
        kf_sorted(kf@),
    ensures
        ({
            let pos = lb_spec(kf@, from_ts);
            if pos == kf@.len() {
                r is None
            } else {
                r == Some(kf@[if pos >= 2 { pos - 2 } else { 0 }])
            }
        }),
{
    proof {
        lemma_lb_props(kf@, from_ts);
    }
    let pos = lower_bound(kf, from_ts);
    if pos == kf.len() {
        None
    } else {
        Some(kf[if pos >= 2 { pos - 2 } else { 0 }])
    }
}

} // verus!
