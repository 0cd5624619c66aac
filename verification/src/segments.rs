//! Scan partitioning and progress aggregation.
//!
//! A scan splits the video's duration into keyframe-aligned segments, one
//! concurrent worker each. Workers report fractional progress; the
//! orchestrator keeps the last report per worker, averages them into an
//! overall figure, and once per second derives a decode-throughput
//! estimate. Progress is measured in hundredths of a percent.

use vstd::prelude::*;
use vstd::arithmetic::div_mod::lemma_div_pos_is_pos;
use vstd::arithmetic::div_mod::lemma_fundamental_div_mod;
use vstd::arithmetic::div_mod::lemma_mod_bound;
use crate::clip::Clip;
use crate::clip::in_keyframes;
use crate::clip::kf_nonneg;
use crate::clip::kf_sorted;
use crate::clip::lb_spec;
use crate::clip::lemma_lb_props;
use crate::clip::lower_bound;
use crate::clip::find_seek_keyframe;
use crate::time::CANON_PER_SEC;

verus! {

/// Nominal seconds of video per scan worker: a scan never uses more
/// workers than `duration / 30 + 1`.
pub const SEGMENT_TARGET_SECS: i64 = 30;

/// One worker's assignment: seek to `seek`, classify frames from `start`
/// until `end`, all in canonical units.
#[derive(Clone, Copy, PartialEq, Eq, Structural, Debug)]
pub struct ScanSegment {
    /// The latest keyframe strictly before `start` (zero when none).
    pub seek: i64,
    pub start: i64,
    pub end: i64,
}

/// What a whole scan returns to the host.
pub struct ProcessResult {
    pub clips: Vec<Clip>,
    pub keyframes: Vec<i64>,
    /// The input's total duration, canonical units.
    pub input_duration: i64,
}

/// The worker count a scan uses for a video of `duration` canonical
/// units under a configured thread cap: the duration in thirty-second
/// stretches, rounded up, plus one.
pub open spec fn worker_count_spec(duration: int, threads: int) -> int {
    let stretch = SEGMENT_TARGET_SECS as int * CANON_PER_SEC as int;
    let max_threads = (duration + stretch - 1) / stretch + 1;
    if threads <= max_threads {
        threads
    } else {
        max_threads
    }
}

/// Canonical length of one segment: whole seconds of video per worker.
pub open spec fn segment_len_spec(duration: int, workers: int) -> int {
    duration / CANON_PER_SEC as int / workers * CANON_PER_SEC as int
}

/// The duration rounded up to whole seconds, where the last segment ends.
pub open spec fn ceil_duration_spec(duration: int) -> int {
    (duration + CANON_PER_SEC - 1) / CANON_PER_SEC as int * CANON_PER_SEC as int
}

/// All `workers` whole-second segments together fit inside the duration.
proof fn lemma_segments_fit(d: int, c: int, w: int)
    requires
        0 <= d,
        1 <= c,
        1 <= w,
    ensures
        0 <= d / c / w * c,
        (d / c / w * c) * w <= d,
{
    let fs = d / c;
    let q = fs / w;
    lemma_div_pos_is_pos(d, c);
    lemma_div_pos_is_pos(fs, w);
    lemma_fundamental_div_mod(fs, w);
    lemma_mod_bound(fs, w);
    assert(q * w <= fs);
    lemma_fundamental_div_mod(d, c);
    lemma_mod_bound(d, c);
    assert(fs * c <= d);
    assert((q * c) * w == (q * w) * c) by (nonlinear_arith);
    assert((q * w) * c <= fs * c) by (nonlinear_arith)
        requires
            q * w <= fs,
            c >= 1,
            0 <= q * w,
    ;
    assert(0 <= q * c) by (nonlinear_arith)
        requires
            0 <= q,
            0 <= c,
    ;
}

/// A segment boundary snapped to the keyframe table: the first keyframe
/// at or after the nominal time, clamped to the table's last entry.
pub open spec fn seg_snap_spec(kf: Seq<i64>, nominal: i64) -> i64 {
    let si = lb_spec(kf, nominal);
    if si < kf.len() {
        kf[si]
    } else {
        kf[kf.len() - 1]
    }
}

/// A segment's seek anchor: the latest keyframe strictly before its
/// start, or zero when none exists.
pub open spec fn seg_seek_spec(kf: Seq<i64>, start: i64) -> i64 {
    let pos = lb_spec(kf, start);
    if pos > 0 {
        kf[pos - 1]
    } else {
        0
    }
}

/// Segment `i` of a scan plan: the first segment starts at zero and the
/// last ends at the duration's ceiling; all other boundaries snap to the
/// keyframe table.
pub open spec fn plan_segment_spec(
    kf: Seq<i64>,
    duration: int,
    workers: int,
    seglen: int,
    i: int,
) -> ScanSegment {
    let start: i64 = if i == 0 {
        0
    } else {
        seg_snap_spec(kf, (i * seglen) as i64)
    };
    let end: i64 = if i == workers - 1 {
        ceil_duration_spec(duration) as i64
    } else {
        seg_snap_spec(kf, (start + seglen) as i64)
    };
    ScanSegment { seek: seg_seek_spec(kf, start), start, end }
}

/// Ceiling to whole seconds never rounds below the duration.
proof fn lemma_ceil_duration(d: int, c: int)
    requires
        0 <= d,
        1 <= c,
    ensures
        d <= (d + c - 1) / c * c,
        (d + c - 1) / c * c <= d + c - 1,
        0 <= (d + c - 1) / c,
{
    let q = (d + c - 1) / c;
    lemma_fundamental_div_mod(d + c - 1, c);
    lemma_mod_bound(d + c - 1, c);
    lemma_div_pos_is_pos(d + c - 1, c);
    assert(d + c - 1 == c * q + (d + c - 1) % c);
    assert(q * c == c * q) by (nonlinear_arith);
}

/// Partitions the scan: `workers` segments of a whole-second nominal
/// length, each boundary snapped to the keyframe table (the first
/// segment starts at zero, the last ends at the duration's ceiling), and
/// each with the latest keyframe strictly before its start as seek
/// anchor.
pub fn plan_segments(duration: i64, threads: usize, kf: &Vec<i64>) -> (r: Vec<ScanSegment>)
    requires
        0 <= duration <= 0x0fff_ffff_ffff_ffff,
        1 <= threads,
        kf_sorted(kf@),
        kf_nonneg(kf@),
        kf@.len() >= 1,
        forall|i: int| 0 <= i < kf@.len() ==> #[trigger] kf@[i] <= 0x0fff_ffff_ffff_ffff,
    ensures
        r@.len() == worker_count_spec(duration as int, threads as int),
        r@.len() >= 1,
        forall|i: int| 0 <= i < r@.len() ==> #[trigger] r@[i] == plan_segment_spec(
            kf@,
            duration as int,
            r@.len() as int,
            segment_len_spec(duration as int, r@.len() as int),
            i,
        ),
        r@[0].start == 0,
        r@[r@.len() - 1].end == ceil_duration_spec(duration as int),
        forall|i: int| 0 < i < r@.len() ==> in_keyframes(#[trigger] r@[i].start, kf@),
        forall|i: int| 0 <= i < r@.len() - 1 ==> in_keyframes(#[trigger] r@[i].end, kf@),
        forall|i: int| 0 <= i < r@.len() ==> (#[trigger] r@[i].seek == 0 || (in_keyframes(
            r@[i].seek,
            kf@,
        ) && r@[i].seek < r@[i].start)),
        forall|i: int| 0 <= i < r@.len() ==> #[trigger] r@[i].start >= 0,
{
    let ceil_secs: i64 = (duration + CANON_PER_SEC - 1) / CANON_PER_SEC;
    let stretch: i64 = SEGMENT_TARGET_SECS * CANON_PER_SEC;
    let max_threads: i64 = (duration + stretch - 1) / stretch + 1;
    proof {
        lemma_ceil_duration(duration as int, CANON_PER_SEC as int);
        lemma_div_pos_is_pos(duration as int + stretch as int - 1, stretch as int);
    }
    let workers: i64 = if (threads as u64) <= (max_threads as u64) {
        threads as i64
    } else {
        max_threads
    };
    let floor_secs: i64 = duration / CANON_PER_SEC;
    proof {
        lemma_segments_fit(duration as int, CANON_PER_SEC as int, workers as int);
        lemma_div_pos_is_pos(duration as int, CANON_PER_SEC as int);
    }
    let segment_len: i64 = floor_secs / workers * CANON_PER_SEC;
    proof {
        assert(workers as int * segment_len as int == segment_len as int * workers as int)
            by (nonlinear_arith);
    }
    let ceil_canon: i64 = ceil_secs * CANON_PER_SEC;
    let mut r: Vec<ScanSegment> = Vec::new();
    let mut i: i64 = 0;
    let mut nominal: i64 = 0;
    while i < workers
        invariant
            0 <= i <= workers,
            workers == worker_count_spec(duration as int, threads as int),
            1 <= workers,
            r@.len() == i,
            kf_sorted(kf@),
            kf_nonneg(kf@),
            kf@.len() >= 1,
            forall|j: int| 0 <= j < kf@.len() ==> #[trigger] kf@[j] <= 0x0fff_ffff_ffff_ffff,
            segment_len == segment_len_spec(duration as int, workers as int),
            forall|j: int| 0 <= j < i ==> #[trigger] r@[j] == plan_segment_spec(
                kf@,
                duration as int,
                workers as int,
                segment_len as int,
                j,
            ),
            0 <= segment_len,
            nominal == i * segment_len,
            0 <= nominal,
            nominal + (workers - i) * segment_len <= duration,
            0 <= duration <= 0x0fff_ffff_ffff_ffff,
            ceil_canon == ceil_duration_spec(duration as int),
            duration <= ceil_canon,
            i > 0 ==> r@[0].start == 0,
            forall|j: int| 0 < j < i ==> in_keyframes(#[trigger] r@[j].start, kf@),
            forall|j: int| 0 <= j < i && j < workers - 1 ==> in_keyframes(#[trigger] r@[j].end, kf@),
            forall|j: int| 0 <= j < i && j == workers - 1 ==> #[trigger] r@[j].end == ceil_canon,
            forall|j: int| 0 <= j < i ==> (#[trigger] r@[j].seek == 0 || (in_keyframes(
                r@[j].seek,
                kf@,
            ) && r@[j].seek < r@[j].start)),
            forall|j: int| 0 <= j < i ==> #[trigger] r@[j].start >= 0,
        decreases workers - i,
    {
        proof {
            assert((workers - i) * segment_len as int >= 1 * segment_len as int)
                by (nonlinear_arith)
                requires
                    i < workers,
                    0 <= segment_len,
            ;
            assert((i + 1) * segment_len as int == i * segment_len as int + segment_len as int)
                by (nonlinear_arith);
            assert((workers - (i + 1)) * segment_len as int == (workers - i) * segment_len as int
                - segment_len as int) by (nonlinear_arith);
        }
        let start: i64 = if i == 0 {
            0
        } else {
            let si = lower_bound(kf, nominal);
            proof {
                lemma_lb_props(kf@, nominal);
            }
            if si < kf.len() {
                kf[si]
            } else {
                kf[kf.len() - 1]
            }
        };
        let end: i64 = if i == workers - 1 {
            ceil_canon
        } else {
            let end_nominal: i64 = start + segment_len;
            let ei = lower_bound(kf, end_nominal);
            proof {
                lemma_lb_props(kf@, end_nominal);
            }
            if ei < kf.len() {
                kf[ei]
            } else {
                kf[kf.len() - 1]
            }
        };
        let seek: i64 = match find_seek_keyframe(kf, start) {
            Some(k) => k,
            None => 0,
        };
        proof {
            lemma_lb_props(kf@, start);
            let pos = lb_spec(kf@, start);
            if pos > 0 {
                assert(kf@[pos - 1] < start);
            }
            assert(seek == seg_seek_spec(kf@, start));
            assert(ScanSegment { seek, start, end } == plan_segment_spec(
                kf@,
                duration as int,
                workers as int,
                segment_len as int,
                i as int,
            ));
        }
        r.push(ScanSegment { seek, start, end });
        nominal = nominal + segment_len;
        i += 1;
    }
    r
}

/// Full progress of one worker, in hundredths of a percent.
pub const PROGRESS_FULL: u32 = 10000;

/// A progress figure paired with the current throughput estimate
/// (canonical units of video decoded per wallclock second).
pub struct ProgressMessage {
    /// Overall progress, hundredths of a percent.
    pub progress: u32,
    /// Decode throughput, canonical units per second.
    pub speed: i64,
}

/// A worker's fractional progress through its segment at `time`, capped
/// at full, in hundredths of a percent.
pub fn segment_progress(time: i64, start: i64, end: i64) -> (r: u32)
    requires
        start <= time,
        start < end,
        -0x1000_0000_0000_0000 <= start,
        time <= 0x1000_0000_0000_0000,
        end <= 0x1000_0000_0000_0000,
    ensures
        r == if (time - start) * 10000 / (end - start) < 10000 {
            ((time - start) * 10000 / (end - start)) as int
        } else {
            10000int
        },
{
    proof {
        assert((time - start) as int * 10000 <= 0x2000_0000_0000_0000 * 10000)
            by (nonlinear_arith)
            requires
                0 <= (time - start) as int <= 0x2000_0000_0000_0000,
        ;
        lemma_div_pos_is_pos((time - start) as int * 10000, (end - start) as int);
    }
    let scaled: i128 = (time - start) as i128 * 10000 / (end - start) as i128;
    if scaled < 10000 {
        scaled as u32
    } else {
        PROGRESS_FULL
    }
}

/// Sum of all entries of a progress table.
pub open spec fn progress_sum(s: Seq<u32>) -> int
    decreases s.len(),
{
    if s.len() == 0 {
        0
    } else {
        progress_sum(s.drop_last()) + s.last()
    }
}

proof fn lemma_progress_sum_bounds(s: Seq<u32>, cap: int)
    requires
        forall|i: int| 0 <= i < s.len() ==> #[trigger] s[i] <= cap,
        0 <= cap,
    ensures
        0 <= progress_sum(s) <= s.len() * cap,
    decreases s.len(),
{
    if s.len() > 0 {
        lemma_progress_sum_bounds(s.drop_last(), cap);
        assert((s.len() - 1) * cap + cap == s.len() * cap) by (nonlinear_arith);
    }
}

/// Last-known progress of every worker, and which workers have finished
/// (a worker whose channel closed counts as fully done).
pub struct ProgressTracker {
    pub progress: Vec<u32>,
    pub closed: Vec<bool>,
}

impl ProgressTracker {
    /// Every entry is a valid progress figure and closed workers are
    /// fully done.
    pub open spec fn wf(&self) -> bool {
        &&& self.progress@.len() == self.closed@.len()
        &&& forall|i: int| 0 <= i < self.progress@.len() ==> #[trigger] self.progress@[i] <= PROGRESS_FULL
        &&& forall|i: int| 0 <= i < self.closed@.len() && #[trigger] self.closed@[i]
            ==> self.progress@[i] == PROGRESS_FULL
    }

    /// A tracker for `n` workers, none reporting yet.
    pub fn new(n: usize) -> (r: ProgressTracker)
        ensures
            r.wf(),
            r.progress@.len() == n,
            forall|i: int| 0 <= i < n ==> #[trigger] r.progress@[i] == 0,
            forall|i: int| 0 <= i < n ==> !(#[trigger] r.closed@[i]),
    {
        let mut progress: Vec<u32> = Vec::new();
        let mut closed: Vec<bool> = Vec::new();
        let mut i: usize = 0;
        while i < n
            invariant
                i <= n,
                progress@.len() == i,
                closed@.len() == i,
                forall|j: int| 0 <= j < i ==> #[trigger] progress@[j] == 0,
                forall|j: int| 0 <= j < i ==> !(#[trigger] closed@[j]),
            decreases n - i,
        {
            progress.push(0);
            closed.push(false);
            i += 1;
        }
        ProgressTracker { progress, closed }
    }

    /// Records a worker's latest report.
    pub fn update(&mut self, index: usize, value: u32)
        requires
            old(self).wf(),
            index < old(self).progress@.len(),
            value <= PROGRESS_FULL,
            !old(self).closed@[index as int],
        ensures
            final(self).wf(),
            final(self).progress@ == old(self).progress@.update(index as int, value),
            final(self).closed@ == old(self).closed@,
    {
        self.progress[index] = value;
    }

    /// Marks a worker's channel closed: its progress is pinned at full
    /// and it leaves the wait set.
    pub fn close(&mut self, index: usize)
        requires
            old(self).wf(),
            index < old(self).progress@.len(),
        ensures
            final(self).wf(),
            final(self).progress@ == old(self).progress@.update(index as int, PROGRESS_FULL),
            final(self).closed@ == old(self).closed@.update(index as int, true),
    {
        self.progress[index] = PROGRESS_FULL;
        self.closed[index] = true;
    }

    /// The overall progress: the arithmetic mean of all workers' figures.
    pub fn overall(&self) -> (r: u32)
        requires
            self.wf(),
            1 <= self.progress@.len() <= 0xffff_ffff,
        ensures
            r == progress_sum(self.progress@) / self.progress@.len() as int,
            r <= PROGRESS_FULL,
    {
        proof {
            lemma_progress_sum_bounds(self.progress@, PROGRESS_FULL as int);
        }
        let mut sum: u64 = 0;
        let mut i: usize = 0;
        while i < self.progress.len()
            invariant
                self.wf(),
                i <= self.progress@.len(),
                self.progress@.len() <= 0xffff_ffff,
                sum == progress_sum(self.progress@.take(i as int)),
                sum <= i * PROGRESS_FULL,
            decreases self.progress@.len() - i,
        {
            proof {
                assert(self.progress@.take(i + 1).drop_last() =~= self.progress@.take(i as int));
                assert(self.progress@.take(i + 1).last() == self.progress@[i as int]);
                lemma_progress_sum_bounds(self.progress@.take(i as int), PROGRESS_FULL as int);
                assert((i as int) * PROGRESS_FULL + PROGRESS_FULL == (i + 1) * PROGRESS_FULL)
                    by (nonlinear_arith);
            }
            sum = sum + self.progress[i] as u64;
            i += 1;
        }
        proof {
            assert(self.progress@.take(self.progress@.len() as int) =~= self.progress@);
            lemma_progress_sum_bounds(self.progress@, PROGRESS_FULL as int);
            vstd::arithmetic::div_mod::lemma_div_is_ordered(
                progress_sum(self.progress@),
                self.progress@.len() as int * PROGRESS_FULL as int,
                self.progress@.len() as int,
            );
            vstd::arithmetic::div_mod::lemma_div_by_multiple(
                PROGRESS_FULL as int,
                self.progress@.len() as int,
            );
            assert(self.progress@.len() as int * PROGRESS_FULL as int == PROGRESS_FULL as int
                * self.progress@.len() as int) by (nonlinear_arith);
            lemma_div_pos_is_pos(progress_sum(self.progress@), self.progress@.len() as int);
        }
        (sum / self.progress.len() as u64) as u32
    }

    /// Whether every worker's channel has closed: the aggregation loop's
    /// exit condition.
    pub fn all_closed(&self) -> (r: bool)
        ensures
            r == forall|i: int| 0 <= i < self.closed@.len() ==> #[trigger] self.closed@[i],
    {
        let mut i: usize = 0;
        while i < self.closed.len()
            invariant
                i <= self.closed@.len(),
                forall|j: int| 0 <= j < i ==> #[trigger] self.closed@[j],
            decreases self.closed@.len() - i,
        {
            if !self.closed[i] {
                return false;
            }
            i += 1;
        }
        true
    }
}

/// The decode-throughput estimate derived once per wallclock second:
/// the video time covered by the progress gained, divided by the elapsed
/// wallclock time.
pub fn scan_speed(delta: u32, duration: i64, elapsed_ms: u64) -> (r: i64)
    requires
        delta <= PROGRESS_FULL,
        0 <= duration <= 0x000f_ffff_ffff_ffff,
        1 <= elapsed_ms <= 0xffff_ffff,
    ensures
        r == delta * duration / 10000 * 1000 / (elapsed_ms as int),
        r >= 0,
{
    let ghost covered_g = delta as int * duration as int / 10000;
    proof {
        assert(0 <= delta as int * duration as int <= 10000int * 0x000f_ffff_ffff_ffffint)
            by (nonlinear_arith)
            requires
                0 <= delta as int <= 10000,
                0 <= duration as int <= 0x000f_ffff_ffff_ffff,
        ;
        lemma_div_pos_is_pos(delta as int * duration as int, 10000);
        vstd::arithmetic::div_mod::lemma_div_is_ordered(
            delta as int * duration as int,
            10000int * 0x000f_ffff_ffff_ffffint,
            10000int,
        );
        assert(10000int * 0x000f_ffff_ffff_ffffint / 10000int == 0x000f_ffff_ffff_ffffint)
            by (nonlinear_arith);
        assert(covered_g * 1000 <= 0x000f_ffff_ffff_ffffint * 1000) by (nonlinear_arith)
            requires
                0 <= covered_g <= 0x000f_ffff_ffff_ffffint,
        ;
        lemma_div_pos_is_pos(covered_g * 1000, elapsed_ms as int);
        vstd::arithmetic::div_mod::lemma_div_nonincreasing(covered_g * 1000, elapsed_ms as int);
    }
    let covered: i128 = delta as i128 * duration as i128 / 10000;
    let speed: i128 = covered * 1000 / elapsed_ms as i128;
    speed as i64
}

} // verus!
