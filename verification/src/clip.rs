//! Clip lists and keyframe alignment.
//!
//! A clip is a `[start, end)` range in canonical time units. Workers build
//! per-segment clip lists; after a scan the lists are joined in segment
//! order, every boundary is snapped to a keyframe, and overlapping
//! neighbours are merged, so the final list is sorted, non-overlapping and
//! keyframe-aligned.

use vstd::prelude::*;

verus! {

/// Half a second in canonical units: a match boundary at most this far
/// before the next keyframe snaps forward instead of backward.
pub const HALF_SEC_CANON: i64 = 524288;

/// A half-open time range `[start, end)` in canonical units.
#[derive(Clone, Copy, PartialEq, Eq, Structural, Debug)]
pub struct Clip {
    pub start: i64,
    pub end: i64,
}

/// A single clip is well-formed when it does not end before it starts.
pub open spec fn clip_wf(c: Clip) -> bool {
    c.start <= c.end
}

/// Clips are sorted ascending by start time.
pub open spec fn clips_sorted(cs: Seq<Clip>) -> bool {
    forall|i: int, j: int| 0 <= i < j < cs.len() ==> #[trigger] cs[i].start <= #[trigger] cs[j].start
}

/// Every clip is well-formed and the list is sorted by start.
pub open spec fn clips_wf(cs: Seq<Clip>) -> bool {
    &&& forall|i: int| 0 <= i < cs.len() ==> clip_wf(#[trigger] cs[i])
    &&& clips_sorted(cs)
}

/// No clip reaches past the start of its successor.
pub open spec fn clips_disjoint(cs: Seq<Clip>) -> bool {
    forall|i: int| 0 <= i < cs.len() - 1 ==> #[trigger] cs[i].end <= cs[i + 1].start
}

/// All clip boundaries are non-negative.
pub open spec fn clips_nonneg(cs: Seq<Clip>) -> bool {
    forall|i: int| 0 <= i < cs.len() ==> #[trigger] cs[i].start >= 0 && cs[i].end >= 0
}

/// The keyframe table is ascending.
pub open spec fn kf_sorted(kf: Seq<i64>) -> bool {
    forall|i: int, j: int| 0 <= i <= j < kf.len() ==> #[trigger] kf[i] <= #[trigger] kf[j]
}

/// All keyframe timestamps are non-negative.
pub open spec fn kf_nonneg(kf: Seq<i64>) -> bool {
    forall|i: int| 0 <= i < kf.len() ==> #[trigger] kf[i] >= 0
}

/// `t` is an entry of the keyframe table.
pub open spec fn in_keyframes(t: i64, kf: Seq<i64>) -> bool {
    exists|j: int| 0 <= j < kf.len() && kf[j] == t
}

/// Index of the first keyframe at or after `t` (the table's length when
/// every keyframe is earlier).
pub open spec fn lb_spec(kf: Seq<i64>, t: i64) -> int
    decreases kf.len(),
{
    if kf.len() == 0 {
        0
    } else if kf[0] >= t {
        0
    } else {
        1 + lb_spec(kf.drop_first(), t)
    }
}

pub proof fn lemma_lb_props(kf: Seq<i64>, t: i64)
    requires
        kf_sorted(kf),
    ensures
        0 <= lb_spec(kf, t) <= kf.len(),
        forall|i: int| 0 <= i < lb_spec(kf, t) ==> #[trigger] kf[i] < t,
        forall|i: int| lb_spec(kf, t) <= i < kf.len() ==> #[trigger] kf[i] >= t,
    decreases kf.len(),
{
    if kf.len() == 0 {
    } else if kf[0] >= t {
        assert forall|i: int| 0 <= i < kf.len() implies #[trigger] kf[i] >= t by {
            assert(kf[0] <= kf[i]);
        }
    } else {
        let rest = kf.drop_first();
        assert(kf_sorted(rest)) by {
            assert forall|i: int, j: int| 0 <= i <= j < rest.len() implies
                #[trigger] rest[i] <= #[trigger] rest[j] by {
                assert(rest[i] == kf[i + 1]);
                assert(rest[j] == kf[j + 1]);
            }
        }
        lemma_lb_props(rest, t);
        let r = lb_spec(kf, t);
        assert forall|i: int| 0 <= i < r implies #[trigger] kf[i] < t by {
            if i > 0 {
                assert(rest[i - 1] == kf[i]);
            }
        }
        assert forall|i: int| r <= i < kf.len() implies #[trigger] kf[i] >= t by {
            assert(rest[i - 1] == kf[i]);
        }
    }
}

/// First index whose keyframe is at or after `t`, found by binary search.
pub fn lower_bound(kf: &Vec<i64>, t: i64) -> (r: usize)
    requires
        kf_sorted(kf@),
    ensures
        r == lb_spec(kf@, t),
{
    proof {
        lemma_lb_props(kf@, t);
    }
    let mut lo: usize = 0;
    let mut hi: usize = kf.len();
    while lo < hi
        invariant
            lo <= hi <= kf@.len(),
            kf_sorted(kf@),
            forall|i: int| 0 <= i < lo ==> #[trigger] kf@[i] < t,
            forall|i: int| hi <= i < kf@.len() ==> #[trigger] kf@[i] >= t,
        decreases hi - lo,
    {
        let mid = lo + (hi - lo) / 2;
        if kf[mid] < t {
            proof {
                assert forall|i: int| 0 <= i <= mid implies #[trigger] kf@[i] < t by {
                    assert(kf@[i] <= kf@[mid as int]);
                }
            }
            lo = mid + 1;
        } else {
            proof {
                assert forall|i: int| mid <= i < kf@.len() implies #[trigger] kf@[i] >= t by {
                    assert(kf@[mid as int] <= kf@[i]);
                }
            }
            hi = mid;
        }
    }
    proof {
        let s = lb_spec(kf@, t);
        if s < lo {
            assert(kf@[s] >= t);
            assert(kf@[s] < t);
        }
        if lo < s {
            assert(kf@[lo as int] < t);
            assert(kf@[lo as int] >= t);
        }
    }
    lo
}

/// Latest keyframe strictly before `t`, if any: the seek anchor used to
/// warm a decoder up before a segment or an extraction range.
pub fn find_seek_keyframe(kf: &Vec<i64>, t: i64) -> (r: Option<i64>)
    requires
        kf_sorted(kf@),
    ensures
        match r {
            Some(k) => in_keyframes(k, kf@) && k < t
                && forall|i: int| 0 <= i < kf@.len() && #[trigger] kf@[i] < t ==> kf@[i] <= k,
            None => forall|i: int| 0 <= i < kf@.len() ==> #[trigger] kf@[i] >= t,
        },
{
    proof {
        lemma_lb_props(kf@, t);
    }
    let i = lower_bound(kf, t);
    if i == 0 {
        None
    } else {
        let k = kf[i - 1];
        proof {
            assert forall|j: int| 0 <= j < kf@.len() && #[trigger] kf@[j] < t implies kf@[j] <= k by {
                if j > i - 1 {
                    assert(kf@[j] >= t);
                }
                assert(kf@[j] <= kf@[i - 1]);
            }
        }
        Some(k)
    }
}

/// The list that results from a worker recording a new match window
/// `[start, end)`: merged into the last clip when they touch, else
/// appended with the start clamped to zero.
pub open spec fn push_clip_spec(cs: Seq<Clip>, start: i64, end: i64) -> Seq<Clip> {
    if cs.len() > 0 && cs.last().end >= start {
        cs.update(cs.len() - 1, Clip { start: cs.last().start, end })
    } else {
        cs.push(Clip { start: if start >= 0 { start } else { 0 }, end })
    }
}

/// Records a match window in a worker's running clip list.
pub fn push_clip(clips: &mut Vec<Clip>, start: i64, end: i64)
    requires
        start <= end,
        end >= 0,
        clips_wf(old(clips)@),
        clips_disjoint(old(clips)@),
        clips_nonneg(old(clips)@),
        old(clips)@.len() > 0 ==> old(clips)@.last().start <= end,
    ensures
        final(clips)@ == push_clip_spec(old(clips)@, start, end),
        clips_wf(final(clips)@),
        clips_disjoint(final(clips)@),
        clips_nonneg(final(clips)@),
{
    let n = clips.len();
    if n > 0 && clips[n - 1].end >= start {
        let prev = clips[n - 1];
        clips[n - 1] = Clip { start: prev.start, end };
    } else {
        let s = if start >= 0 { start } else { 0 };
        proof {
            if old(clips)@.len() > 0 {
                assert(old(clips)@.last().end < start);
            }
        }
        clips.push(Clip { start: s, end });
    }
}

/// Every start in `a` precedes every start in `b`: segment lists in scan
/// order satisfy this because a worker's windows are anchored at sampled
/// times inside its own segment.
pub open spec fn seg_le(a: Seq<Clip>, b: Seq<Clip>) -> bool {
    forall|x: int, y: int| 0 <= x < a.len() && 0 <= y < b.len()
        ==> #[trigger] a[x].start <= #[trigger] b[y].start
}

/// The per-segment lists are ordered among themselves.
pub open spec fn segments_ordered(lists: Seq<Seq<Clip>>) -> bool {
    forall|i: int, j: int| 0 <= i < j < lists.len() ==> #[trigger] seg_le(lists[i], lists[j])
}

/// Every list is a well-formed, disjoint, non-negative worker result.
pub open spec fn segments_wf(lists: Seq<Seq<Clip>>) -> bool {
    forall|i: int| 0 <= i < lists.len()
        ==> clips_wf(#[trigger] lists[i]) && clips_disjoint(lists[i]) && clips_nonneg(lists[i])
}

/// One joining step: the next segment's clips appended to the
/// accumulated list, with the accumulated trailing clip and the next
/// leading clip coalesced when they touch.
pub open spec fn join_step(acc: Seq<Clip>, cs: Seq<Clip>) -> Seq<Clip> {
    if acc.len() > 0 && cs.len() > 0 && acc.last().end >= cs[0].start {
        acc.update(acc.len() - 1, Clip { start: acc.last().start, end: cs[0].end })
            + cs.drop_first()
    } else {
        acc + cs
    }
}

/// The join of the first `n` segment lists.
pub open spec fn join_spec(lists: Seq<Seq<Clip>>, n: int) -> Seq<Clip>
    decreases n,
{
    if n <= 0 {
        Seq::empty()
    } else {
        join_step(join_spec(lists, n - 1), lists[n - 1])
    }
}

/// Joins per-segment clip lists in segment order. When the trailing clip
/// of the accumulated list reaches into the leading clip of the next
/// segment, the two coalesce into one clip spanning from the earlier
/// start to the later clip's end.
#[verifier::rlimit(50)]
pub fn join_segment_clips(lists: &Vec<Vec<Clip>>) -> (r: Vec<Clip>)
    requires
        segments_wf(lists@.map_values(|v: Vec<Clip>| v@)),
        segments_ordered(lists@.map_values(|v: Vec<Clip>| v@)),
    ensures
        r@ == join_spec(lists@.map_values(|v: Vec<Clip>| v@), lists@.len() as int),
        clips_wf(r@),
        clips_disjoint(r@),
        clips_nonneg(r@),
{
    let ghost views = lists@.map_values(|v: Vec<Clip>| v@);
    let mut acc: Vec<Clip> = Vec::new();
    let mut li: usize = 0;
    while li < lists.len()
        invariant
            li <= lists@.len(),
            views == lists@.map_values(|v: Vec<Clip>| v@),
            segments_wf(views),
            segments_ordered(views),
            clips_wf(acc@),
            clips_disjoint(acc@),
            clips_nonneg(acc@),
            acc@ == join_spec(views, li as int),
            forall|j: int, x: int, y: int|
                li <= j < views.len() && 0 <= x < acc@.len() && 0 <= y < views[j].len()
                    ==> #[trigger] acc@[x].start <= #[trigger] views[j][y].start,
        decreases lists@.len() - li,
    {
        let cs = &lists[li];
        let ghost entry_acc = acc@;
        proof {
            assert(views[li as int] == cs@);
        }
        let mut ci: usize = 0;
        let n = acc.len();
        if n > 0 && cs.len() > 0 && acc[n - 1].end >= cs[0].start {
            let lastc = acc[n - 1];
            let first = cs[0];
            proof {
                assert(acc@[n - 1].start <= cs@[0].start);
                assert(cs@[0].start <= cs@[0].end);
            }
            acc[n - 1] = Clip { start: lastc.start, end: first.end };
            ci = 1;
        }
        proof {
            assert(join_step(entry_acc, cs@) =~= acc@ + cs@.skip(ci as int));
        }
        while ci < cs.len()
            invariant
                ci <= cs@.len(),
                views == lists@.map_values(|v: Vec<Clip>| v@),
                li < views.len(),
                views[li as int] == cs@,
                segments_wf(views),
                segments_ordered(views),
                clips_wf(acc@),
                clips_disjoint(acc@),
                clips_nonneg(acc@),
                entry_acc == join_spec(views, li as int),
                join_step(entry_acc, cs@) == acc@ + cs@.skip(ci as int),
                acc@.len() > 0 && ci < cs@.len() ==> acc@.last().end <= cs@[ci as int].start,
                acc@.len() > 0 && ci < cs@.len() ==> acc@.last().start <= cs@[ci as int].start,
                forall|x: int, y: int| 0 <= x < acc@.len() && ci <= y < cs@.len()
                    ==> #[trigger] acc@[x].start <= #[trigger] cs@[y].start,
                forall|j: int, x: int, y: int|
                    li < j < views.len() && 0 <= x < acc@.len() && 0 <= y < views[j].len()
                        ==> #[trigger] acc@[x].start <= #[trigger] views[j][y].start,
            decreases cs@.len() - ci,
        {
            proof {
                assert forall|j: int, y: int|
                    li < j < views.len() && 0 <= y < views[j].len() implies
                    cs@[ci as int].start <= #[trigger] views[j][y].start by {
                    assert(seg_le(views[li as int], views[j]));
                }
            }
            acc.push(cs[ci]);
            proof {
                assert(join_step(entry_acc, cs@) =~= acc@ + cs@.skip(ci + 1));
            }
            ci += 1;
        }
        proof {
            assert(acc@ =~= acc@ + cs@.skip(cs@.len() as int));
            assert(acc@ == join_spec(views, li + 1));
        }
        li += 1;
    }
    proof {
        assert(acc@ == join_spec(views, views.len() as int));
    }
    acc
}

/// Index used to snap a boundary `t`: the first keyframe at or after `t`,
/// clamped to the last entry when every keyframe is earlier.
pub open spec fn snap_index(kf: Seq<i64>, t: i64) -> int {
    let i = lb_spec(kf, t);
    if i < kf.len() { i } else { kf.len() - 1 }
}

/// Snapped start of a clip: normally the keyframe at or after the match,
/// but when that keyframe lies more than half a second after the match the
/// boundary falls back to the preceding keyframe so the moment itself is
/// not cut off.
pub open spec fn snap_start_spec(kf: Seq<i64>, t: i64) -> i64 {
    let si = snap_index(kf, t);
    if kf[si] - t > HALF_SEC_CANON {
        kf[if si > 0 { si - 1 } else { 0 }]
    } else {
        kf[si]
    }
}

/// Snapped end of a clip: the keyframe at or after it (clamped to the
/// table's last entry).
pub open spec fn snap_end_spec(kf: Seq<i64>, t: i64) -> i64 {
    kf[snap_index(kf, t)]
}

/// A clip with both boundaries snapped to keyframe-table entries.
pub open spec fn snap_clip_spec(kf: Seq<i64>, c: Clip) -> Clip {
    Clip { start: snap_start_spec(kf, c.start), end: snap_end_spec(kf, c.end) }
}

/// Snapping a boundary yields a keyframe-table entry, and snapping keeps
/// a well-formed clip well-formed.
pub proof fn lemma_snap_clip_wf(kf: Seq<i64>, c: Clip)
    requires
        kf_sorted(kf),
        kf.len() >= 1,
        clip_wf(c),
    ensures
        in_keyframes(snap_clip_spec(kf, c).start, kf),
        in_keyframes(snap_clip_spec(kf, c).end, kf),
        clip_wf(snap_clip_spec(kf, c)),
{
    lemma_lb_props(kf, c.start);
    lemma_lb_props(kf, c.end);
    let si = snap_index(kf, c.start);
    let ei = snap_index(kf, c.end);
    assert(lb_spec(kf, c.start) <= lb_spec(kf, c.end)) by {
        let a = lb_spec(kf, c.start);
        let b = lb_spec(kf, c.end);
        if b < a {
            assert(kf[b] >= c.end);
            assert(kf[b] < c.start);
        }
    }
    assert(si <= ei);
    let s = snap_start_spec(kf, c.start);
    if kf[si] - c.start > HALF_SEC_CANON {
        let pi = if si > 0 { si - 1 } else { 0 };
        assert(kf[pi] <= kf[ei]);
    } else {
        assert(kf[si] <= kf[ei]);
    }
}

/// Snapping preserves the order of clip starts.
pub proof fn lemma_snap_start_monotone(kf: Seq<i64>, t1: i64, t2: i64)
    requires
        kf_sorted(kf),
        kf.len() >= 1,
        t1 <= t2,
    ensures
        snap_start_spec(kf, t1) <= snap_start_spec(kf, t2),
{
    lemma_lb_props(kf, t1);
    lemma_lb_props(kf, t2);
    let a = lb_spec(kf, t1);
    let b = lb_spec(kf, t2);
    assert(a <= b) by {
        if b < a {
            assert(kf[b] >= t2);
            assert(kf[b] < t1);
        }
    }
    let sa = snap_index(kf, t1);
    let sb = snap_index(kf, t2);
    assert(sa <= sb);
    if sa < sb {
        assert(kf[sa] <= kf[sb - 1]);
        assert(kf[if sa > 0 { sa - 1 } else { 0 }] <= kf[sa]);
        assert(kf[if sb > 0 { sb - 1 } else { 0 }] >= kf[sb - 1]);
    } else {
        // same snap index: if the later boundary falls back, the earlier
        // one is even farther from the keyframe and falls back too
        if kf[sb] - t2 > HALF_SEC_CANON {
            assert(kf[sa] - t1 > HALF_SEC_CANON);
        }
        assert(kf[if sa > 0 { sa - 1 } else { 0 }] <= kf[sa]);
    }
}

/// Snaps every clip boundary to a keyframe-table entry.
pub fn snap_clips_to_keyframes(clips: &mut Vec<Clip>, kf: &Vec<i64>)
    requires
        kf_sorted(kf@),
        kf_nonneg(kf@),
        kf@.len() >= 1,
        clips_wf(old(clips)@),
        clips_nonneg(old(clips)@),
    ensures
        final(clips)@.len() == old(clips)@.len(),
        forall|i: int| 0 <= i < old(clips)@.len()
            ==> final(clips)@[i] == snap_clip_spec(kf@, #[trigger] old(clips)@[i]),
        clips_wf(final(clips)@),
        clips_nonneg(final(clips)@),
        forall|i: int| 0 <= i < final(clips)@.len()
            ==> in_keyframes(#[trigger] final(clips)@[i].start, kf@)
                && in_keyframes(final(clips)@[i].end, kf@),
{
    let ghost orig = clips@;
    let n = clips.len();
    let mut idx: usize = 0;
    while idx < n
        invariant
            idx <= n,
            n == orig.len(),
            clips@.len() == orig.len(),
            kf_sorted(kf@),
            kf_nonneg(kf@),
            kf@.len() >= 1,
            clips_wf(orig),
            clips_nonneg(orig),
            forall|i: int| 0 <= i < idx ==> clips@[i] == snap_clip_spec(kf@, #[trigger] orig[i]),
            forall|i: int| idx <= i < n ==> clips@[i] == #[trigger] orig[i],
        decreases n - idx,
    {
        let c = clips[idx];
        proof {
            lemma_lb_props(kf@, c.start);
            lemma_lb_props(kf@, c.end);
        }
        let sl = lower_bound(kf, c.start);
        let si = if sl < kf.len() { sl } else { kf.len() - 1 };
        let st0 = kf[si];
        proof {
            assert(orig[idx as int].start >= 0);
            assert(kf@[si as int] >= 0);
        }
        let start = if st0 - c.start > HALF_SEC_CANON {
            kf[if si > 0 { si - 1 } else { 0 }]
        } else {
            st0
        };
        let el = lower_bound(kf, c.end);
        let ei = if el < kf.len() { el } else { kf.len() - 1 };
        let end = kf[ei];
        clips[idx] = Clip { start, end };
        idx += 1;
    }
    proof {
        assert forall|i: int, j: int| 0 <= i < j < clips@.len() implies
            #[trigger] clips@[i].start <= #[trigger] clips@[j].start by {
            assert(clips@[i] == snap_clip_spec(kf@, orig[i]));
            assert(clips@[j] == snap_clip_spec(kf@, orig[j]));
            lemma_snap_start_monotone(kf@, orig[i].start, orig[j].start);
        }
        assert forall|i: int| 0 <= i < clips@.len() implies clip_wf(#[trigger] clips@[i])
            && in_keyframes(clips@[i].start, kf@) && in_keyframes(clips@[i].end, kf@)
            && clips@[i].start >= 0 && clips@[i].end >= 0 by {
            assert(clips@[i] == snap_clip_spec(kf@, orig[i]));
            lemma_snap_clip_wf(kf@, orig[i]);
            assert(in_keyframes(clips@[i].start, kf@));
            let w = choose|j: int| 0 <= j < kf@.len() && kf@[j] == clips@[i].start;
            assert(kf@[w] >= 0);
            let w2 = choose|j: int| 0 <= j < kf@.len() && kf@[j] == clips@[i].end;
            assert(kf@[w2] >= 0);
        }
    }
}

/// `s` occurs as the start of some clip of `from`.
pub open spec fn start_from(s: i64, from: Seq<Clip>) -> bool {
    exists|j: int| 0 <= j < from.len() && s == #[trigger] from[j].start
}

/// `e` occurs as the end of some clip of `from`.
pub open spec fn end_from(e: i64, from: Seq<Clip>) -> bool {
    exists|j: int| 0 <= j < from.len() && e == #[trigger] from[j].end
}

/// Every start (and every end) of `cs` already occurs as a start (end)
/// of `from`: merging never invents a boundary.
pub open spec fn boundaries_from(cs: Seq<Clip>, from: Seq<Clip>) -> bool {
    forall|i: int| 0 <= i < cs.len()
        ==> start_from(#[trigger] cs[i].start, from) && end_from(cs[i].end, from)
}

/// Result of the merge walk examining pair `(i - 1, i)`: the two clips
/// coalesce into one ending where the later one ended, when the later
/// one starts at or before the earlier one's end.
pub open spec fn merge_step_spec(cs: Seq<Clip>, i: int) -> Seq<Clip> {
    if 1 <= i < cs.len() && cs[i].start <= cs[i - 1].end {
        cs.update(i - 1, Clip { start: cs[i - 1].start, end: cs[i].end }).remove(i)
    } else {
        cs
    }
}

/// The list after the backward merge walk has examined pairs `(i - 1, i)`
/// down to `(0, 1)`.
pub open spec fn merge_spec(cs: Seq<Clip>, i: int) -> Seq<Clip>
    decreases i,
{
    if i < 1 {
        cs
    } else {
        merge_spec(merge_step_spec(cs, i), i - 1)
    }
}

/// One merge step: with the suffix from pair `(i, i+1)` onward already
/// disjoint and clip `i` reaching into clip `i - 1`, replacing the pair
/// by one clip keeps the list well-formed, keeps every boundary, and
/// extends the disjoint suffix by one pair.
#[verifier::rlimit(100)]
#[verifier::spinoff_prover]
proof fn lemma_merge_step(pre: Seq<Clip>, orig: Seq<Clip>, i: int, merged: Seq<Clip>)
    requires
        clips_wf(pre),
        boundaries_from(pre, orig),
        1 <= i < pre.len(),
        pre[i].start <= pre[i - 1].end,
        forall|k: int| i <= k < pre.len() - 1 ==> #[trigger] pre[k].end < pre[k + 1].start,
        merged == pre.update(i - 1, Clip { start: pre[i - 1].start, end: pre[i].end }).remove(i),
    ensures
        merged.len() == pre.len() - 1,
        clips_wf(merged),
        boundaries_from(merged, orig),
        forall|k: int| i - 1 <= k < merged.len() - 1 ==> #[trigger] merged[k].end < merged[k
            + 1].start,
{
    assert(pre[i - 1].start <= pre[i].start);
    assert forall|k: int| 0 <= k < merged.len() implies start_from(
        #[trigger] merged[k].start,
        orig,
    ) && end_from(merged[k].end, orig) by {
        if k < i {
            assert(merged[k].start == pre[k].start);
            assert(merged[k].end == if k == i - 1 {
                pre[i].end
            } else {
                pre[k].end
            });
            assert(start_from(pre[k].start, orig));
        } else {
            assert(merged[k] == pre[k + 1]);
            assert(start_from(pre[k + 1].start, orig));
            assert(end_from(pre[k + 1].end, orig));
        }
    }
    assert forall|x: int, y: int| 0 <= x < y < merged.len() implies
        #[trigger] merged[x].start <= #[trigger] merged[y].start by {
        let xs = if x < i { pre[x].start } else { pre[x + 1].start };
        let ys = if y < i { pre[y].start } else { pre[y + 1].start };
        assert(merged[x].start == xs);
        assert(merged[y].start == ys);
    }
    assert forall|k: int| 0 <= k < merged.len() implies clip_wf(#[trigger] merged[k]) by {
        if k == i - 1 {
            assert(merged[k] == Clip { start: pre[i - 1].start, end: pre[i].end });
        } else if k < i {
            assert(merged[k] == pre[k]);
        } else {
            assert(merged[k] == pre[k + 1]);
        }
    }
    assert forall|k: int| i - 1 <= k < merged.len() - 1 implies #[trigger] merged[k].end
        < merged[k + 1].start by {
        if k == i - 1 {
            assert(merged[k].end == pre[i].end);
            assert(merged[k + 1] == pre[i + 1]);
            assert(pre[i].end < pre[i + 1].start);
        } else {
            assert(merged[k] == pre[k + 1]);
            assert(merged[k + 1] == pre[k + 2]);
            assert(pre[k + 1].end < pre[k + 2].start);
        }
    }
}

/// Merges adjacent overlapping clips, walking the list from the back as
/// the scan post-processing does: when a clip's successor starts at or
/// before the clip's end, the two become one clip ending where the
/// successor ended.
pub fn merge_overlapping_clips(clips: &mut Vec<Clip>)
    requires
        clips_wf(old(clips)@),
    ensures
        final(clips)@ == merge_spec(old(clips)@, old(clips)@.len() - 1),
        clips_wf(final(clips)@),
        clips_disjoint(final(clips)@),
        boundaries_from(final(clips)@, old(clips)@),
        final(clips)@.len() > 0 <==> old(clips)@.len() > 0,
{
    let ghost orig = clips@;
    let mut i: usize = clips.len();
    proof {
        assert forall|k: int| 0 <= k < clips@.len() implies
            start_from(#[trigger] clips@[k].start, orig) && end_from(clips@[k].end, orig) by {
            assert(clips@[k].start == orig[k].start);
            assert(clips@[k].end == orig[k].end);
        }
    }
    while i >= 2
        invariant
            i <= clips@.len(),
            clips@.len() <= orig.len(),
            clips_wf(clips@),
            boundaries_from(clips@, orig),
            clips@.len() > 0 <==> orig.len() > 0,
            merge_spec(clips@, i - 1) == merge_spec(orig, orig.len() - 1),
            i >= 1 || clips@.len() <= 1,
            i <= clips@.len() || (i - 1 >= clips@.len() - 1),
            forall|k: int| i - 1 <= k < clips@.len() - 1 ==> #[trigger] clips@[k].end < clips@[k + 1].start,
        decreases i,
    {
        i -= 1;
        let ghost pre = clips@;
        proof {
            assert(merge_spec(pre, i as int) == merge_spec(merge_step_spec(pre, i as int),
                i as int - 1));
        }
        if clips[i].start <= clips[i - 1].end {
            let cur = clips[i - 1];
            let next_end = clips[i].end;
            proof {
                assert(pre[i - 1].start <= pre[i as int].start);
                assert(pre[i as int].start <= pre[i as int].end);
            }
            clips[i - 1] = Clip { start: cur.start, end: next_end };
            clips.remove(i);
            proof {
                assert(clips@ =~= pre.update(i - 1,
                    Clip { start: pre[i - 1].start, end: pre[i as int].end }).remove(i as int));
                assert(clips@ == merge_step_spec(pre, i as int));
                lemma_merge_step(pre, orig, i as int, clips@);
            }
        } else {
            proof {
                assert(clips@[i - 1].end < clips@[i as int].start);
                assert(clips@ == merge_step_spec(pre, i as int));
            }
        }
    }
}

/// Every clip snapped to the keyframe table.
pub open spec fn snap_all_spec(cs: Seq<Clip>, kf: Seq<i64>) -> Seq<Clip> {
    Seq::new(cs.len(), |i: int| snap_clip_spec(kf, cs[i]))
}

/// What a scan's post-processing produces: the per-segment lists joined
/// in order, every boundary snapped to the keyframe table, and adjacent
/// overlaps merged.
pub open spec fn post_process_spec(lists: Seq<Seq<Clip>>, kf: Seq<i64>) -> Seq<Clip> {
    let snapped = snap_all_spec(join_spec(lists, lists.len() as int), kf);
    merge_spec(snapped, snapped.len() - 1)
}

/// Joins per-segment clip lists, snaps every boundary to the keyframe
/// table and merges whatever then overlaps: the scan's post-processing.
/// The result is sorted, non-overlapping, and every boundary is a
/// keyframe-table entry.
pub fn post_process_clips(lists: &Vec<Vec<Clip>>, kf: &Vec<i64>) -> (r: Vec<Clip>)
    requires
        kf_sorted(kf@),
        kf_nonneg(kf@),
        kf@.len() >= 1,
        segments_wf(lists@.map_values(|v: Vec<Clip>| v@)),
        segments_ordered(lists@.map_values(|v: Vec<Clip>| v@)),
    ensures
        r@ == post_process_spec(lists@.map_values(|v: Vec<Clip>| v@), kf@),
        clips_wf(r@),
        clips_disjoint(r@),
        forall|i: int| 0 <= i < r@.len()
            ==> in_keyframes(#[trigger] r@[i].start, kf@) && in_keyframes(r@[i].end, kf@),
{
    let mut joined = join_segment_clips(lists);
    let ghost pre_snap = joined@;
    snap_clips_to_keyframes(&mut joined, kf);
    proof {
        assert(joined@ =~= snap_all_spec(pre_snap, kf@));
    }
    let ghost snapped = joined@;
    merge_overlapping_clips(&mut joined);
    proof {
        assert forall|i: int| 0 <= i < joined@.len() implies
            in_keyframes(#[trigger] joined@[i].start, kf@) && in_keyframes(joined@[i].end, kf@) by {
            let j = choose|j: int| 0 <= j < snapped.len() && joined@[i].start == snapped[j].start;
            let j2 = choose|j2: int| 0 <= j2 < snapped.len() && joined@[i].end == snapped[j2].end;
            assert(in_keyframes(snapped[j].start, kf@));
            assert(in_keyframes(snapped[j2].end, kf@));
        }
    }
    joined
}

} // verus!
