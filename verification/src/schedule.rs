//! The zoom-segment schedule: ordering of segments, the segment active at an
//! instant, and whether an instant falls in an instant-animation snap window.
//!
//! A segment is active on the half-open span `(start, end]` of timeline time.
//! Segments are kept sorted by start, then end (see `order`), and the items
//! are rearranged into that order with [`permute`]; where several are active
//! the first in that order wins. An instant-animation segment snaps the framing
//! (no spring) on the closed window `[snap_from, snap_to]`, which reaches a
//! little before its start and after its end. All instants are time keys.
use vstd::prelude::*;

verus! {

/// How a segment picks its framing center.
#[derive(Clone, Copy, Debug, PartialEq, Eq, Structural)]
pub enum ZoomKind {
    /// Follows the cursor clusters of the segment.
    Auto,
    /// A fixed, user-chosen center.
    Manual,
}

/// One zoom segment, by the keys of its bounds and of its snap window.
#[derive(Clone, Copy, Debug, PartialEq, Eq, Structural)]
pub struct ScheduledSegment {
    pub start: i64,
    pub end: i64,
    pub snap_from: i64,
    pub snap_to: i64,
    pub instant: bool,
    pub kind: ZoomKind,
}

/// The segment is active at `t`: `start < t <= end`.
pub open spec fn is_active(s: ScheduledSegment, t: i64) -> bool {
    s.start < t && t <= s.end
}

/// The segment snaps the framing at `t`.
pub open spec fn snaps(s: ScheduledSegment, t: i64) -> bool {
    s.instant && s.snap_from <= t && t <= s.snap_to
}

/// The items rearranged so that the `i`-th is `items[order[i]]`.
pub fn permute<T: Copy>(items: &Vec<T>, order: &Vec<usize>) -> (r: Vec<T>)
    requires
        forall|i: int| 0 <= i < order@.len() ==> (#[trigger] order@[i]) < items@.len(),
    ensures
        r@.len() == order@.len(),
        forall|i: int| 0 <= i < order@.len() ==> #[trigger] r@[i] == items@[order@[i] as int],
{
    let mut r: Vec<T> = Vec::new();
    let mut i: usize = 0;
    while i < order.len()
        invariant
            i <= order@.len(),
            forall|k: int| 0 <= k < order@.len() ==> (#[trigger] order@[k]) < items@.len(),
            r@.len() == i,
            forall|k: int| 0 <= k < i ==> #[trigger] r@[k] == items@[order@[k] as int],
        decreases order@.len() - i,
    {
        r.push(items[order[i]]);
        i = i + 1;
    }
    r
}

/// The first segment active at `t`.
pub fn active_segment(segs: &Vec<ScheduledSegment>, t: i64) -> (r: Option<usize>)
    ensures
        r matches Some(i) ==> i < segs@.len() && is_active(segs@[i as int], t) && forall|j: int|
            0 <= j < i ==> !is_active(#[trigger] segs@[j], t),
        r is None ==> forall|j: int| 0 <= j < segs@.len() ==> !is_active(#[trigger] segs@[j], t),
        r matches Some(i) ==> segs@[i as int].start < t <= segs@[i as int].end,
        r matches Some(i) ==> forall|j: int| 0 <= j < i ==> !((#[trigger] segs@[j]).start < t <= segs@[j].end),
        r is None ==> forall|j: int| 0 <= j < segs@.len() ==> !((#[trigger] segs@[j]).start < t <= segs@[j].end),
{
    let mut i: usize = 0;
    while i < segs.len()
        invariant
            i <= segs@.len(),
            forall|j: int| 0 <= j < i ==> !is_active(#[trigger] segs@[j], t),
        decreases segs@.len() - i,
    {
        let s = segs[i];
        if s.start < t && t <= s.end {
            return Some(i);
        }
        i = i + 1;
    }
    None
}

/// Whether some instant-animation segment snaps the framing at `t`.
pub fn snaps_at(segs: &Vec<ScheduledSegment>, t: i64) -> (r: bool)
    ensures
        r == exists|j: int| 0 <= j < segs@.len() && snaps(#[trigger] segs@[j], t),
        r == exists|j: int|
            0 <= j < segs@.len() && (#[trigger] segs@[j]).instant && segs@[j].snap_from <= t <= segs@[j].snap_to,
{
    let mut i: usize = 0;
    while i < segs.len()
        invariant
            i <= segs@.len(),
            forall|j: int| 0 <= j < i ==> !snaps(#[trigger] segs@[j], t),
        decreases segs@.len() - i,
    {
        let s = segs[i];
        if s.instant && s.snap_from <= t && t <= s.snap_to {
            assert(snaps(segs@[i as int], t));
            return true;
        }
        i = i + 1;
    }
    false
}

/// The segment active at `t` when it follows the cursor: the first active
/// segment, and only if it is an automatic one.
pub fn active_auto_segment(segs: &Vec<ScheduledSegment>, t: i64) -> (r: Option<usize>)
    ensures
        r matches Some(i) ==> i < segs@.len() && is_active(segs@[i as int], t) && segs@[i as int].kind
            == ZoomKind::Auto && forall|j: int| 0 <= j < i ==> !is_active(#[trigger] segs@[j], t),
        r is None ==> forall|i: int|
            0 <= i < segs@.len() && is_active(#[trigger] segs@[i], t) && (forall|j: int|
                0 <= j < i ==> !is_active(#[trigger] segs@[j], t)) ==> segs@[i].kind == ZoomKind::Manual,
{
    match active_segment(segs, t) {
        Some(i) => {
            if segs[i].kind == ZoomKind::Auto {
                Some(i)
            } else {
                None
            }
        },
        None => None,
    }
}

/// What drives the framing targets at one instant.
#[derive(Clone, Copy, Debug, PartialEq, Eq, Structural)]
pub struct StepPlan {
    /// The active segment, if any.
    pub segment: Option<usize>,
    /// Whether the framing snaps instead of springing.
    pub snap: bool,
}

/// The schedule's decision at `t`: the active segment and the snap flag.
pub fn step_plan(segs: &Vec<ScheduledSegment>, t: i64) -> (r: StepPlan)
    ensures
        r.snap == exists|j: int| 0 <= j < segs@.len() && snaps(#[trigger] segs@[j], t),
        r.segment matches Some(i) ==> i < segs@.len() && is_active(segs@[i as int], t) && forall|j: int|
            0 <= j < i ==> !is_active(#[trigger] segs@[j], t),
        r.segment is None ==> forall|j: int| 0 <= j < segs@.len() ==> !is_active(#[trigger] segs@[j], t),
{
    StepPlan { segment: active_segment(segs, t), snap: snaps_at(segs, t) }
}

/// A segment whose end does not lie after its start is never active.
pub proof fn degenerate_segment_never_active(s: ScheduledSegment, t: i64)
    requires
        s.end <= s.start,
    ensures
        !is_active(s, t),
{
}

/// Without instant-animation segments nothing ever snaps.
pub proof fn no_instant_segment_never_snaps(segs: Seq<ScheduledSegment>, t: i64)
    requires
        forall|j: int| 0 <= j < segs.len() ==> !(#[trigger] segs[j]).instant,
    ensures
        !exists|j: int| 0 <= j < segs.len() && snaps(#[trigger] segs[j], t),
{
}

/// A segment is active exactly on `(start, end]`, whether or not it is an
/// instant-animation segment and whatever its kind.
pub proof fn active_exactly_inside_span(s: ScheduledSegment, t: i64)
    ensures
        is_active(s, t) <==> (s.start < t && t <= s.end),
        is_active(s, t) == is_active(ScheduledSegment { instant: !s.instant, ..s }, t),
        is_active(s, t) == is_active(
            ScheduledSegment { kind: if s.kind == ZoomKind::Auto { ZoomKind::Manual } else { ZoomKind::Auto }, ..s },
            t,
        ),
{
}

/// An instant-animation segment snaps at every instant of its window
/// `[snap_from, snap_to]`, inside its span as well as in the margins, and a
/// segment that is not one never snaps.
pub proof fn instant_segment_snaps_on_its_whole_window(s: ScheduledSegment, t: i64)
    ensures
        s.instant && s.snap_from <= t && t <= s.snap_to ==> snaps(s, t),
        s.instant && s.snap_from <= t && t <= s.snap_to && s.start < t && t <= s.end ==> snaps(s, t)
            && is_active(s, t),
        snaps(s, t) ==> s.instant && s.snap_from <= t && t <= s.snap_to,
{
}

} // verus!
