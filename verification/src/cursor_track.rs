//! Locating a timestamp among time-sorted cursor samples.
//!
//! The cursor position at an instant is interpolated between the two samples
//! that bracket it; before the first sample it is the first sample, after the
//! last one it is the last sample. This module decides which case applies and
//! which samples bracket the instant; the interpolation itself is done by the
//! caller on the samples' coordinates.
use vstd::prelude::*;

verus! {

/// Keys in nondecreasing order.
pub open spec fn is_sorted(times: Seq<i64>) -> bool {
    forall|i: int, j: int| 0 <= i <= j < times.len() ==> times[i] <= times[j]
}

/// `p` splits `times` into the keys at or before `t` and those after it.
pub open spec fn is_partition_point(times: Seq<i64>, t: i64, p: int) -> bool {
    &&& 0 <= p <= times.len()
    &&& forall|i: int| 0 <= i < p ==> times[i] <= t
    &&& forall|i: int| p <= i < times.len() ==> times[i] > t
}

/// Number of leading samples whose time is at or before `t`, by binary search.
pub fn partition_point(times: &Vec<i64>, t: i64) -> (p: usize)
    requires
        is_sorted(times@),
    ensures
        is_partition_point(times@, t, p as int),
{
    let mut lo: usize = 0;
    let mut hi: usize = times.len();
    while lo < hi
        invariant
            is_sorted(times@),
            0 <= lo <= hi <= times@.len(),
            forall|i: int| 0 <= i < lo ==> times@[i] <= t,
            forall|i: int| hi <= i < times@.len() ==> times@[i] > t,
        decreases hi - lo,
    {
        let mid = lo + (hi - lo) / 2;
        if times[mid] <= t {
            lo = mid + 1;
        } else {
            hi = mid;
        }
    }
    lo
}

/// Where an instant falls relative to the cursor samples.
#[derive(Clone, Copy, Debug, PartialEq, Eq, Structural)]
pub enum CursorBracket {
    /// There are no samples.
    NoSamples,
    /// At or before the first sample: its position applies.
    AtFirst,
    /// After the first sample and at or after the last one: the last position applies.
    AtLast,
    /// Strictly inside: interpolate between samples `i - 1` and `i`.
    Between(usize),
}

/// Which samples determine the cursor position at `t`.
pub fn cursor_bracket(times: &Vec<i64>, t: i64) -> (r: CursorBracket)
    requires
        is_sorted(times@),
    ensures
        (r is NoSamples) <==> times@.len() == 0,
        (r is AtFirst) <==> (times@.len() > 0 && t <= times@[0]),
        (r is AtLast) <==> (times@.len() > 0 && times@[0] < t && times@[times@.len() - 1] <= t),
        r matches CursorBracket::Between(i) ==> 0 < i < times@.len() && times@[i - 1] <= t
            < times@[i as int],
{
    if times.len() == 0 {
        return CursorBracket::NoSamples;
    }
    if t <= times[0] {
        return CursorBracket::AtFirst;
    }
    let index = partition_point(times, t);
    if index >= times.len() {
        CursorBracket::AtLast
    } else {
        CursorBracket::Between(index)
    }
}

/// The split point sits after every sample at or before `t` and before every
/// sample after it; for sorted samples there is only one such point.
pub proof fn partition_point_is_unique(times: Seq<i64>, t: i64, p: int, q: int)
    requires
        is_sorted(times),
        is_partition_point(times, t, p),
        is_partition_point(times, t, q),
    ensures
        p == q,
        forall|i: int| 0 <= i < p ==> times[i] <= t,
        forall|i: int| p <= i < times.len() ==> t < times[i],
{
    if p < q {
        assert(times[p] > t);
        assert(times[p] <= t);
    } else if q < p {
        assert(times[q] > t);
        assert(times[q] <= t);
    }
}

} // verus!
