//! Which cursor samples an automatic zoom segment aims at, and which cluster
//! of them applies at an instant.
//!
//! A segment clusters the usable cursor samples (finite coordinates and time)
//! that fall inside its recording span, in recording order. When none does, a
//! single fallback sample stands in: the last usable one at or before the span
//! start, else the first usable one at or after it. The clusters built from
//! those samples each begin at a recording instant; the cluster in force at an
//! instant is the last one begun by then, or the first one before any began.
use vstd::prelude::*;

verus! {

/// Sample `i` is usable and its time lies in `[start, end]`.
pub open spec fn in_span(times: Seq<i64>, usable: Seq<bool>, start: i64, end: i64, i: int) -> bool {
    usable[i] && start <= times[i] && times[i] <= end
}

/// The samples a segment clusters.
#[derive(Debug, PartialEq, Eq)]
pub enum ClusterSource {
    /// The in-span samples, by index, in recording order.
    InSpan(Vec<usize>),
    /// No sample is in span; this one stands in.
    Fallback(usize),
    /// No usable sample at all.
    NoSamples,
}

/// `idx` lists exactly the in-span samples, in increasing order.
pub open spec fn lists_in_span(times: Seq<i64>, usable: Seq<bool>, start: i64, end: i64, idx: Seq<usize>) -> bool {
    &&& forall|k: int| 0 <= k < idx.len() ==> (#[trigger] idx[k]) < times.len() && in_span(times, usable, start, end, idx[k] as int)
    &&& forall|a: int, b: int| 0 <= a < b < idx.len() ==> #[trigger] idx[a] < #[trigger] idx[b]
    &&& forall|i: int| 0 <= i < times.len() && in_span(times, usable, start, end, i) ==> #[trigger] idx.contains(i as usize)
}

/// The samples a segment spanning `[start, end]` clusters.
pub fn cluster_source(times: &Vec<i64>, usable: &Vec<bool>, start: i64, end: i64) -> (r: ClusterSource)
    requires
        times@.len() == usable@.len(),
    ensures
        r matches ClusterSource::InSpan(idx) ==> idx@.len() > 0 && lists_in_span(times@, usable@, start, end, idx@),
        (r is InSpan) <==> exists|i: int| 0 <= i < times@.len() && #[trigger] in_span(times@, usable@, start, end, i),
        r matches ClusterSource::Fallback(f) ==> f < times@.len() && usable@[f as int] && if (exists|i: int|
            0 <= i < times@.len() && #[trigger] usable@[i] && times@[i] <= start) {
            &&& times@[f as int] <= start
            &&& forall|i: int| f < i < times@.len() && #[trigger] usable@[i] ==> times@[i] > start
        } else {
            &&& times@[f as int] >= start
            &&& forall|i: int| 0 <= i < f && #[trigger] usable@[i] ==> times@[i] < start
        },
        (r is NoSamples) <==> forall|i: int| 0 <= i < times@.len() ==> !(#[trigger] usable@[i]),
{
    let n = times.len();
    let mut idx: Vec<usize> = Vec::new();
    let mut i: usize = 0;
    while i < n
        invariant
            n == times@.len(),
            n == usable@.len(),
            i <= n,
            forall|k: int| 0 <= k < idx@.len() ==> (#[trigger] idx@[k]) < i && in_span(times@, usable@, start, end, idx@[k] as int),
            forall|a: int, b: int| 0 <= a < b < idx@.len() ==> #[trigger] idx@[a] < #[trigger] idx@[b],
            forall|m: int| 0 <= m < i && in_span(times@, usable@, start, end, m) ==> #[trigger] idx@.contains(m as usize),
        decreases n - i,
    {
        if usable[i] && start <= times[i] && times[i] <= end {
            let ghost before = idx@;
            idx.push(i);
            proof {
                assert forall|m: int| 0 <= m < i + 1 && in_span(times@, usable@, start, end, m) implies #[trigger] idx@.contains(m as usize) by {
                    if m == i {
                        assert(idx@[idx@.len() - 1] == i);
                    } else {
                        assert(before.contains(m as usize));
                        let w = choose|w: int| 0 <= w < before.len() && before[w] == m as usize;
                        assert(idx@[w] == before[w]);
                    }
                }
            }
        }
        i = i + 1;
    }
    if idx.len() > 0 {
        assert(usable@[idx@[0] as int]);
        return ClusterSource::InSpan(idx);
    }
    proof {
        assert forall|m: int| 0 <= m < times@.len() implies !in_span(times@, usable@, start, end, m) by {
            if in_span(times@, usable@, start, end, m) {
                assert(idx@.contains(m as usize));
            }
        }
    }
    // the last usable sample at or before the span start
    let mut k: usize = n;
    while k > 0
        invariant
            n == times@.len(),
            n == usable@.len(),
            k <= n,
            forall|m: int| 0 <= m < n ==> !in_span(times@, usable@, start, end, m),
            forall|m: int| k <= m < n && #[trigger] usable@[m] ==> times@[m] > start,
        decreases k,
    {
        if usable[k - 1] && times[k - 1] <= start {
            return ClusterSource::Fallback(k - 1);
        }
        k = k - 1;
    }
    // else the first usable sample at or after it
    let mut j: usize = 0;
    while j < n
        invariant
            n == times@.len(),
            n == usable@.len(),
            j <= n,
            forall|m: int| 0 <= m < n ==> !in_span(times@, usable@, start, end, m),
            forall|m: int| 0 <= m < n && #[trigger] usable@[m] ==> times@[m] > start,
            forall|m: int| 0 <= m < j ==> !(#[trigger] usable@[m]),
        decreases n - j,
    {
        if usable[j] && times[j] >= start {
            return ClusterSource::Fallback(j);
        }
        j = j + 1;
    }
    ClusterSource::NoSamples
}

/// The cluster in force at `t`, among clusters begun at `starts`: the last
/// one begun at or before `t`, else the first one.
pub fn cluster_at(starts: &Vec<i64>, t: i64) -> (r: Option<usize>)
    ensures
        (r is None) <==> starts@.len() == 0,
        r matches Some(c) ==> c < starts@.len() && if (exists|i: int| 0 <= i < starts@.len() && #[trigger] starts@[i] <= t) {
            &&& starts@[c as int] <= t
            &&& forall|i: int| c < i < starts@.len() ==> #[trigger] starts@[i] > t
        } else {
            c == 0
        },
{
    let mut k: usize = starts.len();
    while k > 0
        invariant
            k <= starts@.len(),
            forall|i: int| k <= i < starts@.len() ==> #[trigger] starts@[i] > t,
        decreases k,
    {
        if starts[k - 1] <= t {
            return Some(k - 1);
        }
        k = k - 1;
    }
    if starts.len() == 0 {
        None
    } else {
        Some(0)
    }
}

/// A listed sample is usable and its time lies within the span, both ends
/// included.
pub proof fn listed_samples_lie_in_the_span(times: Seq<i64>, usable: Seq<bool>, start: i64, end: i64, idx: Seq<usize>)
    requires
        lists_in_span(times, usable, start, end, idx),
    ensures
        forall|k: int|
            0 <= k < idx.len() ==> {
                let i = #[trigger] idx[k] as int;
                &&& i < times.len()
                &&& usable[i]
                &&& start <= times[i] <= end
            },
        forall|i: int| 0 <= i < times.len() && usable[i] && start <= times[i] <= end ==> #[trigger] idx.contains(i as usize),
{
    assert forall|i: int| 0 <= i < times.len() && usable[i] && start <= times[i] <= end implies #[trigger] idx.contains(
        i as usize,
    ) by {
        assert(in_span(times, usable, start, end, i));
    }
}

} // verus!
