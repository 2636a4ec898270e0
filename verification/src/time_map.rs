//! Timeline time to recording time: which edit entry applies.
//!
//! Each kept edit of the project occupies a half-open span
//! `[timeline_start, timeline_end)` of timeline time and shows one recording
//! clip. Spans may overlap during a transition. A timeline instant maps through
//! the entry that contains it; with a recording clip requested, an entry of
//! that clip is preferred, the outgoing (earliest) one or the incoming (latest)
//! one as asked. Outside all entries the instant clamps to the first entry's
//! start or to the last entry's end. With no entries the mapping is the
//! identity. This module makes that choice over time keys; the arithmetic that
//! follows it is done by the caller.
use vstd::prelude::*;

verus! {

/// One edit of the timeline, its span given by time keys.
#[derive(Clone, Copy, Debug, PartialEq, Eq, Structural)]
pub struct TimeMapEntry {
    pub timeline_start: i64,
    pub timeline_end: i64,
    pub recording_clip: u32,
}

/// The entry's half-open span contains the instant `t`.
pub open spec fn entry_contains(e: TimeMapEntry, t: i64) -> bool {
    e.timeline_start <= t && t < e.timeline_end
}

/// Some entry of `map` of clip `clip` contains `t`.
pub open spec fn clip_covers(map: Seq<TimeMapEntry>, t: i64, clip: u32) -> bool {
    exists|j: int| 0 <= j < map.len() && entry_contains(#[trigger] map[j], t) && map[j].recording_clip == clip
}

/// How a timeline instant maps to recording time.
#[derive(Clone, Copy, Debug, PartialEq, Eq, Structural)]
pub enum TimeMapChoice {
    /// No edits: timeline time is recording time.
    Identity,
    /// At or before the first entry: its recording start.
    ClampStart,
    /// Inside entry `i`: its recording start plus the scaled offset.
    Within(usize),
    /// Past every entry: the recording end of the last entry.
    ClampEnd,
}

/// Index of the last entry containing `t`, of clip `clip` where one is given.
fn last_containing(map: &Vec<TimeMapEntry>, t: i64, clip: Option<u32>) -> (r: Option<usize>)
    ensures
        r matches Some(i) ==> i < map@.len() && entry_contains(map@[i as int], t) && (clip matches Some(c)
            ==> map@[i as int].recording_clip == c),
        forall|j: int|
            #![trigger map@[j]]
            0 <= j < map@.len() && entry_contains(map@[j], t) && (clip matches Some(c)
                ==> map@[j].recording_clip == c) ==> (r matches Some(i) && j <= i),
{
    let mut k: usize = map.len();
    while k > 0
        invariant
            k <= map@.len(),
            forall|j: int|
                #![trigger map@[j]]
                k <= j < map@.len() ==> !(entry_contains(map@[j], t) && (clip matches Some(c)
                    ==> map@[j].recording_clip == c)),
        decreases k,
    {
        let e = map[k - 1];
        let clip_ok = match clip {
            Some(c) => e.recording_clip == c,
            None => true,
        };
        if e.timeline_start <= t && t < e.timeline_end && clip_ok {
            return Some(k - 1);
        }
        k = k - 1;
    }
    None
}

/// Index of the first entry of clip `clip` containing `t`.
fn first_containing_of_clip(map: &Vec<TimeMapEntry>, t: i64, clip: u32) -> (r: Option<usize>)
    ensures
        r matches Some(i) ==> i < map@.len() && entry_contains(map@[i as int], t)
            && map@[i as int].recording_clip == clip,
        forall|j: int|
            #![trigger map@[j]]
            0 <= j < map@.len() && entry_contains(map@[j], t) && map@[j].recording_clip == clip ==> (r matches Some(
                i,
            ) && i <= j),
{
    let mut k: usize = 0;
    while k < map.len()
        invariant
            k <= map@.len(),
            forall|j: int|
                #![trigger map@[j]]
                0 <= j < k ==> !(entry_contains(map@[j], t) && map@[j].recording_clip == clip),
        decreases map@.len() - k,
    {
        let e = map[k];
        if e.timeline_start <= t && t < e.timeline_end && e.recording_clip == clip {
            return Some(k);
        }
        k = k + 1;
    }
    None
}

/// `r` is how the instant `t` maps through `map`, a clip `recording_clip`
/// being requested, outgoing entries preferred when `prefer_outgoing`.
pub open spec fn is_time_map_choice(
    map: Seq<TimeMapEntry>,
    t: i64,
    recording_clip: Option<u32>,
    prefer_outgoing: bool,
    r: TimeMapChoice,
) -> bool {
    &&& (r is Identity) <==> map.len() == 0
    &&& (r is ClampStart) <==> (map.len() > 0 && t <= map[0].timeline_start)
    &&& (r is ClampEnd) <==> (map.len() > 0 && map[0].timeline_start < t && forall|j: int|
        0 <= j < map.len() ==> !entry_contains(#[trigger] map[j], t))
    &&& r matches TimeMapChoice::Within(i) ==> {
        &&& i < map.len()
        &&& entry_contains(map[i as int], t)
        &&& if recording_clip is Some && clip_covers(map, t, recording_clip->0) {
            let c = recording_clip->0;
            &&& map[i as int].recording_clip == c
            &&& prefer_outgoing ==> forall|j: int|
                0 <= j < i ==> !(entry_contains(#[trigger] map[j], t) && map[j].recording_clip == c)
            &&& !prefer_outgoing ==> forall|j: int|
                i < j < map.len() ==> !(entry_contains(#[trigger] map[j], t) && map[j].recording_clip == c)
        } else {
            forall|j: int| i < j < map.len() ==> !entry_contains(#[trigger] map[j], t)
        }
    }
}

/// Which entry of `map` the timeline instant `t` maps through.
pub fn choose_time_map_entry(
    map: &Vec<TimeMapEntry>,
    t: i64,
    recording_clip: Option<u32>,
    prefer_outgoing: bool,
) -> (r: TimeMapChoice)
    ensures
        is_time_map_choice(map@, t, recording_clip, prefer_outgoing, r),
{
    if map.len() == 0 {
        return TimeMapChoice::Identity;
    }
    if t <= map[0].timeline_start {
        return TimeMapChoice::ClampStart;
    }
    let preferred = match recording_clip {
        Some(c) => {
            if prefer_outgoing {
                first_containing_of_clip(map, t, c)
            } else {
                last_containing(map, t, Some(c))
            }
        },
        None => None,
    };
    let chosen = match preferred {
        Some(i) => Some(i),
        None => last_containing(map, t, None),
    };
    match chosen {
        Some(i) => TimeMapChoice::Within(i),
        None => TimeMapChoice::ClampEnd,
    }
}

/// No instant lies in the spans of two different entries.
pub open spec fn spans_disjoint(map: Seq<TimeMapEntry>) -> bool {
    forall|i: int, j: int, t: i64|
        0 <= i < j < map.len() ==> !(#[trigger] entry_contains(map[i], t) && #[trigger] entry_contains(map[j], t))
}

/// When no two edits overlap, the entry an instant maps through does not
/// depend on the requested clip nor on the outgoing preference.
pub proof fn choice_ignores_clip_without_overlap(
    map: Seq<TimeMapEntry>,
    t: i64,
    clip_a: Option<u32>,
    outgoing_a: bool,
    r_a: TimeMapChoice,
    clip_b: Option<u32>,
    outgoing_b: bool,
    r_b: TimeMapChoice,
)
    requires
        spans_disjoint(map),
        is_time_map_choice(map, t, clip_a, outgoing_a, r_a),
        is_time_map_choice(map, t, clip_b, outgoing_b, r_b),
    ensures
        r_a == r_b,
{
    if let TimeMapChoice::Within(i) = r_a {
        if let TimeMapChoice::Within(k) = r_b {
            if i < k {
                assert(!(entry_contains(map[i as int], t) && entry_contains(map[k as int], t)));
            } else if k < i {
                assert(!(entry_contains(map[k as int], t) && entry_contains(map[i as int], t)));
            }
        }
    }
}

/// An entry holds the instants from its start, included, to its end,
/// excluded: where one edit ends and the next begins, the instant belongs to
/// the next one only.
pub proof fn entry_span_is_half_open(e: TimeMapEntry, next: TimeMapEntry, t: i64)
    ensures
        entry_contains(e, t) <==> (e.timeline_start <= t && t < e.timeline_end),
        e.timeline_start < e.timeline_end ==> entry_contains(e, e.timeline_start) && !entry_contains(e, e.timeline_end),
        next.timeline_start == e.timeline_end && next.timeline_start < next.timeline_end ==> entry_contains(
            next,
            e.timeline_end,
        ) && !entry_contains(e, e.timeline_end),
{
}

/// The chosen entry contains the instant; with no clip requested it is the
/// latest (incoming) entry that does.
pub proof fn chosen_entry_contains_the_instant(map: Seq<TimeMapEntry>, t: i64, prefer_outgoing: bool, i: usize)
    requires
        is_time_map_choice(map, t, None, prefer_outgoing, TimeMapChoice::Within(i)),
    ensures
        i < map.len(),
        map[i as int].timeline_start <= t < map[i as int].timeline_end,
        forall|j: int| i < j < map.len() ==> !((#[trigger] map[j]).timeline_start <= t && t < map[j].timeline_end),
{
}

/// With a clip requested that some containing entry shows, the chosen entry
/// shows that clip: the earliest such when the outgoing side is preferred,
/// else the latest.
pub proof fn requested_clip_is_honoured(map: Seq<TimeMapEntry>, t: i64, c: u32, prefer_outgoing: bool, i: usize, j: int)
    requires
        is_time_map_choice(map, t, Some(c), prefer_outgoing, TimeMapChoice::Within(i)),
        0 <= j < map.len(),
        map[j].timeline_start <= t < map[j].timeline_end,
        map[j].recording_clip == c,
    ensures
        map[i as int].recording_clip == c,
        map[i as int].timeline_start <= t < map[i as int].timeline_end,
        prefer_outgoing ==> i <= j,
        !prefer_outgoing ==> j <= i,
{
    assert(entry_contains(map[j], t));
}

} // verus!
