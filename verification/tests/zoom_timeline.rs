use cap_rendering::clusters::{cluster_at, cluster_source, ClusterSource};
use cap_rendering::crop::{Crop, CursorCropMap};
use cap_rendering::cursor_track::{cursor_bracket, partition_point, CursorBracket};
use cap_rendering::order::stable_sort_order;
use cap_rendering::samples::{total_samples, SampleCache, StepLog, StepSource};
use cap_rendering::schedule::{
    active_auto_segment, active_segment, permute, snaps_at, step_plan,
    ScheduledSegment, StepPlan, ZoomKind,
};
use cap_rendering::time_map::{choose_time_map_entry, TimeMapChoice, TimeMapEntry};

/// Millisecond keys order like the instants in these tests.
fn ms(secs: f64) -> i64 {
    (secs * 1000.0).round() as i64
}

fn segment(start: f64, end: f64, instant: bool, kind: ZoomKind) -> ScheduledSegment {
    ScheduledSegment {
        start: ms(start),
        end: ms(end),
        snap_from: ms(start - 0.1),
        snap_to: ms(end + 0.1),
        instant,
        kind,
    }
}

struct CountingSteps {
    calls: Vec<usize>,
}

impl StepSource<f32> for CountingSteps {
    fn next_step(&mut self, step_index: usize) -> (f32, bool) {
        self.calls.push(step_index);
        (step_index as f32, step_index % 3 == 0)
    }
}

struct NoSteps;

impl StepSource<f32> for NoSteps {
    fn next_step(&mut self, _step_index: usize) -> (f32, bool) {
        panic!("no step may be computed")
    }
}

fn steps_for(secs: f64) -> usize {
    (secs.max(0.0) * 1000.0 / 8.0).ceil() as usize
}

#[test]
fn crop_map_identity_cases() {
    let full = Crop { position_x: 0, position_y: 0, size_x: 1000, size_y: 1000 };
    assert!(CursorCropMap::from_crop(&full, 1000, 1000).is_none());
    let degenerate = Crop { position_x: 0, position_y: 0, size_x: 0, size_y: 500 };
    assert!(CursorCropMap::from_crop(&degenerate, 1000, 1000).is_none());
    assert!(CursorCropMap::from_crop(&full, 0, 0).is_none());
}

#[test]
fn crop_of_the_bottom_half_applies() {
    let crop = Crop { position_x: 0, position_y: 500, size_x: 1000, size_y: 500 };
    let map = CursorCropMap::from_crop(&crop, 1000, 1000).unwrap();
    assert_eq!(map.crop_rect(), crop);
    assert_eq!(map.screen_size(), (1000, 1000));
    // an oversized crop at the origin still covers everything
    let oversized = Crop { position_x: 0, position_y: 0, size_x: 1200, size_y: 1000 };
    assert!(CursorCropMap::from_crop(&oversized, 1000, 1000).is_none());
}

#[test]
fn timeline_mapping_uses_incoming_source_during_transition() {
    // Two edits of clip 0: timeline [0, 4) shows recording 0s.., and, after a
    // 0.5s cross-fade, timeline [3.5, 7.5) shows recording 10s..
    let map = vec![
        TimeMapEntry { timeline_start: ms(0.0), timeline_end: ms(4.0), recording_clip: 0 },
        TimeMapEntry { timeline_start: ms(3.5), timeline_end: ms(7.5), recording_clip: 0 },
    ];
    let starts = [(0.0, 0.0), (3.5, 10.0)];
    let recording = |t: f64, choice: TimeMapChoice| match choice {
        TimeMapChoice::Within(i) => starts[i].1 + (t - starts[i].0) * 1.0,
        other => panic!("unexpected {other:?}"),
    };
    assert_eq!(recording(3.25, choose_time_map_entry(&map, ms(3.25), None, false)), 3.25);
    assert_eq!(recording(3.75, choose_time_map_entry(&map, ms(3.75), None, false)), 10.25);
    assert_eq!(recording(3.75, choose_time_map_entry(&map, ms(3.75), Some(0), false)), 10.25);
    assert_eq!(recording(3.75, choose_time_map_entry(&map, ms(3.75), Some(0), true)), 3.75);
}

#[test]
fn time_map_identity_and_clamping() {
    assert_eq!(choose_time_map_entry(&vec![], ms(5.0), None, false), TimeMapChoice::Identity);
    let map = vec![
        TimeMapEntry { timeline_start: ms(1.0), timeline_end: ms(2.0), recording_clip: 3 },
        TimeMapEntry { timeline_start: ms(2.0), timeline_end: ms(4.0), recording_clip: 4 },
    ];
    assert_eq!(choose_time_map_entry(&map, ms(0.5), None, false), TimeMapChoice::ClampStart);
    assert_eq!(choose_time_map_entry(&map, ms(1.0), None, false), TimeMapChoice::ClampStart);
    assert_eq!(choose_time_map_entry(&map, ms(2.0), None, false), TimeMapChoice::Within(1));
    assert_eq!(choose_time_map_entry(&map, ms(4.0), None, false), TimeMapChoice::ClampEnd);
    // a requested clip that does not cover the instant falls back to any entry
    assert_eq!(choose_time_map_entry(&map, ms(1.5), Some(4), true), TimeMapChoice::Within(0));
}

#[test]
fn stable_order_sorts_by_start_then_end_keeping_ties() {
    let keys = vec![(5, 9), (1, 3), (5, 7), (1, 3), (0, 100)];
    assert_eq!(stable_sort_order(&keys), vec![4, 1, 3, 2, 0]);
    assert_eq!(stable_sort_order(&vec![]), Vec::<usize>::new());
}

#[test]
fn schedule_orders_segments_and_permutes_their_data() {
    let segs = vec![
        segment(6.0, 8.0, false, ZoomKind::Manual),
        segment(1.0, 4.0, false, ZoomKind::Auto),
        segment(1.0, 2.0, true, ZoomKind::Manual),
    ];
    let keys: Vec<(i64, i64)> = segs.iter().map(|s| (s.start, s.end)).collect();
    let order = stable_sort_order(&keys);
    assert_eq!(order, vec![2, 1, 0]);
    let amounts = vec![3.0f64, 2.0, 1.5];
    assert_eq!(permute(&amounts, &order), vec![1.5, 2.0, 3.0]);
}

#[test]
fn first_active_segment_wins_on_open_closed_spans() {
    let segs = vec![
        segment(1.0, 4.0, false, ZoomKind::Manual),
        segment(2.0, 5.0, false, ZoomKind::Auto),
    ];
    assert_eq!(active_segment(&segs, ms(1.0)), None);
    assert_eq!(active_segment(&segs, ms(1.001)), Some(0));
    assert_eq!(active_segment(&segs, ms(4.0)), Some(0));
    assert_eq!(active_segment(&segs, ms(4.001)), Some(1));
    assert_eq!(active_segment(&segs, ms(5.001)), None);
    // the first active segment is manual here, so no cursor-following segment
    assert_eq!(active_auto_segment(&segs, ms(3.0)), None);
    assert_eq!(active_auto_segment(&segs, ms(4.5)), Some(1));
}

#[test]
fn instant_segments_snap_around_their_span() {
    let segs = vec![
        segment(1.0, 2.0, true, ZoomKind::Manual),
        segment(3.0, 4.0, false, ZoomKind::Manual),
    ];
    assert!(!snaps_at(&segs, ms(0.85)));
    assert!(snaps_at(&segs, ms(0.9)));
    assert!(snaps_at(&segs, ms(2.1)));
    assert!(!snaps_at(&segs, ms(2.2)));
    assert!(!snaps_at(&segs, ms(3.5)));
    assert_eq!(step_plan(&segs, ms(0.95)), StepPlan { segment: None, snap: true });
    assert_eq!(step_plan(&segs, ms(3.5)), StepPlan { segment: Some(1), snap: false });
}

#[test]
fn degenerate_segments_do_not_break_the_timeline() {
    let segs = vec![
        segment(1.0, 1.0, false, ZoomKind::Manual),
        segment(3.0, 2.5, false, ZoomKind::Manual),
        segment(100.0, 105.0, false, ZoomKind::Auto),
    ];
    let keys: Vec<(i64, i64)> = segs.iter().map(|s| (s.start, s.end)).collect();
    let sorted = permute(&segs, &stable_sort_order(&keys));
    let mut t = 0.0;
    while t <= 5.0 {
        assert_eq!(step_plan(&sorted, ms(t)).segment, None, "degenerate segment activated at t={t}");
        t += 0.05;
    }
    // zero-duration timelines still sample safely
    let mut zero = SampleCache::new(1.0f32, total_samples(false, steps_for(0.0)));
    zero.ensure_precomputed_until(&mut StepLog::new(NoSteps), steps_for(1.0));
    let (idx, next) = zero.sample_indices(0);
    assert_eq!((idx, next), (0, 0));
    assert_eq!(*zero.sample(idx), 1.0);
}

#[test]
fn empty_zoom_timeline_stays_constant_without_precompute_work() {
    let hour = 60.0 * 60.0;
    let mut cache = SampleCache::new(1.0f32, total_samples(false, steps_for(hour)));
    cache.ensure_precomputed_until(&mut StepLog::new(NoSteps), steps_for(hour));
    assert!(!cache.is_active());
    assert_eq!(cache.len(), 1);
    let (idx, _) = cache.sample_indices(steps_for(hour));
    assert_eq!(*cache.sample(idx), 1.0);
}

#[test]
fn sampling_before_precompute_clamps_to_seed_instead_of_diverging() {
    let cache = SampleCache::new(1.0f32, total_samples(true, steps_for(6.0)));
    assert!(cache.is_active());
    assert_eq!(cache.sample_indices(0), (0, 0));
    assert_eq!(cache.sample_indices(500), (0, 0));
    assert_eq!(*cache.sample(0), 1.0);
}

#[test]
fn sequential_and_seek_precompute_are_identical() {
    let total = total_samples(true, steps_for(10.0));
    assert_eq!(total, 1252);
    let mut sequential = SampleCache::new(0.0f32, total);
    let mut seq_steps = StepLog::new(CountingSteps { calls: vec![] });
    let mut chunk = 0.0f32;
    while chunk < 10.5 {
        sequential.ensure_precomputed_until(&mut seq_steps, steps_for(f64::from(chunk)));
        chunk += 0.037; // deliberately not a multiple of the step
    }
    sequential.precompute(&mut seq_steps);
    let mut seek = SampleCache::new(0.0f32, total);
    let mut seek_steps = StepLog::new(CountingSteps { calls: vec![] });
    seek.precompute(&mut seek_steps);
    assert_eq!(sequential.len(), total);
    assert_eq!(seek.len(), total);
    assert_eq!(seq_steps.source().calls, seek_steps.source().calls);
    assert_eq!(seek_steps.source().calls, (1..total).collect::<Vec<_>>());
    for index in 0..total {
        assert_eq!(sequential.sample(index).to_bits(), seek.sample(index).to_bits(), "amount @ {index}");
        assert_eq!(
            sequential.snapped_within(index, index, index, index),
            seek.snapped_within(index, index, index, index),
            "snapped @ {index}"
        );
    }
}

#[test]
fn ensure_extends_to_the_step_and_its_partner() {
    let mut cache = SampleCache::new(0.0f32, 100);
    let mut steps = StepLog::new(CountingSteps { calls: vec![] });
    cache.ensure_precomputed_until(&mut steps, 10);
    assert_eq!(cache.len(), 12);
    assert_eq!(cache.needed_len(10), 12);
    assert_eq!(cache.needed_len(500), 100);
    // asking for less is a no-op
    cache.ensure_precomputed_until(&mut steps, 3);
    assert_eq!(cache.len(), 12);
    assert_eq!(cache.sample_indices(5), (5, 6));
    assert_eq!(cache.sample_indices(11), (11, 11));
    assert_eq!(cache.sample_indices(40), (11, 11));
    cache.precompute(&mut steps);
    assert_eq!(cache.len(), 100);
    assert!(!cache.is_active());
    assert_eq!(cache.sample_indices(98), (98, 99));
}

#[test]
fn snapped_within_looks_between_either_order_of_instants() {
    let mut cache = SampleCache::new(0.0f32, 20);
    cache.precompute(&mut StepLog::new(CountingSteps { calls: vec![] }));
    // steps 3, 6, 9, ... snapped (and the seed did not)
    assert!(!cache.snapped_within(1, 1, 2, 2));
    assert!(cache.snapped_within(1, 2, 3, 3));
    assert!(cache.snapped_within(3, 3, 1, 2));
    assert!(cache.snapped_within(4, 5, 5, 6));
    assert!(!cache.snapped_within(4, 5, 4, 5));
    assert!(!cache.snapped_within(0, 0, 0, 0));
    // past the cache it clamps to the last sample (19 did not snap, 18 did)
    assert!(!cache.snapped_within(19, 19, 400, 401));
    assert!(cache.snapped_within(17, 18, 400, 401));
}

#[test]
fn partition_point_and_cursor_brackets() {
    let times = vec![0, 100, 100, 250];
    assert_eq!(partition_point(&times, -5), 0);
    assert_eq!(partition_point(&times, 100), 3);
    assert_eq!(partition_point(&times, 300), 4);
    assert_eq!(cursor_bracket(&vec![], 5), CursorBracket::NoSamples);
    assert_eq!(cursor_bracket(&times, 0), CursorBracket::AtFirst);
    assert_eq!(cursor_bracket(&times, 50), CursorBracket::Between(1));
    assert_eq!(cursor_bracket(&times, 100), CursorBracket::Between(3));
    assert_eq!(cursor_bracket(&times, 250), CursorBracket::AtLast);
    assert_eq!(cursor_bracket(&times, 999), CursorBracket::AtLast);
}

#[test]
fn cluster_sources_in_span_fallback_and_none() {
    let times = vec![0, 100, 200, 300, 400];
    let usable = vec![true, true, false, true, true];
    assert_eq!(cluster_source(&times, &usable, 100, 300), ClusterSource::InSpan(vec![1, 3]));
    // nothing in span: the last usable sample before the span
    assert_eq!(cluster_source(&times, &usable, 150, 250), ClusterSource::Fallback(1));
    // nothing at or before the span: the first usable sample after it
    assert_eq!(cluster_source(&times, &usable, -50, -10), ClusterSource::Fallback(0));
    // unusable samples never stand in
    assert_eq!(cluster_source(&times, &vec![false; 5], 0, 400), ClusterSource::NoSamples);
    assert_eq!(cluster_source(&vec![], &vec![], 0, 400), ClusterSource::NoSamples);
}

#[test]
fn timeline_mapping_filters_clusters_in_recording_time() {
    // the auto segment spans timeline [0.5, 8] = recording [10.5, 18] through
    // the single edit that starts at recording 10s
    let times = vec![ms(1.0), ms(11.0)];
    let usable = vec![true, true];
    assert_eq!(cluster_source(&times, &usable, ms(10.5), ms(18.0)), ClusterSource::InSpan(vec![1]));
}

#[test]
fn cluster_in_force_is_the_last_begun() {
    let starts = vec![0, 500, 900];
    assert_eq!(cluster_at(&starts, -10), Some(0));
    assert_eq!(cluster_at(&starts, 500), Some(1));
    assert_eq!(cluster_at(&starts, 899), Some(1));
    assert_eq!(cluster_at(&starts, 5000), Some(2));
    assert_eq!(cluster_at(&vec![], 5), None);
}

#[test]
fn clip_request_does_not_matter_without_overlapping_edits() {
    let map = vec![
        TimeMapEntry { timeline_start: ms(0.0), timeline_end: ms(4.0), recording_clip: 0 },
        TimeMapEntry { timeline_start: ms(4.0), timeline_end: ms(8.0), recording_clip: 1 },
    ];
    for t in [-1.0, 0.0, 2.0, 3.999, 4.0, 6.0, 8.0, 9.0] {
        let plain = choose_time_map_entry(&map, ms(t), None, false);
        for clip in [None, Some(0), Some(1), Some(7)] {
            for outgoing in [false, true] {
                assert_eq!(choose_time_map_entry(&map, ms(t), clip, outgoing), plain, "t={t}");
            }
        }
    }
}

#[test]
fn no_instant_segment_never_snaps() {
    let segs = vec![
        segment(1.0, 2.0, false, ZoomKind::Manual),
        segment(1.5, 3.0, false, ZoomKind::Auto),
    ];
    let mut t = 0.0;
    while t <= 4.0 {
        assert!(!snaps_at(&segs, ms(t)));
        assert!(!step_plan(&segs, ms(t)).snap);
        t += 0.05;
    }
}
