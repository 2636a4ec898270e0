//! The cache of precomputed timeline samples.
//!
//! Samples are taken every fixed step: sample `i` is the state at `i` steps.
//! The cache holds a prefix of the `total` samples that cover the timeline,
//! always at least the seed sample, and grows on demand. Sampling an instant
//! looks up the step at or before it and its successor, clamped to what is
//! cached. Each sample remembers whether its step snapped instead of springing.
use vstd::prelude::*;

verus! {

/// Produces the sample of one step, and whether that step snapped.
pub trait StepSource<T> {
    fn next_step(&mut self, step_index: usize) -> (T, bool);
}

/// One answered step request: the step index, its sample and its snap flag.
pub type StepRecord<T> = (usize, T, bool);

/// A step source together with the record of every step asked of it and
/// what it answered, in order.
pub struct StepLog<T, S> {
    source: S,
    log: Ghost<Seq<StepRecord<T>>>,
}

impl<T, S: StepSource<T>> StepLog<T, S> {
    /// The steps asked so far, with their answers, in order.
    pub closed spec fn log(self) -> Seq<StepRecord<T>> {
        self.log@
    }

    /// The wrapped source.
    pub closed spec fn inner(self) -> S {
        self.source
    }

    /// Starts recording the requests made of `source`.
    pub fn new(source: S) -> (r: Self)
        ensures
            r.log() == Seq::<StepRecord<T>>::empty(),
            r.inner() == source,
    {
        StepLog { source, log: Ghost(Seq::empty()) }
    }

    /// Asks the source for step `step_index` and records the answer.
    pub fn step(&mut self, step_index: usize) -> (r: (T, bool))
        ensures
            final(self).log() == old(self).log().push((step_index, r.0, r.1)),
    {
        let r = self.source.next_step(step_index);
        self.log = Ghost(self.log@.push((step_index, r.0, r.1)));
        r
    }

    /// The wrapped source.
    pub fn source(&self) -> (r: &S)
        ensures
            *r == self.inner(),
    {
        &self.source
    }
}

/// The records of steps `from` up to `to` of a cache: each index with the
/// sample and snap flag the cache holds for it.
pub open spec fn step_records<T>(samples: Seq<T>, snapped: Seq<bool>, from: int, to: int) -> Seq<StepRecord<T>> {
    Seq::new((to - from) as nat, |k: int| ((from + k) as usize, samples[from + k], snapped[from + k]))
}

/// A cache of precomputed samples.
pub struct SampleCache<T> {
    seed: (T, bool),
    rest: Vec<(T, bool)>,
    total: usize,
}

/// How many samples cover a timeline: only the seed when there is nothing to
/// animate, else one per step of the duration plus a trailing partner.
pub open spec fn spec_total_samples(animated: bool, duration_steps: nat) -> nat {
    if animated {
        duration_steps + 2
    } else {
        1
    }
}

/// The cache length that covering `need_steps` steps calls for: the step at
/// or after the instant and its successor, within the total.
pub open spec fn spec_needed_len(need_steps: nat, total: nat) -> nat {
    if need_steps + 2 <= total {
        need_steps + 2
    } else {
        total
    }
}

/// The cache length after ensuring `need_steps` from length `len`.
pub open spec fn spec_ensured_len(len: nat, need_steps: nat, total: nat) -> nat {
    if len >= spec_needed_len(need_steps, total) {
        len
    } else {
        spec_needed_len(need_steps, total)
    }
}

/// Number of samples covering a timeline of `duration_steps` steps (rounded up).
pub fn total_samples(animated: bool, duration_steps: usize) -> (r: usize)
    requires
        duration_steps <= usize::MAX - 2,
    ensures
        r == spec_total_samples(animated, duration_steps as nat),
{
    if animated {
        duration_steps + 2
    } else {
        1
    }
}

impl<T> SampleCache<T> {
    #[verifier::type_invariant]
    spec fn well_formed(self) -> bool {
        1 <= self.total && self.rest@.len() + 1 <= self.total
    }

    /// The cached samples with their snap flags, in step order.
    closed spec fn entries(self) -> Seq<(T, bool)> {
        seq![self.seed] + self.rest@
    }

    /// The cached samples, in step order.
    pub closed spec fn samples(self) -> Seq<T> {
        self.entries().map_values(|e: (T, bool)| e.0)
    }

    /// Which cached steps snapped.
    pub closed spec fn snapped(self) -> Seq<bool> {
        self.entries().map_values(|e: (T, bool)| e.1)
    }

    /// The number of samples that cover the timeline.
    pub closed spec fn total(self) -> nat {
        self.total as nat
    }

    /// A cache holding the seed sample, of a timeline covered by `total` samples.
    pub fn new(seed: T, total: usize) -> (r: Self)
        requires
            total >= 1,
        ensures
            r.samples() == seq![seed],
            r.snapped() == seq![false],
            r.total() == total,
    {
        let r = SampleCache { seed: (seed, false), rest: Vec::new(), total };
        assert(r.samples() =~= seq![seed]);
        assert(r.snapped() =~= seq![false]);
        r
    }

    /// Number of cached samples.
    pub fn len(&self) -> (r: usize)
        ensures
            r == self.samples().len(),
    {
        proof {
            use_type_invariant(self);
        }
        self.rest.len() + 1
    }

    /// Whether samples remain to be computed.
    pub fn is_active(&self) -> (r: bool)
        ensures
            r == (self.samples().len() < self.total()),
    {
        proof {
            use_type_invariant(self);
        }
        self.rest.len() + 1 < self.total
    }

    /// The cached sample of step `i`.
    pub fn sample(&self, i: usize) -> (r: &T)
        requires
            i < self.samples().len(),
        ensures
            *r == self.samples()[i as int],
    {
        if i == 0 {
            &self.seed.0
        } else {
            &self.rest[i - 1].0
        }
    }

    /// Appends the sample of the next step.
    pub fn push(&mut self, sample: T, snapped: bool)
        requires
            old(self).samples().len() < old(self).total(),
        ensures
            final(self).samples() == old(self).samples().push(sample),
            final(self).snapped() == old(self).snapped().push(snapped),
            final(self).total() == old(self).total(),
    {
        proof {
            use_type_invariant(&*self);
        }
        let ghost before = self.entries();
        let mut rest: Vec<(T, bool)> = Vec::new();
        std::mem::swap(&mut rest, &mut self.rest);
        rest.push((sample, snapped));
        self.rest = rest;
        assert(self.entries() =~= before.push((sample, snapped)));
        assert(self.samples() =~= before.map_values(|e: (T, bool)| e.0).push(sample));
        assert(self.snapped() =~= before.map_values(|e: (T, bool)| e.1).push(snapped));
    }

    /// The cache length that covering `need_steps` steps calls for.
    pub fn needed_len(&self, need_steps: usize) -> (r: usize)
        requires
            need_steps <= usize::MAX - 2,
        ensures
            r == spec_needed_len(need_steps as nat, self.total()),
    {
        if need_steps + 2 <= self.total {
            need_steps + 2
        } else {
            self.total
        }
    }

    /// Extends the cache to cover `need_steps` steps, asking the source for
    /// each missing step once, in order, and appending its answer; a no-op once
    /// that range, or the whole timeline, is cached.
    pub fn ensure_precomputed_until<S: StepSource<T>>(&mut self, source: &mut StepLog<T, S>, need_steps: usize)
        requires
            need_steps <= usize::MAX - 2,
        ensures
            final(source).log() == old(source).log() + step_records(
                final(self).samples(),
                final(self).snapped(),
                old(self).samples().len() as int,
                final(self).samples().len() as int,
            ),
            final(self).samples().len() == spec_ensured_len(
                old(self).samples().len(),
                need_steps as nat,
                old(self).total(),
            ),
            final(self).samples().subrange(0, old(self).samples().len() as int) == old(self).samples(),
            final(self).snapped().subrange(0, old(self).samples().len() as int) == old(self).snapped(),
            final(self).total() == old(self).total(),
    {
        proof {
            use_type_invariant(&*self);
        }
        let need = self.needed_len(need_steps);
        let ghost start_samples = self.samples();
        let ghost start_snapped = self.snapped();
        assert(self.snapped().len() == self.samples().len());
        assert(source.log() =~= old(source).log() + step_records(
            self.samples(),
            self.snapped(),
            start_samples.len() as int,
            self.samples().len() as int,
        ));
        while self.len() < need
            invariant
                need == spec_needed_len(need_steps as nat, old(self).total()),
                need <= self.total(),
                self.total() == old(self).total(),
                old(self).samples().len() <= self.samples().len(),
                self.samples().len() <= spec_ensured_len(
                    old(self).samples().len(),
                    need_steps as nat,
                    old(self).total(),
                ),
                start_samples == old(self).samples(),
                start_snapped == old(self).snapped(),
                self.samples().subrange(0, start_samples.len() as int) == start_samples,
                self.snapped().subrange(0, start_samples.len() as int) == start_snapped,
                self.snapped().len() == self.samples().len(),
                source.log() == old(source).log() + step_records(
                    self.samples(),
                    self.snapped(),
                    start_samples.len() as int,
                    self.samples().len() as int,
                ),
            decreases need - self.samples().len(),
        {
            proof {
                use_type_invariant(&*self);
            }
            let index = self.len();
            let (sample, snapped) = source.step(index);
            let ghost prev_samples = self.samples();
            let ghost prev_snapped = self.snapped();
            self.push(sample, snapped);
            assert(step_records(self.samples(), self.snapped(), start_samples.len() as int, self.samples().len() as int)
                =~= step_records(prev_samples, prev_snapped, start_samples.len() as int, prev_samples.len() as int).push(
                (index, sample, snapped)));
            assert(source.log() =~= old(source).log() + step_records(
                self.samples(),
                self.snapped(),
                start_samples.len() as int,
                self.samples().len() as int,
            ));
            assert(self.samples().subrange(0, start_samples.len() as int) =~= prev_samples.subrange(
                0,
                start_samples.len() as int,
            ));
            assert(self.snapped().subrange(0, start_samples.len() as int) =~= prev_snapped.subrange(
                0,
                start_samples.len() as int,
            ));
        }
    }

    /// Computes every remaining sample of the timeline, asking the source
    /// for each missing step once, in order, and appending its answer.
    pub fn precompute<S: StepSource<T>>(&mut self, source: &mut StepLog<T, S>)
        ensures
            final(source).log() == old(source).log() + step_records(
                final(self).samples(),
                final(self).snapped(),
                old(self).samples().len() as int,
                final(self).samples().len() as int,
            ),
            final(self).samples().len() == old(self).total(),
            final(self).samples().subrange(0, old(self).samples().len() as int) == old(self).samples(),
            final(self).snapped().subrange(0, old(self).samples().len() as int) == old(self).snapped(),
            final(self).total() == old(self).total(),
    {
        proof {
            use_type_invariant(&*self);
        }
        let ghost start_samples = self.samples();
        let ghost start_snapped = self.snapped();
        assert(self.snapped().len() == self.samples().len());
        assert(source.log() =~= old(source).log() + step_records(
            self.samples(),
            self.snapped(),
            start_samples.len() as int,
            self.samples().len() as int,
        ));
        while self.is_active()
            invariant
                self.total() == old(self).total(),
                old(self).samples().len() <= self.samples().len() <= self.total(),
                start_samples == old(self).samples(),
                start_snapped == old(self).snapped(),
                self.samples().subrange(0, start_samples.len() as int) == start_samples,
                self.snapped().subrange(0, start_samples.len() as int) == start_snapped,
                self.snapped().len() == self.samples().len(),
                source.log() == old(source).log() + step_records(
                    self.samples(),
                    self.snapped(),
                    start_samples.len() as int,
                    self.samples().len() as int,
                ),
            decreases self.total() - self.samples().len(),
        {
            let index = self.len();
            let (sample, snapped) = source.step(index);
            let ghost prev_samples = self.samples();
            let ghost prev_snapped = self.snapped();
            self.push(sample, snapped);
            assert(step_records(self.samples(), self.snapped(), start_samples.len() as int, self.samples().len() as int)
                =~= step_records(prev_samples, prev_snapped, start_samples.len() as int, prev_samples.len() as int).push(
                (index, sample, snapped)));
            assert(source.log() =~= old(source).log() + step_records(
                self.samples(),
                self.snapped(),
                start_samples.len() as int,
                self.samples().len() as int,
            ));
            proof {
                use_type_invariant(&*self);
            }
            assert(self.samples().subrange(0, start_samples.len() as int) =~= prev_samples.subrange(
                0,
                start_samples.len() as int,
            ));
            assert(self.snapped().subrange(0, start_samples.len() as int) =~= prev_snapped.subrange(
                0,
                start_samples.len() as int,
            ));
        }
    }

    /// The cached steps to interpolate between for an instant `pos_steps`
    /// whole steps in: that step and its successor, both clamped to the cache.
    pub fn sample_indices(&self, pos_steps: usize) -> (r: (usize, usize))
        ensures
            r.0 == if pos_steps < self.samples().len() { pos_steps as int } else { self.samples().len() - 1 },
            r.1 == if r.0 + 1 < self.samples().len() { r.0 + 1 } else { self.samples().len() - 1 },
            r.0 < self.samples().len(),
            r.1 < self.samples().len(),
    {
        proof {
            use_type_invariant(self);
        }
        let last = self.rest.len();
        let idx = if pos_steps < last { pos_steps } else { last };
        let next = if idx + 1 < last { idx + 1 } else { last };
        (idx, next)
    }

    /// Whether any cached step between two instants snapped. Each instant is
    /// given by its whole steps rounded down and up; the range runs from the
    /// earlier one rounded down to the later one rounded up, clamped to the
    /// cache.
    pub fn snapped_within(
        &self,
        from_floor: usize,
        from_ceil: usize,
        to_floor: usize,
        to_ceil: usize,
    ) -> (r: bool)
        requires
            from_floor <= from_ceil,
            to_floor <= to_ceil,
        ensures
            r == exists|i: int|
                spec_snap_lo(from_floor, to_floor, self.samples().len()) <= i <= spec_snap_hi(
                    from_ceil,
                    to_ceil,
                    self.samples().len(),
                ) && #[trigger] self.snapped()[i],
    {
        proof {
            use_type_invariant(self);
        }
        let last = self.rest.len();
        let lo_raw = if from_floor <= to_floor { from_floor } else { to_floor };
        let hi_raw = if from_ceil >= to_ceil { from_ceil } else { to_ceil };
        let lo = if lo_raw < last { lo_raw } else { last };
        let hi = if hi_raw < last { hi_raw } else { last };
        let mut i = lo;
        while i <= hi
            invariant
                lo <= i <= hi + 1,
                hi < self.samples().len(),
                hi < usize::MAX,
                lo == spec_snap_lo(from_floor, to_floor, self.samples().len()),
                hi == spec_snap_hi(from_ceil, to_ceil, self.samples().len()),
                forall|k: int| lo <= k < i ==> !(#[trigger] self.snapped()[k]),
            decreases hi + 1 - i,
        {
            let flag = if i == 0 { self.seed.1 } else { self.rest[i - 1].1 };
            if flag {
                assert(self.snapped()[i as int]);
                return true;
            }
            i = i + 1;
        }
        false
    }
}

/// First step of a snap query: the earlier instant rounded down, clamped to the cache.
pub open spec fn spec_snap_lo(from_floor: usize, to_floor: usize, len: nat) -> int {
    let lo = if from_floor <= to_floor { from_floor as int } else { to_floor as int };
    if lo < len - 1 { lo } else { len - 1 }
}

/// Last step of a snap query: the later instant rounded up, clamped to the cache.
pub open spec fn spec_snap_hi(from_ceil: usize, to_ceil: usize, len: nat) -> int {
    let hi = if from_ceil >= to_ceil { from_ceil as int } else { to_ceil as int };
    if hi < len - 1 { hi } else { len - 1 }
}

/// Extending the cache in two requests reaches the same length as one
/// request for the farther of the two: seeking and sequential playback
/// precompute the same steps.
pub proof fn ensure_requests_compose(len: nat, a: nat, b: nat, total: nat)
    ensures
        spec_ensured_len(spec_ensured_len(len, a, total), b, total) == spec_ensured_len(
            len,
            if a >= b { a } else { b },
            total,
        ),
{
}

/// Ensuring never shrinks the cache and never reaches past the total or past
/// what was asked, unless the cache already reached further.
pub proof fn ensure_is_bounded(len: nat, need: nat, total: nat)
    requires
        len <= total,
    ensures
        len <= spec_ensured_len(len, need, total) <= total,
        spec_ensured_len(len, need, total) == len || spec_ensured_len(len, need, total) == spec_needed_len(
            need,
            total,
        ),
{
}

/// A timeline with nothing to animate keeps exactly its seed sample.
pub proof fn static_timeline_keeps_only_its_seed(duration_steps: nat, need: nat)
    ensures
        spec_total_samples(false, duration_steps) == 1,
        spec_ensured_len(1, need, spec_total_samples(false, duration_steps)) == 1,
{
}

/// Asking whether a step snapped between two instants does not depend on the
/// order in which the instants are given.
pub proof fn snap_query_is_symmetric(from_floor: usize, from_ceil: usize, to_floor: usize, to_ceil: usize, len: nat)
    ensures
        spec_snap_lo(from_floor, to_floor, len) == spec_snap_lo(to_floor, from_floor, len),
        spec_snap_hi(from_ceil, to_ceil, len) == spec_snap_hi(to_ceil, from_ceil, len),
{
}

/// Two successive extensions of the cache ask the source exactly what one
/// extension over the whole range does: every new step once, in order.
pub proof fn successive_extensions_compose<T>(
    log0: Seq<StepRecord<T>>,
    log1: Seq<StepRecord<T>>,
    log2: Seq<StepRecord<T>>,
    samples1: Seq<T>,
    snapped1: Seq<bool>,
    samples2: Seq<T>,
    snapped2: Seq<bool>,
    from: int,
)
    requires
        0 <= from <= samples1.len() <= samples2.len(),
        snapped1.len() == samples1.len(),
        snapped2.len() == samples2.len(),
        samples2.subrange(0, samples1.len() as int) == samples1,
        snapped2.subrange(0, samples1.len() as int) == snapped1,
        log1 == log0 + step_records(samples1, snapped1, from, samples1.len() as int),
        log2 == log1 + step_records(samples2, snapped2, samples1.len() as int, samples2.len() as int),
    ensures
        log2 == log0 + step_records(samples2, snapped2, from, samples2.len() as int),
{
    let mid = samples1.len() as int;
    assert forall|k: int| 0 <= k < mid - from implies #[trigger] step_records(samples1, snapped1, from, mid)[k]
        == step_records(samples2, snapped2, from, mid)[k] by {
        assert(samples2.subrange(0, mid)[from + k] == samples2[from + k]);
        assert(snapped2.subrange(0, mid)[from + k] == snapped2[from + k]);
    }
    assert(step_records(samples1, snapped1, from, mid) =~= step_records(samples2, snapped2, from, mid));
    assert(step_records(samples2, snapped2, from, mid) + step_records(samples2, snapped2, mid, samples2.len() as int)
        =~= step_records(samples2, snapped2, from, samples2.len() as int));
    assert(log2 =~= log0 + step_records(samples2, snapped2, from, samples2.len() as int));
}

/// A source that answers each step index the same way, whenever it is
/// asked, fills caches grown from the same prefix with identical samples:
/// seeking and chunked sequential playback precompute the same transforms.
pub proof fn deterministic_source_fills_identical_caches<T>(
    samples_a: Seq<T>,
    snapped_a: Seq<bool>,
    samples_b: Seq<T>,
    snapped_b: Seq<bool>,
    from: int,
    answer: spec_fn(usize) -> (T, bool),
)
    requires
        0 <= from <= samples_a.len(),
        samples_a.len() == samples_b.len(),
        snapped_a.len() == samples_a.len(),
        snapped_b.len() == samples_b.len(),
        samples_a.subrange(0, from) == samples_b.subrange(0, from),
        snapped_a.subrange(0, from) == snapped_b.subrange(0, from),
        forall|k: int|
            #![trigger step_records(samples_a, snapped_a, from, samples_a.len() as int)[k]]
            0 <= k < samples_a.len() - from ==> {
                let r = step_records(samples_a, snapped_a, from, samples_a.len() as int)[k];
                (r.1, r.2) == answer(r.0)
            },
        forall|k: int|
            #![trigger step_records(samples_b, snapped_b, from, samples_b.len() as int)[k]]
            0 <= k < samples_b.len() - from ==> {
                let r = step_records(samples_b, snapped_b, from, samples_b.len() as int)[k];
                (r.1, r.2) == answer(r.0)
            },
    ensures
        samples_a == samples_b,
        snapped_a == snapped_b,
{
    let n = samples_a.len() as int;
    assert forall|i: int| #![trigger samples_a[i]] #![trigger snapped_a[i]] 0 <= i < n implies samples_a[i] == samples_b[i] && snapped_a[i] == snapped_b[i] by {
        if i < from {
            assert(samples_a.subrange(0, from)[i] == samples_a[i]);
            assert(samples_b.subrange(0, from)[i] == samples_b[i]);
            assert(samples_a.subrange(0, from)[i] == samples_b.subrange(0, from)[i]);
            assert(snapped_a.subrange(0, from)[i] == snapped_a[i]);
            assert(snapped_b.subrange(0, from)[i] == snapped_b[i]);
            assert(snapped_a.subrange(0, from)[i] == snapped_b.subrange(0, from)[i]);
            assert(samples_a[i] == samples_b[i]);
        } else {
            let ra = step_records(samples_a, snapped_a, from, n)[i - from];
            let rb = step_records(samples_b, snapped_b, from, n)[i - from];
            assert(ra == (i as usize, samples_a[i], snapped_a[i]));
            assert(rb == (i as usize, samples_b[i], snapped_b[i]));
            assert((ra.1, ra.2) == answer(ra.0));
            assert((rb.1, rb.2) == answer(rb.0));
            assert(ra.0 == rb.0);
            assert(samples_a[i] == ra.1 && snapped_a[i] == ra.2);
            assert(samples_b[i] == rb.1 && snapped_b[i] == rb.2);
        }
    }
    assert(samples_a =~= samples_b);
    assert(snapped_a =~= snapped_b);
}

/// Widening a snap query (an earlier start, a later end) only widens the
/// range of cached steps it looks at.
pub proof fn snap_query_is_monotone(
    from_floor: usize,
    from_ceil: usize,
    to_floor: usize,
    to_ceil: usize,
    wide_from_floor: usize,
    wide_from_ceil: usize,
    wide_to_floor: usize,
    wide_to_ceil: usize,
    len: nat,
)
    requires
        wide_from_floor <= from_floor,
        wide_to_floor <= to_floor,
        from_ceil <= wide_from_ceil,
        to_ceil <= wide_to_ceil,
    ensures
        spec_snap_lo(wide_from_floor, wide_to_floor, len) <= spec_snap_lo(from_floor, to_floor, len),
        spec_snap_hi(from_ceil, to_ceil, len) <= spec_snap_hi(wide_from_ceil, wide_to_ceil, len),
{
}

/// Ensuring `need_steps` brings the cache to the step after the instant and
/// its partner (`need_steps + 2`), never past the total and never backwards.
pub proof fn ensured_len_is_max_of_len_and_capped_need(len: nat, need_steps: nat, total: nat)
    ensures
        spec_ensured_len(len, need_steps, total) >= len,
        spec_ensured_len(len, need_steps, total) == len || spec_ensured_len(len, need_steps, total) == need_steps + 2
            || spec_ensured_len(len, need_steps, total) == total,
        len <= total ==> spec_ensured_len(len, need_steps, total) <= total,
        need_steps + 2 <= total ==> spec_ensured_len(len, need_steps, total) >= need_steps + 2,
        need_steps + 2 > total ==> spec_ensured_len(len, need_steps, total) >= total,
        spec_total_samples(true, need_steps) == need_steps + 2,
        spec_total_samples(false, need_steps) == 1,
{
}

/// A snap query looks from the earlier instant rounded down to the later one
/// rounded up, both clamped to the last cached step.
pub proof fn snap_query_range_is_the_rounded_span(
    from_floor: usize,
    from_ceil: usize,
    to_floor: usize,
    to_ceil: usize,
    len: nat,
)
    requires
        len >= 1,
    ensures
        spec_snap_lo(from_floor, to_floor, len) <= from_floor,
        spec_snap_lo(from_floor, to_floor, len) <= to_floor,
        spec_snap_lo(from_floor, to_floor, len) <= len - 1,
        spec_snap_lo(from_floor, to_floor, len) == from_floor || spec_snap_lo(from_floor, to_floor, len) == to_floor
            || spec_snap_lo(from_floor, to_floor, len) == len - 1,
        spec_snap_hi(from_ceil, to_ceil, len) <= len - 1,
        spec_snap_hi(from_ceil, to_ceil, len) == len - 1 || (spec_snap_hi(from_ceil, to_ceil, len) >= from_ceil
            && spec_snap_hi(from_ceil, to_ceil, len) >= to_ceil),
{
}

/// The record of step `from + k` names that step and holds the cache's sample
/// and snap flag for it.
pub proof fn step_record_names_its_step<T>(samples: Seq<T>, snapped: Seq<bool>, from: int, to: int, k: int)
    requires
        0 <= from <= to <= samples.len(),
        snapped.len() == samples.len(),
        to <= usize::MAX,
        0 <= k < to - from,
    ensures
        step_records(samples, snapped, from, to).len() == to - from,
        step_records(samples, snapped, from, to)[k].0 == from + k,
        step_records(samples, snapped, from, to)[k].1 == samples[from + k],
        step_records(samples, snapped, from, to)[k].2 == snapped[from + k],
{
}

} // verus!
