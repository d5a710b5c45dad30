//! Analysis windows and the time that samples stand for.
use crate::profile::resolved::{ResolvedProfile, ResolvedSample, ResolvedThread, SampleWeightType};
use crate::text;
use crate::units;
use crate::units::TimeValue;
use vstd::prelude::*;

verus! {

/// A profile-relative, inclusive analysis window.
///
/// Sample timestamps remain in their original clock domain inside the resolved
/// profile. This type owns the translation between that raw clock and the
/// profile-relative milliseconds exposed to callers.
#[derive(Debug, Clone, Copy, PartialEq, Eq, Structural)]
pub struct AnalysisRange {
    pub observed_start_time_ms: i64,
    pub start_time_ms: u64,
    pub end_time_ms: u64,
}

/// The first time that a requested window covers.
pub open spec fn window_start(requested: Option<TimeValue>) -> int {
    match requested {
        Some(TimeValue::Finite(t)) => if t > 0 {
            t as int
        } else {
            0
        },
        _ => 0,
    }
}

/// The last time that a requested window covers.
pub open spec fn window_end(duration: u64, requested: Option<TimeValue>) -> int {
    match requested {
        Some(TimeValue::Finite(t)) => if t < duration {
            t as int
        } else {
            duration as int
        },
        _ => duration as int,
    }
}

/// Why a requested window is refused, if it is.
pub open spec fn window_error(
    duration: u64,
    start: Option<TimeValue>,
    end: Option<TimeValue>,
) -> Option<Seq<char>> {
    if start == Some(TimeValue::NotFinite) || end == Some(TimeValue::NotFinite) {
        Some("start_time_ms and end_time_ms must be finite numbers"@)
    } else if start matches Some(TimeValue::Finite(a)) && end matches Some(TimeValue::Finite(b))
        && b <= a {
        Some("end_time_ms must be greater than start_time_ms"@)
    } else if window_end(duration, end) < window_start(start) {
        Some(
            "Requested time range does not overlap the profile range 0.."@ + units::ms_text(
                duration as int,
            ) + " ms"@,
        )
    } else {
        None
    }
}

impl AnalysisRange {
    /// Whether the window covers a raw timestamp; both ends belong to it.
    pub open spec fn covers(self, timestamp: TimeValue) -> bool {
        timestamp matches TimeValue::Finite(t) && self.start_time_ms <= t
            - self.observed_start_time_ms <= self.end_time_ms
    }

    /// The window that a request asks for, cut to the profile. Without bounds
    /// it is the whole profile.
    pub fn resolve(
        profile: &ResolvedProfile,
        requested_start_time_ms: Option<TimeValue>,
        requested_end_time_ms: Option<TimeValue>,
    ) -> (r: Result<Self, String>)
        ensures
            match r {
                Ok(range) => {
                    &&& window_error(
                        profile.duration_ms,
                        requested_start_time_ms,
                        requested_end_time_ms,
                    ) is None
                    &&& range.observed_start_time_ms == profile.observed_start_time_ms
                    &&& range.start_time_ms == window_start(requested_start_time_ms)
                    &&& range.end_time_ms == window_end(
                        profile.duration_ms,
                        requested_end_time_ms,
                    )
                    &&& range.start_time_ms <= range.end_time_ms <= profile.duration_ms
                },
                Err(message) => window_error(
                    profile.duration_ms,
                    requested_start_time_ms,
                    requested_end_time_ms,
                ) == Some(message@),
            },
    {
        let mut start: i128 = 0;
        let mut end: i128 = profile.duration_ms as i128;
        match (requested_start_time_ms, requested_end_time_ms) {
            (Some(TimeValue::NotFinite), _) | (_, Some(TimeValue::NotFinite)) => {
                return Err("start_time_ms and end_time_ms must be finite numbers".to_string());
            },
            (Some(TimeValue::Finite(a)), Some(TimeValue::Finite(b))) => {
                if b <= a {
                    return Err("end_time_ms must be greater than start_time_ms".to_string());
                }
            },
            _ => {},
        }
        if let Some(TimeValue::Finite(a)) = requested_start_time_ms {
            if a > 0 {
                start = a as i128;
            }
        }
        if let Some(TimeValue::Finite(b)) = requested_end_time_ms {
            if (b as i128) < end {
                end = b as i128;
            }
        }
        if end < start {
            let mut message = "Requested time range does not overlap the profile range 0..".to_string();
            units::push_ms(&mut message, profile.duration_ms);
            text::push_text(&mut message, " ms");
            return Err(message);
        }
        Ok(
            AnalysisRange {
                observed_start_time_ms: profile.observed_start_time_ms,
                start_time_ms: start as u64,
                end_time_ms: end as u64,
            },
        )
    }

    /// Whether the sample lies in the window.
    pub fn contains(&self, sample: &ResolvedSample) -> (r: bool)
        ensures
            r == self.covers(sample.timestamp_ms),
    {
        match sample.timestamp_ms {
            TimeValue::Finite(t) => {
                let relative: i128 = self.relative_time_ms(t);
                relative >= self.start_time_ms as i128 && relative <= self.end_time_ms as i128
            },
            TimeValue::NotFinite => false,
        }
    }

    /// The length of the window.
    pub fn duration_ms(&self) -> (r: u64)
        ensures
            r == (if self.end_time_ms >= self.start_time_ms {
                self.end_time_ms - self.start_time_ms
            } else {
                0
            }),
    {
        if self.end_time_ms >= self.start_time_ms {
            self.end_time_ms - self.start_time_ms
        } else {
            0
        }
    }

    /// The start of the window in the profile's original clock.
    pub fn raw_start_time_ms(&self) -> (r: i128)
        ensures
            r == self.observed_start_time_ms + self.start_time_ms,
    {
        self.observed_start_time_ms as i128 + self.start_time_ms as i128
    }

    /// The end of the window in the profile's original clock.
    pub fn raw_end_time_ms(&self) -> (r: i128)
        ensures
            r == self.observed_start_time_ms + self.end_time_ms,
    {
        self.observed_start_time_ms as i128 + self.end_time_ms as i128
    }

    /// A raw time relative to the start of the profile.
    pub fn relative_time_ms(&self, raw_time_ms: i64) -> (r: i128)
        ensures
            r == raw_time_ms - self.observed_start_time_ms,
    {
        raw_time_ms as i128 - self.observed_start_time_ms as i128
    }

    /// Whether the window is the whole profile.
    pub fn is_full_profile(&self, profile: &ResolvedProfile) -> (r: bool)
        ensures
            r == (self.start_time_ms == 0 && self.end_time_ms == profile.duration_ms),
    {
        self.start_time_ms == 0 && self.end_time_ms == profile.duration_ms
    }
}

/// Whether a sample counts: always without a window, else when it lies in it.
pub open spec fn counts(range: Option<AnalysisRange>, sample: ResolvedSample) -> bool {
    range matches Some(r) ==> r.covers(sample.timestamp_ms)
}

/// The window that an optional reference points to.
pub open spec fn window_of(range: Option<&AnalysisRange>) -> Option<AnalysisRange> {
    match range {
        Some(r) => Some(*r),
        None => None,
    }
}

/// Whether a sample counts: always without a window, else when it lies in it.
pub fn in_window(range: Option<&AnalysisRange>, sample: &ResolvedSample) -> (r: bool)
    ensures
        r == counts(window_of(range), *sample),
{
    match range {
        Some(range) => range.contains(sample),
        None => true,
    }
}

/// The absolute value of a sample's weight.
pub open spec fn weight_of(sample: ResolvedSample) -> u32 {
    if sample.weight < 0 {
        (-sample.weight) as u32
    } else {
        sample.weight as u32
    }
}

/// The time that a sample stands for.
pub open spec fn time_of(
    weight_type: SampleWeightType,
    sample: ResolvedSample,
    interval: u64,
) -> u64 {
    match weight_type {
        SampleWeightType::Samples => units::capped(interval * weight_of(sample)),
        SampleWeightType::TracingMilliseconds => units::capped(units::ONE_MS * weight_of(sample)),
        SampleWeightType::Bytes => interval,
    }
}

/// The number of samples among the first `n` that count and satisfy a predicate.
pub open spec fn count_where(
    samples: Seq<ResolvedSample>,
    range: Option<AnalysisRange>,
    keep: spec_fn(ResolvedSample) -> bool,
    n: int,
) -> nat
    decreases n,
{
    if n <= 0 {
        0
    } else {
        count_where(samples, range, keep, n - 1) + if counts(range, samples[n - 1]) && keep(
            samples[n - 1],
        ) {
            1nat
        } else {
            0nat
        }
    }
}

/// The time of the samples among the first `n` of a thread that count and
/// satisfy a predicate.
pub open spec fn time_where(
    thread: ResolvedThread,
    interval: u64,
    range: Option<AnalysisRange>,
    keep: spec_fn(ResolvedSample) -> bool,
    n: int,
) -> nat
    decreases n,
{
    if n <= 0 {
        0
    } else {
        let sample = thread.samples@[n - 1];
        time_where(thread, interval, range, keep, n - 1) + if counts(range, sample) && keep(sample) {
            time_of(thread.sample_weight_type, sample, interval) as nat
        } else {
            0nat
        }
    }
}

/// The predicate that every sample satisfies.
pub open spec fn any_sample() -> spec_fn(ResolvedSample) -> bool {
    |s: ResolvedSample| true
}

/// The number of samples of a thread that count.
pub open spec fn samples_counted(thread: ResolvedThread, range: Option<AnalysisRange>) -> nat {
    count_where(thread.samples@, range, any_sample(), thread.samples@.len() as int)
}

/// The time of the samples of a thread that count.
pub open spec fn time_counted(
    thread: ResolvedThread,
    interval: u64,
    range: Option<AnalysisRange>,
) -> nat {
    time_where(thread, interval, range, any_sample(), thread.samples@.len() as int)
}

/// A count never exceeds the number of samples looked at.
pub proof fn lemma_count_bound(
    samples: Seq<ResolvedSample>,
    range: Option<AnalysisRange>,
    keep: spec_fn(ResolvedSample) -> bool,
    n: int,
)
    requires
        0 <= n,
    ensures
        count_where(samples, range, keep, n) <= n,
    decreases n,
{
    if n > 0 {
        lemma_count_bound(samples, range, keep, n - 1);
    }
}

/// A stricter predicate counts no more samples and no more time.
pub proof fn lemma_where_monotone(
    thread: ResolvedThread,
    interval: u64,
    range: Option<AnalysisRange>,
    strict: spec_fn(ResolvedSample) -> bool,
    loose: spec_fn(ResolvedSample) -> bool,
    n: int,
)
    requires
        forall|s: ResolvedSample| #[trigger] strict(s) ==> loose(s),
    ensures
        count_where(thread.samples@, range, strict, n) <= count_where(
            thread.samples@,
            range,
            loose,
            n,
        ),
        time_where(thread, interval, range, strict, n) <= time_where(
            thread,
            interval,
            range,
            loose,
            n,
        ),
    decreases n,
{
    if n > 0 {
        lemma_where_monotone(thread, interval, range, strict, loose, n - 1);
    }
}

/// The number of samples that lie in the window.
pub fn sample_count(thread: &ResolvedThread, range: Option<&AnalysisRange>) -> (r: usize)
    ensures
        r == samples_counted(*thread, window_of(range)),
{
    let mut count: usize = 0;
    let mut i: usize = 0;
    while i < thread.samples.len()
        invariant
            i <= thread.samples@.len(),
            count <= i,
            count == count_where(thread.samples@, window_of(range), any_sample(), i as int),
        decreases thread.samples@.len() - i,
    {
        if in_window(range, &thread.samples[i]) {
            count += 1;
        }
        i += 1;
    }
    count
}

/// The absolute value of a sample's weight.
pub fn sample_weight(sample: &ResolvedSample) -> (r: u32)
    ensures
        r == weight_of(*sample),
{
    let wide: i64 = sample.weight as i64;
    if wide < 0 {
        (-wide) as u32
    } else {
        wide as u32
    }
}

/// The time that a sample stands for.
///
/// Byte weights are useful for allocation flamegraphs, but are not a duration:
/// each such sample counts as one interval.
pub fn sample_time_ms(thread: &ResolvedThread, sample: &ResolvedSample, interval_ms: u64) -> (r: u64)
    ensures
        r == time_of(thread.sample_weight_type, *sample, interval_ms),
{
    let weight: u32 = sample_weight(sample);
    match thread.sample_weight_type {
        SampleWeightType::Samples => units::capped_mul(interval_ms, weight),
        SampleWeightType::TracingMilliseconds => units::capped_mul(units::ONE_MS, weight),
        SampleWeightType::Bytes => interval_ms,
    }
}

/// The time of the samples that lie in the window.
pub fn thread_sample_time_ms(
    thread: &ResolvedThread,
    interval_ms: u64,
    range: Option<&AnalysisRange>,
) -> (r: u64)
    ensures
        r == units::capped(time_counted(*thread, interval_ms, window_of(range)) as int),
{
    let mut total: u64 = 0;
    let mut i: usize = 0;
    while i < thread.samples.len()
        invariant
            i <= thread.samples@.len(),
            total == units::capped(
                time_where(*thread, interval_ms, window_of(range), any_sample(), i as int) as int,
            ),
        decreases thread.samples@.len() - i,
    {
        let sample = &thread.samples[i];
        if in_window(range, sample) {
            total = units::capped_add(total, sample_time_ms(thread, sample, interval_ms));
        }
        i += 1;
    }
    total
}

/// The earliest timestamp among the first `n` samples, where there is one.
pub open spec fn earliest(samples: Seq<ResolvedSample>, n: int) -> Option<i64>
    decreases n,
{
    if n <= 0 {
        None
    } else {
        match (earliest(samples, n - 1), samples[n - 1].timestamp_ms) {
            (Some(a), TimeValue::Finite(t)) => Some(
                if t < a {
                    t
                } else {
                    a
                },
            ),
            (None, TimeValue::Finite(t)) => Some(t),
            (a, TimeValue::NotFinite) => a,
        }
    }
}

/// The latest timestamp among the first `n` samples, where there is one.
pub open spec fn latest(samples: Seq<ResolvedSample>, n: int) -> Option<i64>
    decreases n,
{
    if n <= 0 {
        None
    } else {
        match (latest(samples, n - 1), samples[n - 1].timestamp_ms) {
            (Some(a), TimeValue::Finite(t)) => Some(
                if t > a {
                    t
                } else {
                    a
                },
            ),
            (None, TimeValue::Finite(t)) => Some(t),
            (a, TimeValue::NotFinite) => a,
        }
    }
}

/// The earliest and the latest timestamp bound all timestamps and occur.
pub proof fn lemma_time_bounds(samples: Seq<ResolvedSample>, n: int)
    requires
        n <= samples.len(),
    ensures
        earliest(samples, n) is Some <==> latest(samples, n) is Some,
        earliest(samples, n) is Some ==> earliest(samples, n).unwrap() <= latest(
            samples,
            n,
        ).unwrap(),
        forall|i: int|
            0 <= i < n ==> (#[trigger] samples[i].timestamp_ms matches TimeValue::Finite(t)
                ==> earliest(samples, n) is Some && earliest(samples, n).unwrap() <= t <= latest(
                samples,
                n,
            ).unwrap()),
        earliest(samples, n) matches Some(a) ==> exists|i: int|
            0 <= i < n && #[trigger] samples[i].timestamp_ms == TimeValue::Finite(a),
        latest(samples, n) matches Some(b) ==> exists|i: int|
            0 <= i < n && #[trigger] samples[i].timestamp_ms == TimeValue::Finite(b),
    decreases n,
{
    if n > 0 {
        lemma_time_bounds(samples, n - 1);
    }
}

/// The earliest and the latest timestamp of the samples, where there is one.
pub fn time_bounds(samples: &Vec<ResolvedSample>) -> (r: Option<(i64, i64)>)
    ensures
        match r {
            Some(pair) => earliest(samples@, samples@.len() as int) == Some(pair.0) && latest(
                samples@,
                samples@.len() as int,
            ) == Some(pair.1) && pair.0 <= pair.1,
            None => earliest(samples@, samples@.len() as int) is None && latest(
                samples@,
                samples@.len() as int,
            ) is None,
        },
{
    let mut bounds: Option<(i64, i64)> = None;
    let mut i: usize = 0;
    while i < samples.len()
        invariant
            i <= samples@.len(),
            match bounds {
                Some(pair) => earliest(samples@, i as int) == Some(pair.0) && latest(
                    samples@,
                    i as int,
                ) == Some(pair.1) && pair.0 <= pair.1,
                None => earliest(samples@, i as int) is None && latest(samples@, i as int) is None,
            },
        decreases samples@.len() - i,
    {
        if let TimeValue::Finite(t) = samples[i].timestamp_ms {
            bounds = match bounds {
                Some((a, b)) => Some((if t < a { t } else { a }, if t > b { t } else { b })),
                None => Some((t, t)),
            };
        }
        i += 1;
    }
    bounds
}

/// The time between the first and the last sample of a thread, cut to the window.
pub open spec fn wall_time(thread: ResolvedThread, range: Option<AnalysisRange>) -> u64 {
    match range {
        None => thread.duration_ms,
        Some(range) => {
            let n = thread.samples@.len() as int;
            match (earliest(thread.samples@, n), latest(thread.samples@, n)) {
                (Some(first), Some(last)) => {
                    let a = first - range.observed_start_time_ms;
                    let b = last - range.observed_start_time_ms;
                    let start = if a > range.start_time_ms {
                        a
                    } else {
                        range.start_time_ms as int
                    };
                    let end = if b < range.end_time_ms {
                        b
                    } else {
                        range.end_time_ms as int
                    };
                    if end > start {
                        (end - start) as u64
                    } else {
                        0
                    }
                },
                _ => 0,
            }
        },
    }
}

/// The time between the first and the last sample of a thread, cut to the window.
pub fn thread_wall_time_ms(thread: &ResolvedThread, range: Option<&AnalysisRange>) -> (r: u64)
    ensures
        r == wall_time(*thread, window_of(range)),
{
    let range = match range {
        Some(range) => range,
        None => {
            return thread.duration_ms;
        },
    };
    match time_bounds(&thread.samples) {
        Some((first, last)) => {
            let a: i128 = range.relative_time_ms(first);
            let b: i128 = range.relative_time_ms(last);
            let start: i128 = if a > range.start_time_ms as i128 {
                a
            } else {
                range.start_time_ms as i128
            };
            let end: i128 = if b < range.end_time_ms as i128 {
                b
            } else {
                range.end_time_ms as i128
            };
            if end > start {
                (end - start) as u64
            } else {
                0
            }
        },
        None => 0,
    }
}


/// The sum of a quantity over the threads that the first `m` indices name.
/// Indices without a thread add nothing.
pub open spec fn over_threads(
    threads: Seq<ResolvedThread>,
    indices: Seq<usize>,
    quantity: spec_fn(ResolvedThread) -> nat,
    m: int,
) -> nat
    decreases m,
{
    if m <= 0 {
        0
    } else {
        over_threads(threads, indices, quantity, m - 1) + if indices[m - 1] < threads.len() {
            quantity(threads[indices[m - 1] as int])
        } else {
            0nat
        }
    }
}

/// The number of counted samples of a thread that satisfy a predicate.
pub open spec fn counting(
    range: Option<AnalysisRange>,
    keep: spec_fn(ResolvedSample) -> bool,
) -> spec_fn(ResolvedThread) -> nat {
    |t: ResolvedThread| count_where(t.samples@, range, keep, t.samples@.len() as int)
}

/// The time of the counted samples of a thread that satisfy a predicate.
pub open spec fn timing(
    interval: u64,
    range: Option<AnalysisRange>,
    keep: spec_fn(ResolvedSample) -> bool,
) -> spec_fn(ResolvedThread) -> nat {
    |t: ResolvedThread| time_where(t, interval, range, keep, t.samples@.len() as int)
}

/// A stricter predicate gives no larger sums over threads.
pub proof fn lemma_over_threads_monotone(
    threads: Seq<ResolvedThread>,
    indices: Seq<usize>,
    interval: u64,
    range: Option<AnalysisRange>,
    strict: spec_fn(ResolvedSample) -> bool,
    loose: spec_fn(ResolvedSample) -> bool,
    m: int,
)
    requires
        forall|s: ResolvedSample| #[trigger] strict(s) ==> loose(s),
    ensures
        over_threads(threads, indices, counting(range, strict), m) <= over_threads(
            threads,
            indices,
            counting(range, loose),
            m,
        ),
        over_threads(threads, indices, timing(interval, range, strict), m) <= over_threads(
            threads,
            indices,
            timing(interval, range, loose),
            m,
        ),
    decreases m,
{
    if m > 0 {
        lemma_over_threads_monotone(threads, indices, interval, range, strict, loose, m - 1);
        let t = threads[indices[m - 1] as int];
        lemma_where_monotone(t, interval, range, strict, loose, t.samples@.len() as int);
    }
}

/// Windows that do not overlap share no sample: together they count no more
/// than the samples there are.
pub proof fn law_disjoint_windows_share_no_sample(
    samples: Seq<ResolvedSample>,
    a: AnalysisRange,
    b: AnalysisRange,
    keep: spec_fn(ResolvedSample) -> bool,
    n: int,
)
    requires
        a.observed_start_time_ms == b.observed_start_time_ms,
        a.end_time_ms < b.start_time_ms,
    ensures
        count_where(samples, Some(a), keep, n) + count_where(samples, Some(b), keep, n)
            <= count_where(samples, None, keep, n),
    decreases n,
{
    if n > 0 {
        law_disjoint_windows_share_no_sample(samples, a, b, keep, n - 1);
    }
}

/// The time of samples rests on their number and weights alone: gaps between
/// their timestamps add nothing.
pub proof fn law_gaps_take_no_time(a: ResolvedThread, b: ResolvedThread, interval: u64, n: int)
    requires
        0 <= n <= a.samples@.len(),
        n <= b.samples@.len(),
        a.sample_weight_type == b.sample_weight_type,
        forall|i: int| 0 <= i < n ==> (#[trigger] a.samples@[i]).weight == b.samples@[i].weight,
    ensures
        time_where(a, interval, None, any_sample(), n) == time_where(
            b,
            interval,
            None,
            any_sample(),
            n,
        ),
    decreases n,
{
    if n > 0 {
        law_gaps_take_no_time(a, b, interval, n - 1);
    }
}

}
