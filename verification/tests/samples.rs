use samply_mcp::analysis::samples::{
    sample_count, sample_time_ms, thread_sample_time_ms, AnalysisRange,
};
use samply_mcp::profile::resolved::{
    ResolvedProfile, ResolvedSample, ResolvedThread, SampleWeightType,
};
use samply_mcp::units::{TimeValue, ONE_MS};

fn raw(time_ms: f64) -> i64 {
    (time_ms * ONE_MS as f64) as i64
}

fn time(time_ms: f64) -> Option<TimeValue> {
    Some(TimeValue::Finite(raw(time_ms)))
}

fn ms(time: u64) -> f64 {
    time as f64 / ONE_MS as f64
}

fn sample(timestamp_ms: f64) -> ResolvedSample {
    ResolvedSample {
        timestamp_ms: TimeValue::Finite(raw(timestamp_ms)),
        weight: 1,
        cpu_delta_us: None,
        stack: Default::default(),
    }
}

fn profile() -> ResolvedProfile {
    ResolvedProfile {
        threads: vec![ResolvedThread {
            name: "main".to_string(),
            pid: "1".to_string(),
            tid: "1".to_string(),
            is_main: true,
            sample_weight_type: SampleWeightType::Samples,
            samples: vec![sample(35_000.0), sample(35_010.0), sample(35_020.0)],
            markers: vec![],
            duration_ms: 20 * ONE_MS,
        }],
        libraries: vec![],
        product: "test".to_string(),
        interval_ms: 2 * ONE_MS,
        categories: vec![],
        observed_start_time_ms: raw(35_000.0),
        duration_ms: 20 * ONE_MS,
        total_sample_count: 3,
    }
}

#[test]
fn resolves_and_applies_profile_relative_range() {
    let profile = profile();
    let range = AnalysisRange::resolve(&profile, time(5.0), time(15.0)).unwrap();
    assert_eq!(range.raw_start_time_ms(), raw(35_005.0) as i128);
    assert_eq!(range.raw_end_time_ms(), raw(35_015.0) as i128);
    assert_eq!(sample_count(&profile.threads[0], Some(&range)), 1);
}

#[test]
fn sample_time_uses_interval_and_weight_not_wall_clock_gaps() {
    let profile = profile();
    let range = AnalysisRange::resolve(&profile, None, None).unwrap();
    assert_eq!(
        ms(thread_sample_time_ms(&profile.threads[0], profile.interval_ms, Some(&range))),
        6.0
    );

    let mut weighted_sample = sample(99_000.0);
    weighted_sample.weight = 3;
    assert_eq!(
        ms(sample_time_ms(&profile.threads[0], &weighted_sample, profile.interval_ms)),
        6.0
    );

    let mut tracing_thread = profile.threads[0].clone();
    tracing_thread.sample_weight_type = SampleWeightType::TracingMilliseconds;
    assert_eq!(
        ms(sample_time_ms(&tracing_thread, &weighted_sample, profile.interval_ms)),
        3.0
    );

    tracing_thread.sample_weight_type = SampleWeightType::Bytes;
    assert_eq!(
        ms(sample_time_ms(&tracing_thread, &weighted_sample, profile.interval_ms)),
        2.0
    );
}

#[test]
fn windows_count_each_sample_once() {
    let profile = profile();
    let thread = &profile.threads[0];
    let whole = AnalysisRange::resolve(&profile, None, None).unwrap();
    let early = AnalysisRange::resolve(&profile, None, time(10.0)).unwrap();
    let late = AnalysisRange::resolve(&profile, time(10.5), time(90.0)).unwrap();
    assert_eq!(sample_count(thread, Some(&whole)), 3);
    assert_eq!(sample_count(thread, Some(&early)), 2);
    assert_eq!(sample_count(thread, Some(&late)), 1);
    assert_eq!(ms(late.end_time_ms), 20.0);
}
