use samply_mcp::analysis::functions::compute_function_stats;
use samply_mcp::profile::resolved::{
    ResolvedFrame, ResolvedSample, ResolvedThread, SampleWeightType,
};
use samply_mcp::units::{Ratio, TimeValue, ONE_MS};

fn make_frame(name: &str) -> ResolvedFrame {
    ResolvedFrame {
        function_name: name.to_string(),
        file: None,
        line: None,
        category: "Other".to_string(),
        library: None,
        instruction: None,
    }
}

fn at(time_ms: f64, stack: Vec<ResolvedFrame>) -> ResolvedSample {
    ResolvedSample {
        timestamp_ms: TimeValue::Finite((time_ms * ONE_MS as f64) as i64),
        weight: 1,
        cpu_delta_us: None,
        stack: stack.into(),
    }
}

fn make_thread(name: &str, duration_ms: f64, samples: Vec<ResolvedSample>) -> ResolvedThread {
    ResolvedThread {
        name: name.to_string(),
        pid: "1".to_string(),
        tid: "1".to_string(),
        is_main: true,
        sample_weight_type: SampleWeightType::Samples,
        duration_ms: (duration_ms * ONE_MS as f64) as u64,
        markers: vec![],
        samples,
    }
}

fn ms(time: u64) -> f64 {
    time as f64 / ONE_MS as f64
}

fn percent(ratio: Ratio) -> f64 {
    ratio.part as f64 / ratio.whole as f64 * 100.0
}

#[test]
fn test_function_stats_basic() {
    let thread = make_thread(
        "test",
        30.0,
        vec![
            at(0.0, vec![make_frame("main"), make_frame("foo"), make_frame("bar")]),
            at(10.0, vec![make_frame("main"), make_frame("foo")]),
            at(20.0, vec![make_frame("main"), make_frame("baz")]),
            at(30.0, vec![make_frame("main"), make_frame("foo"), make_frame("bar")]),
        ],
    );
    let stats = compute_function_stats(&thread, 10 * ONE_MS, None);
    let bar = stats.iter().find(|s| s.name == "bar").unwrap();
    assert_eq!(bar.sample_count, 2); // bar is leaf in 2 samples
    let main_fn = stats.iter().find(|s| s.name == "main").unwrap();
    assert_eq!(main_fn.sample_count, 0); // main is never a leaf
    assert!(ms(main_fn.total_time_ms) > 0.0); // but it's in all stacks
}

#[test]
fn sparse_samples_use_the_recording_interval() {
    let thread = make_thread(
        "sparse",
        1_000.0,
        vec![
            at(0.0, vec![make_frame("main"), make_frame("work")]),
            at(1_000.0, vec![make_frame("main"), make_frame("work")]),
        ],
    );
    let stats = compute_function_stats(&thread, 2 * ONE_MS, None);
    let work = stats.iter().find(|stat| stat.name == "work").unwrap();
    assert_eq!(ms(work.self_time_ms), 4.0);
    assert_eq!(ms(work.total_time_ms), 4.0);
    assert_eq!(percent(work.self_percent), 100.0);
}

#[test]
fn a_recursive_function_counts_once_per_sample() {
    let thread = make_thread(
        "test",
        0.0,
        vec![at(
            0.0,
            vec![make_frame("visit"), make_frame("visit"), make_frame("visit")],
        )],
    );
    let stats = compute_function_stats(&thread, 3 * ONE_MS, None);
    assert_eq!(stats.len(), 1);
    assert_eq!(ms(stats[0].total_time_ms), 3.0);
    assert_eq!(ms(stats[0].self_time_ms), 3.0);
    assert_eq!(stats[0].sample_count, 1);
}

#[test]
fn self_times_add_up_to_the_time_of_the_thread() {
    let thread = make_thread(
        "test",
        30.0,
        vec![
            at(0.0, vec![make_frame("main"), make_frame("foo")]),
            at(10.0, vec![make_frame("main")]),
            at(20.0, vec![]),
            at(30.0, vec![make_frame("main"), make_frame("foo"), make_frame("bar")]),
        ],
    );
    let stats = compute_function_stats(&thread, 10 * ONE_MS, None);
    assert_eq!(stats.iter().map(|row| row.self_time_ms).sum::<u64>(), 30 * ONE_MS);
    assert_eq!(stats.len(), 3);
}
