use samply_mcp::analysis::samples;
use samply_mcp::analysis::samples::AnalysisRange;
use samply_mcp::mcp::threads::{
    normalized_thread_prefix, requested_thread_prefixes, select_sample_thread, select_thread,
    select_thread_indices_for_scope, select_thread_indices_for_single_or_prefix_scope,
    summary_thread_name_prefix, thread_label, thread_name_matches_prefix,
};
use samply_mcp::profile::resolved::{
    ResolvedProfile, ResolvedSample, ResolvedThread, SampleWeightType,
};
use samply_mcp::units::{TimeValue, ONE_MS};

fn raw(time_ms: f64) -> i64 {
    (time_ms * ONE_MS as f64) as i64
}

fn time(time_ms: f64) -> Option<TimeValue> {
    Some(TimeValue::Finite(raw(time_ms)))
}

fn sample() -> ResolvedSample {
    ResolvedSample {
        timestamp_ms: TimeValue::Finite(0),
        weight: 1,
        cpu_delta_us: None,
        stack: Default::default(),
    }
}

fn thread(name: &str, tid: &str, is_main: bool, sample_count: usize) -> ResolvedThread {
    ResolvedThread {
        name: name.to_string(),
        pid: "1".to_string(),
        tid: tid.to_string(),
        is_main,
        sample_weight_type: SampleWeightType::Samples,
        samples: (0..sample_count).map(|_| sample()).collect(),
        markers: vec![],
        duration_ms: sample_count as u64 * ONE_MS,
    }
}

fn profile() -> ResolvedProfile {
    ResolvedProfile {
        threads: vec![
            thread("app", "1", true, 5),
            thread("app", "2", true, 50),
            thread("worker", "3", false, 100),
        ],
        libraries: vec![],
        product: "test".to_string(),
        interval_ms: ONE_MS,
        categories: vec![],
        observed_start_time_ms: 0,
        duration_ms: 100 * ONE_MS,
        total_sample_count: 155,
    }
}

#[test]
fn select_thread_defaults_to_main_thread_with_most_samples() {
    let profile = profile();

    let selected = select_thread(&profile, &None, &None, None).unwrap();

    assert_eq!(selected.index, 1);
    assert_eq!(selected.thread.tid, "2");
}

#[test]
fn select_thread_name_uses_matching_thread_with_most_samples() {
    let profile = profile();

    let selected = select_thread(&profile, &Some("app".to_string()), &None, None).unwrap();

    assert_eq!(selected.index, 1);
    assert_eq!(selected.thread.tid, "2");
}

#[test]
fn select_thread_tid_and_index_are_stable() {
    let profile = profile();

    let by_tid = select_thread(&profile, &None, &Some("1".to_string()), None).unwrap();
    let by_index = select_thread(&profile, &None, &None, Some(2)).unwrap();

    assert_eq!(by_tid.index, 0);
    assert_eq!(by_index.thread.name, "worker");
}

#[test]
fn duplicate_thread_names_are_selected_after_range_filtering() {
    let mut profile = profile();
    for sample in &mut profile.threads[1].samples {
        sample.timestamp_ms = TimeValue::Finite(raw(50.0));
    }
    let range = AnalysisRange::resolve(&profile, time(0.0), time(10.0)).unwrap();

    let selected =
        select_sample_thread(&profile, &Some("app".to_string()), &None, None, &range).unwrap();

    assert_eq!(selected.index, 0);
    assert_eq!(samples::sample_count(selected.thread, Some(&range)), 5);
}

#[test]
fn absent_threads_are_named_in_errors() {
    let profile = profile();
    let by_name = select_thread(&profile, &Some("gone".to_string()), &None, None);
    assert_eq!(by_name.err().unwrap(), "Thread 'gone' not found");
    assert!(select_thread(&profile, &None, &Some("99".to_string()), None).is_err());
    assert!(select_thread(&profile, &None, &None, Some(99)).is_err());
    let mut empty = profile.clone();
    empty.threads.clear();
    assert_eq!(
        select_thread(&empty, &None, &None, None).err().unwrap(),
        "No threads found"
    );
}

#[test]
fn prefixes_may_end_in_a_star() {
    assert_eq!(normalized_thread_prefix("chunk-*"), "chunk-");
    assert!(thread_name_matches_prefix("chunk-worker-1", "chunk-*"));
    assert!(thread_name_matches_prefix("chunk-worker-1", "chunk-"));
    assert!(!thread_name_matches_prefix("main", "chunk-*"));
    assert_eq!(
        requested_thread_prefixes(
            &Some(" a ".to_string()),
            &vec!["b*".to_string(), String::new(), "a".to_string()]
        ),
        vec!["a", "b*"]
    );
    assert_eq!(summary_thread_name_prefix("chunk-worker-12"), "chunk-worker-");
}

#[test]
fn scopes_are_one_thread_a_prefix_or_all() {
    let profile = profile();
    let range = AnalysisRange::resolve(&profile, None, None).unwrap();
    let none: Vec<String> = Vec::new();
    let all =
        select_thread_indices_for_scope(&profile, &None, &None, None, &None, &none, &range)
            .unwrap();
    assert_eq!(all.scope, "all sampled threads");
    assert_eq!(all.thread_indices, vec![0, 1, 2]);
    let single = select_thread_indices_for_single_or_prefix_scope(
        &profile, &None, &None, None, &None, &none, &range,
    )
    .unwrap();
    assert_eq!(single.thread_indices, vec![1]);
    assert_eq!(single.selected_thread.unwrap().index, 1);
    let prefix = Some("app*".to_string());
    let family = select_thread_indices_for_single_or_prefix_scope(
        &profile, &None, &None, None, &prefix, &none, &range,
    )
    .unwrap();
    assert_eq!(family.thread_indices, vec![0, 1]);
    assert!(family.selected_thread.is_none());
    assert_eq!(
        select_thread_indices_for_scope(&profile, &None, &None, Some(1), &prefix, &none, &range)
            .err()
            .unwrap(),
        "Use either thread/tid/thread_index or thread_name_prefix, not both"
    );
}

#[test]
fn labels_name_thread_id_and_position() {
    let profile = profile();
    assert_eq!(thread_label(2, &profile.threads[2]), "worker [tid=3, index=2]");
}
