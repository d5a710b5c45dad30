use samply_mcp::analysis::context_switch::analyze_context_switches;
use samply_mcp::profile::resolved::{
    ResolvedContextSwitchMarker, ResolvedMarker, ResolvedThread, SampleWeightType,
};
use samply_mcp::units::{TimeValue, ONE_MS};
use std::sync::Arc;

fn raw(time_ms: f64) -> i64 {
    (time_ms * ONE_MS as f64) as i64
}

fn ms(time: u64) -> f64 {
    time as f64 / ONE_MS as f64
}

fn marker(start: f64, end: f64, cpu: &str, reason: &str) -> ResolvedMarker {
    ResolvedMarker {
        name: "Running on CPU".to_string(),
        start_time: Some(TimeValue::Finite(raw(start))),
        end_time: Some(TimeValue::Finite(raw(end))),
        phase: Some(1),
        category: "Other".to_string(),
        data: None,
        context_switch: Some(ResolvedContextSwitchMarker {
            cpu: Arc::new(cpu.to_string()),
            switch_out_reason: Arc::new(reason.to_string()),
        }),
    }
}

fn thread(markers: Vec<ResolvedMarker>) -> ResolvedThread {
    ResolvedThread {
        name: "worker".to_string(),
        pid: "1".to_string(),
        tid: "2".to_string(),
        is_main: false,
        sample_weight_type: SampleWeightType::Samples,
        samples: vec![],
        markers,
        duration_ms: 0,
    }
}

#[test]
fn summarizes_on_and_off_cpu_intervals() {
    let thread = thread(vec![
        marker(0.0, 4.0, "CPU 0", "blocked"),
        marker(10.0, 13.0, "CPU 1", "preempted"),
        marker(15.0, 20.0, "CPU 0", "blocked"),
    ]);
    let analysis = analyze_context_switches(&thread, None, None, 10).unwrap();
    assert_eq!(ms(analysis.observed_duration_ms), 20.0);
    assert_eq!(ms(analysis.on_cpu_time_ms), 12.0);
    assert_eq!(ms(analysis.off_cpu_time_ms), 8.0);
    assert_eq!(analysis.switch_out_count, 3);
    assert_eq!(analysis.cpus[0].cpu, "CPU 0");
    assert_eq!(ms(analysis.cpus[0].on_cpu_time_ms), 9.0);
    assert_eq!(ms(analysis.longest_off_cpu_intervals[0].duration_ms), 6.0);
    assert_eq!(analysis.longest_off_cpu_intervals[0].reason, "blocked");
    assert_eq!(ms(analysis.switch_out_reasons[0].observed_off_cpu_time_ms), 6.0);
}

#[test]
fn clips_analysis_to_requested_time_range_and_limit() {
    let thread = thread(vec![
        marker(0.0, 4.0, "CPU 0", "blocked"),
        marker(10.0, 13.0, "CPU 1", "preempted"),
        marker(18.0, 20.0, "CPU 0", "blocked"),
    ]);
    let analysis = analyze_context_switches(
        &thread,
        Some(raw(2.0) as i128),
        Some(raw(19.0) as i128),
        1,
    )
    .unwrap();
    assert_eq!(ms(analysis.observed_duration_ms), 17.0);
    assert_eq!(ms(analysis.on_cpu_time_ms), 6.0);
    assert_eq!(ms(analysis.off_cpu_time_ms), 11.0);
    assert_eq!(analysis.longest_off_cpu_intervals.len(), 1);
    assert_eq!(ms(analysis.longest_off_cpu_intervals[0].duration_ms), 6.0);
}

#[test]
fn threads_without_intervals_tell_nothing() {
    assert!(analyze_context_switches(&thread(vec![]), None, None, 10).is_none());
    let mut backwards = marker(5.0, 4.0, "CPU 0", "blocked");
    assert!(analyze_context_switches(&thread(vec![backwards.clone()]), None, None, 10).is_none());
    backwards.end_time = Some(TimeValue::NotFinite);
    assert!(analyze_context_switches(&thread(vec![backwards]), None, None, 10).is_none());
    let running = thread(vec![marker(0.0, 4.0, "CPU 0", "blocked")]);
    assert!(analyze_context_switches(&running, Some(raw(4.0) as i128), None, 10).is_none());
}

#[test]
fn overlapping_intervals_leave_no_gap() {
    let thread = thread(vec![
        marker(0.0, 10.0, "CPU 0", "blocked"),
        marker(2.0, 4.0, "CPU 1", "preempted"),
        marker(9.0, 12.0, "CPU 1", "preempted"),
    ]);
    let analysis = analyze_context_switches(&thread, None, None, 10).unwrap();
    assert_eq!(ms(analysis.observed_duration_ms), 12.0);
    assert_eq!(ms(analysis.on_cpu_time_ms), 12.0);
    assert_eq!(ms(analysis.off_cpu_time_ms), 0.0);
    assert_eq!(analysis.longest_off_cpu_intervals.len(), 0);
    assert_eq!(analysis.on_cpu_interval_count, 3);
}
