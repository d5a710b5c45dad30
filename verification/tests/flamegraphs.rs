use samply_mcp::analysis::flamegraph::collapsed_stacks_for_threads_with_options;
use samply_mcp::filters::FrameNameFilter;
use samply_mcp::profile::resolved::{
    ResolvedFrame, ResolvedSample, ResolvedThread, SampleWeightType,
};
use samply_mcp::units::{TimeValue, ONE_MS};

fn make_frame(name: &str) -> ResolvedFrame {
    ResolvedFrame {
        function_name: name.to_string(),
        file: None,
        line: None,
        category: "Other".to_string(),
        library: None,
        instruction: None,
    }
}

fn at(time_ms: f64, stack: Vec<ResolvedFrame>) -> ResolvedSample {
    ResolvedSample {
        timestamp_ms: TimeValue::Finite((time_ms * ONE_MS as f64) as i64),
        weight: 1,
        cpu_delta_us: None,
        stack: stack.into(),
    }
}

fn example() -> ResolvedThread {
    ResolvedThread {
        name: "test".to_string(),
        pid: "1".to_string(),
        tid: "1".to_string(),
        is_main: true,
        sample_weight_type: SampleWeightType::Samples,
        duration_ms: 20 * ONE_MS,
        markers: vec![],
        samples: vec![
            at(0.0, vec![make_frame("main"), make_frame("foo"), make_frame("bar")]),
            at(10.0, vec![make_frame("main"), make_frame("foo"), make_frame("bar")]),
            at(20.0, vec![make_frame("main"), make_frame("baz")]),
        ],
    }
}

#[test]
fn test_collapsed_stacks() {
    let thread = example();
    let output = collapsed_stacks_for_threads_with_options(
        &vec![&thread],
        None,
        None,
        &FrameNameFilter::framework_only(false),
        false,
    );
    assert!(output.contains("main;foo;bar 2\n"));
    assert!(output.contains("main;baz 1\n"));
}

#[test]
fn test_collapsed_stacks_for_function() {
    let thread = example();
    let output = collapsed_stacks_for_threads_with_options(
        &vec![&thread],
        None,
        Some("foo"),
        &FrameNameFilter::framework_only(false),
        false,
    );
    assert!(output.contains("foo;bar 2\n"));
    assert!(!output.contains("main;foo;bar"));
    assert!(!output.contains("main;baz"));
}

#[test]
fn heavier_stacks_come_first_and_framework_frames_can_be_left_out() {
    let mut thread = example();
    thread.samples[2].weight = 5;
    thread.samples.push(at(30.0, vec![make_frame("main"), make_frame("core::ops::call")]));
    thread.samples.push(at(40.0, vec![make_frame("core::ops::call")]));
    let output = collapsed_stacks_for_threads_with_options(
        &vec![&thread],
        None,
        None,
        &FrameNameFilter::framework_only(true),
        false,
    );
    assert_eq!(output, "main;baz 5\nmain;foo;bar 2\nmain 1\n");
}

#[test]
fn names_can_be_shortened() {
    let mut thread = example();
    thread.samples = vec![at(0.0, vec![make_frame("app::main"), make_frame("app::io::read")])];
    let output = collapsed_stacks_for_threads_with_options(
        &vec![&thread],
        None,
        None,
        &FrameNameFilter::framework_only(false),
        true,
    );
    assert_eq!(output, "main;read 1\n");
}
