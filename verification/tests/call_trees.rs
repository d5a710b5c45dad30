use samply_mcp::analysis::call_tree::{
    build_call_tree_for_threads_with_filter, build_focused_call_tree_for_threads_with_filter,
    build_focused_call_tree_under_caller_with_filter, function_under_caller_index, CallTreeNode,
    CallerRelationship, FocusedCallTree,
};
use samply_mcp::filters::FrameNameFilter;
use samply_mcp::profile::resolved::{
    ResolvedFrame, ResolvedSample, ResolvedStack, ResolvedThread, SampleWeightType,
};
use samply_mcp::units::{Ratio, TimeValue, ONE_MS};

fn make_frame(name: &str) -> ResolvedFrame {
    ResolvedFrame {
        function_name: name.to_string(),
        file: None,
        line: None,
        category: "Other".to_string(),
        library: None,
        instruction: None,
    }
}

fn at(time_ms: f64, stack: Vec<ResolvedFrame>) -> ResolvedSample {
    ResolvedSample {
        timestamp_ms: TimeValue::Finite((time_ms * ONE_MS as f64) as i64),
        weight: 1,
        cpu_delta_us: None,
        stack: stack.into(),
    }
}

fn make_thread(duration_ms: f64, samples: Vec<ResolvedSample>) -> ResolvedThread {
    ResolvedThread {
        name: "test".to_string(),
        pid: "1".to_string(),
        tid: "1".to_string(),
        is_main: true,
        sample_weight_type: SampleWeightType::Samples,
        duration_ms: (duration_ms * ONE_MS as f64) as u64,
        markers: vec![],
        samples,
    }
}

fn percent(ratio: Ratio) -> f64 {
    if ratio.whole == 0 {
        0.0
    } else {
        ratio.part as f64 / ratio.whole as f64 * 100.0
    }
}

fn ms(time: u64) -> f64 {
    time as f64 / ONE_MS as f64
}

fn everything() -> FrameNameFilter {
    FrameNameFilter::framework_only(false)
}

fn build_call_tree_with_filter(
    thread: &ResolvedThread,
    max_depth: usize,
    filter: &FrameNameFilter,
) -> CallTreeNode {
    build_call_tree_for_threads_with_filter(
        &vec![thread],
        10 * ONE_MS,
        None,
        max_depth,
        0,
        filter,
    )
}

fn build_focused_call_tree_with_filter(
    thread: &ResolvedThread,
    function_name: &str,
    max_depth: usize,
    filter: &FrameNameFilter,
) -> Option<FocusedCallTree> {
    build_focused_call_tree_for_threads_with_filter(
        &vec![thread],
        10 * ONE_MS,
        None,
        function_name,
        max_depth,
        0,
        filter,
    )
}

#[test]
fn test_call_tree_basic() {
    let thread = make_thread(
        20.0,
        vec![
            at(0.0, vec![make_frame("main"), make_frame("foo"), make_frame("bar")]),
            at(10.0, vec![make_frame("main"), make_frame("foo")]),
            at(20.0, vec![make_frame("main"), make_frame("baz")]),
        ],
    );
    let tree = build_call_tree_with_filter(&thread, 10, &everything());
    assert_eq!(tree.function_name, "(root)");
    assert_eq!(tree.children.len(), 1); // just "main"
    let main_node = &tree.children[0];
    assert_eq!(main_node.function_name, "main");
    assert_eq!(main_node.children.len(), 2); // "foo" and "baz"
}

#[test]
fn test_focused_call_tree_scales_to_matching_samples() {
    let thread = make_thread(
        30.0,
        vec![
            at(0.0, vec![make_frame("main"), make_frame("foo"), make_frame("bar")]),
            at(10.0, vec![make_frame("main"), make_frame("foo"), make_frame("baz")]),
            at(20.0, vec![make_frame("main"), make_frame("other")]),
            at(30.0, vec![make_frame("main"), make_frame("other")]),
        ],
    );
    let focused = build_focused_call_tree_with_filter(&thread, "foo", 10, &everything()).unwrap();
    assert_eq!(focused.sample_count, 2);
    assert_eq!(focused.total_samples, 4);
    assert_eq!(percent(focused.focused_percent), 50.0);
    assert_eq!(focused.tree.function_name, "foo");
    assert_eq!(percent(focused.tree.total_percent), 100.0);
    assert_eq!(focused.tree.children.len(), 2);
}

#[test]
fn function_under_caller_distinguishes_ancestor_and_immediate() {
    let stack = ResolvedStack::from(vec![
        make_frame("main"),
        make_frame("finish_generation_status"),
        make_frame("fluid_system"),
        make_frame("WaterFluid::tick"),
    ]);
    assert_eq!(
        function_under_caller_index(
            &stack,
            "WaterFluid::tick",
            "finish_generation_status",
            CallerRelationship::Ancestor
        ),
        Some(3)
    );
    assert_eq!(
        function_under_caller_index(
            &stack,
            "WaterFluid::tick",
            "finish_generation_status",
            CallerRelationship::Immediate
        ),
        None
    );
}

#[test]
fn focused_call_tree_can_be_scoped_to_a_caller() {
    let thread = make_thread(
        30.0,
        vec![
            at(
                0.0,
                vec![
                    make_frame("main"),
                    make_frame("finish_generation_status"),
                    make_frame("WaterFluid::tick"),
                    make_frame("child"),
                ],
            ),
            at(
                10.0,
                vec![
                    make_frame("main"),
                    make_frame("finish_generation_status"),
                    make_frame("WaterFluid::tick"),
                ],
            ),
            at(
                20.0,
                vec![
                    make_frame("main"),
                    make_frame("other_status"),
                    make_frame("WaterFluid::tick"),
                ],
            ),
            at(
                30.0,
                vec![
                    make_frame("main"),
                    make_frame("finish_generation_status"),
                    make_frame("LavaFluid::tick"),
                ],
            ),
        ],
    );
    let focused = build_focused_call_tree_under_caller_with_filter(
        &vec![&thread],
        10 * ONE_MS,
        None,
        "WaterFluid::tick",
        "finish_generation_status",
        CallerRelationship::Ancestor,
        10,
        0,
        &everything(),
    )
    .unwrap();
    assert_eq!(focused.sample_count, 2);
    assert_eq!(focused.total_samples, 4);
    assert_eq!(percent(focused.focused_percent), 50.0);
    assert_eq!(focused.tree.function_name, "WaterFluid::tick");
    assert_eq!(ms(focused.tree.self_time_ms), 10.0);
    assert_eq!(focused.tree.children.len(), 1);
    assert_eq!(focused.tree.children[0].function_name, "child");
}

#[test]
fn the_leaf_stands_for_a_recursive_function_under_its_caller() {
    let stack = ResolvedStack::from(vec![
        make_frame("caller"),
        make_frame("visit"),
        make_frame("helper"),
        make_frame("visit"),
    ]);
    assert_eq!(
        function_under_caller_index(&stack, "visit", "caller", CallerRelationship::Ancestor),
        Some(3)
    );
    assert_eq!(
        function_under_caller_index(&stack, "visit", "caller", CallerRelationship::Immediate),
        Some(1)
    );
}

#[test]
fn a_function_without_samples_has_no_tree() {
    let thread = make_thread(0.0, vec![at(0.0, vec![make_frame("main")])]);
    assert!(build_focused_call_tree_with_filter(&thread, "absent", 10, &everything()).is_none());
}

#[test]
fn trees_render_with_times_and_percentages() {
    let thread = make_thread(
        30.0,
        vec![
            at(0.0, vec![make_frame("app::main"), make_frame("app::work")]),
            at(10.0, vec![make_frame("app::main"), make_frame("app::work")]),
            at(20.0, vec![make_frame("app::main")]),
            at(30.0, vec![make_frame("app::idle")]),
        ],
    );
    let tree = build_call_tree_with_filter(&thread, 10, &everything());
    assert_eq!(
        tree.render_text_with_options(10, true, false),
        "(root) [100.0% total, 0.0ms self]\n  main [75.0% total, 10.0ms self]\n    work [50.0% total, 20.0ms self]\n  idle [25.0% total, 10.0ms self]\n"
    );
    assert_eq!(
        tree.render_text_with_options(0, true, false),
        "(root) [100.0% total, 0.0ms self]\n"
    );
    let focused =
        build_focused_call_tree_with_filter(&thread, "app::work", 10, &everything()).unwrap();
    assert_eq!(
        focused.tree.render_text_with_options(10, false, true),
        "app::work [100.0% focus / 50.00% thread, 20.0ms self]\n"
    );
}

#[test]
fn small_nodes_are_left_out() {
    let thread = make_thread(
        30.0,
        vec![
            at(0.0, vec![make_frame("main"), make_frame("big")]),
            at(10.0, vec![make_frame("main"), make_frame("big")]),
            at(20.0, vec![make_frame("main"), make_frame("big")]),
            at(30.0, vec![make_frame("main"), make_frame("small")]),
        ],
    );
    let whole = build_call_tree_for_threads_with_filter(
        &vec![&thread],
        ONE_MS,
        None,
        10,
        25_000_000,
        &everything(),
    );
    assert_eq!(whole.children[0].children.len(), 2);
    let pruned = build_call_tree_for_threads_with_filter(
        &vec![&thread],
        ONE_MS,
        None,
        10,
        25_000_001,
        &everything(),
    );
    assert_eq!(pruned.children[0].children.len(), 1);
    assert_eq!(pruned.children[0].children[0].function_name, "big");
}
