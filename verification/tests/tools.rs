use samply_mcp::analysis::samples::AnalysisRange;
use samply_mcp::mcp::analysis_cache::AnalysisCache;
use samply_mcp::mcp::events::{
    profile_context_switches, profile_markers, ContextSwitchesRequest, MarkersRequest,
};
use samply_mcp::mcp::focus::{profile_focus_function, FocusFunctionRequest};
use samply_mcp::mcp::functions::function_stats_for_thread;
use samply_mcp::mcp::hotspots::{profile_top_functions, TopFunctionsRequest};
use samply_mcp::mcp::lookup::{
    profile_function_detail, profile_search_functions, FunctionDetailRequest,
    SearchFunctionsRequest,
};
use samply_mcp::mcp::overview::{
    profile_info, profile_threads, ProfileThreadsRequest,
};
use samply_mcp::mcp::source::{
    profile_function_source, study_function_source, FunctionSourceRequest,
};
use samply_mcp::mcp::stacks::{profile_flamegraph, FlamegraphRequest};
use samply_mcp::mcp::thread_groups::{
    profile_thread_group_top_functions, ThreadGroupTopFunctionsRequest,
};
use samply_mcp::mcp::trees::{profile_call_tree, CallTreeRequest};
use samply_mcp::mcp::under_caller::{
    caller_relationship_label, parse_caller_relationship, profile_function_under_caller,
    FunctionUnderCallerRequest,
};
use samply_mcp::analysis::source::LibraryOutcome;
use samply_mcp::analysis::symbols::function_id;
use samply_mcp::profile::dwarf::{candidate_paths, no_candidate_message};
use samply_mcp::profile::markers::{MarkerJson, MarkerValue};
use samply_mcp::profile::resolve::is_profile_resolvable;
use samply_mcp::profile::resolved::{ResolvedProfile, ResolvedStack};
use samply_mcp::profile::symbols::{
    RawLibrarySymbols, RawSymbolAddressInfo, RawSymbolSidecar, RawSymbolSourceFrame, SymbolSidecar,
};
use samply_mcp::profile::types::{
    RawCategory, RawFrameTable, RawFuncTable, RawLib, RawMarkerSchema, RawMarkerSchemaField,
    RawMarkerTable, RawMeta, RawNativeSymbolTable, RawProfile, RawResourceTable, RawSampleTable,
    RawStackTable, RawThread,
};
use samply_mcp::units::{Ratio, TimeValue, LAST_TIME, ONE_MS};

fn raw(time_ms: f64) -> i64 {
    (time_ms * ONE_MS as f64) as i64
}

fn time(time_ms: f64) -> TimeValue {
    TimeValue::Finite(raw(time_ms))
}

fn ms(time: u64) -> f64 {
    time as f64 / ONE_MS as f64
}

fn percent(ratio: Ratio) -> f64 {
    ratio.part as f64 / ratio.whole as f64 * 100.0
}

fn strings(list: &[&str]) -> Vec<String> {
    list.iter().map(|s| s.to_string()).collect()
}

fn meta(interval_ms: f64, product: &str) -> RawMeta {
    RawMeta {
        categories: vec![RawCategory {
            name: "Other".to_string(),
            color: "grey".to_string(),
            subcategories: vec![],
        }],
        interval: raw(interval_ms) as u64,
        product: Some(product.to_string()),
        oscpu: None,
        start_time: time(0.0),
        symbolicated: false,
        marker_schema: vec![],
        sample_units: None,
    }
}

fn raw_thread(
    name: &str,
    tid: &str,
    is_main_thread: bool,
    funcs: Vec<usize>,
    func_names: Vec<usize>,
    prefix: Vec<Option<usize>>,
    stacks: Vec<usize>,
    times: Vec<f64>,
    table: &[&str],
) -> RawThread {
    let frame_count = funcs.len();
    RawThread {
        name: name.to_string(),
        is_main_thread,
        pid: "1".to_string(),
        tid: tid.to_string(),
        process_name: None,
        register_time: time(0.0),
        unregister_time: None,
        frame_table: RawFrameTable {
            length: frame_count,
            category: Some(vec![0; frame_count]),
            func: funcs,
            subcategory: None,
            line: None,
            column: None,
            address: None,
            native_symbol: None,
            inline_depth: None,
        },
        func_table: RawFuncTable {
            length: func_names.len(),
            name: func_names,
            is_js: None,
            relevant_for_js: None,
            resource: None,
            file_name: None,
            line_number: None,
            column_number: None,
        },
        stack_table: RawStackTable {
            length: prefix.len(),
            frame: (0..prefix.len()).collect(),
            prefix,
        },
        samples: RawSampleTable {
            length: stacks.len(),
            weight: Some(vec![1; stacks.len()]),
            stack: stacks.into_iter().map(Some).collect(),
            time_deltas: None,
            time: Some(times.into_iter().map(time).collect()),
            weight_type: Some("samples".to_string()),
            thread_cpu_delta: None,
        },
        markers: None,
        resource_table: RawResourceTable {
            length: 0,
            lib: None,
            name: None,
            kind: None,
        },
        native_symbols: RawNativeSymbolTable {
            length: 0,
            address: None,
            function_size: None,
            lib_index: None,
            name: None,
        },
        string_array: Some(strings(table)),
        show_markers_in_timeline: false,
    }
}

fn resolve(raw: RawProfile) -> ResolvedProfile {
    assert!(is_profile_resolvable(&raw));
    ResolvedProfile::from_raw(raw)
}

fn simple_profile(thread_name: &str) -> RawProfile {
    RawProfile {
        meta: meta(1.0, "test"),
        libs: vec![],
        shared: None,
        threads: vec![raw_thread(
            thread_name,
            "1",
            true,
            vec![0],
            vec![0],
            vec![None],
            vec![0, 0],
            vec![0.0, 1.0],
            &["root_function"],
        )],
    }
}

fn context_switch_profile() -> RawProfile {
    let mut profile = simple_profile("worker");
    profile.meta.marker_schema = vec![RawMarkerSchema {
        name: "OnCpu".to_string(),
        display: vec![],
        data: vec![
            RawMarkerSchemaField {
                key: Some("cpu".to_string()),
                format: Some("unique-string".to_string()),
            },
            RawMarkerSchemaField {
                key: Some("outwhy".to_string()),
                format: Some("unique-string".to_string()),
            },
        ],
    }];
    let thread = &mut profile.threads[0];
    thread.tid = "2".to_string();
    thread.samples.time = Some(vec![time(0.0), time(20.0)]);
    thread.string_array = Some(strings(&[
        "root_function",
        "Running on CPU",
        "CPU 0",
        "blocked",
        "CPU 1",
        "preempted",
    ]));
    thread.markers = Some(RawMarkerTable {
        length: 3,
        name: Some(vec![1, 1, 1]),
        start_time: Some(vec![Some(time(0.0)), Some(time(10.0)), Some(time(15.0))]),
        end_time: Some(vec![Some(time(4.0)), Some(time(13.0)), Some(time(20.0))]),
        phase: Some(vec![1, 1, 1]),
        category: Some(vec![0, 0, 0]),
        data: Some(vec![
            Some(r#"{"type": "OnCpu", "cpu": 2, "outwhy": 3}"#.to_string()),
            Some(r#"{"type": "OnCpu", "cpu": 4, "outwhy": 5}"#.to_string()),
            Some(r#"{"type": "OnCpu", "cpu": 2, "outwhy": 3}"#.to_string()),
        ]),
    });
    profile
}

fn ranged_profile() -> ResolvedProfile {
    resolve(RawProfile {
        meta: meta(2.0, "range-test"),
        libs: vec![],
        shared: None,
        threads: vec![raw_thread(
            "main-worker",
            "2",
            true,
            vec![0, 1, 2, 3, 4, 5],
            vec![0, 1, 2, 3, 4, 5],
            vec![None, None, Some(1), Some(2), Some(3), Some(3)],
            vec![0, 4, 4, 4, 5, 5, 5],
            vec![
                35198474.0, 35222714.0, 35222716.0, 35243472.0, 35258584.0, 35258586.0, 35274854.0,
            ],
            &["idle", "root", "caller", "tick_game", "before_kill", "after_kill"],
        )],
    })
}

#[test]
fn repeated_sample_stacks_share_one_resolved_allocation() {
    let profile = resolve(simple_profile("shared"));
    let samples = &profile.threads[0].samples;
    assert_eq!(samples.len(), 2);
    assert!(ResolvedStack::ptr_eq(&samples[0].stack, &samples[1].stack));
    assert!(!ResolvedStack::ptr_eq(
        &samples[0].stack,
        &ResolvedStack::default()
    ));
}

#[test]
fn broken_stack_tables_are_told() {
    let mut endless = simple_profile("loop");
    endless.threads[0].stack_table.prefix = vec![Some(0)];
    assert!(!is_profile_resolvable(&endless));
    let mut short = simple_profile("short");
    short.threads[0].samples.length = 3;
    assert!(!is_profile_resolvable(&short));
}

fn fields(data: &MarkerJson) -> Vec<(String, String)> {
    match data {
        MarkerJson::Object(fields) => fields
            .iter()
            .map(|field| {
                let value = match &field.value {
                    MarkerValue::Text(text) => text.clone(),
                    MarkerValue::Number { text, .. } => text.clone(),
                    MarkerValue::Other(text) => text.clone(),
                };
                (field.key.clone(), value)
            })
            .collect(),
        _ => panic!("the marker holds an object"),
    }
}

#[test]
fn profile_context_switches_resolves_marker_strings_and_summarizes_intervals() {
    let profile = resolve(context_switch_profile());
    let first_marker = &profile.threads[0].markers[0];
    assert_eq!(first_marker.phase, Some(1));
    let first_marker_data = fields(&first_marker.data_value().unwrap());
    assert!(first_marker_data.contains(&("cpu".to_string(), "CPU 0".to_string())));
    assert!(first_marker_data.contains(&("outwhy".to_string(), "blocked".to_string())));

    let result = profile_context_switches(
        &profile,
        &ContextSwitchesRequest {
            path: "profile.json".to_string(),
            thread: None,
            tid: None,
            thread_index: Some(0),
            start_time_ms: None,
            end_time_ms: None,
            limit: 10,
        },
    )
    .unwrap();

    assert_eq!(result.thread, "worker");
    assert_eq!(ms(result.on_cpu_time_ms), 12.0);
    assert_eq!(ms(result.off_cpu_time_ms), 8.0);
    assert_eq!(result.cpus[0].cpu, "CPU 0");
    assert_eq!(result.longest_off_cpu_intervals[0].reason, "blocked");
    assert_eq!(ms(result.longest_off_cpu_intervals[0].duration_ms), 6.0);
    assert_eq!(percent(result.on_cpu_percent), 60.0);
}

#[test]
fn threads_without_context_switches_say_so() {
    let profile = resolve(simple_profile("quiet"));
    let error = profile_context_switches(
        &profile,
        &ContextSwitchesRequest {
            path: "profile.json".to_string(),
            thread: None,
            tid: None,
            thread_index: Some(0),
            start_time_ms: None,
            end_time_ms: None,
            limit: 10,
        },
    )
    .unwrap_err();
    assert_eq!(
        error,
        "No usable OnCpu context-switch intervals found for quiet [tid=1, index=0]. Record the profile with `samply record --per-cpu-threads --cswitch-markers ...` and select an application thread."
    );
}

#[test]
fn markers_are_listed_up_to_the_limit() {
    let mut source = context_switch_profile();
    if let Some(markers) = &mut source.threads[0].markers {
        markers.data = Some(vec![
            Some(r#"{"type": "Text", "cpu": 2, "nested": {"a": [1, 2]}}"#.to_string()),
            Some("17".to_string()),
            Some("not json".to_string()),
        ]);
    }
    let profile = resolve(source);
    let mut request = MarkersRequest {
        path: "profile.json".to_string(),
        thread: Some("worker".to_string()),
        tid: None,
        thread_index: None,
        limit: 3,
    };
    let result = profile_markers(&profile, &request).unwrap();
    assert_eq!(result.markers.len(), 3);
    assert_eq!(result.markers[0].name, "Running on CPU");
    assert_eq!(result.markers[0].category, "Other");
    assert_eq!(result.markers[1].start_time, Some(time(10.0)));
    let first = fields(result.markers[0].data.as_ref().unwrap());
    assert!(first.contains(&("cpu".to_string(), "2".to_string())));
    assert!(first.contains(&("nested".to_string(), r#"{"a":[1,2]}"#.to_string())));
    assert!(matches!(&result.markers[1].data, Some(MarkerJson::Plain(text)) if text == "17"));
    assert!(result.markers[2].data.is_none());
    request.limit = 1;
    assert_eq!(profile_markers(&profile, &request).unwrap().markers.len(), 1);
    request.thread = Some("gone".to_string());
    assert_eq!(
        profile_markers(&profile, &request).unwrap_err(),
        "Thread 'gone' not found"
    );
}

fn top_request(start: f64, end: f64) -> TopFunctionsRequest {
    TopFunctionsRequest {
        path: "profile.json".to_string(),
        start_time_ms: Some(time(start)),
        end_time_ms: Some(time(end)),
        thread: None,
        tid: None,
        thread_index: Some(0),
        sort_by: "self".to_string(),
        limit: 20,
        exclude_framework: false,
        user_code_only: false,
        include_names: None,
        exclude_names: None,
    }
}

fn focus_request(start: f64, end: f64) -> FocusFunctionRequest {
    FocusFunctionRequest {
        path: "profile.json".to_string(),
        start_time_ms: Some(time(start)),
        end_time_ms: Some(time(end)),
        query: Some("tick_game".to_string()),
        function_id: None,
        match_mode: "exact".to_string(),
        thread: None,
        tid: None,
        thread_index: Some(0),
        thread_name_prefix: None,
        thread_name_prefixes: vec![],
        max_depth: 10,
        min_percent: 1_000_000,
        exclude_framework: false,
        user_code_only: false,
        short_names: true,
        include_names: None,
        exclude_names: None,
        include_regex: None,
        exclude_regex: None,
        include_threads: false,
    }
}

fn tree_request() -> CallTreeRequest {
    CallTreeRequest {
        path: "profile.json".to_string(),
        start_time_ms: Some(time(24240.0)),
        end_time_ms: Some(time(45000.0)),
        thread: None,
        tid: None,
        thread_index: Some(0),
        thread_name_prefix: None,
        thread_name_prefixes: vec![],
        focus_function: None,
        focus_function_id: None,
        match_mode: "contains".to_string(),
        max_depth: 10,
        min_percent: 0,
        exclude_framework: false,
        user_code_only: false,
        short_names: false,
        include_names: None,
        exclude_names: None,
        include_regex: None,
        exclude_regex: None,
        include_threads: false,
    }
}

fn flame_request() -> FlamegraphRequest {
    FlamegraphRequest {
        path: "profile.json".to_string(),
        start_time_ms: Some(time(60110.0)),
        end_time_ms: Some(time(76380.0)),
        thread: None,
        tid: None,
        thread_index: Some(0),
        thread_name_prefix: None,
        thread_name_prefixes: vec![],
        focus_function: None,
        focus_function_id: None,
        match_mode: "contains".to_string(),
        exclude_framework: false,
        user_code_only: false,
        short_names: false,
    }
}

fn under_caller_request() -> FunctionUnderCallerRequest {
    FunctionUnderCallerRequest {
        path: "profile.json".to_string(),
        start_time_ms: Some(time(24240.0)),
        end_time_ms: Some(time(45000.0)),
        function_name: Some("tick_game".to_string()),
        function_id: None,
        caller_name: Some("caller".to_string()),
        caller_function_id: None,
        match_mode: "exact".to_string(),
        caller_match_mode: "exact".to_string(),
        caller_mode: "ancestor".to_string(),
        thread: None,
        tid: None,
        thread_index: Some(0),
        thread_name_prefix: None,
        thread_name_prefixes: vec![],
        max_depth: 10,
        min_percent: 1_000_000,
        exclude_framework: false,
        user_code_only: false,
        short_names: true,
        include_names: None,
        exclude_names: None,
        include_regex: None,
        exclude_regex: None,
        include_threads: true,
    }
}

#[test]
fn sample_analysis_tools_use_disjoint_profile_relative_ranges() {
    let profile = ranged_profile();

    let info = profile_info(&profile);
    assert_eq!(info.observed_start_time_ms, raw(35_198_474.0));

    let first_top = profile_top_functions(&profile, &mut AnalysisCache::build(&profile), &top_request(24240.0, 45000.0)).unwrap();
    assert_eq!(ms(first_top.effective_range.start_time_ms), 24_240.0);
    assert!(first_top.functions.iter().any(|row| row.name == "before_kill"));
    assert!(!first_top.functions.iter().any(|row| row.name == "after_kill"));

    let second_top = profile_top_functions(&profile, &mut AnalysisCache::build(&profile), &top_request(60110.0, 76380.0)).unwrap();
    assert!(second_top.functions.iter().any(|row| row.name == "after_kill"));
    assert!(!second_top.functions.iter().any(|row| row.name == "before_kill"));

    let first_focus = profile_focus_function(&profile, &mut AnalysisCache::build(&profile), &focus_request(24240.0, 45000.0)).unwrap();
    assert_eq!(first_focus.matched_samples, 3);
    assert_eq!(first_focus.total_scope_samples, 3);
    assert_eq!(ms(first_focus.focused_time_ms), 6.0);
    assert_eq!(percent(first_focus.focused_percent), 100.0);
    assert!(first_focus.tree.contains("before_kill"));
    assert!(!first_focus.tree.contains("after_kill"));

    let second_focus = profile_focus_function(&profile, &mut AnalysisCache::build(&profile), &focus_request(60110.0, 76380.0)).unwrap();
    assert_eq!(second_focus.matched_samples, 3);
    assert_eq!(second_focus.total_scope_samples, 3);
    assert_eq!(ms(second_focus.focused_time_ms), 6.0);
    assert!(second_focus.tree.contains("after_kill"));
    assert!(!second_focus.tree.contains("before_kill"));

    let call_tree = profile_call_tree(&profile, &mut AnalysisCache::build(&profile), &tree_request()).unwrap();
    assert_eq!(call_tree.sample_count, 3);
    assert!(call_tree.tree.contains("before_kill"));
    assert!(!call_tree.tree.contains("after_kill"));

    let flamegraph = profile_flamegraph(&profile, &mut AnalysisCache::build(&profile), &flame_request()).unwrap();
    assert!(flamegraph.collapsed_stacks.contains("after_kill 3"));
    assert!(!flamegraph.collapsed_stacks.contains("before_kill"));

    let under_caller = profile_function_under_caller(&profile, &mut AnalysisCache::build(&profile), &under_caller_request()).unwrap();
    assert_eq!(under_caller.descendant_samples, 3);
    assert_eq!(under_caller.total_scope_samples, 3);
    assert_eq!(ms(under_caller.descendant_time_ms), 6.0);
}

#[test]
fn costs_below_a_caller_nest() {
    let profile = ranged_profile();
    let mut request = under_caller_request();
    request.start_time_ms = None;
    request.end_time_ms = None;
    let report = profile_function_under_caller(&profile, &mut AnalysisCache::build(&profile), &request).unwrap();
    assert_eq!(report.exclusive_samples, 0);
    assert_eq!(report.descendant_samples, 6);
    assert_eq!(report.caller_context_samples, 6);
    assert_eq!(report.total_scope_samples, 7);
    assert_eq!(ms(report.scope_time_ms), 14.0);
    assert_eq!(percent(report.descendant_percent_of_caller), 100.0);
    assert_eq!(report.threads.len(), 1);
    assert_eq!(report.matched_threads.len(), 1);
    assert_eq!(report.caller_mode, "ancestor");
    assert_eq!(report.function_id, function_id("tick_game"));

    request.caller_mode = " Immediate\u{a0}".to_string();
    assert_eq!(
        profile_function_under_caller(&profile, &mut AnalysisCache::build(&profile), &request).unwrap().caller_mode,
        "immediate"
    );
    request.caller_mode = "sibling".to_string();
    assert_eq!(
        profile_function_under_caller(&profile, &mut AnalysisCache::build(&profile), &request).unwrap_err(),
        "caller_mode must be 'ancestor' or 'immediate'"
    );
    request.caller_mode = "immediate".to_string();
    request.function_name = Some("gone".to_string());
    assert_eq!(
        profile_function_under_caller(&profile, &mut AnalysisCache::build(&profile), &request).unwrap_err(),
        "Function not found in selected thread scope. Provide function_id or function_name; try profile_search_functions first."
    );
    request.function_name = Some("tick_game".to_string());
    request.caller_name = Some("gone".to_string());
    assert_eq!(
        profile_function_under_caller(&profile, &mut AnalysisCache::build(&profile), &request).unwrap_err(),
        "Caller function not found in selected thread scope. Provide caller_function_id or caller_name; try profile_search_functions first."
    );
    request.caller_name = Some("root".to_string());
    assert_eq!(
        profile_function_under_caller(&profile, &mut AnalysisCache::build(&profile), &request).unwrap_err(),
        "Function 'tick_game' did not appear under caller 'root' in scope main-worker [tid=2, index=0]"
    );
}

#[test]
fn relationships_have_names() {
    for name in ["ancestor", "immediate"] {
        let relationship = parse_caller_relationship(name).unwrap();
        assert_eq!(caller_relationship_label(relationship), name);
    }
}

#[test]
fn trees_can_be_focused_and_filtered() {
    let profile = ranged_profile();
    let mut request = tree_request();
    request.focus_function = Some("tick".to_string());
    let report = profile_call_tree(&profile, &mut AnalysisCache::build(&profile), &request).unwrap();
    assert_eq!(report.focus_function.as_deref(), Some("tick_game"));
    assert_eq!(report.matched_samples, Some(3));
    assert_eq!(report.thread.as_deref(), Some("main-worker"));
    assert!(report.tree.starts_with("tick_game [100.0% focus / 100.00% thread, 0.0ms self]\n"));
    request.exclude_regex = Some("^before".to_string());
    let report = profile_call_tree(&profile, &mut AnalysisCache::build(&profile), &request).unwrap();
    assert!(!report.tree.contains("before_kill"));
    request.focus_function = Some("gone".to_string());
    assert_eq!(
        profile_call_tree(&profile, &mut AnalysisCache::build(&profile), &request).unwrap_err(),
        "Focus function not found in selected thread scope. Provide focus_function_id or focus_function; try profile_search_functions first."
    );
    request.exclude_regex = Some("(".to_string());
    assert!(profile_call_tree(&profile, &mut AnalysisCache::build(&profile), &request)
        .unwrap_err()
        .starts_with("Invalid exclude regex '(': "));
    request.start_time_ms = Some(time(50000.0));
    assert_eq!(
        profile_call_tree(&profile, &mut AnalysisCache::build(&profile), &request).unwrap_err(),
        "end_time_ms must be greater than start_time_ms"
    );
    request.end_time_ms = Some(TimeValue::NotFinite);
    assert_eq!(
        profile_call_tree(&profile, &mut AnalysisCache::build(&profile), &request).unwrap_err(),
        "start_time_ms and end_time_ms must be finite numbers"
    );
    request.start_time_ms = Some(time(100000.0));
    request.end_time_ms = None;
    assert_eq!(
        profile_call_tree(&profile, &mut AnalysisCache::build(&profile), &request).unwrap_err(),
        "Requested time range does not overlap the profile range 0..76380 ms"
    );
}

#[test]
fn focused_functions_are_found_by_id() {
    let profile = ranged_profile();
    let mut request = focus_request(0.0, 76380.0);
    request.query = None;
    request.function_id = Some(function_id("tick_game"));
    let report = profile_focus_function(&profile, &mut AnalysisCache::build(&profile), &request).unwrap();
    assert_eq!(report.function_name, "tick_game");
    assert_eq!(report.matched_samples, 6);
    request.function_id = Some("fn-unknown".to_string());
    assert_eq!(
        profile_focus_function(&profile, &mut AnalysisCache::build(&profile), &request).unwrap_err(),
        "Function not found in scope main-worker [tid=2, index=0]. Provide function_id or query; try profile_search_functions first."
    );
}

#[test]
fn stacks_can_be_sliced_at_a_function() {
    let profile = ranged_profile();
    let mut request = flame_request();
    request.focus_function = Some("tick_game".to_string());
    let report = profile_flamegraph(&profile, &mut AnalysisCache::build(&profile), &request).unwrap();
    assert_eq!(report.collapsed_stacks, "tick_game;after_kill 3\n");
    assert_eq!(report.threads.len(), 1);
    request.focus_function = Some("gone".to_string());
    assert_eq!(
        profile_flamegraph(&profile, &mut AnalysisCache::build(&profile), &request).unwrap_err(),
        "Focus function not found in scope main-worker [tid=2, index=0]. Try profile_search_functions first."
    );
}

fn source_thread(
    name: &str,
    tid: &str,
    is_main: bool,
    addresses: Vec<Option<i64>>,
    stacks: Vec<usize>,
    times: Vec<f64>,
    second: &str,
) -> RawThread {
    let frame_count = addresses.len();
    let mut funcs = vec![1; frame_count];
    funcs[0] = 0;
    let mut prefix = vec![Some(0); frame_count];
    prefix[0] = None;
    let mut thread = raw_thread(
        name,
        tid,
        is_main,
        funcs,
        vec![0, 1],
        prefix,
        stacks,
        times,
        &["root", second],
    );
    thread.frame_table.address = Some(addresses);
    thread.func_table.resource = Some(vec![Some(-1), Some(0)]);
    thread.resource_table = RawResourceTable {
        length: 1,
        lib: Some(vec![Some(0)]),
        name: None,
        kind: None,
    };
    thread
}

fn source_profile() -> RawProfile {
    RawProfile {
        meta: meta(2.0, "source-test"),
        libs: vec![RawLib {
            name: "source-test".to_string(),
            path: String::new(),
            debug_name: "source-test".to_string(),
            debug_path: String::new(),
            breakpad_id: "ABCD0".to_string(),
            code_id: None,
            arch: None,
        }],
        shared: None,
        threads: vec![
            source_thread(
                "chunk-worker-0",
                "10",
                true,
                vec![Some(-1), Some(260), Some(264)],
                vec![1, 1, 2],
                vec![1000.0, 1002.0, 1010.0],
                "0x100",
            ),
            source_thread(
                "chunk-worker-1",
                "11",
                false,
                vec![Some(-1), Some(264)],
                vec![1],
                vec![1004.0],
                "0x104",
            ),
        ],
    }
}

fn source_frame(function: usize, file: usize, line: u32) -> RawSymbolSourceFrame {
    RawSymbolSourceFrame {
        function: Some(function),
        file: Some(file),
        line: Some(line),
    }
}

fn source_sidecar() -> SymbolSidecar {
    SymbolSidecar::from_raw(&RawSymbolSidecar {
        string_table: strings(&[
            "ChunkMap::tick_game",
            "inlined_helper",
            "src/chunk_map.rs",
            "src/helper.rs",
        ]),
        data: vec![RawLibrarySymbols {
            debug_name: "source-test".to_string(),
            debug_id: "AB-CD-00".to_string(),
            symbol_table: vec![
                RawSymbolAddressInfo {
                    rva: 256,
                    size: Some(32),
                    symbol: 0,
                    frames: Some(vec![source_frame(1, 3, 20), source_frame(0, 2, 100)]),
                },
                RawSymbolAddressInfo {
                    rva: 256,
                    size: Some(32),
                    symbol: 0,
                    frames: Some(vec![source_frame(1, 3, 21), source_frame(0, 2, 101)]),
                },
            ],
            known_addresses: vec![(260, 0), (264, 1)],
        }],
    })
}

#[test]
fn source_breakdown_and_flamegraph_aggregate_thread_prefixes_in_range() {
    let raw_profile = source_profile();
    assert!(is_profile_resolvable(&raw_profile));
    let sidecar = source_sidecar();
    let profile = ResolvedProfile::from_raw_with_symbols(raw_profile, Some(&sidecar));
    let mut request = FunctionSourceRequest {
        path: "profile.json".to_string(),
        start_time_ms: Some(time(0.0)),
        end_time_ms: Some(time(5.0)),
        query: Some("ChunkMap::tick_game".to_string()),
        function_id: None,
        match_mode: "exact".to_string(),
        thread: None,
        tid: None,
        thread_index: None,
        thread_name_prefix: Some("chunk-worker-*".to_string()),
        thread_name_prefixes: vec![],
        limit: 10,
        include_threads: true,
    };
    let study = study_function_source(&profile, &mut AnalysisCache::build(&profile), &request).unwrap();
    let outcomes: Vec<LibraryOutcome> = study
        .plan
        .iter()
        .map(|lookups| {
            let library = &profile.libraries[lookups.library_index];
            assert_eq!(candidate_paths(library, false).len(), 0);
            LibraryOutcome::Failed(no_candidate_message(library))
        })
        .collect();
    let source = profile_function_source(&profile, &request, study, &outcomes, true);

    assert_eq!(ms(source.effective_range.start_time_ms), 0.0);
    assert_eq!(ms(source.effective_range.end_time_ms), 5.0);
    assert_eq!(source.thread_count, 2);
    assert_eq!(source.exclusive_samples, 3);
    assert_eq!(ms(source.exclusive_time_ms), 6.0);
    assert_eq!(source.instruction_count, 2);
    assert_eq!(source.source_line_count, 2);
    assert_eq!(source.sidecar_symbolicated_samples, 3);
    assert_eq!(source.dwarf_resolution.attempted_library_count, 1);
    assert_eq!(source.dwarf_resolution.attempted_instruction_count, 2);
    assert_eq!(source.dwarf_resolution.loaded_library_count, 0);
    assert!(!source.dwarf_resolution.warnings.is_empty());
    assert_eq!(
        source.instructions[0].instruction_address.as_deref(),
        Some("0x104")
    );
    assert_eq!(source.instructions[0].symbol_offset.as_deref(), Some("0x4"));
    assert_eq!(source.instructions[0].sample_count, 2);
    assert_eq!(source.instructions[0].focus_line, Some(100));
    assert_eq!(source.instructions[0].inline_frames.len(), 2);
    assert_eq!(
        source.instructions[0].inline_frames[1].function_name,
        "inlined_helper"
    );
    assert_eq!(
        source.instructions[0].inline_frames[1].source.as_deref(),
        Some("src/helper.rs:20")
    );
    assert_eq!(source.source_lines[0].line, Some(100));

    let mut flames = flame_request();
    flames.thread_index = None;
    flames.thread_name_prefix = Some("chunk-worker-*".to_string());
    flames.start_time_ms = Some(time(0.0));
    flames.end_time_ms = Some(time(5.0));
    let flamegraph = profile_flamegraph(&profile, &mut AnalysisCache::build(&profile), &flames).unwrap();
    assert_eq!(flamegraph.thread_count, 2);
    assert!(flamegraph.thread.is_none());
    assert!(flamegraph
        .collapsed_stacks
        .contains("root;ChunkMap::tick_game 3"));

    request.query = Some("root".to_string());
    assert_eq!(
        study_function_source(&profile, &mut AnalysisCache::build(&profile), &request).err().unwrap(),
        "Function 'root' has no exclusive/self samples in scope thread prefix(es): chunk-worker-* and the selected time range"
    );
}

#[test]
fn overviews_count_threads_and_samples() {
    let profile = resolve(source_profile());
    let info = profile_info(&profile);
    assert_eq!(info.product, "source-test");
    assert_eq!(info.thread_count, 2);
    assert_eq!(info.total_samples, 4);
    let threads = profile_threads(
        &profile,
        &ProfileThreadsRequest {
            path: "profile.json".to_string(),
            start_time_ms: None,
            end_time_ms: None,
            thread_name_prefix: None,
            thread_name_prefixes: vec![],
            thread_name_regex: Some("^chunk-".to_string()),
            min_samples: Some(2),
            min_duration_ms: None,
            group_by_name_prefix: true,
            include_threads: true,
        },
    )
    .unwrap();
    assert_eq!(threads.threads.len(), 1);
    assert_eq!(threads.threads[0].name, "chunk-worker-0");
    assert_eq!(threads.groups.len(), 1);
}

#[test]
fn searches_find_functions() {
    let profile = ranged_profile();
    let found = profile_search_functions(
        &profile,
        &mut AnalysisCache::build(&profile),
        &SearchFunctionsRequest {
            path: "profile.json".to_string(),
            start_time_ms: None,
            end_time_ms: None,
            query: "kill".to_string(),
            match_mode: "contains".to_string(),
            thread: None,
            tid: None,
            thread_index: None,
            sort_by: "total".to_string(),
            limit: 20,
            exclude_framework: false,
            user_code_only: false,
            include_names: None,
            exclude_names: None,
        },
    )
    .unwrap();
    assert_eq!(found.functions.len(), 2);
    let detail = profile_function_detail(
        &profile,
        &mut AnalysisCache::build(&profile),
        &FunctionDetailRequest {
            path: "profile.json".to_string(),
            start_time_ms: None,
            end_time_ms: None,
            function_name: Some("tick_game".to_string()),
            function_id: None,
            match_mode: "exact".to_string(),
        },
    )
    .unwrap();
    assert_eq!(detail.callers[0].function_name, "caller");
    assert_eq!(detail.callers[0].count, 6);
    assert_eq!(detail.callees.len(), 2);
}

#[test]
fn thread_groups_are_ranked_together() {
    let profile = resolve(source_profile());
    let report = profile_thread_group_top_functions(
        &profile,
        &mut AnalysisCache::build(&profile),
        &ThreadGroupTopFunctionsRequest {
            path: "profile.json".to_string(),
            start_time_ms: None,
            end_time_ms: None,
            thread_name_prefix: Some("chunk-worker-*".to_string()),
            thread_name_prefixes: vec![],
            sort_by: "self".to_string(),
            limit: 5,
            exclude_framework: false,
            user_code_only: false,
            include_names: None,
            exclude_names: None,
            include_threads: true,
        },
    )
    .unwrap();
    assert_eq!(report.groups.len(), 1);
    assert_eq!(report.groups[0].thread_count, 2);
    assert_eq!(report.groups[0].sample_count, 4);
}

#[test]
fn metadata_queries_do_not_build_function_statistics() {
    let profile = resolve(source_profile());
    let mut cache = AnalysisCache::build(&profile);
    assert!(!cache.is_built(0));

    profile_info(&profile);
    assert!(!cache.is_built(0));

    let range = AnalysisRange::resolve(&profile, None, None).unwrap();
    let stats = function_stats_for_thread(&profile, &mut cache, 0, &range);
    assert!(!stats.is_empty());
    assert!(cache.is_built(0));
    assert!(!cache.is_built(1));

    let again = function_stats_for_thread(&profile, &mut cache, 0, &range);
    assert_eq!(again.len(), stats.len());
    assert_eq!(again[0].name, stats[0].name);
    assert_eq!(again[0].self_time_ms, stats[0].self_time_ms);
    assert!(function_stats_for_thread(&profile, &mut cache, 9, &range).is_empty());
    assert!(!cache.is_built(9));
}

#[test]
fn times_of_a_window_are_not_kept() {
    let profile = resolve(source_profile());
    let mut cache = AnalysisCache::build(&profile);
    let range = AnalysisRange::resolve(&profile, None, Some(time(0.5))).unwrap();
    function_stats_for_thread(&profile, &mut cache, 0, &range);
    assert!(!cache.is_built(0));
}

#[test]
fn a_profile_without_times_starts_at_the_last_time() {
    let mut raw = source_profile();
    raw.threads.clear();
    let profile = resolve(raw);
    assert_eq!(profile.observed_start_time_ms, LAST_TIME);
    assert_eq!(profile.duration_ms, 0);
    let info = profile_info(&profile);
    assert_eq!(info.observed_start_time_ms, i64::MAX);
    assert_eq!(info.total_samples, 0);
    let range = AnalysisRange::resolve(&profile, None, None).unwrap();
    assert_eq!(range.raw_start_time_ms(), LAST_TIME as i128);
    assert_eq!(range.end_time_ms, 0);
}
