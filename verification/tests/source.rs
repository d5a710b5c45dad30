use samply_mcp::analysis::samples::AnalysisRange;
use samply_mcp::analysis::source::{
    apply_dwarf_address_info, dwarf_lookups, exclusive_source_breakdown, rebuild_source_lines,
    resolve_dwarf_sources, ExclusiveInstructionBreakdown, ExclusiveSourceBreakdown,
    InlineSourceFrame, LibraryOutcome, LookupOutcome,
};
use samply_mcp::profile::dwarf::{DwarfAddressInfo, DwarfSourceFrame};
use samply_mcp::profile::resolved::{
    ResolvedFrame, ResolvedInstruction, ResolvedLibrary, ResolvedProfile, ResolvedSample,
    ResolvedThread, SampleWeightType,
};
use samply_mcp::profile::symbols::{SymbolAddressInfo, SymbolSourceFrame};
use samply_mcp::units::{TimeValue, ONE_MS};
use std::collections::BTreeSet;
use std::sync::Arc;

fn raw(time_ms: f64) -> i64 {
    (time_ms * ONE_MS as f64) as i64
}

fn ms(time: u64) -> f64 {
    time as f64 / ONE_MS as f64
}

fn frame(name: &str, address: u64, line: u32) -> ResolvedFrame {
    ResolvedFrame {
        function_name: name.to_string(),
        file: None,
        line: None,
        category: "Other".to_string(),
        library: Some("app".to_string()),
        instruction: Some(ResolvedInstruction {
            address,
            inline_depth: 0,
            library_index: None,
            library_debug_id: Some("DEBUG".to_string()),
            symbol: Some(Arc::new(SymbolAddressInfo {
                symbol_name: name.to_string(),
                symbol_start_address: 0x100,
                symbol_size: Some(32),
                frames: vec![
                    SymbolSourceFrame {
                        function_name: name.to_string(),
                        file: Some("outer.rs".to_string()),
                        line: Some(line),
                    },
                    SymbolSourceFrame {
                        function_name: "inlined".to_string(),
                        file: Some("inline.rs".to_string()),
                        line: Some(20),
                    },
                ],
            })),
        }),
    }
}

fn sample(timestamp_ms: f64, stack: Vec<ResolvedFrame>) -> ResolvedSample {
    ResolvedSample {
        timestamp_ms: TimeValue::Finite(raw(timestamp_ms)),
        weight: 1,
        cpu_delta_us: None,
        stack: stack.into(),
    }
}

fn profile(samples: Vec<ResolvedSample>) -> ResolvedProfile {
    let total_sample_count = samples.len();
    ResolvedProfile {
        threads: vec![ResolvedThread {
            name: "worker-0".to_string(),
            pid: "1".to_string(),
            tid: "1".to_string(),
            is_main: true,
            sample_weight_type: SampleWeightType::Samples,
            samples,
            markers: vec![],
            duration_ms: 2 * ONE_MS,
        }],
        libraries: vec![],
        product: "test".to_string(),
        interval_ms: 2 * ONE_MS,
        categories: vec![],
        observed_start_time_ms: raw(100.0),
        duration_ms: 2 * ONE_MS,
        total_sample_count,
    }
}

#[test]
fn groups_only_exclusive_samples_by_instruction_and_focus_line() {
    let profile = profile(vec![
        sample(100.0, vec![frame("tick", 0x104, 10)]),
        sample(102.0, vec![frame("tick", 0x108, 11)]),
    ]);
    let range = AnalysisRange::resolve(&profile, None, None).unwrap();

    let breakdown = exclusive_source_breakdown(&profile, &vec![0], &range, "tick");

    assert_eq!(breakdown.exclusive_sample_count, 2);
    assert_eq!(ms(breakdown.exclusive_time_ms), 4.0);
    assert_eq!(breakdown.instructions.len(), 2);
    assert_eq!(breakdown.source_lines.len(), 2);
    assert_eq!(breakdown.instructions[0].inline_frames.len(), 2);
    assert_eq!(
        breakdown.instructions[0].focus_file.as_deref(),
        Some("outer.rs")
    );
}

fn instruction(address: u64) -> ExclusiveInstructionBreakdown {
    ExclusiveInstructionBreakdown {
        library_index: Some(0),
        address: Some(address),
        library: Some("app".to_string()),
        library_debug_id: Some("DEBUG".to_string()),
        symbol_name: Some("tick".to_string()),
        symbol_start_address: Some(0x100),
        symbol_size: Some(32),
        focus_file: Some("outer.rs".to_string()),
        focus_line: Some(10),
        source_origin: "sidecar",
        inline_frames: vec![InlineSourceFrame {
            function_name: "tick".to_string(),
            file: Some("outer.rs".to_string()),
            line: Some(10),
        }],
        sample_count: 2,
        cpu_sample_time_ms: 4 * ONE_MS,
    }
}

fn looked_up(line: u32) -> DwarfAddressInfo {
    DwarfAddressInfo {
        symbol_name: Some("tick".to_string()),
        symbol_start_address: Some(0x100),
        frames: vec![DwarfSourceFrame {
            function_name: "tick".to_string(),
            file: Some("outer.rs".to_string()),
            line: Some(line),
        }],
    }
}

#[test]
fn per_pc_dwarf_replaces_a_shared_sidecar_stack_and_regroups_lines() {
    let mut breakdown = ExclusiveSourceBreakdown {
        instructions: vec![instruction(0x104), instruction(0x108)],
        ..ExclusiveSourceBreakdown::default()
    };

    for (instruction, line) in breakdown.instructions.iter_mut().zip([100, 200]) {
        apply_dwarf_address_info(instruction, "tick", &looked_up(line));
    }
    rebuild_source_lines(&mut breakdown);

    assert!(breakdown
        .instructions
        .iter()
        .all(|instruction| instruction.source_origin == "dwarf"));
    assert_eq!(breakdown.source_lines.len(), 2);
    assert_eq!(
        breakdown
            .source_lines
            .iter()
            .map(|line| line.line.unwrap())
            .collect::<BTreeSet<_>>(),
        BTreeSet::from([100, 200])
    );
}

#[test]
fn libraries_are_asked_about_their_instructions() {
    let mut profile = profile(vec![]);
    profile.libraries.push(ResolvedLibrary {
        name: "app".to_string(),
        path: "/bin/app".to_string(),
        debug_name: String::new(),
        debug_path: String::new(),
        breakpad_id: String::new(),
        code_id: None,
    });
    let mut breakdown = ExclusiveSourceBreakdown {
        instructions: vec![instruction(0x104), instruction(0x108), instruction(0x10c)],
        ..ExclusiveSourceBreakdown::default()
    };
    let plan = dwarf_lookups(&breakdown);
    assert_eq!(plan.len(), 1);
    assert_eq!(plan[0].library_index, 0);
    assert_eq!(plan[0].instruction_indices, vec![0, 1, 2]);
    let summary = resolve_dwarf_sources(
        &profile,
        "tick",
        &mut breakdown,
        &plan,
        &vec![LibraryOutcome::Loaded {
            path: "/bin/app".to_string(),
            identity_verified: false,
            results: vec![
                LookupOutcome::Found(looked_up(100)),
                LookupOutcome::Nothing,
                LookupOutcome::Failed("cut off".to_string()),
            ],
        }],
    );
    assert_eq!(summary.attempted_library_count, 1);
    assert_eq!(summary.loaded_library_count, 1);
    assert_eq!(summary.identity_verified_library_count, 0);
    assert_eq!(summary.attempted_instruction_count, 3);
    assert_eq!(summary.resolved_instruction_count, 1);
    assert_eq!(summary.resolved_sample_count, 2);
    assert_eq!(summary.binary_paths, vec!["/bin/app"]);
    assert_eq!(summary.warnings.len(), 2);
    assert_eq!(breakdown.instructions[0].focus_line, Some(100));
    assert_eq!(breakdown.instructions[1].focus_line, Some(10));
}

#[test]
fn libraries_that_cannot_be_loaded_leave_a_warning() {
    let profile = profile(vec![]);
    let mut breakdown = ExclusiveSourceBreakdown {
        instructions: vec![instruction(0x104)],
        ..ExclusiveSourceBreakdown::default()
    };
    let plan = dwarf_lookups(&breakdown);
    let summary = resolve_dwarf_sources(
        &profile,
        "tick",
        &mut breakdown,
        &plan,
        &vec![LibraryOutcome::Failed("gone".to_string())],
    );
    assert_eq!(
        summary.warnings,
        vec!["profile instruction references missing library index 0"]
    );
    assert_eq!(breakdown.instructions[0].source_origin, "sidecar");
}

#[test]
fn instructions_and_lines_share_out_all_samples() {
    let profile = profile(vec![
        sample(100.0, vec![frame("tick", 0x104, 10)]),
        sample(101.0, vec![frame("tick", 0x104, 10)]),
        sample(101.5, vec![frame("other", 0x204, 30)]),
        sample(102.0, vec![frame("tick", 0x108, 11)]),
    ]);
    let range = AnalysisRange::resolve(&profile, None, None).unwrap();
    let breakdown = exclusive_source_breakdown(&profile, &vec![0], &range, "tick");
    assert_eq!(breakdown.exclusive_sample_count, 3);
    assert_eq!(breakdown.instructions.iter().map(|row| row.sample_count).sum::<usize>(), 3);
    assert_eq!(breakdown.source_lines.iter().map(|row| row.sample_count).sum::<usize>(), 3);
    assert_eq!(
        breakdown.instructions.iter().map(|row| row.cpu_sample_time_ms).sum::<u64>(),
        breakdown.exclusive_time_ms
    );
    assert_eq!(
        breakdown.source_lines.iter().map(|row| row.cpu_sample_time_ms).sum::<u64>(),
        breakdown.exclusive_time_ms
    );
}
