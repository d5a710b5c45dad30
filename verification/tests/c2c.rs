use samply_mcp::c2c::address::{align_cacheline, format_address, parse_address};
use samply_mcp::c2c::data_source::MemoryDataSource;
use samply_mcp::c2c::detail::{
    c2c_access_site_detail, c2c_cacheline_detail, C2cAccessSiteDetailRequest,
    C2cCachelineDetailRequest,
};
use samply_mcp::c2c::parse::{
    is_callchain_context, parse_memory_sample, SampleError, SampleLayout, FORMAT_ADDR,
    FORMAT_BRANCH_STACK, FORMAT_CALLCHAIN, FORMAT_CPU, FORMAT_DATA_SRC, FORMAT_IP, FORMAT_PHYS_ADDR, FORMAT_TID,
    FORMAT_TIME, FORMAT_WEIGHT_STRUCT,
};
use samply_mcp::c2c::raw_record::{
    is_parseable, make_event, read_event, ParsedRecord, RecordLayout,
};
use samply_mcp::c2c::record::{record_events, C2cRecorder, PerfEvent, RecordError, PROT_EXEC};
use samply_mcp::c2c::rows::{
    c2c_raw_data_source_rows, c2c_symbolication_warnings, validate_c2c_latency_sort,
    InstructionSymbol, LookupFailure,
};
use samply_mcp::c2c::site::{c2c_site_id, select_c2c_site_key, C2cSiteKey};
use samply_mcp::c2c::tools::{
    c2c_top_access_sites, c2c_top_cachelines, C2cTopAccessSitesRequest, C2cTopCachelinesRequest,
};
use samply_mcp::c2c::types::{C2cCallchainFrame, C2cProfile, C2cSample, C2cStats, MappedInstruction};
use samply_mcp::profile::dwarf::{DwarfAddressInfo, DwarfSourceFrame};
use samply_mcp::units::{TimeValue, ONE_MS};
use std::sync::Arc;

#[test]
fn decodes_amd_remote_cache_hitm() {
    let source = MemoryDataSource {
        raw: 0x836_2980_8042,
    };
    assert!(source.is_load());
    assert!(source.is_hitm());
    assert!(source.is_remote());
    assert_eq!(source.level(), "any_cache");
}

#[test]
fn decodes_load_weight_structure() {
    let source = MemoryDataSource {
        raw: 0x1a_2908_1042,
    };
    assert!(source.is_load());
    assert!(!source.is_hitm());
    assert_eq!(source.level(), "ram");
}

fn layout() -> SampleLayout {
    SampleLayout {
        big_endian: false,
        sample_format: FORMAT_IP
            | FORMAT_TID
            | FORMAT_TIME
            | FORMAT_ADDR
            | FORMAT_CPU
            | FORMAT_CALLCHAIN
            | FORMAT_WEIGHT_STRUCT
            | FORMAT_DATA_SRC
            | FORMAT_PHYS_ADDR,
        read_format: 0,
        branch_hw_index: false,
        user_regs_count: 0,
        intr_regs_count: 0,
    }
}

fn sample_bytes(data_address: u64, callchain: &[u64]) -> Vec<u8> {
    let mut bytes = Vec::new();
    bytes.extend_from_slice(&0x1234_5678_u64.to_le_bytes());
    bytes.extend_from_slice(&42_i32.to_le_bytes());
    bytes.extend_from_slice(&84_i32.to_le_bytes());
    bytes.extend_from_slice(&1_000_000_u64.to_le_bytes());
    bytes.extend_from_slice(&data_address.to_le_bytes());
    bytes.extend_from_slice(&7_u32.to_le_bytes());
    bytes.extend_from_slice(&0_u32.to_le_bytes());
    bytes.extend_from_slice(&(callchain.len() as u64).to_le_bytes());
    for address in callchain {
        bytes.extend_from_slice(&address.to_le_bytes());
    }
    let weight_struct = 321_u64 | (654_u64 << 32) | (987_u64 << 48);
    bytes.extend_from_slice(&weight_struct.to_le_bytes());
    bytes.extend_from_slice(&0x836_2980_8042_u64.to_le_bytes());
    bytes.extend_from_slice(&0x4a8f_90044_u64.to_le_bytes());
    bytes
}

#[test]
fn parses_weight_struct_and_memory_fields() {
    let mut bytes = Vec::new();
    bytes.extend_from_slice(&0x1234_5678_u64.to_le_bytes());
    bytes.extend_from_slice(&42_i32.to_le_bytes());
    bytes.extend_from_slice(&84_i32.to_le_bytes());
    bytes.extend_from_slice(&1_000_000_u64.to_le_bytes());
    bytes.extend_from_slice(&0x2000_0044_u64.to_le_bytes());
    bytes.extend_from_slice(&7_u32.to_le_bytes());
    bytes.extend_from_slice(&0_u32.to_le_bytes());
    bytes.extend_from_slice(&3_u64.to_le_bytes());
    bytes.extend_from_slice(&(u64::MAX - 127).to_le_bytes());
    bytes.extend_from_slice(&0x1234_5678_u64.to_le_bytes());
    bytes.extend_from_slice(&0x1234_5000_u64.to_le_bytes());
    let weight_struct = 321_u64 | (654_u64 << 32) | (987_u64 << 48);
    bytes.extend_from_slice(&weight_struct.to_le_bytes());
    bytes.extend_from_slice(&0x836_2980_8042_u64.to_le_bytes());
    bytes.extend_from_slice(&0x4a8f_90044_u64.to_le_bytes());

    let sample = parse_memory_sample(bytes.as_slice(), &layout()).unwrap();
    assert_eq!(sample.instruction_address, Some(0x1234_5678));
    assert_eq!(sample.pid, Some(42));
    assert_eq!(sample.tid, Some(84));
    assert_eq!(sample.timestamp_ns, Some(1_000_000));
    assert_eq!(sample.data_address, Some(0x2000_0044));
    assert_eq!(sample.cpu, Some(7));
    assert_eq!(
        sample.callchain,
        vec![u64::MAX - 127, 0x1234_5678, 0x1234_5000]
    );
    assert!(is_callchain_context(sample.callchain[0]));
    assert!(!is_callchain_context(sample.callchain[1]));
    assert_eq!(sample.weight, Some(321));
    assert_eq!(sample.instruction_latency, Some(654));
    assert_eq!(sample.data_source, 0x836_2980_8042);
    assert_eq!(sample.physical_address, Some(0x4a8f_90044));
}

#[test]
fn samples_in_the_other_byte_order_are_read() {
    let layout = SampleLayout {
        big_endian: true,
        sample_format: FORMAT_IP | FORMAT_ADDR | FORMAT_DATA_SRC,
        read_format: 0,
        branch_hw_index: false,
        user_regs_count: 0,
        intr_regs_count: 0,
    };
    let mut bytes = Vec::new();
    bytes.extend_from_slice(&0x10_u64.to_be_bytes());
    bytes.extend_from_slice(&0x20_u64.to_be_bytes());
    bytes.extend_from_slice(&0x30_u64.to_be_bytes());
    let sample = parse_memory_sample(&bytes, &layout).unwrap();
    assert_eq!(sample.instruction_address, Some(0x10));
    assert_eq!(sample.data_address, Some(0x20));
    assert_eq!(sample.data_source, 0x30);
    assert_eq!(sample.pid, None);
}

#[test]
fn broken_samples_are_rejected() {
    let bytes = sample_bytes(0x2000, &[]);
    assert!(matches!(
        parse_memory_sample(&bytes[..bytes.len() - 1], &layout()),
        Err(SampleError::Truncated)
    ));
    assert_eq!(SampleError::Truncated.message(), "unexpected end of file");

    let mut endless = Vec::new();
    endless.extend_from_slice(&1_000_001_u64.to_le_bytes());
    let callchains = SampleLayout {
        sample_format: FORMAT_CALLCHAIN,
        ..layout()
    };
    let error = parse_memory_sample(&endless, &callchains).unwrap_err();
    assert!(matches!(error, SampleError::CallchainTooLong));
    assert_eq!(
        error.message(),
        "perf callchain exceeds the one-million-frame safety limit"
    );

    let mut branches = Vec::new();
    branches.extend_from_slice(&u64::MAX.to_le_bytes());
    let branch_layout = SampleLayout {
        sample_format: FORMAT_BRANCH_STACK,
        ..layout()
    };
    let error = parse_memory_sample(&branches, &branch_layout).unwrap_err();
    assert!(matches!(error, SampleError::ArrayTooLarge));
    assert_eq!(error.message(), "perf sample array is too large");
}

fn access(data_address: u64, physical_address: u64, tid: i32, cpu: u32) -> C2cSample {
    C2cSample {
        timestamp_ns: Some(1_000_000),
        pid: 42,
        tid,
        cpu,
        thread_name: Arc::new("worker".to_string()),
        instruction_address: 0x1234,
        exact_ip: true,
        data_address,
        mapped_data_address: None,
        physical_address: Some(physical_address),
        weight: 100,
        instruction_latency: Some(120),
        data_source: MemoryDataSource {
            raw: 0x836_2980_8042,
        },
        mapped_instruction: None,
        callchain: Arc::new(vec![C2cCallchainFrame {
            instruction_address: 0x1200,
            mapped_instruction: None,
        }]),
    }
}

fn recording(samples: Vec<C2cSample>) -> C2cProfile {
    C2cProfile {
        arch: Some("x86_64".to_string()),
        cpu_description: None,
        perf_version: None,
        event_names: vec!["mem-loads".to_string()],
        cacheline_size: 64,
        first_timestamp_ns: Some(1_000_000),
        last_timestamp_ns: Some(1_000_000),
        samples,
        samples_with_callchains: 3,
        skipped_samples: 0,
        missing_data_address_samples: 0,
        missing_physical_address_samples: 0,
    }
}

fn three_accesses() -> C2cProfile {
    recording(vec![
        access(0x1004, 0xa004, 7, 1),
        access(0x2008, 0xb008, 8, 2),
        access(0x100c, 0xa00c, 7, 3),
    ])
}

fn sites_request() -> C2cTopAccessSitesRequest {
    C2cTopAccessSitesRequest {
        path: "perf.data".to_string(),
        pid: None,
        tid: None,
        thread_name_prefix: None,
        start_time_ms: None,
        end_time_ms: None,
        sort_by: "hitm".to_string(),
        group_by_callchain: false,
        include_callchains: true,
        callchain_limit: 3,
        limit: 20,
    }
}

#[test]
fn c2c_access_sites_aggregate_distinct_cachelines_and_stable_ids() {
    let profile = three_accesses();
    let samples = &profile.samples;
    let key = C2cSiteKey::for_sample(&samples[0], false);
    let site_id = c2c_site_id(&key);
    let sites =
        c2c_top_access_sites(&profile, &sites_request(), &Vec::new(), &Vec::new()).unwrap();
    let site = &sites.access_sites[0];

    assert_eq!(site.samples, 3);
    assert_eq!(site.remote_hitm, 3);
    assert_eq!(site.distinct_virtual_cachelines, 2);
    assert_eq!(site.distinct_hitm_cachelines, 2);
    assert_eq!(site.distinct_physical_cachelines, 2);
    assert_eq!(site.top_callchains.len(), 1);
    assert_eq!(site.raw_data_sources.len(), 1);
    let data_source_rows = c2c_raw_data_source_rows(&samples.iter().collect());
    assert_eq!(data_source_rows[0].raw_data_source, "0x83629808042");
    assert_eq!(data_source_rows[0].stats.samples, 3);
    assert_eq!(data_source_rows[0].stats.remote_hitm, 3);
    assert_eq!(c2c_site_id(&key), site_id);
    assert_eq!(site.site_id, site_id);
    assert_ne!(
        c2c_site_id(&C2cSiteKey::for_sample(&samples[0], true)),
        site_id
    );
    assert!(select_c2c_site_key(&samples[0], None, Some(&site_id)).is_some());
    assert!(select_c2c_site_key(&samples[0], None, Some("c2c-absent")).is_none());
}

#[test]
fn c2c_latency_sort_requires_latency_samples() {
    let stats = C2cStats {
        samples: 42,
        ..C2cStats::default()
    };
    assert_eq!(
        validate_c2c_latency_sort("latency", 42, &stats).unwrap_err(),
        "cannot sort by latency: none of the 42 memory samples matched by the requested filters contains instruction-latency data"
    );
    assert!(validate_c2c_latency_sort("hitm", 42, &stats).is_ok());

    let stats = C2cStats {
        instruction_latency_samples: 1,
        ..stats
    };
    assert!(validate_c2c_latency_sort("latency", 42, &stats).is_ok());
}

fn lines_request() -> C2cTopCachelinesRequest {
    C2cTopCachelinesRequest {
        path: "perf.data".to_string(),
        pid: None,
        tid: None,
        thread_name_prefix: None,
        start_time_ms: None,
        end_time_ms: None,
        sort_by: "hitm".to_string(),
        limit: 20,
    }
}

#[test]
fn contended_lines_come_first() {
    let report = c2c_top_cachelines(&three_accesses(), &lines_request()).unwrap();
    assert_eq!(report.total_matched_hitm, 3);
    assert_eq!(report.cachelines.len(), 2);
    assert_eq!(report.cachelines[0].cacheline_address, "0x1000");
    assert_eq!(report.cachelines[0].samples, 2);
    assert_eq!(report.cachelines[0].physical_cacheline_addresses, vec!["0xa000"]);
    assert_eq!(report.cachelines[0].cpus, vec![1, 3]);
    assert_eq!(report.cachelines[0].tids, vec![7]);
    assert_eq!(report.cachelines[0].thread_names, vec!["worker"]);
    assert_eq!(report.cachelines[0].average_weight.sum, 200);
    assert_eq!(report.cachelines[0].average_weight.count, 2);
    assert_eq!(report.cachelines[1].cacheline_address, "0x2000");
    assert_eq!(report.matched_memory_levels[0].memory_level, "any_cache");
}

#[test]
fn filters_select_accesses() {
    let mut request = lines_request();
    request.tid = Some(8);
    let report = c2c_top_cachelines(&three_accesses(), &request).unwrap();
    assert_eq!(report.matched_stats.samples, 1);
    request.tid = None;
    request.thread_name_prefix = Some("other*".to_string());
    let report = c2c_top_cachelines(&three_accesses(), &request).unwrap();
    assert_eq!(report.cachelines.len(), 0);
    request.thread_name_prefix = Some("work*".to_string());
    let report = c2c_top_cachelines(&three_accesses(), &request).unwrap();
    assert_eq!(report.matched_stats.samples, 3);
    request.start_time_ms = Some(TimeValue::Finite(5 * ONE_MS as i64));
    let report = c2c_top_cachelines(&three_accesses(), &request).unwrap();
    assert_eq!(report.matched_stats.samples, 0);
    request.end_time_ms = Some(TimeValue::Finite(ONE_MS as i64));
    assert_eq!(
        c2c_top_cachelines(&three_accesses(), &request).unwrap_err(),
        "start_time_ms must be less than or equal to end_time_ms"
    );
    request.start_time_ms = Some(TimeValue::NotFinite);
    assert_eq!(
        c2c_top_cachelines(&three_accesses(), &request).unwrap_err(),
        "start_time_ms must be a finite, non-negative number"
    );
    request.start_time_ms = None;
    request.end_time_ms = Some(TimeValue::Finite(-1));
    assert_eq!(
        c2c_top_cachelines(&three_accesses(), &request).unwrap_err(),
        "end_time_ms must be a finite, non-negative number"
    );
}

#[test]
fn unknown_orders_are_rejected() {
    let mut request = lines_request();
    request.sort_by = "beauty".to_string();
    assert_eq!(
        c2c_top_cachelines(&three_accesses(), &request).unwrap_err(),
        "sort_by must be 'hitm', 'peer', 'samples', or 'weight'"
    );
    let mut request = sites_request();
    request.sort_by = "beauty".to_string();
    assert_eq!(
        c2c_top_access_sites(&three_accesses(), &request, &Vec::new(), &Vec::new()).unwrap_err(),
        "sort_by must be 'hitm', 'locked', 'samples', 'weight', or 'latency'"
    );
}

fn detail_request() -> C2cAccessSiteDetailRequest {
    C2cAccessSiteDetailRequest {
        path: "perf.data".to_string(),
        instruction_address: Some("0x1234".to_string()),
        site_id: None,
        pid: None,
        tid: None,
        thread_name_prefix: None,
        start_time_ms: None,
        end_time_ms: None,
        cacheline_limit: 1,
        cacheline_offset: 0,
        related_limit: 10,
    }
}

#[test]
fn pages_of_lines_follow_one_another() {
    let profile = three_accesses();
    let none: Vec<InstructionSymbol> = Vec::new();
    let first = c2c_access_site_detail(&profile, &detail_request(), &none, &Vec::new()).unwrap();
    assert_eq!(first.distinct_virtual_cachelines, 2);
    assert_eq!(first.returned_cachelines, 1);
    assert!(first.cachelines_truncated);
    assert_eq!(first.next_cacheline_offset, Some(1));
    let mut request = detail_request();
    request.cacheline_offset = 1;
    let second = c2c_access_site_detail(&profile, &request, &none, &Vec::new()).unwrap();
    assert_eq!(second.returned_cachelines, 1);
    assert!(!second.cachelines_truncated);
    assert_eq!(second.next_cacheline_offset, None);
    assert_ne!(
        first.cachelines[0].cacheline_address,
        second.cachelines[0].cacheline_address
    );
    assert_eq!(first.per_thread.len(), 2);
    assert_eq!(first.per_cpu.len(), 3);
    assert_eq!(first.offset_distribution.len(), 3);
}

#[test]
fn a_site_needs_exactly_one_name() {
    let profile = three_accesses();
    let mut request = detail_request();
    request.instruction_address = None;
    assert_eq!(
        c2c_access_site_detail(&profile, &request, &Vec::new(), &Vec::new()).unwrap_err(),
        "provide exactly one of instruction_address or site_id from c2c_top_access_sites"
    );
    request.instruction_address = Some("0x9999".to_string());
    assert_eq!(
        c2c_access_site_detail(&profile, &request, &Vec::new(), &Vec::new()).unwrap_err(),
        "no memory samples matched the requested access site and filters"
    );
    request.instruction_address = Some("not a number".to_string());
    assert_eq!(
        c2c_access_site_detail(&profile, &request, &Vec::new(), &Vec::new()).unwrap_err(),
        "invalid decimal address: invalid digit found in string"
    );
}

#[test]
fn a_line_lists_its_accesses() {
    let mut request = C2cCachelineDetailRequest {
        path: "perf.data".to_string(),
        cacheline_address: "0x1000".to_string(),
        pid: None,
        tid: None,
        thread_name_prefix: None,
        start_time_ms: None,
        end_time_ms: None,
        limit: 200,
    };
    let report =
        c2c_cacheline_detail(&three_accesses(), &request, &Vec::new(), &Vec::new()).unwrap();
    assert_eq!(report.cacheline_address, "0x1000");
    assert_eq!(report.stats.samples, 2);
    assert_eq!(report.access_sites.len(), 2);
    assert_eq!(report.access_sites[0].offset, 4);
    assert_eq!(report.access_sites[0].data_address, "0x1004");
    assert_eq!(report.access_sites[0].memory_level, "any_cache");
    assert_eq!(report.access_sites[1].offset, 12);
    request.cacheline_address = "0x1010".to_string();
    assert_eq!(
        c2c_cacheline_detail(&three_accesses(), &request, &Vec::new(), &Vec::new()).unwrap_err(),
        "cacheline_address must be 64-byte aligned; use 0x1000"
    );
    request.cacheline_address = "0x9000".to_string();
    assert_eq!(
        c2c_cacheline_detail(&three_accesses(), &request, &Vec::new(), &Vec::new()).unwrap_err(),
        "no memory samples matched cacheline 0x9000 and the requested filters"
    );
}

#[test]
fn looked_up_symbols_are_shown() {
    let mut profile = three_accesses();
    for sample in &mut profile.samples {
        sample.mapped_instruction = Some(MappedInstruction {
            path: Arc::new("/bin/app".to_string()),
            relative_address: 0x234,
            build_id: None,
        });
    }
    let symbols = vec![InstructionSymbol {
        path: "/bin/app".to_string(),
        relative_address: 0x234,
        info: Some(DwarfAddressInfo {
            symbol_name: Some("update".to_string()),
            symbol_start_address: Some(0x200),
            frames: vec![DwarfSourceFrame {
                function_name: "update".to_string(),
                file: Some("src/update.rs".to_string()),
                line: Some(12),
            }],
        }),
    }];
    let sites =
        c2c_top_access_sites(&profile, &sites_request(), &symbols, &Vec::new()).unwrap();
    assert_eq!(sites.access_sites[0].function_name.as_deref(), Some("update"));
    assert_eq!(sites.access_sites[0].file.as_deref(), Some("src/update.rs"));
    assert_eq!(sites.access_sites[0].line, Some(12));
    assert_eq!(
        sites.access_sites[0].relative_instruction_address.as_deref(),
        Some("0x234")
    );
    let unknown =
        c2c_top_access_sites(&profile, &sites_request(), &Vec::new(), &Vec::new()).unwrap();
    assert_eq!(unknown.access_sites[0].line, None);
}

#[test]
fn addresses_are_read_and_written() {
    assert_eq!(align_cacheline(0x1234, 64), 0x1200);
    assert_eq!(format_address(0x1234), "0x1234");
    assert_eq!(parse_address("0x1234").unwrap(), 0x1234);
    assert_eq!(parse_address("  0X1f ").unwrap(), 0x1f);
    assert_eq!(parse_address("4660").unwrap(), 4660);
    assert_eq!(
        parse_address("").unwrap_err(),
        "invalid decimal address: cannot parse integer from empty string"
    );
    assert_eq!(
        parse_address("0x").unwrap_err(),
        "invalid hexadecimal address: cannot parse integer from empty string"
    );
    assert_eq!(
        parse_address("0x10000000000000000").unwrap_err(),
        "invalid hexadecimal address: number too large to fit in target type"
    );
}

fn comm(tid: i32, name: &[u8]) -> PerfEvent {
    PerfEvent::Comm {
        tid,
        name: name.to_vec(),
    }
}

#[test]
fn recordings_name_threads_and_place_addresses() {
    let events = vec![
        comm(80, b"parent"),
        PerfEvent::Fork {
            pid: 42,
            ppid: 42,
            tid: 84,
            ptid: 80,
        },
        PerfEvent::Mmap2 {
            pid: 42,
            address: 0x1234_0000,
            length: 0x1_0000,
            page_offset: 0x100,
            protection: PROT_EXEC,
            build_id: Some(vec![0xab, 0x01]),
            path: b"/bin/app".to_vec(),
        },
        PerfEvent::Mmap2 {
            pid: 42,
            address: 0x2000_0000,
            length: 0x1000,
            page_offset: 0,
            protection: 0,
            build_id: None,
            path: b"/dev/zero".to_vec(),
        },
        PerfEvent::Sample {
            layout: layout(),
            exact_ip: true,
            body: sample_bytes(0x2000_0044, &[u64::MAX - 127, 0x1234_5678, 0x1234_5000]),
        },
        PerfEvent::Other,
    ];
    let recorder = record_events(&events).unwrap();
    let profile = recorder
        .finish(None, None, None, vec!["mem-loads".to_string()])
        .unwrap();
    assert_eq!(profile.samples.len(), 1);
    let sample = &profile.samples[0];
    assert_eq!(sample.thread_name.as_str(), "parent");
    let place = sample.mapped_instruction.as_ref().unwrap();
    assert_eq!(place.path.as_str(), "/bin/app");
    assert_eq!(place.relative_address, 0x5778);
    assert_eq!(place.build_id.as_ref().unwrap().as_str(), "ab01");
    let region = sample.mapped_data_address.as_ref().unwrap();
    assert_eq!(region.path.as_str(), "/dev/zero");
    assert_eq!(region.mapping_offset, 0x44);
    assert_eq!(profile.first_timestamp_ns, Some(1_000_000));
    assert_eq!(profile.samples_with_callchains, 1);
}

#[test]
fn names_that_are_not_text_are_made_readable() {
    let events = vec![
        comm(84, b"work\xffer"),
        PerfEvent::Sample {
            layout: layout(),
            exact_ip: false,
            body: sample_bytes(0x2000_0044, &[]),
        },
    ];
    let profile = record_events(&events)
        .unwrap()
        .finish(None, None, None, Vec::new())
        .unwrap();
    assert_eq!(profile.samples[0].thread_name.as_str(), "work\u{fffd}er");
    assert!(!profile.samples[0].exact_ip);
}

#[test]
fn recordings_without_accesses_are_rejected() {
    assert_eq!(
        C2cRecorder::new()
            .finish(None, None, None, Vec::new())
            .unwrap_err(),
        "perf.data contains no memory samples with data addresses"
    );
}

#[test]
fn failed_lookups_are_told() {
    let failures = vec![LookupFailure {
        path: "/bin/app".to_string(),
        error: "no such file".to_string(),
    }];
    let warnings = c2c_symbolication_warnings(&failures);
    assert_eq!(warnings.len(), 1);
    assert_eq!(warnings[0], "/bin/app: no such file");
}

#[test]
fn returned_site_ids_and_addresses_can_be_asked_for() {
    let profile = three_accesses();
    let none: Vec<InstructionSymbol> = Vec::new();
    for group_by_callchain in [false, true] {
        let mut request = sites_request();
        request.group_by_callchain = group_by_callchain;
        let sites = c2c_top_access_sites(&profile, &request, &none, &Vec::new()).unwrap();
        let mut detail = detail_request();
        detail.instruction_address = None;
        detail.site_id = Some(sites.access_sites[0].site_id.clone());
        let found = c2c_access_site_detail(&profile, &detail, &none, &Vec::new()).unwrap();
        assert_eq!(found.distinct_virtual_cachelines, 2);
    }
    for address in [0, 9, 10, 0x1234, 0xff00, u64::MAX] {
        assert_eq!(parse_address(&format_address(address)).unwrap(), address);
        assert_eq!(parse_address(&address.to_string()).unwrap(), address);
    }
}

fn record_layout(sample_format: u64) -> RecordLayout {
    RecordLayout {
        big_endian: false,
        sample_format,
        branch_sample_format: 0,
        read_format: 0,
        sample_regs_user: 0,
        user_regs_count: 0,
        sample_regs_intr: 0,
        intr_regs_count: 0,
        common_data_offset_from_end: None,
        nonsample_id_offset_from_end: None,
        sample_id_offset_from_start: None,
        nonsample_time_offset_from_end: None,
        sample_time_offset_from_start: None,
    }
}

fn words(list: &[u32]) -> Vec<u8> {
    list.iter().flat_map(|word| word.to_le_bytes()).collect()
}

fn mmap2_bytes(build_id_len: u8) -> Vec<u8> {
    let mut body = words(&[42, 84, 0x1234_0000, 0, 0x1_0000, 0, 0x100, 0]);
    body.extend_from_slice(&[build_id_len, 0, 0, 0, 0xab, 0x01]);
    body.extend_from_slice(&[0; 18]);
    body.extend_from_slice(&words(&[PROT_EXEC, 0]));
    body.extend_from_slice(b"/bin/app\0\0");
    body
}

#[test]
fn recordings_are_read_from_the_bytes_of_their_records() {
    let layout = record_layout(layout().sample_format);
    let mut recorder = C2cRecorder::new();
    let mut comm = words(&[42, 80]);
    comm.extend_from_slice(b"parent\0rest");
    let mut fork = words(&[42, 42, 84, 80]);
    fork.extend_from_slice(&1_u64.to_le_bytes());
    let mut mmap = words(&[42, 84, 0x2000_0000, 0, 0x1000, 0, 0, 0]);
    mmap.extend_from_slice(b"/dev/zero\0");
    let sample = sample_bytes(0x2000_0044, &[u64::MAX - 127, 0x1234_5678]);
    // Names, forks, executable and other regions, samples, and records of no use.
    for (record_type, misc, body) in [
        (3, 0, comm),
        (7, 0, fork),
        (10, 0x4000, mmap2_bytes(2)),
        (1, 0x2000, mmap),
        (9, 0x4000, sample.clone()),
        (9, 0, sample),
        (12, 0, vec![1, 2, 3]),
    ] {
        assert!(is_parseable(record_type, misc, &layout, &body));
        recorder.step_record(record_type, misc, &layout, &body).unwrap();
    }
    let profile = recorder.finish(None, None, None, vec![]).unwrap();
    assert_eq!(profile.samples.len(), 2);
    assert!(profile.samples[0].exact_ip);
    assert!(!profile.samples[1].exact_ip);
    let sample = &profile.samples[0];
    assert_eq!(sample.thread_name.as_str(), "parent");
    let place = sample.mapped_instruction.as_ref().unwrap();
    assert_eq!(place.path.as_str(), "/bin/app");
    assert_eq!(place.relative_address, 0x5778);
    assert_eq!(place.build_id.as_ref().unwrap().as_str(), "ab01");
    let region = sample.mapped_data_address.as_ref().unwrap();
    assert_eq!(region.path.as_str(), "/dev/zero");
    assert_eq!(region.mapping_offset, 0x44);
    assert_eq!(sample.callchain.len(), 1);
}

#[test]
fn records_without_a_memory_source_are_skipped_and_short_ones_refused() {
    let bare = record_layout(FORMAT_IP);
    let mut recorder = C2cRecorder::new();
    recorder.step_record(9, 0, &bare, &[0; 8]).unwrap();
    assert_eq!(
        recorder.step_record(9, 0, &bare, &[0; 7]),
        Err(RecordError::Unparseable("unexpected end of file".to_string()))
    );
    assert_eq!(
        recorder.step_record(3, 0, &bare, &[0; 7]),
        Err(RecordError::Unparseable("unexpected end of file".to_string()))
    );
    // The record is whole without its weight, the sample is not.
    let chains = record_layout(FORMAT_CALLCHAIN | FORMAT_DATA_SRC | FORMAT_WEIGHT_STRUCT);
    let mut body = 0_u64.to_le_bytes().to_vec();
    body.extend_from_slice(&[0; 8]);
    assert_eq!(
        recorder.step_record(9, 0, &chains, &body),
        Err(RecordError::Sample(SampleError::Truncated))
    );
    assert!(recorder.finish(None, None, None, vec![]).is_err());
}

#[test]
fn records_that_the_parser_cannot_take_are_told_apart() {
    let bare = record_layout(FORMAT_IP);
    assert!(is_parseable(10, 0x4000, &bare, &mmap2_bytes(20)));
    assert!(!is_parseable(10, 0x4000, &bare, &mmap2_bytes(21)));
    assert!(is_parseable(10, 0, &bare, &mmap2_bytes(21)));
    assert!(is_parseable(10, 0x4000, &bare, &[]));
    let chains = record_layout(FORMAT_IP | FORMAT_CALLCHAIN);
    let mut body = vec![0; 8];
    body.extend_from_slice(&u64::MAX.to_le_bytes());
    assert!(!is_parseable(9, 0, &chains, &body));
    assert!(is_parseable(9, 0, &bare, &body));
    assert!(is_parseable(3, 0, &chains, &body));
    assert!(is_parseable(9, 0, &chains, &body[..12]));
    body[8..].copy_from_slice(&3_u64.to_le_bytes());
    assert!(is_parseable(9, 0, &chains, &body));
}

#[test]
fn records_become_events() {
    let layout = RecordLayout {
        branch_sample_format: 0x20000,
        big_endian: true,
        ..record_layout(FORMAT_IP)
    };
    let event = make_event(ParsedRecord::Sample, 0x4000, &layout, &[7]);
    assert_eq!(
        event,
        PerfEvent::Sample {
            layout: SampleLayout {
                big_endian: true,
                sample_format: FORMAT_IP,
                read_format: 0,
                branch_hw_index: true,
                user_regs_count: 0,
                intr_regs_count: 0,
            },
            exact_ip: true,
            body: vec![7],
        }
    );
    assert_eq!(make_event(ParsedRecord::Other, 0, &layout, &[]), PerfEvent::Other);
    let mut comm = 42_i32.to_be_bytes().to_vec();
    comm.extend_from_slice(&84_i32.to_be_bytes());
    comm.extend_from_slice(b"worker");
    assert_eq!(
        read_event(3, 0, &layout, &comm),
        Ok(PerfEvent::Comm {
            tid: 84,
            name: b"worker".to_vec(),
        })
    );
}

#[test]
fn bad_requests_are_told_before_a_recording_is_read() {
    let mut lines = lines_request();
    assert!(lines.check_sort().is_ok());
    lines.sort_by = "age".to_string();
    assert_eq!(
        lines.check_sort().err().unwrap(),
        "sort_by must be 'hitm', 'peer', 'samples', or 'weight'"
    );
    let mut sites = sites_request();
    assert!(sites.check_sort().is_ok());
    sites.sort_by = "age".to_string();
    assert_eq!(
        sites.check_sort().err().unwrap(),
        "sort_by must be 'hitm', 'locked', 'samples', 'weight', or 'latency'"
    );
    let mut detail = detail_request();
    assert_eq!(detail.check_site(), Ok(Some(0x1234)));
    detail.instruction_address = None;
    detail.site_id = Some("site:0".to_string());
    assert_eq!(detail.check_site(), Ok(None));
    detail.site_id = None;
    assert!(detail.check_site().is_err());
}

#[test]
fn site_ids_with_callers_do_not_depend_on_paths() {
    let profile = three_accesses();
    let mut moved = profile.samples[0].clone();
    let place = |path: &str, build_id: &str| {
        Some(MappedInstruction {
            path: Arc::new(path.to_string()),
            relative_address: 0x40,
            build_id: Some(Arc::new(build_id.to_string())),
        })
    };
    let chain = |path: &str, address: u64| {
        Arc::new(vec![C2cCallchainFrame {
            instruction_address: address,
            mapped_instruction: place(path, "cd"),
        }])
    };
    moved.mapped_instruction = place("/bin/app", "ab");
    moved.callchain = chain("/lib/one.so", 0x1000);
    let mut other = moved.clone();
    other.mapped_instruction = place("/opt/app", "ab");
    other.callchain = chain("/opt/one.so", 0x9000);
    let id = |sample: &C2cSample, by_callchain: bool| {
        c2c_site_id(&C2cSiteKey::for_sample(sample, by_callchain))
    };
    assert_eq!(id(&moved, true), id(&other, true));
    assert_eq!(id(&moved, false), id(&other, false));
    other.mapped_instruction = place("/opt/app", "ff");
    assert_ne!(id(&moved, true), id(&other, true));
}
