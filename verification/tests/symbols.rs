use samply_mcp::analysis::symbols::{
    compact_function_name, function_id, is_framework_function,
};
use samply_mcp::profile::dwarf::{
    candidate_paths, check_identity, describe_raw_address, hex_bytes, inspect_object,
    load_failure_message, no_candidate_message, normalize_hex, probe_address,
    samply_relative_address_base, ObjectFile, ObjectKind, RawDwarfFrame, Segment,
};
use samply_mcp::profile::parse::{is_gzip_path, syms_sidecar_name};
use samply_mcp::profile::resolved::ResolvedLibrary;
use samply_mcp::profile::symbols::{
    normalize_debug_id, RawLibrarySymbols, RawSymbolAddressInfo, RawSymbolSidecar,
    RawSymbolSourceFrame, SymbolSidecar,
};

#[test]
fn compacts_rust_paths_inside_generics() {
    let name = "<steel_core::worldgen::generators::vanilla::VanillaGenerator<steel_worldgen::density_functions::overworld::OverworldNoises>>::new";

    assert_eq!(
        compact_function_name(name),
        "<VanillaGenerator<OverworldNoises>>::new"
    );
}

#[test]
fn compacts_trait_impls() {
    let name = "<steel_core::foo::Bar as steel_core::traits::Baz>::apply_carvers";

    assert_eq!(compact_function_name(name), "<Bar as Baz>::apply_carvers");
}

#[test]
fn function_ids_are_stable() {
    assert_eq!(function_id("foo"), function_id("foo"));
    assert_ne!(function_id("foo"), function_id("bar"));
}

#[test]
fn framework_code_is_told_apart() {
    assert!(is_framework_function("core::ops::function::FnOnce::call_once", None));
    assert!(is_framework_function("0x1234", None));
    assert!(!is_framework_function("app::main", None));
}

#[test]
fn normalizes_native_identifiers() {
    assert_eq!(normalize_hex("CA5D-70E6"), "ca5d70e6");
    assert_eq!(hex_bytes(&[0xca, 0x5d, 0x00]), "ca5d00");
}

fn frame(function: usize, file: usize, line: u32) -> RawSymbolSourceFrame {
    RawSymbolSourceFrame {
        function: Some(function),
        file: Some(file),
        line: Some(line),
    }
}

#[test]
fn resolves_source_and_reverses_inline_frames() {
    let raw = RawSymbolSidecar {
        string_table: vec![
            "outer".to_string(),
            "inner".to_string(),
            "outer.rs".to_string(),
            "inner.rs".to_string(),
            "linkage".to_string(),
        ],
        data: vec![RawLibrarySymbols {
            debug_name: "app".to_string(),
            debug_id: "AB-CD-00".to_string(),
            symbol_table: vec![RawSymbolAddressInfo {
                rva: 256,
                size: Some(32),
                symbol: 4,
                frames: Some(vec![frame(1, 3, 20), frame(0, 2, 10)]),
            }],
            known_addresses: vec![(260, 0)],
        }],
    };
    let sidecar = SymbolSidecar::from_raw(&raw);
    let info = sidecar.lookup("ABCD0", "app", 260).unwrap();

    assert_eq!(info.symbol_name, "linkage");
    assert_eq!(info.symbol_start_address, 256);
    assert_eq!(info.frames[0].function_name, "outer");
    assert_eq!(info.frames[1].function_name, "inner");
    assert_eq!(info.frames[1].line, Some(20));
    assert!(sidecar.lookup("ABCD0", "app", 261).is_none());
    assert!(sidecar.lookup("FFFF", "other", 260).is_none());
    assert!(sidecar.lookup("FFFF", "app", 260).is_some());
}

#[test]
fn debug_ids_are_compared_without_dashes_case_and_trailing_zeros() {
    assert_eq!(normalize_debug_id("AB-CD-00"), "abcd");
    assert_eq!(normalize_debug_id("ABCD0"), "abcd");
    assert_eq!(normalize_debug_id("\u{c4}0"), "\u{e4}");
}

#[test]
fn files_are_known_by_their_names() {
    assert!(is_gzip_path("profile.json.gz"));
    assert!(is_gzip_path("profile.gzip"));
    assert!(!is_gzip_path("profile.json"));
    assert_eq!(syms_sidecar_name("profile.json.gz"), "profile.json.syms.json");
    assert_eq!(syms_sidecar_name("profile.json"), "profile.json.syms.json");
}

fn library(code_id: Option<&str>) -> ResolvedLibrary {
    ResolvedLibrary {
        name: "app".to_string(),
        path: "/bin/app".to_string(),
        debug_name: "app".to_string(),
        debug_path: "/debug/app".to_string(),
        breakpad_id: String::new(),
        code_id: code_id.map(str::to_string),
    }
}

fn object(build_id: Result<Option<Vec<u8>>, String>) -> ObjectFile {
    ObjectFile {
        kind: ObjectKind::Elf,
        elf_flags: true,
        build_id,
        mach_uuid: Ok(None),
        segments: vec![Segment {
            name: None,
            address: 0x1000,
        }],
        relative_address_base: 0,
    }
}

#[test]
fn stale_binaries_are_rejected() {
    let file = object(Ok(Some(vec![0xca, 0x5d])));
    assert_eq!(check_identity(&file, &library(Some("CA-5D"))), Ok((true, 0x1000)));
    assert_eq!(check_identity(&file, &library(None)), Ok((false, 0x1000)));
    assert_eq!(
        check_identity(&file, &library(Some("0000"))),
        Err("recorded code id 0000 does not match file identity ca5d".to_string())
    );
    assert_eq!(
        check_identity(&object(Err("cut off".to_string())), &library(Some("0000"))),
        Err("failed to read ELF build id: cut off".to_string())
    );
    assert_eq!(
        check_identity(&object(Ok(None)), &library(Some("0000"))),
        Ok((false, 0x1000))
    );
}

#[test]
fn addresses_are_relative_to_the_text_segment() {
    let mut file = object(Ok(None));
    file.segments.push(Segment {
        name: Some("__TEXT".to_string()),
        address: 0x4000,
    });
    assert_eq!(samply_relative_address_base(&file), 0x4000);
    file.segments.clear();
    file.relative_address_base = 0x77;
    assert_eq!(samply_relative_address_base(&file), 0x77);
}

/// A 64-bit little-endian ELF file with one load segment at 0x5000 and a build
/// id in a note segment.
fn tiny_elf(build_id: &[u8]) -> Vec<u8> {
    let mut note: Vec<u8> = Vec::new();
    note.extend_from_slice(&4_u32.to_le_bytes());
    note.extend_from_slice(&(build_id.len() as u32).to_le_bytes());
    note.extend_from_slice(&3_u32.to_le_bytes());
    note.extend_from_slice(b"GNU\0");
    note.extend_from_slice(build_id);
    while note.len() % 4 != 0 {
        note.push(0);
    }
    let note_offset: u64 = 64 + 2 * 56;
    let mut file: Vec<u8> = vec![0x7f, b'E', b'L', b'F', 2, 1, 1, 0];
    file.extend_from_slice(&[0; 8]);
    file.extend_from_slice(&2_u16.to_le_bytes());
    file.extend_from_slice(&62_u16.to_le_bytes());
    file.extend_from_slice(&1_u32.to_le_bytes());
    file.extend_from_slice(&0_u64.to_le_bytes());
    file.extend_from_slice(&64_u64.to_le_bytes());
    file.extend_from_slice(&0_u64.to_le_bytes());
    file.extend_from_slice(&0_u32.to_le_bytes());
    file.extend_from_slice(&64_u16.to_le_bytes());
    file.extend_from_slice(&56_u16.to_le_bytes());
    file.extend_from_slice(&2_u16.to_le_bytes());
    file.extend_from_slice(&64_u16.to_le_bytes());
    file.extend_from_slice(&0_u16.to_le_bytes());
    file.extend_from_slice(&0_u16.to_le_bytes());
    for (kind, address, offset, size, align) in [
        (1_u32, 0x5000_u64, 0_u64, 64_u64, 4096_u64),
        (4_u32, 0_u64, note_offset, note.len() as u64, 4_u64),
    ] {
        file.extend_from_slice(&kind.to_le_bytes());
        file.extend_from_slice(&4_u32.to_le_bytes());
        file.extend_from_slice(&offset.to_le_bytes());
        file.extend_from_slice(&address.to_le_bytes());
        file.extend_from_slice(&address.to_le_bytes());
        file.extend_from_slice(&size.to_le_bytes());
        file.extend_from_slice(&size.to_le_bytes());
        file.extend_from_slice(&align.to_le_bytes());
    }
    file.extend_from_slice(&note);
    file
}

#[test]
fn object_files_are_inspected() {
    let bytes = tiny_elf(&[0xca, 0x5d, 0x70, 0xe6]);
    assert_eq!(
        inspect_object("/bin/app", &bytes, &library(Some("CA5D-70E6"))),
        Ok((true, 0x5000))
    );
    assert!(inspect_object("/bin/app", &bytes, &library(Some("00000000")))
        .unwrap_err()
        .contains("does not match file identity ca5d70e6"));
    assert!(inspect_object("/bin/app", b"no object", &library(None))
        .unwrap_err()
        .starts_with("failed to parse recorded library /bin/app: "));
}

/// A 64-bit little-endian Mach-O file with a `__TEXT` segment at 0x10000 and a
/// UUID.
fn tiny_macho(uuid: &[u8; 16]) -> Vec<u8> {
    let mut file: Vec<u8> = Vec::new();
    for word in [0xfeed_facf_u32, 0x0100_000c, 0, 2, 2, 72 + 24, 0, 0] {
        file.extend_from_slice(&word.to_le_bytes());
    }
    file.extend_from_slice(&0x19_u32.to_le_bytes());
    file.extend_from_slice(&72_u32.to_le_bytes());
    file.extend_from_slice(b"__TEXT\0\0\0\0\0\0\0\0\0\0");
    for number in [0x1_0000_u64, 0x1000, 0, 0] {
        file.extend_from_slice(&number.to_le_bytes());
    }
    for word in [5_u32, 5, 0, 0] {
        file.extend_from_slice(&word.to_le_bytes());
    }
    file.extend_from_slice(&0x1b_u32.to_le_bytes());
    file.extend_from_slice(&24_u32.to_le_bytes());
    file.extend_from_slice(uuid);
    file
}

#[test]
fn files_of_other_systems_are_inspected() {
    let mut uuid = [0_u8; 16];
    uuid[0] = 0xab;
    let bytes = tiny_macho(&uuid);
    assert_eq!(
        inspect_object(
            "/bin/app",
            &bytes,
            &library(Some("AB000000-0000-0000-0000-000000000000"))
        ),
        Ok((true, 0x1_0000))
    );
}

#[test]
fn probed_addresses_are_shifted() {
    assert_eq!(probe_address(0x10, 0x1000), Ok(0x1010));
    assert!(probe_address(u64::MAX, 1).is_err());
}

#[test]
fn looked_up_frames_are_described_outer_first() {
    let info = describe_raw_address(
        Some("_ZN3app4main17h0123456789abcdefE".to_string()),
        Some(0x1100),
        0x1000,
        &vec![
            RawDwarfFrame {
                function_name: None,
                language: None,
                file: Some("inner.rs".to_string()),
                line: Some(2),
            },
            RawDwarfFrame {
                function_name: Some("outer".to_string()),
                language: None,
                file: Some("outer.rs".to_string()),
                line: Some(1),
            },
        ],
    )
    .unwrap();
    assert_eq!(info.symbol_name.as_deref(), Some("app::main"));
    assert_eq!(info.symbol_start_address, Some(0x100));
    assert_eq!(info.frames[0].function_name, "outer");
    assert_eq!(info.frames[1].function_name, "<unknown inline function>");
}

#[test]
fn candidates_are_the_recorded_files() {
    assert_eq!(candidate_paths(&library(None), false), vec!["/debug/app", "/bin/app"]);
    assert_eq!(candidate_paths(&library(None), true), vec!["/debug/app"]);
    let mut bare = library(None);
    bare.debug_path = String::new();
    assert_eq!(candidate_paths(&bare, false), vec!["/bin/app"]);
    bare.path = String::new();
    assert_eq!(candidate_paths(&bare, false).len(), 0);
    assert_eq!(
        no_candidate_message(&bare),
        "profile has no binary or debug-file path for library 'app'"
    );
    assert_eq!(
        load_failure_message(&bare, &vec!["first".to_string(), "second".to_string()]),
        "could not load matching DWARF for library 'app': first; second"
    );
}

#[test]
fn names_are_demangled_in_their_language() {
    let frame = |language| RawDwarfFrame {
        function_name: Some("_ZN3app4main17h0123456789abcdefE".to_string()),
        language,
        file: None,
        line: None,
    };
    // The numbers of Rust, C and C++ in DWARF.
    let frames = vec![frame(Some(0x1c)), frame(Some(0x02)), frame(Some(0x04)), frame(None)];
    let info = describe_raw_address(None, None, 0, &frames).unwrap();
    assert_eq!(info.frames[0].function_name, "app::main");
    assert_eq!(info.frames[1].function_name, "app::main::h0123456789abcdef");
    assert_eq!(info.frames[2].function_name, "_ZN3app4main17h0123456789abcdefE");
    assert_eq!(info.frames[3].function_name, "app::main");
    assert_eq!(info.symbol_name, None);
}

#[test]
fn short_names_are_settled() {
    for name in [
        "<steel_core::foo::Bar as steel_core::traits::Baz>::apply_carvers",
        "::std::vec::Vec",
        "a:::b",
        "a::b ::",
        "::",
        "main",
        "",
        "caf\u{e9}::b::c",
    ] {
        let short = compact_function_name(name);
        assert!(short.len() <= name.len());
        assert_eq!(short.len() == name.len(), short == name);
        assert_eq!(compact_function_name(&short), short);
    }
    assert_eq!(compact_function_name("a::b ::"), "b ::::");
}
