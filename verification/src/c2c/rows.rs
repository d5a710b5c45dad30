//! The rows of reports on memory samples.
use crate::c2c::address;
use crate::c2c::classes;
use crate::c2c::classes::Condition;
use crate::c2c::filter;
use crate::c2c::filter::{ByLevel, ByOffset, ByRegion, BySource, Called, InRegion};
use crate::c2c::orders::{Hottest, HottestOffset, LevelOrder, RegionOrder, SourceOrder};
use crate::c2c::site::ByCallchain;
use crate::c2c::types;
use crate::c2c::types::{Average, C2cCallchainFrame, C2cProfile, C2cSample, C2cStats, MappedDataAddress, MappedInstruction};
use crate::profile::dwarf;
use crate::profile::dwarf::DwarfAddressInfo;
use crate::profile::symbols::SourcePoint;
use crate::text;
use crate::units;
use vstd::prelude::*;

verus! {

/// Counts over memory accesses, as reported.
#[derive(Debug, Clone, Copy, PartialEq, Eq, Structural)]
pub struct C2cCachelineStats {
    pub samples: usize,
    pub loads: usize,
    pub stores: usize,
    pub total_hitm: usize,
    pub local_hitm: usize,
    pub remote_hitm: usize,
    pub total_peer: usize,
    pub local_peer: usize,
    pub remote_peer: usize,
    pub locked: usize,
    pub exact_ip_samples: usize,
    pub non_exact_ip_samples: usize,
    pub non_unit_weight_samples: usize,
    pub average_weight: Average,
    pub instruction_latency_samples: usize,
    pub average_instruction_latency: Option<Average>,
}

/// What is left of a count.
pub open spec fn remaining(n: usize, part: usize) -> usize {
    if n >= part {
        (n - part) as usize
    } else {
        0
    }
}

/// What is left of a count.
pub(crate) fn subtract(n: usize, part: usize) -> (r: usize)
    ensures
        r == remaining(n, part),
{
    if n >= part {
        n - part
    } else {
        0
    }
}

/// Counts as they are reported.
pub open spec fn stats_row(stats: C2cStats) -> C2cCachelineStats {
    C2cCachelineStats {
        samples: stats.samples,
        loads: stats.loads,
        stores: stats.stores,
        total_hitm: stats.hitm(),
        local_hitm: stats.local_hitm,
        remote_hitm: stats.remote_hitm,
        total_peer: stats.peer(),
        local_peer: stats.local_peer,
        remote_peer: stats.remote_peer,
        locked: stats.locked,
        exact_ip_samples: stats.exact_ip_samples,
        non_exact_ip_samples: remaining(stats.samples, stats.exact_ip_samples),
        non_unit_weight_samples: stats.non_unit_weight_samples,
        average_weight: Average { sum: stats.weight_sum, count: stats.samples },
        instruction_latency_samples: stats.instruction_latency_samples,
        average_instruction_latency: stats.latency(),
    }
}

/// Counts as they are reported.
pub fn c2c_stats_result(stats: &C2cStats) -> (r: C2cCachelineStats)
    ensures
        r == stats_row(*stats),
{
    C2cCachelineStats {
        samples: stats.samples,
        loads: stats.loads,
        stores: stats.stores,
        total_hitm: stats.total_hitm(),
        local_hitm: stats.local_hitm,
        remote_hitm: stats.remote_hitm,
        total_peer: stats.total_peer(),
        local_peer: stats.local_peer,
        remote_peer: stats.remote_peer,
        locked: stats.locked,
        exact_ip_samples: stats.exact_ip_samples,
        non_exact_ip_samples: subtract(stats.samples, stats.exact_ip_samples),
        non_unit_weight_samples: stats.non_unit_weight_samples,
        average_weight: stats.average_weight(),
        instruction_latency_samples: stats.instruction_latency_samples,
        average_instruction_latency: stats.average_instruction_latency(),
    }
}

/// The samples of a memory level.
#[derive(Debug)]
pub struct C2cMemoryLevelRow {
    pub memory_level: String,
    pub stats: C2cCachelineStats,
}

/// The classes of samples by memory level, as they are reported.
pub open spec fn level_classes(s: Seq<C2cSample>) -> Seq<Seq<C2cSample>> {
    classes::ordered(LevelOrder, classes::classes(ByLevel, s))
}

/// Whether rows report samples by memory level.
pub open spec fn level_rows(rows: Seq<C2cMemoryLevelRow>, s: Seq<C2cSample>) -> bool {
    rows.len() == level_classes(s).len() && forall|i: int|
        0 <= i < rows.len() ==> (#[trigger] rows[i]).memory_level@
            == level_classes(s)[i][0].data_source.level_text() && rows[i].stats == stats_row(
            types::stats_of(level_classes(s)[i]),
        )
}

/// The samples by memory level, levels with more samples first.
pub fn c2c_memory_level_rows(members: &Vec<&C2cSample>) -> (r: Vec<C2cMemoryLevelRow>)
    ensures
        level_rows(r@, classes::samples_at(members@)),
{
    let by = ByLevel;
    let sorted = classes::order_classes(&LevelOrder, classes::classify(&by, members));
    let ghost all = classes::classes_at(sorted@);
    let mut rows: Vec<C2cMemoryLevelRow> = Vec::new();
    let mut i: usize = 0;
    while i < sorted.len()
        invariant
            i <= sorted@.len(),
            all == classes::classes_at(sorted@),
            forall|k: int| 0 <= k < sorted@.len() ==> (#[trigger] sorted@[k])@.len() > 0,
            rows@.len() == i,
            forall|k: int|
                0 <= k < i ==> (#[trigger] rows@[k]).memory_level@
                    == all[k][0].data_source.level_text() && rows@[k].stats == stats_row(
                    types::stats_of(all[k]),
                ),
        decreases sorted@.len() - i,
    {
        assert(sorted@[i as int]@.len() > 0);
        let stats = classes::tally(&sorted[i]);
        rows.push(
            C2cMemoryLevelRow {
                memory_level: sorted[i][0].data_source.level().to_string(),
                stats: c2c_stats_result(&stats),
            },
        );
        i += 1;
    }
    rows
}

/// The samples with a data source.
#[derive(Debug)]
pub struct C2cRawDataSourceRow {
    /// The unmodified data source value.
    pub raw_data_source: String,
    pub operation: String,
    pub memory_level: String,
    pub stats: C2cCachelineStats,
}

/// The classes of samples by data source, as they are reported.
pub open spec fn source_classes(s: Seq<C2cSample>) -> Seq<Seq<C2cSample>> {
    classes::ordered(SourceOrder, classes::classes(BySource, s))
}

/// Whether a row reports samples with one data source.
pub open spec fn source_row(row: C2cRawDataSourceRow, class: Seq<C2cSample>) -> bool {
    let source = class[0].data_source;
    &&& row.raw_data_source@ == text::hex_text(source.raw as int)
    &&& row.operation@ == crate::c2c::data_source::operation_name(source.raw)
    &&& row.memory_level@ == source.level_text()
    &&& row.stats == stats_row(types::stats_of(class))
}

/// Whether rows report samples by data source.
pub open spec fn source_rows(rows: Seq<C2cRawDataSourceRow>, s: Seq<C2cSample>) -> bool {
    rows.len() == source_classes(s).len() && forall|i: int|
        0 <= i < rows.len() ==> source_row(#[trigger] rows[i], source_classes(s)[i])
}

/// The samples by data source, sources with more samples first.
pub fn c2c_raw_data_source_rows(members: &Vec<&C2cSample>) -> (r: Vec<C2cRawDataSourceRow>)
    ensures
        source_rows(r@, classes::samples_at(members@)),
{
    let by = BySource;
    let sorted = classes::order_classes(&SourceOrder, classes::classify(&by, members));
    let ghost all = classes::classes_at(sorted@);
    let mut rows: Vec<C2cRawDataSourceRow> = Vec::new();
    let mut i: usize = 0;
    while i < sorted.len()
        invariant
            i <= sorted@.len(),
            all == classes::classes_at(sorted@),
            forall|k: int| 0 <= k < sorted@.len() ==> (#[trigger] sorted@[k])@.len() > 0,
            rows@.len() == i,
            forall|k: int| 0 <= k < i ==> source_row(#[trigger] rows@[k], all[k]),
        decreases sorted@.len() - i,
    {
        assert(sorted@[i as int]@.len() > 0);
        let stats = classes::tally(&sorted[i]);
        let source = sorted[i][0].data_source;
        rows.push(
            C2cRawDataSourceRow {
                raw_data_source: address::format_address(source.raw),
                operation: source.operation().to_string(),
                memory_level: source.level().to_string(),
                stats: c2c_stats_result(&stats),
            },
        );
        i += 1;
    }
    rows
}

/// The samples in a recorded region.
#[derive(Debug)]
pub struct C2cDataMappingRow {
    pub path: String,
    pub mapping_start: String,
    pub mapping_end: String,
    pub page_offset: String,
    pub build_id: Option<String>,
    pub stats: C2cCachelineStats,
}

/// The classes of samples by recorded region, as they are reported.
pub open spec fn region_classes(s: Seq<C2cSample>) -> Seq<Seq<C2cSample>> {
    classes::ordered(RegionOrder, classes::classes(ByRegion, classes::chosen(InRegion, s)))
}

/// Whether a row reports samples in one recorded region.
pub open spec fn region_row(row: C2cDataMappingRow, class: Seq<C2cSample>) -> bool {
    match filter::region_of(class[0].mapped_data_address) {
        Some(m) => {
            &&& row.path@ == m.path
            &&& row.mapping_start@ == text::hex_text(m.mapping_start as int)
            &&& row.mapping_end@ == text::hex_text(m.mapping_end as int)
            &&& row.page_offset@ == text::hex_text(m.page_offset as int)
            &&& text::opt(row.build_id) == m.build_id
            &&& row.stats == stats_row(types::stats_of(class))
        },
        None => false,
    }
}

/// Whether rows report samples by recorded region.
pub open spec fn region_rows(rows: Seq<C2cDataMappingRow>, s: Seq<C2cSample>) -> bool {
    rows.len() == region_classes(s).len() && forall|i: int|
        0 <= i < rows.len() ==> region_row(#[trigger] rows[i], region_classes(s)[i])
}

/// A copy of a shared text.
pub(crate) fn copy_shared(s: &Option<std::sync::Arc<String>>) -> (r: Option<String>)
    ensures
        text::opt(r) == types::opt_shared(*s),
{
    match s {
        Some(s) => {
            let s: &String = s;
            Some(s.clone())
        },
        None => None,
    }
}

/// The samples by recorded region, regions with more samples first.
pub fn c2c_data_mapping_rows(members: &Vec<&C2cSample>) -> (r: Vec<C2cDataMappingRow>)
    ensures
        region_rows(r@, classes::samples_at(members@)),
{
    let by = ByRegion;
    let mapped = classes::pick(&InRegion, members);
    let unsorted = classes::classify(&by, &mapped);
    let ghost before = unsorted@;
    let sorted = classes::order_classes(&RegionOrder, unsorted);
    let ghost all = classes::classes_at(sorted@);
    proof {
        assert forall|k: int| 0 <= k < sorted@.len() implies (#[trigger] sorted@[k])@.len() > 0
            && (*sorted@[k]@[0]).mapped_data_address is Some by {
            assert(before.contains(sorted@[k]));
            let q = choose|q: int| 0 <= q < before.len() && before[q] == sorted@[k];
            assert(mapped@.contains(before[q]@[0]));
            let m = choose|m: int| 0 <= m < mapped@.len() && mapped@[m] == before[q]@[0];
            assert(InRegion.holds(*mapped@[m]));
        }
    }
    let mut rows: Vec<C2cDataMappingRow> = Vec::new();
    let mut i: usize = 0;
    while i < sorted.len()
        invariant
            i <= sorted@.len(),
            all == classes::classes_at(sorted@),
            forall|k: int|
                0 <= k < sorted@.len() ==> (#[trigger] sorted@[k])@.len() > 0
                    && (*sorted@[k]@[0]).mapped_data_address is Some,
            rows@.len() == i,
            forall|k: int| 0 <= k < i ==> region_row(#[trigger] rows@[k], all[k]),
        decreases sorted@.len() - i,
    {
        assert(sorted@[i as int]@.len() > 0);
        let stats = classes::tally(&sorted[i]);
        match &sorted[i][0].mapped_data_address {
            Some(m) => {
                let path: &String = &m.path;
                rows.push(
                    C2cDataMappingRow {
                        path: path.clone(),
                        mapping_start: address::format_address(m.mapping_start),
                        mapping_end: address::format_address(m.mapping_end),
                        page_offset: address::format_address(m.page_offset),
                        build_id: copy_shared(&m.build_id),
                        stats: c2c_stats_result(&stats),
                    },
                );
            },
            None => {},
        }
        i += 1;
    }
    rows
}

/// A data address in its recorded region, as text.
#[derive(Debug)]
pub struct C2cMappedDataAddress {
    pub path: String,
    pub mapping_start: String,
    pub mapping_end: String,
    pub page_offset: String,
    pub mapping_offset: String,
    pub file_offset: String,
    pub build_id: Option<String>,
}

/// Whether a text form describes a data address.
pub open spec fn describes_data(r: C2cMappedDataAddress, m: types::DataFacts) -> bool {
    &&& r.path@ == m.path
    &&& r.mapping_start@ == text::hex_text(m.mapping_start as int)
    &&& r.mapping_end@ == text::hex_text(m.mapping_end as int)
    &&& r.page_offset@ == text::hex_text(m.page_offset as int)
    &&& r.mapping_offset@ == text::hex_text(m.mapping_offset as int)
    &&& r.file_offset@ == text::hex_text(m.file_offset as int)
    &&& text::opt(r.build_id) == m.build_id
}

/// A data address in its recorded region, as text.
pub fn c2c_mapped_data_address(mapped: &MappedDataAddress) -> (r: C2cMappedDataAddress)
    ensures
        describes_data(r, mapped.facts()),
{
    let path: &String = &mapped.path;
    C2cMappedDataAddress {
        path: path.clone(),
        mapping_start: address::format_address(mapped.mapping_start),
        mapping_end: address::format_address(mapped.mapping_end),
        page_offset: address::format_address(mapped.page_offset),
        mapping_offset: address::format_address(mapped.mapping_offset),
        file_offset: address::format_address(mapped.file_offset),
        build_id: copy_shared(&mapped.build_id),
    }
}

/// The samples at an offset of a cache line.
#[derive(Debug)]
pub struct C2cOffsetRow {
    pub offset: u64,
    pub stats: C2cCachelineStats,
}

/// The classes of samples by offset, as they are reported.
pub open spec fn offset_classes(s: Seq<C2cSample>, size: u64) -> Seq<Seq<C2cSample>> {
    classes::ordered((HottestOffset { size }), classes::classes((ByOffset { size }), s))
}

/// Whether a row reports samples at one offset.
pub open spec fn offset_row(row: C2cOffsetRow, class: Seq<C2cSample>, size: u64) -> bool {
    row.offset == filter::offset_in(class[0].data_address, size) && row.stats == stats_row(
        types::stats_of(class),
    )
}

/// Whether rows report samples by offset.
pub open spec fn offset_rows(rows: Seq<C2cOffsetRow>, s: Seq<C2cSample>, size: u64) -> bool {
    rows.len() == offset_classes(s, size).len() && forall|i: int|
        0 <= i < rows.len() ==> offset_row(#[trigger] rows[i], offset_classes(s, size)[i], size)
}

/// The samples by offset in their cache lines, the hottest first.
pub(crate) fn make_offset_rows(members: &Vec<&C2cSample>, size: u64) -> (r: Vec<C2cOffsetRow>)
    ensures
        offset_rows(r@, classes::samples_at(members@), size),
{
    let by = ByOffset { size };
    let order = HottestOffset { size };
    let sorted = classes::order_classes(&order, classes::classify(&by, members));
    let ghost all = classes::classes_at(sorted@);
    let mut rows: Vec<C2cOffsetRow> = Vec::new();
    let mut i: usize = 0;
    while i < sorted.len()
        invariant
            i <= sorted@.len(),
            all == classes::classes_at(sorted@),
            forall|k: int| 0 <= k < sorted@.len() ==> (#[trigger] sorted@[k])@.len() > 0,
            rows@.len() == i,
            forall|k: int| 0 <= k < i ==> offset_row(#[trigger] rows@[k], all[k], size),
        decreases sorted@.len() - i,
    {
        assert(sorted@[i as int]@.len() > 0);
        let stats = classes::tally(&sorted[i]);
        rows.push(
            C2cOffsetRow {
                offset: filter::line_offset(sorted[i][0].data_address, size),
                stats: c2c_stats_result(&stats),
            },
        );
        i += 1;
    }
    rows
}

/// What is known of an instruction whose file was looked up.
#[derive(Debug)]
pub struct InstructionSymbol {
    pub path: String,
    pub relative_address: u64,
    pub info: Option<DwarfAddressInfo>,
}

/// A function in which an instruction was inlined.
#[derive(Debug)]
pub struct C2cInlineFrame {
    pub function_name: String,
    pub file: Option<String>,
    pub line: Option<u32>,
}

impl C2cInlineFrame {
    /// What the frame says.
    pub open spec fn point(self) -> SourcePoint {
        SourcePoint {
            function_name: self.function_name@,
            file: text::opt(self.file),
            line: self.line,
        }
    }
}

/// What inline frames say.
pub open spec fn inline_points(s: Seq<C2cInlineFrame>) -> Seq<SourcePoint> {
    Seq::new(s.len(), |i: int| s[i].point())
}

/// The source of an instruction.
#[derive(Debug)]
pub struct ResolvedC2cInstruction {
    pub function_name: Option<String>,
    pub file: Option<String>,
    pub line: Option<u32>,
    pub inline_frames: Vec<C2cInlineFrame>,
}

/// The source of an instruction, as mathematics.
#[verifier::ext_equal]
pub struct SourceFacts {
    pub function_name: Option<Seq<char>>,
    pub file: Option<Seq<char>>,
    pub line: Option<u32>,
    pub inline_frames: Seq<SourcePoint>,
}

impl ResolvedC2cInstruction {
    /// What the source is.
    pub open spec fn facts(self) -> SourceFacts {
        SourceFacts {
            function_name: text::opt(self.function_name),
            file: text::opt(self.file),
            line: self.line,
            inline_frames: inline_points(self.inline_frames@),
        }
    }
}

/// The source of an instruction of which nothing is known.
pub open spec fn no_source() -> SourceFacts {
    SourceFacts { function_name: None, file: None, line: None, inline_frames: Seq::empty() }
}

/// The source that debug data gives: that of the deepest frame, or else the symbol.
pub open spec fn source_in(info: DwarfAddressInfo) -> SourceFacts {
    let frames = dwarf::points(info.frames@);
    SourceFacts {
        function_name: if frames.len() > 0 {
            Some(frames.last().function_name)
        } else {
            text::opt(info.symbol_name)
        },
        file: if frames.len() > 0 {
            frames.last().file
        } else {
            None
        },
        line: if frames.len() > 0 {
            frames.last().line
        } else {
            None
        },
        inline_frames: frames,
    }
}

/// What looking up an instruction gave, looking at the lookups from `from` on.
pub open spec fn lookup(
    symbols: Seq<InstructionSymbol>,
    path: Seq<char>,
    relative_address: u64,
    from: int,
) -> SourceFacts
    decreases symbols.len() - from,
{
    if from < 0 || from >= symbols.len() {
        no_source()
    } else if symbols[from].relative_address == relative_address && symbols[from].path@ == path {
        match symbols[from].info {
            Some(info) => source_in(info),
            None => no_source(),
        }
    } else {
        lookup(symbols, path, relative_address, from + 1)
    }
}

/// The source of an instruction.
pub open spec fn source_of(
    mapped: Option<types::InstructionFacts>,
    symbols: Seq<InstructionSymbol>,
) -> SourceFacts {
    match mapped {
        Some(m) => lookup(symbols, m.path, m.relative_address, 0),
        None => no_source(),
    }
}

/// Nothing is known of an instruction.
fn unresolved() -> (r: ResolvedC2cInstruction)
    ensures
        r.facts() == no_source(),
{
    let r = ResolvedC2cInstruction {
        function_name: None,
        file: None,
        line: None,
        inline_frames: Vec::new(),
    };
    assert(r.facts() =~= no_source());
    r
}

/// The source that debug data gives.
fn describe_source(info: &DwarfAddressInfo) -> (r: ResolvedC2cInstruction)
    ensures
        r.facts() == source_in(*info),
{
    let mut inline_frames: Vec<C2cInlineFrame> = Vec::new();
    let mut i: usize = 0;
    while i < info.frames.len()
        invariant
            i <= info.frames@.len(),
            inline_frames@.len() == i,
            forall|k: int|
                0 <= k < i ==> (#[trigger] inline_frames@[k]).point() == info.frames@[k].point(),
        decreases info.frames@.len() - i,
    {
        let frame = &info.frames[i];
        inline_frames.push(
            C2cInlineFrame {
                function_name: frame.function_name.clone(),
                file: text::opt_clone(&frame.file),
                line: frame.line,
            },
        );
        i += 1;
    }
    assert(inline_points(inline_frames@) =~= dwarf::points(info.frames@));
    let count: usize = info.frames.len();
    if count > 0 {
        let deepest = &info.frames[count - 1];
        ResolvedC2cInstruction {
            function_name: Some(deepest.function_name.clone()),
            file: text::opt_clone(&deepest.file),
            line: deepest.line,
            inline_frames,
        }
    } else {
        ResolvedC2cInstruction {
            function_name: text::opt_clone(&info.symbol_name),
            file: None,
            line: None,
            inline_frames,
        }
    }
}

/// The source of an instruction, by what was looked up.
pub fn resolve_c2c_instruction(
    mapped: &Option<MappedInstruction>,
    symbols: &Vec<InstructionSymbol>,
) -> (r: ResolvedC2cInstruction)
    ensures
        r.facts() == source_of(types::opt_instruction(*mapped), symbols@),
{
    let m = match mapped {
        Some(m) => m,
        None => {
            return unresolved();
        },
    };
    let mut i: usize = 0;
    while i < symbols.len()
        invariant
            i <= symbols@.len(),
            types::opt_instruction(*mapped) == Some(m.facts()),
            lookup(symbols@, m.path@, m.relative_address, 0) == lookup(
                symbols@,
                m.path@,
                m.relative_address,
                i as int,
            ),
        decreases symbols@.len() - i,
    {
        if symbols[i].relative_address == m.relative_address && text::text_eq(
            symbols[i].path.as_str(),
            m.path.as_str(),
        ) {
            return match &symbols[i].info {
                Some(info) => describe_source(info),
                None => unresolved(),
            };
        }
        i += 1;
    }
    unresolved()
}

/// A caller with its source.
#[derive(Debug)]
pub struct C2cResolvedCallchainFrame {
    pub instruction_address: String,
    pub relative_instruction_address: Option<String>,
    pub function_name: Option<String>,
    pub dso: Option<String>,
    pub file: Option<String>,
    pub line: Option<u32>,
    pub inline_frames: Vec<C2cInlineFrame>,
    /// The place that the source is looked up for.
    pub mapped_instruction: Option<MappedInstruction>,
}

/// Whether fields tell the source of an instruction.
pub open spec fn tells_source(
    function_name: Option<String>,
    file: Option<String>,
    line: Option<u32>,
    inline_frames: Seq<C2cInlineFrame>,
    source: SourceFacts,
) -> bool {
    &&& text::opt(function_name) == source.function_name
    &&& text::opt(file) == source.file
    &&& line == source.line
    &&& inline_points(inline_frames) == source.inline_frames
}

/// The relative address of an instruction as text, if its place is known.
pub open spec fn relative_text(mapped: Option<types::InstructionFacts>) -> Option<Seq<char>> {
    match mapped {
        Some(m) => Some(text::hex_text(m.relative_address as int)),
        None => None,
    }
}

/// The file of an instruction, if its place is known.
pub open spec fn dso_of(mapped: Option<types::InstructionFacts>) -> Option<Seq<char>> {
    match mapped {
        Some(m) => Some(m.path),
        None => None,
    }
}

/// The relative address of an instruction as text, if its place is known.
pub(crate) fn format_relative(mapped: &Option<MappedInstruction>) -> (r: Option<String>)
    ensures
        text::opt(r) == relative_text(types::opt_instruction(*mapped)),
{
    match mapped {
        Some(m) => Some(address::format_address(m.relative_address)),
        None => None,
    }
}

/// The file of an instruction, if its place is known.
pub(crate) fn copy_dso(mapped: &Option<MappedInstruction>) -> (r: Option<String>)
    ensures
        text::opt(r) == dso_of(types::opt_instruction(*mapped)),
{
    match mapped {
        Some(m) => {
            let path: &String = &m.path;
            Some(path.clone())
        },
        None => None,
    }
}

/// Whether a row reports a caller.
pub open spec fn caller_row(
    row: C2cResolvedCallchainFrame,
    frame: types::CallerFacts,
    symbols: Seq<InstructionSymbol>,
) -> bool {
    &&& row.instruction_address@ == text::hex_text(frame.instruction_address as int)
    &&& text::opt(row.relative_instruction_address) == relative_text(frame.mapped)
    &&& text::opt(row.dso) == dso_of(frame.mapped)
    &&& tells_source(
        row.function_name,
        row.file,
        row.line,
        row.inline_frames@,
        source_of(frame.mapped, symbols),
    )
    &&& types::opt_instruction(row.mapped_instruction) == frame.mapped
}

/// Whether rows report a callchain.
pub open spec fn caller_rows(
    rows: Seq<C2cResolvedCallchainFrame>,
    chain: Seq<types::CallerFacts>,
    symbols: Seq<InstructionSymbol>,
) -> bool {
    rows.len() == chain.len() && forall|i: int|
        0 <= i < rows.len() ==> caller_row(#[trigger] rows[i], chain[i], symbols)
}

/// A callchain with the sources of its callers.
pub fn resolve_c2c_callchain(
    frames: &Vec<C2cCallchainFrame>,
    symbols: &Vec<InstructionSymbol>,
) -> (r: Vec<C2cResolvedCallchainFrame>)
    ensures
        caller_rows(r@, types::callers(frames@), symbols@),
{
    let mut rows: Vec<C2cResolvedCallchainFrame> = Vec::new();
    let mut i: usize = 0;
    while i < frames.len()
        invariant
            i <= frames@.len(),
            rows@.len() == i,
            forall|k: int|
                0 <= k < i ==> caller_row(
                    #[trigger] rows@[k],
                    types::callers(frames@)[k],
                    symbols@,
                ),
        decreases frames@.len() - i,
    {
        let mapped = &frames[i].mapped_instruction;
        let source = resolve_c2c_instruction(mapped, symbols);
        rows.push(
            C2cResolvedCallchainFrame {
                instruction_address: address::format_address(frames[i].instruction_address),
                relative_instruction_address: format_relative(mapped),
                function_name: source.function_name,
                dso: copy_dso(mapped),
                file: source.file,
                line: source.line,
                inline_frames: source.inline_frames,
                mapped_instruction: types::share_instruction(mapped),
            },
        );
        i += 1;
    }
    rows
}

/// The samples with a callchain.
#[derive(Debug)]
pub struct C2cCallchainRow {
    pub samples: usize,
    pub total_hitm: usize,
    pub locked: usize,
    pub frames: Vec<C2cResolvedCallchainFrame>,
}

/// The first classes, at most `limit` of them and never more than a thousand.
pub open spec fn limited(classes: Seq<Seq<C2cSample>>, limit: usize) -> Seq<Seq<C2cSample>> {
    let most = if limit <= 1_000 {
        limit as int
    } else {
        1_000
    };
    if classes.len() <= most {
        classes
    } else {
        classes.take(most)
    }
}

/// Drops all but the first classes.
pub(crate) fn limit_classes(classes: &mut Vec<Vec<&C2cSample>>, limit: usize)
    ensures
        classes::classes_at(final(classes)@) == limited(classes::classes_at(old(classes)@), limit),
        final(classes)@.len() <= old(classes)@.len(),
        forall|i: int| 0 <= i < final(classes)@.len() ==> #[trigger] final(classes)@[i] == old(classes)@[i],
{
    let ghost before = classes@;
    let most: usize = if limit <= 1_000 {
        limit
    } else {
        1_000
    };
    if classes.len() > most {
        classes.truncate(most);
        assert(classes::classes_at(classes@) =~= classes::classes_at(before).take(most as int));
    }
}

/// The classes of samples by callchain, as they are reported.
pub open spec fn callchain_classes(s: Seq<C2cSample>, limit: usize) -> Seq<Seq<C2cSample>> {
    limited(
        classes::ordered(Hottest, classes::classes(ByCallchain, classes::chosen(Called, s))),
        limit,
    )
}

/// Whether a row reports samples with one callchain.
pub open spec fn callchain_row(
    row: C2cCallchainRow,
    class: Seq<C2cSample>,
    symbols: Seq<InstructionSymbol>,
) -> bool {
    let stats = types::stats_of(class);
    &&& row.samples == stats.samples
    &&& row.total_hitm == stats.hitm()
    &&& row.locked == stats.locked
    &&& caller_rows(row.frames@, types::callers(class[0].callchain@), symbols)
}

/// Whether rows report samples by callchain.
pub open spec fn callchain_rows(
    rows: Seq<C2cCallchainRow>,
    s: Seq<C2cSample>,
    limit: usize,
    symbols: Seq<InstructionSymbol>,
) -> bool {
    rows.len() == callchain_classes(s, limit).len() && forall|i: int|
        0 <= i < rows.len() ==> callchain_row(
            #[trigger] rows[i],
            callchain_classes(s, limit)[i],
            symbols,
        )
}

/// The samples by callchain, the hottest first.
pub fn render_c2c_callchains(
    members: &Vec<&C2cSample>,
    limit: usize,
    symbols: &Vec<InstructionSymbol>,
) -> (r: Vec<C2cCallchainRow>)
    ensures
        callchain_rows(r@, classes::samples_at(members@), limit, symbols@),
{
    let by = ByCallchain;
    let called = classes::pick(&Called, members);
    let mut sorted = classes::order_classes(&Hottest, classes::classify(&by, &called));
    limit_classes(&mut sorted, limit);
    let ghost all = classes::classes_at(sorted@);
    let mut rows: Vec<C2cCallchainRow> = Vec::new();
    let mut i: usize = 0;
    while i < sorted.len()
        invariant
            i <= sorted@.len(),
            all == classes::classes_at(sorted@),
            forall|k: int| 0 <= k < sorted@.len() ==> (#[trigger] sorted@[k])@.len() > 0,
            rows@.len() == i,
            forall|k: int| 0 <= k < i ==> callchain_row(#[trigger] rows@[k], all[k], symbols@),
        decreases sorted@.len() - i,
    {
        assert(sorted@[i as int]@.len() > 0);
        let stats = classes::tally(&sorted[i]);
        let frames = resolve_c2c_callchain(&sorted[i][0].callchain, symbols);
        rows.push(
            C2cCallchainRow {
                samples: stats.samples,
                total_hitm: stats.total_hitm(),
                locked: stats.locked,
                frames,
            },
        );
        i += 1;
    }
    rows
}

/// Addresses as text.
pub open spec fn address_texts(s: Seq<u64>) -> Seq<Seq<char>> {
    Seq::new(s.len(), |i: int| text::hex_text(s[i] as int))
}

/// Addresses as text.
pub(crate) fn format_addresses(addresses: &Vec<u64>) -> (r: Vec<String>)
    ensures
        text::views(r@) == address_texts(addresses@),
{
    let mut r: Vec<String> = Vec::new();
    let mut i: usize = 0;
    while i < addresses.len()
        invariant
            i <= addresses@.len(),
            r@.len() == i,
            forall|k: int|
                0 <= k < i ==> (#[trigger] r@[k])@ == text::hex_text(addresses@[k] as int),
        decreases addresses@.len() - i,
    {
        r.push(address::format_address(addresses[i]));
        i += 1;
    }
    assert(text::views(r@) =~= address_texts(addresses@));
    r
}

/// Lookups that failed, one per file.
#[derive(Debug)]
pub struct LookupFailure {
    pub path: String,
    pub error: String,
}

/// The text of a failed lookup.
pub open spec fn failure_text(f: LookupFailure) -> Seq<char> {
    f.path@ + ": "@ + f.error@
}

/// What failed lookups say.
pub open spec fn failure_texts(s: Seq<LookupFailure>) -> Seq<Seq<char>> {
    Seq::new(s.len(), |i: int| failure_text(s[i]))
}

/// The order of texts by their bytes.
pub open spec fn by_text() -> spec_fn(Seq<char>) -> Seq<i128> {
    |s: Seq<char>| crate::rank::textual(s)
}

/// Failed lookups as warnings, in the order of their texts.
pub fn c2c_symbolication_warnings(failures: &Vec<LookupFailure>) -> (r: Vec<String>)
    ensures
        text::views(r@) == crate::rank::ranked(failure_texts(failures@), by_text()),
{
    let mut warnings: Vec<String> = Vec::new();
    let mut keys: Vec<Vec<i128>> = Vec::new();
    let ghost rows = failure_texts(failures@);
    let mut i: usize = 0;
    while i < failures.len()
        invariant
            i <= failures@.len(),
            rows == failure_texts(failures@),
            warnings@.len() == i,
            keys@.len() == i,
            forall|k: int| 0 <= k < i ==> (#[trigger] warnings@[k])@ == rows[k],
            forall|k: int| 0 <= k < i ==> (#[trigger] keys@[k])@ == by_text()(rows[k]),
        decreases failures@.len() - i,
    {
        let mut warning = failures[i].path.clone();
        text::push_text(&mut warning, ": ");
        text::push_text(&mut warning, failures[i].error.as_str());
        let mut key: Vec<i128> = Vec::new();
        crate::rank::push_textual(&mut key, warning.as_str());
        assert(key@ =~= by_text()(rows[i as int]));
        warnings.push(warning);
        keys.push(key);
        i += 1;
    }
    let ghost all = warnings@;
    let ghost ks = crate::rank::key_views(keys@);
    let sorted = crate::rank::arrange(warnings, &keys);
    proof {
        assert(ks =~= crate::rank::keys_of(rows, by_text()));
        let f = |s: String| s@;
        crate::rank::lemma_arranged_map(all, ks, f);
        assert(text::views(sorted@) =~= Seq::new(
            all.len(),
            |p: int| f(crate::rank::arranged(all, ks)[p]),
        ));
        assert(rows =~= Seq::new(all.len(), |p: int| f(all[p])));
    }
    sorted
}

/// Rejects an order by latency where no matching sample has one.
pub fn validate_c2c_latency_sort(
    sort_by: &str,
    matched_memory_samples: usize,
    stats: &C2cStats,
) -> (r: Result<(), String>)
    ensures
        match r {
            Ok(_) => latency_error(sort_by@, matched_memory_samples, *stats) is None,
            Err(e) => latency_error(sort_by@, matched_memory_samples, *stats) == Some(e@),
        },
{
    if text::text_eq(sort_by, "latency") && stats.instruction_latency_samples == 0 {
        let mut error = "cannot sort by latency: none of the ".to_string();
        text::push_decimal(&mut error, matched_memory_samples as u128);
        text::push_text(
            &mut error,
            " memory samples matched by the requested filters contains instruction-latency data",
        );
        return Err(error);
    }
    Ok(())
}

/// Why samples cannot be ordered by latency, if so.
pub open spec fn latency_error(sort_by: Seq<char>, matched: usize, stats: C2cStats) -> Option<
    Seq<char>,
> {
    if sort_by == "latency"@ && stats.instruction_latency_samples == 0 {
        Some(
            "cannot sort by latency: none of the "@ + text::decimal(matched as int)
                + " memory samples matched by the requested filters contains instruction-latency data"@,
        )
    } else {
        None
    }
}

/// A profile in short.
#[derive(Debug)]
pub struct C2cProfileSummary {
    pub arch: Option<String>,
    pub cpu_description: Option<String>,
    pub perf_version: Option<String>,
    pub event_names: Vec<String>,
    pub cacheline_size: u64,
    /// The time between the first and the last sample.
    pub duration_ms: u64,
    /// All sample records, those of events without a data source too.
    pub total_sample_records: usize,
    /// Sample records with a data source, those without a data address too.
    pub total_memory_samples: usize,
    /// Memory samples with a data address.
    pub usable_memory_samples: usize,
    /// Instructions are those that perf sampled, without adjustment.
    pub instruction_ip_policy: String,
    /// Counts over all usable memory samples, before filters.
    pub global_stats: C2cCachelineStats,
    /// All usable memory samples by memory level.
    pub global_memory_levels: Vec<C2cMemoryLevelRow>,
    pub samples_with_callchains: usize,
    pub matched_memory_samples: usize,
    pub skipped_non_memory_samples: usize,
    pub missing_data_address_samples: usize,
    pub missing_physical_address_samples: usize,
    pub warnings: Vec<String>,
}

/// A warning, if a condition holds.
pub open spec fn warning_if(condition: bool, warning: Seq<char>) -> Seq<Seq<char>> {
    if condition {
        seq![warning]
    } else {
        Seq::empty()
    }
}

/// The number of sample records with a data source.
pub open spec fn memory_records(p: C2cProfile) -> usize {
    units::capped_count(p.samples@.len() + p.missing_data_address_samples)
}

/// The warnings about a profile.
pub open spec fn warnings_of(p: C2cProfile) -> Seq<Seq<char>> {
    let stats = types::stats_of(p.samples@);
    let inexact = remaining(stats.samples, stats.exact_ip_samples);
    warning_if(
        p.missing_data_address_samples > 0,
        text::decimal(p.missing_data_address_samples as int) + " of "@ + text::decimal(
            memory_records(p) as int,
        ) + " memory sample records had no data address and were excluded; "@ + text::decimal(
            p.samples@.len() as int,
        ) + " usable memory samples remain"@,
    ) + warning_if(
        p.missing_physical_address_samples > 0,
        text::decimal(p.missing_physical_address_samples as int)
            + " memory samples had no physical address; physical cacheline reporting may be incomplete"@,
    ) + warning_if(
        stats.instruction_latency_samples == 0,
        "no usable memory sample contains instruction-latency data; latency averages are unavailable and latency sorting is rejected"@,
    ) + warning_if(
        stats.non_unit_weight_samples == 0,
        "all usable memory samples have weight 1; weight totals do not estimate latency or wall time"@,
    ) + warning_if(
        inexact > 0,
        text::decimal(inexact as int)
            + " usable memory samples lack PERF_RECORD_MISC_EXACT_IP; instruction attribution uses the unmodified sampled IP and may have skid"@,
    ) + seq![
        "cacheline size is currently assumed to be "@ + text::decimal(p.cacheline_size as int)
            + " bytes"@,
    ]
}

/// The time between the first and the last sample of a profile.
pub open spec fn span_of(p: C2cProfile) -> u64 {
    match (p.first_timestamp_ns, p.last_timestamp_ns) {
        (Some(first), Some(last)) => if last >= first {
            (last - first) as u64
        } else {
            0
        },
        _ => 0,
    }
}

/// Whether a summary is that of a profile.
pub open spec fn summarizes(r: C2cProfileSummary, p: C2cProfile, matched: usize) -> bool {
    &&& text::opt(r.arch) == text::opt(p.arch)
    &&& text::opt(r.cpu_description) == text::opt(p.cpu_description)
    &&& text::opt(r.perf_version) == text::opt(p.perf_version)
    &&& text::views(r.event_names@) == text::views(p.event_names@)
    &&& r.cacheline_size == p.cacheline_size
    &&& r.duration_ms == span_of(p)
    &&& r.total_sample_records == units::capped_count(memory_records(p) + p.skipped_samples)
    &&& r.total_memory_samples == memory_records(p)
    &&& r.usable_memory_samples == p.samples@.len()
    &&& r.instruction_ip_policy@ == "raw_perf_sample_ip_no_adjustment"@
    &&& r.global_stats == stats_row(types::stats_of(p.samples@))
    &&& level_rows(r.global_memory_levels@, p.samples@)
    &&& r.samples_with_callchains == p.samples_with_callchains
    &&& r.matched_memory_samples == matched
    &&& r.skipped_non_memory_samples == p.skipped_samples
    &&& r.missing_data_address_samples == p.missing_data_address_samples
    &&& r.missing_physical_address_samples == p.missing_physical_address_samples
    &&& text::views(r.warnings@) == warnings_of(p)
}

/// Appends a warning, if a condition holds.
fn warn_if(warnings: &mut Vec<String>, condition: bool, warning: String)
    ensures
        text::views(final(warnings)@) == text::views(old(warnings)@) + warning_if(
            condition,
            warning@,
        ),
{
    if condition {
        warnings.push(warning);
    }
    assert(text::views(warnings@) =~= text::views(old(warnings)@) + warning_if(
        condition,
        warning@,
    ));
}

/// A number with text behind it.
fn numbered(n: usize, rest: &str) -> (r: String)
    ensures
        r@ == text::decimal(n as int) + rest@,
{
    let mut s = text::decimal_text(n as u128);
    text::push_text(&mut s, rest);
    s
}

/// The warnings about a profile.
fn profile_warnings(profile: &C2cProfile, stats: &C2cStats) -> (r: Vec<String>)
    requires
        *stats == types::stats_of(profile.samples@),
    ensures
        text::views(r@) == warnings_of(*profile),
{
    let mut warnings: Vec<String> = Vec::new();
    let records: usize = units::capped_count_add(
        profile.samples.len(),
        profile.missing_data_address_samples,
    );
    let mut missing = numbered(profile.missing_data_address_samples, " of ");
    text::push_decimal(&mut missing, records as u128);
    text::push_text(
        &mut missing,
        " memory sample records had no data address and were excluded; ",
    );
    text::push_decimal(&mut missing, profile.samples.len() as u128);
    text::push_text(&mut missing, " usable memory samples remain");
    warn_if(&mut warnings, profile.missing_data_address_samples > 0, missing);
    warn_if(
        &mut warnings,
        profile.missing_physical_address_samples > 0,
        numbered(
            profile.missing_physical_address_samples,
            " memory samples had no physical address; physical cacheline reporting may be incomplete",
        ),
    );
    warn_if(
        &mut warnings,
        stats.instruction_latency_samples == 0,
        "no usable memory sample contains instruction-latency data; latency averages are unavailable and latency sorting is rejected".to_string(),
    );
    warn_if(
        &mut warnings,
        stats.non_unit_weight_samples == 0,
        "all usable memory samples have weight 1; weight totals do not estimate latency or wall time".to_string(),
    );
    let inexact: usize = subtract(stats.samples, stats.exact_ip_samples);
    warn_if(
        &mut warnings,
        inexact > 0,
        numbered(
            inexact,
            " usable memory samples lack PERF_RECORD_MISC_EXACT_IP; instruction attribution uses the unmodified sampled IP and may have skid",
        ),
    );
    let mut size = "cacheline size is currently assumed to be ".to_string();
    text::push_decimal(&mut size, profile.cacheline_size as u128);
    text::push_text(&mut size, " bytes");
    warn_if(&mut warnings, true, size);
    assert(text::views(warnings@) =~= warnings_of(*profile));
    warnings
}

/// A copy of a list of texts.
pub(crate) fn copy_texts(texts: &Vec<String>) -> (r: Vec<String>)
    ensures
        text::views(r@) == text::views(texts@),
{
    let mut r: Vec<String> = Vec::new();
    let mut i: usize = 0;
    while i < texts.len()
        invariant
            i <= texts@.len(),
            r@.len() == i,
            forall|k: int| 0 <= k < i ==> (#[trigger] r@[k])@ == texts@[k]@,
        decreases texts@.len() - i,
    {
        r.push(texts[i].clone());
        i += 1;
    }
    assert(text::views(r@) =~= text::views(texts@));
    r
}

/// A profile in short.
pub fn c2c_profile_summary(profile: &C2cProfile, matched_memory_samples: usize) -> (r:
    C2cProfileSummary)
    ensures
        summarizes(r, *profile, matched_memory_samples),
{
    let all = classes::refer(&profile.samples);
    let stats = classes::tally(&all);
    let records: usize = units::capped_count_add(
        profile.samples.len(),
        profile.missing_data_address_samples,
    );
    let duration_ms: u64 = match (profile.first_timestamp_ns, profile.last_timestamp_ns) {
        (Some(first), Some(last)) => if last >= first {
            last - first
        } else {
            0
        },
        _ => 0,
    };
    C2cProfileSummary {
        arch: text::opt_clone(&profile.arch),
        cpu_description: text::opt_clone(&profile.cpu_description),
        perf_version: text::opt_clone(&profile.perf_version),
        event_names: copy_texts(&profile.event_names),
        cacheline_size: profile.cacheline_size,
        duration_ms,
        total_sample_records: units::capped_count_add(records, profile.skipped_samples),
        total_memory_samples: records,
        usable_memory_samples: profile.samples.len(),
        instruction_ip_policy: "raw_perf_sample_ip_no_adjustment".to_string(),
        global_stats: c2c_stats_result(&stats),
        global_memory_levels: c2c_memory_level_rows(&all),
        samples_with_callchains: profile.samples_with_callchains,
        matched_memory_samples,
        skipped_non_memory_samples: profile.skipped_samples,
        missing_data_address_samples: profile.missing_data_address_samples,
        missing_physical_address_samples: profile.missing_physical_address_samples,
        warnings: profile_warnings(profile, &stats),
    }
}

}
