//! Reports on one access site or one cache line.
use crate::c2c::address;
use crate::c2c::classes;
use crate::c2c::classes::{Condition, Cpu, PhysicalLine, Pid, ThreadName, Tid, VirtualLine};
use crate::c2c::data_source;
use crate::c2c::filter;
use crate::c2c::filter::{ByAccess, ByCpu, ByProcessLine, ByThread, C2cFilter, LineSet, OnLine, Related, Selected};
use crate::c2c::orders::{AccessOrder, Hottest, HottestCpu, HottestLine};
use crate::c2c::rows;
use crate::c2c::rows::{C2cCachelineStats, C2cCallchainRow, C2cDataMappingRow, C2cInlineFrame, C2cMappedDataAddress, C2cOffsetRow, C2cProfileSummary, C2cRawDataSourceRow, InstructionSymbol, LookupFailure};
use crate::c2c::site;
use crate::c2c::site::BySite;
use crate::c2c::tools;
use crate::c2c::types;
use crate::c2c::types::{Average, C2cProfile, C2cSample, MappedInstruction};
use crate::sets;
use crate::text;
use crate::units::TimeValue;
use vstd::prelude::*;

verus! {

/// A request for one access site.
#[derive(Debug)]
pub struct C2cAccessSiteDetailRequest {
    pub path: String,
    pub instruction_address: Option<String>,
    pub site_id: Option<String>,
    pub pid: Option<i32>,
    pub tid: Option<i32>,
    pub thread_name_prefix: Option<String>,
    pub start_time_ms: Option<TimeValue>,
    pub end_time_ms: Option<TimeValue>,
    pub cacheline_limit: usize,
    pub cacheline_offset: usize,
    pub related_limit: usize,
}

/// A cache line that an access site touches.
#[derive(Debug)]
pub struct C2cAccessedCachelineRow {
    pub pid: i32,
    pub cacheline_address: String,
    pub physical_cacheline_addresses: Vec<String>,
    /// The recorded regions of the accessed addresses.
    pub data_mappings: Vec<C2cDataMappingRow>,
    pub stats: C2cCachelineStats,
    pub offsets: Vec<C2cOffsetRow>,
}

/// Another instruction that touches the same cache lines.
#[derive(Debug)]
pub struct C2cRelatedAccessSiteRow {
    pub site_id: String,
    pub instruction_address: String,
    pub relative_instruction_address: Option<String>,
    pub function_name: Option<String>,
    pub dso: Option<String>,
    pub file: Option<String>,
    pub line: Option<u32>,
    pub inline_frames: Vec<C2cInlineFrame>,
    pub stats: C2cCachelineStats,
    pub shared_cachelines: usize,
    pub cpus: Vec<u32>,
    pub pids: Vec<i32>,
    pub tids: Vec<i32>,
    pub thread_names: Vec<String>,
    /// The place that the source is looked up for.
    pub mapped_instruction: Option<MappedInstruction>,
}

/// The accesses of a thread.
#[derive(Debug)]
pub struct C2cThreadBreakdownRow {
    pub pid: i32,
    pub tid: i32,
    pub thread_name: String,
    pub stats: C2cCachelineStats,
    pub distinct_virtual_cachelines: usize,
    pub cpus: Vec<u32>,
}

/// The accesses of a CPU.
#[derive(Debug)]
pub struct C2cCpuBreakdownRow {
    pub cpu: u32,
    pub stats: C2cCachelineStats,
    pub distinct_virtual_cachelines: usize,
    pub tids: Vec<i32>,
    pub thread_names: Vec<String>,
}

/// One access site.
#[derive(Debug)]
pub struct C2cAccessSiteDetailResult {
    pub profile: C2cProfileSummary,
    pub site_id: String,
    pub instruction_address: String,
    pub instruction_addresses: Vec<String>,
    /// The unmodified sampled addresses.
    pub raw_sampled_ips: Vec<String>,
    pub raw_data_sources: Vec<C2cRawDataSourceRow>,
    pub relative_instruction_address: Option<String>,
    pub function_name: Option<String>,
    pub dso: Option<String>,
    pub file: Option<String>,
    pub line: Option<u32>,
    pub inline_frames: Vec<C2cInlineFrame>,
    pub stats: C2cCachelineStats,
    pub distinct_virtual_cachelines: usize,
    pub distinct_physical_cachelines: usize,
    pub cacheline_offset: usize,
    pub returned_cachelines: usize,
    pub cachelines_truncated: bool,
    pub next_cacheline_offset: Option<usize>,
    pub cachelines: Vec<C2cAccessedCachelineRow>,
    pub offset_distribution: Vec<C2cOffsetRow>,
    pub related_access_sites: Vec<C2cRelatedAccessSiteRow>,
    pub per_thread: Vec<C2cThreadBreakdownRow>,
    pub per_cpu: Vec<C2cCpuBreakdownRow>,
    pub callchains: Vec<C2cCallchainRow>,
    pub symbolication_warnings: Vec<String>,
    /// The place that the source is looked up for.
    pub mapped_instruction: Option<MappedInstruction>,
}

/// The most cache lines that one report lists.
pub const MAX_LINES: usize = 10_000;

/// Where a page of a list starts.
pub open spec fn page_start(total: nat, offset: usize) -> int {
    if offset <= total {
        offset as int
    } else {
        total as int
    }
}

/// Where a page of a list ends.
pub open spec fn page_end(total: nat, offset: usize, limit: usize) -> int {
    let start = page_start(total, offset);
    let most = if limit <= MAX_LINES {
        limit as int
    } else {
        MAX_LINES as int
    };
    if start + most <= total {
        start + most
    } else {
        total as int
    }
}

/// Where the next page of a list starts, if one is left.
pub open spec fn next_page(total: nat, offset: usize, limit: usize) -> Option<usize> {
    let end = page_end(total, offset, limit);
    if end < total {
        Some(end as usize)
    } else {
        None
    }
}

/// Pages follow each other without gap or overlap: where a page is not the
/// last, the next one starts where it ends, and a page with room moves on.
pub proof fn law_pages_follow(total: nat, offset: usize, limit: usize)
    requires
        total <= usize::MAX,
        offset < total,
        limit > 0,
    ensures
        page_start(total, offset) == offset,
        offset < page_end(total, offset, limit) <= total,
        match next_page(total, offset, limit) {
            Some(next) => page_start(total, next) == page_end(total, offset, limit),
            None => page_end(total, offset, limit) == total,
        },
{
}

/// The cache lines that samples touch, the hottest first.
pub open spec fn touched_lines(s: Seq<C2cSample>, size: u64) -> Seq<Seq<C2cSample>> {
    classes::ordered((HottestLine { size }), classes::classes((ByProcessLine { size }), s))
}

/// Whether a row reports a cache line that samples touch.
pub open spec fn line_row(row: C2cAccessedCachelineRow, class: Seq<C2cSample>, size: u64) -> bool {
    &&& row.pid == class[0].pid
    &&& row.cacheline_address@ == text::hex_text(
        address::aligned(class[0].data_address, size) as int,
    )
    &&& text::views(row.physical_cacheline_addresses@) == rows::address_texts(
        classes::gathered((PhysicalLine { size }), class),
    )
    &&& rows::region_rows(row.data_mappings@, class)
    &&& row.stats == rows::stats_row(types::stats_of(class))
    &&& rows::offset_rows(row.offsets@, class, size)
}

/// Reports a cache line that samples touch.
fn make_line_row(class: &Vec<&C2cSample>, size: u64) -> (r: C2cAccessedCachelineRow)
    requires
        class@.len() > 0,
    ensures
        line_row(r, classes::samples_at(class@), size),
{
    let stats = classes::tally(class);
    C2cAccessedCachelineRow {
        pid: class[0].pid,
        cacheline_address: address::format_address(address::line_of(class[0].data_address, size)),
        physical_cacheline_addresses: tools::physical_lines(class, size),
        data_mappings: rows::c2c_data_mapping_rows(class),
        stats: rows::c2c_stats_result(&stats),
        offsets: rows::make_offset_rows(class, size),
    }
}

/// The samples on some cache lines that are not those of the site itself.
pub open spec fn related_in(
    s: Seq<C2cSample>,
    lines: Seq<(i32, u64)>,
    size: u64,
    instruction_address: Option<u64>,
    id: Option<Seq<char>>,
) -> Seq<C2cSample>
    decreases s.len(),
{
    if s.len() == 0 {
        Seq::empty()
    } else {
        let before = related_in(s.drop_last(), lines, size, instruction_address, id);
        let x = s.last();
        if lines.contains((x.pid, address::aligned(x.data_address, size))) && site::selected(
            x,
            instruction_address,
            id,
        ) is None {
            before.push(x)
        } else {
            before
        }
    }
}

proof fn lemma_related(c: Related, s: Seq<C2cSample>)
    ensures
        classes::chosen(c, s) == related_in(
            s,
            c.lines@,
            c.size,
            c.selected.instruction_address,
            text::opt(*c.selected.site_id),
        ),
    decreases s.len(),
{
    if s.len() > 0 {
        lemma_related(c, s.drop_last());
    }
}

/// The other instructions on some cache lines, as they are reported.
pub open spec fn related_classes(s: Seq<C2cSample>, limit: usize) -> Seq<Seq<C2cSample>> {
    rows::limited(
        classes::ordered(Hottest, classes::classes((BySite { by_callchain: false }), s)),
        limit,
    )
}

/// Whether a row reports another instruction.
pub open spec fn related_row(
    row: C2cRelatedAccessSiteRow,
    class: Seq<C2cSample>,
    size: u64,
    symbols: Seq<InstructionSymbol>,
) -> bool {
    let mapped = types::opt_instruction(class[0].mapped_instruction);
    &&& row.site_id@ == site::site_id(site::site_of(class[0], false))
    &&& row.instruction_address@ == tools::site_address(class)
    &&& text::opt(row.relative_instruction_address) == rows::relative_text(mapped)
    &&& text::opt(row.dso) == rows::dso_of(mapped)
    &&& rows::tells_source(
        row.function_name,
        row.file,
        row.line,
        row.inline_frames@,
        rows::source_of(mapped, symbols),
    )
    &&& row.stats == rows::stats_row(types::stats_of(class))
    &&& row.shared_cachelines == classes::gathered((VirtualLine { size }), class).len()
    &&& tools::tells_origin(row.cpus@, row.pids@, row.tids@, row.thread_names@, class)
    &&& types::opt_instruction(row.mapped_instruction) == mapped
}

/// Whether rows report other instructions.
pub open spec fn related_rows(
    list: Seq<C2cRelatedAccessSiteRow>,
    s: Seq<C2cSample>,
    size: u64,
    limit: usize,
    symbols: Seq<InstructionSymbol>,
) -> bool {
    list.len() == related_classes(s, limit).len() && forall|i: int|
        0 <= i < list.len() ==> related_row(
            #[trigger] list[i],
            related_classes(s, limit)[i],
            size,
            symbols,
        )
}

/// Reports other instructions.
fn make_related_rows(
    members: &Vec<&C2cSample>,
    size: u64,
    limit: usize,
    symbols: &Vec<InstructionSymbol>,
) -> (r: Vec<C2cRelatedAccessSiteRow>)
    ensures
        related_rows(r@, classes::samples_at(members@), size, limit, symbols@),
{
    let by = BySite { by_callchain: false };
    let mut sorted = classes::order_classes(&Hottest, classes::classify(&by, members));
    rows::limit_classes(&mut sorted, limit);
    let ghost all = classes::classes_at(sorted@);
    let mut list: Vec<C2cRelatedAccessSiteRow> = Vec::new();
    let mut i: usize = 0;
    while i < sorted.len()
        invariant
            i <= sorted@.len(),
            all == classes::classes_at(sorted@),
            forall|k: int| 0 <= k < sorted@.len() ==> (#[trigger] sorted@[k])@.len() > 0,
            list@.len() == i,
            forall|k: int| 0 <= k < i ==> related_row(#[trigger] list@[k], all[k], size, symbols@),
        decreases sorted@.len() - i,
    {
        assert(sorted@[i as int]@.len() > 0);
        let class = &sorted[i];
        let stats = classes::tally(class);
        let mapped = &class[0].mapped_instruction;
        let source = rows::resolve_c2c_instruction(mapped, symbols);
        let (instruction_address, _) = tools::site_addresses(class);
        let lines = classes::gather(&VirtualLine { size }, class);
        assert(sets::models(lines@).len() == lines@.len());
        list.push(
            C2cRelatedAccessSiteRow {
                site_id: site::sample_site_id(class[0], false),
                instruction_address,
                relative_instruction_address: rows::format_relative(mapped),
                function_name: source.function_name,
                dso: rows::copy_dso(mapped),
                file: source.file,
                line: source.line,
                inline_frames: source.inline_frames,
                stats: rows::c2c_stats_result(&stats),
                shared_cachelines: lines.len(),
                cpus: classes::gather(&Cpu, class),
                pids: classes::gather(&Pid, class),
                tids: classes::gather(&Tid, class),
                thread_names: classes::gather(&ThreadName, class),
                mapped_instruction: types::share_instruction(mapped),
            },
        );
        i += 1;
    }
    list
}

/// The threads of samples, as they are reported.
pub open spec fn thread_classes(s: Seq<C2cSample>, limit: usize) -> Seq<Seq<C2cSample>> {
    rows::limited(classes::ordered(Hottest, classes::classes(ByThread, s)), limit)
}

/// Whether a row reports the samples of a thread.
pub open spec fn thread_row(row: C2cThreadBreakdownRow, class: Seq<C2cSample>, size: u64) -> bool {
    &&& row.pid == class[0].pid
    &&& row.tid == class[0].tid
    &&& row.thread_name@ == class[0].thread_name@
    &&& row.stats == rows::stats_row(types::stats_of(class))
    &&& row.distinct_virtual_cachelines == classes::gathered((VirtualLine { size }), class).len()
    &&& sets::models(row.cpus@) == classes::gathered(Cpu, class)
}

/// Whether rows report samples by thread.
pub open spec fn thread_rows(
    list: Seq<C2cThreadBreakdownRow>,
    s: Seq<C2cSample>,
    size: u64,
    limit: usize,
) -> bool {
    list.len() == thread_classes(s, limit).len() && forall|i: int|
        0 <= i < list.len() ==> thread_row(#[trigger] list[i], thread_classes(s, limit)[i], size)
}

/// Reports samples by thread.
fn make_thread_rows(members: &Vec<&C2cSample>, size: u64, limit: usize) -> (r: Vec<
    C2cThreadBreakdownRow,
>)
    ensures
        thread_rows(r@, classes::samples_at(members@), size, limit),
{
    let by = ByThread;
    let mut sorted = classes::order_classes(&Hottest, classes::classify(&by, members));
    rows::limit_classes(&mut sorted, limit);
    let ghost all = classes::classes_at(sorted@);
    let mut list: Vec<C2cThreadBreakdownRow> = Vec::new();
    let mut i: usize = 0;
    while i < sorted.len()
        invariant
            i <= sorted@.len(),
            all == classes::classes_at(sorted@),
            forall|k: int| 0 <= k < sorted@.len() ==> (#[trigger] sorted@[k])@.len() > 0,
            list@.len() == i,
            forall|k: int| 0 <= k < i ==> thread_row(#[trigger] list@[k], all[k], size),
        decreases sorted@.len() - i,
    {
        assert(sorted@[i as int]@.len() > 0);
        let class = &sorted[i];
        let stats = classes::tally(class);
        let lines = classes::gather(&VirtualLine { size }, class);
        assert(sets::models(lines@).len() == lines@.len());
        let name: &String = &class[0].thread_name;
        list.push(
            C2cThreadBreakdownRow {
                pid: class[0].pid,
                tid: class[0].tid,
                thread_name: name.clone(),
                stats: rows::c2c_stats_result(&stats),
                distinct_virtual_cachelines: lines.len(),
                cpus: classes::gather(&Cpu, class),
            },
        );
        i += 1;
    }
    list
}

/// The CPUs of samples, as they are reported.
pub open spec fn cpu_classes(s: Seq<C2cSample>, limit: usize) -> Seq<Seq<C2cSample>> {
    rows::limited(classes::ordered(HottestCpu, classes::classes(ByCpu, s)), limit)
}

/// Whether a row reports the samples of a CPU.
pub open spec fn cpu_row(row: C2cCpuBreakdownRow, class: Seq<C2cSample>, size: u64) -> bool {
    &&& row.cpu == class[0].cpu
    &&& row.stats == rows::stats_row(types::stats_of(class))
    &&& row.distinct_virtual_cachelines == classes::gathered((VirtualLine { size }), class).len()
    &&& sets::models(row.tids@) == classes::gathered(Tid, class)
    &&& sets::models(row.thread_names@) == classes::gathered(ThreadName, class)
}

/// Whether rows report samples by CPU.
pub open spec fn cpu_rows(
    list: Seq<C2cCpuBreakdownRow>,
    s: Seq<C2cSample>,
    size: u64,
    limit: usize,
) -> bool {
    list.len() == cpu_classes(s, limit).len() && forall|i: int|
        0 <= i < list.len() ==> cpu_row(#[trigger] list[i], cpu_classes(s, limit)[i], size)
}

/// Reports samples by CPU.
fn make_cpu_rows(members: &Vec<&C2cSample>, size: u64, limit: usize) -> (r: Vec<C2cCpuBreakdownRow>)
    ensures
        cpu_rows(r@, classes::samples_at(members@), size, limit),
{
    let by = ByCpu;
    let mut sorted = classes::order_classes(&HottestCpu, classes::classify(&by, members));
    rows::limit_classes(&mut sorted, limit);
    let ghost all = classes::classes_at(sorted@);
    let mut list: Vec<C2cCpuBreakdownRow> = Vec::new();
    let mut i: usize = 0;
    while i < sorted.len()
        invariant
            i <= sorted@.len(),
            all == classes::classes_at(sorted@),
            forall|k: int| 0 <= k < sorted@.len() ==> (#[trigger] sorted@[k])@.len() > 0,
            list@.len() == i,
            forall|k: int| 0 <= k < i ==> cpu_row(#[trigger] list@[k], all[k], size),
        decreases sorted@.len() - i,
    {
        assert(sorted@[i as int]@.len() > 0);
        let class = &sorted[i];
        let stats = classes::tally(class);
        let lines = classes::gather(&VirtualLine { size }, class);
        assert(sets::models(lines@).len() == lines@.len());
        list.push(
            C2cCpuBreakdownRow {
                cpu: class[0].cpu,
                stats: rows::c2c_stats_result(&stats),
                distinct_virtual_cachelines: lines.len(),
                tids: classes::gather(&Tid, class),
                thread_names: classes::gather(&ThreadName, class),
            },
        );
        i += 1;
    }
    list
}

/// The address that a request names, if it does, or why it names none.
pub open spec fn requested_address(value: Option<Seq<char>>) -> Result<Option<u64>, Seq<char>> {
    match value {
        Some(value) => match address::address_in(value) {
            Ok(n) => Ok(Some(n)),
            Err(e) => Err(e),
        },
        None => Ok(None),
    }
}

impl C2cAccessSiteDetailRequest {
    /// The samples that the request looks at.
    pub open spec fn filter(&self) -> C2cFilter<'_> {
        C2cFilter {
            pid: self.pid,
            tid: self.tid,
            thread_name_prefix: &self.thread_name_prefix,
            start_time_ms: self.start_time_ms,
            end_time_ms: self.end_time_ms,
        }
    }

    /// The address that the request names, if it does.
    pub open spec fn address(&self) -> Option<u64> {
        requested_address(text::opt(self.instruction_address))->Ok_0
    }

    /// The samples of the site that the request names.
    pub open spec fn members(&self, p: C2cProfile) -> Seq<C2cSample> {
        classes::chosen(
            (Selected { instruction_address: self.address(), site_id: &self.site_id }),
            tools::matched(p, self.filter()),
        )
    }

    /// Why the request names no site, if so.
    pub open spec fn site_error(&self) -> Option<Seq<char>> {
        if self.instruction_address is Some == self.site_id is Some {
            Some("provide exactly one of instruction_address or site_id from c2c_top_access_sites"@)
        } else {
            match requested_address(text::opt(self.instruction_address)) {
                Err(e) => Some(e),
                Ok(_) => None,
            }
        }
    }

    /// Why the request cannot be answered, if so.
    pub open spec fn error(&self, p: C2cProfile) -> Option<Seq<char>> {
        match self.site_error() {
            Some(e) => Some(e),
            None => match filter::filter_error(self.start_time_ms, self.end_time_ms) {
                Some(e) => Some(e),
                None => if self.members(p).len() == 0 {
                    Some("no memory samples matched the requested access site and filters"@)
                } else {
                    None
                },
            },
        }
    }

    /// The address that the request names, if it does, or why it names no site.
    /// This can be told before the recording is read.
    pub fn check_site(&self) -> (r: Result<Option<u64>, String>)
        ensures
            match r {
                Ok(address) => self.site_error() is None && address == self.address(),
                Err(e) => self.site_error() == Some(e@),
            },
    {
        if self.instruction_address.is_some() == self.site_id.is_some() {
            return Err(
                "provide exactly one of instruction_address or site_id from c2c_top_access_sites".to_string(),
            );
        }
        match &self.instruction_address {
            Some(value) => match address::parse_address(value.as_str()) {
                Ok(n) => Ok(Some(n)),
                Err(e) => Err(e),
            },
            None => Ok(None),
        }
    }
}

/// Whether a report answers a request for one access site.
pub open spec fn answers_site_detail(
    r: C2cAccessSiteDetailResult,
    p: C2cProfile,
    req: C2cAccessSiteDetailRequest,
    symbols: Seq<InstructionSymbol>,
    failures: Seq<LookupFailure>,
) -> bool {
    let size = p.cacheline_size;
    let s = req.members(p);
    let stats = types::stats_of(s);
    let mapped = types::opt_instruction(s[0].mapped_instruction);
    let lines = touched_lines(s, size);
    let start = page_start(lines.len(), req.cacheline_offset);
    let end = page_end(lines.len(), req.cacheline_offset, req.cacheline_limit);
    &&& rows::summarizes(r.profile, p, stats.samples)
    &&& Some(r.site_id@) == match site::selected(s[0], req.address(), text::opt(req.site_id)) {
        Some(key) => Some(site::site_id(key)),
        None => None,
    }
    &&& r.instruction_address@ == tools::site_address(s)
    &&& text::views(r.instruction_addresses@) == rows::address_texts(
        classes::gathered(classes::InstructionAddress, s),
    )
    &&& text::views(r.raw_sampled_ips@) == text::views(r.instruction_addresses@)
    &&& rows::source_rows(r.raw_data_sources@, s)
    &&& text::opt(r.relative_instruction_address) == rows::relative_text(mapped)
    &&& text::opt(r.dso) == rows::dso_of(mapped)
    &&& rows::tells_source(
        r.function_name,
        r.file,
        r.line,
        r.inline_frames@,
        rows::source_of(mapped, symbols),
    )
    &&& r.stats == rows::stats_row(stats)
    &&& r.distinct_virtual_cachelines == lines.len()
    &&& r.distinct_physical_cachelines == classes::gathered((PhysicalLine { size }), s).len()
    &&& r.cacheline_offset == start
    &&& r.returned_cachelines == end - start
    &&& r.next_cacheline_offset == next_page(lines.len(), req.cacheline_offset, req.cacheline_limit)
    &&& r.cachelines_truncated == (r.next_cacheline_offset is Some)
    &&& r.cachelines@.len() == end - start
    &&& forall|i: int|
        0 <= i < end - start ==> line_row(#[trigger] r.cachelines@[i], lines[start + i], size)
    &&& rows::offset_rows(r.offset_distribution@, s, size)
    &&& related_rows(
        r.related_access_sites@,
        related_in(
            tools::matched(p, req.filter()),
            classes::gathered((VirtualLine { size }), s),
            size,
            req.address(),
            text::opt(req.site_id),
        ),
        size,
        req.related_limit,
        symbols,
    )
    &&& thread_rows(r.per_thread@, s, size, req.related_limit)
    &&& cpu_rows(r.per_cpu@, s, size, req.related_limit)
    &&& rows::callchain_rows(r.callchains@, s, req.related_limit, symbols)
    &&& tools::warns(r.symbolication_warnings@, failures)
    &&& types::opt_instruction(r.mapped_instruction) == mapped
}

/// Reports a page of cache lines.
fn make_page(lines: &Vec<Vec<&C2cSample>>, start: usize, end: usize, size: u64) -> (r: Vec<
    C2cAccessedCachelineRow,
>)
    requires
        start <= end <= lines@.len(),
        forall|k: int| 0 <= k < lines@.len() ==> (#[trigger] lines@[k])@.len() > 0,
    ensures
        r@.len() == end - start,
        forall|i: int|
            0 <= i < end - start ==> line_row(
                #[trigger] r@[i],
                classes::classes_at(lines@)[start + i],
                size,
            ),
{
    let ghost all = classes::classes_at(lines@);
    let mut list: Vec<C2cAccessedCachelineRow> = Vec::new();
    let mut i: usize = start;
    while i < end
        invariant
            start <= i <= end <= lines@.len(),
            all == classes::classes_at(lines@),
            forall|k: int| 0 <= k < lines@.len() ==> (#[trigger] lines@[k])@.len() > 0,
            list@.len() == i - start,
            forall|k: int|
                0 <= k < i - start ==> line_row(#[trigger] list@[k], all[start + k], size),
        decreases end - i,
    {
        assert(lines@[i as int]@.len() > 0);
        list.push(make_line_row(&lines[i], size));
        i += 1;
    }
    list
}

/// One access site of a recording, selected by address or identifier. Sources
/// are those of the given lookups.
pub fn c2c_access_site_detail(
    profile: &C2cProfile,
    req: &C2cAccessSiteDetailRequest,
    symbols: &Vec<InstructionSymbol>,
    failures: &Vec<LookupFailure>,
) -> (r: Result<C2cAccessSiteDetailResult, String>)
    requires
        profile.cacheline_size > 0,
    ensures
        match r {
            Ok(report) => req.error(*profile) is None && answers_site_detail(
                report,
                *profile,
                *req,
                symbols@,
                failures@,
            ),
            Err(e) => req.error(*profile) == Some(e@),
        },
{
    let wanted: Option<u64> = match req.check_site() {
        Ok(wanted) => wanted,
        Err(e) => {
            return Err(e);
        },
    };
    let f = C2cFilter {
        pid: req.pid,
        tid: req.tid,
        thread_name_prefix: &req.thread_name_prefix,
        start_time_ms: req.start_time_ms,
        end_time_ms: req.end_time_ms,
    };
    match f.validate() {
        Ok(_) => {},
        Err(e) => {
            return Err(e);
        },
    }
    let size: u64 = profile.cacheline_size;
    let all = tools::match_samples(profile, &f);
    let selected = Selected { instruction_address: wanted, site_id: &req.site_id };
    let members = classes::pick(&selected, &all);
    let ghost s = classes::samples_at(members@);
    assert(s == req.members(*profile));
    assert(s.len() == members@.len());
    if members.len() == 0 {
        return Err("no memory samples matched the requested access site and filters".to_string());
    }
    let stats = classes::tally(&members);
    let first: &C2cSample = members[0];
    assert(s[0] == *first);
    let mapped = &first.mapped_instruction;
    let source = rows::resolve_c2c_instruction(mapped, symbols);
    let site_id = match site::answers(first, wanted, filter::borrowed(&req.site_id)) {
        Some(by_callchain) => site::sample_site_id(first, by_callchain),
        None => {
            assert(selected.holds(*members@[0]));
            String::new()
        },
    };
    let touched = classes::gather(&VirtualLine { size }, &members);
    proof {
        classes::law_gathered_once_each((VirtualLine { size }), s);
        assert(sets::models(touched@) =~= touched@);
    }
    let line_set = LineSet::new(touched);
    let related_condition = Related { selected: &selected, size, lines: &line_set };
    let related = classes::pick(&related_condition, &all);
    proof {
        lemma_related(related_condition, classes::samples_at(all@));
    }
    let by = ByProcessLine { size };
    let order = HottestLine { size };
    let lines = classes::order_classes(&order, classes::classify(&by, &members));
    let total: usize = lines.len();
    assert(total == touched_lines(s, size).len());
    let start: usize = if req.cacheline_offset <= total {
        req.cacheline_offset
    } else {
        total
    };
    let most: usize = if req.cacheline_limit <= MAX_LINES {
        req.cacheline_limit
    } else {
        MAX_LINES
    };
    let end: usize = if most <= total - start {
        start + most
    } else {
        total
    };
    let cachelines = make_page(&lines, start, end, size);
    let next_cacheline_offset: Option<usize> = if end < total {
        Some(end)
    } else {
        None
    };
    let physical = classes::gather(&PhysicalLine { size }, &members);
    assert(sets::models(physical@).len() == physical@.len());
    let (instruction_address, instruction_addresses) = tools::site_addresses(&members);
    let raw_sampled_ips = rows::copy_texts(&instruction_addresses);
    Ok(
        C2cAccessSiteDetailResult {
            profile: rows::c2c_profile_summary(profile, stats.samples),
            site_id,
            instruction_address,
            instruction_addresses,
            raw_sampled_ips,
            raw_data_sources: rows::c2c_raw_data_source_rows(&members),
            relative_instruction_address: rows::format_relative(mapped),
            function_name: source.function_name,
            dso: rows::copy_dso(mapped),
            file: source.file,
            line: source.line,
            inline_frames: source.inline_frames,
            stats: rows::c2c_stats_result(&stats),
            distinct_virtual_cachelines: total,
            distinct_physical_cachelines: physical.len(),
            cacheline_offset: start,
            returned_cachelines: end - start,
            cachelines_truncated: end < total,
            next_cacheline_offset,
            cachelines,
            offset_distribution: rows::make_offset_rows(&members, size),
            related_access_sites: make_related_rows(&related, size, req.related_limit, symbols),
            per_thread: make_thread_rows(&members, size, req.related_limit),
            per_cpu: make_cpu_rows(&members, size, req.related_limit),
            callchains: rows::render_c2c_callchains(&members, req.related_limit, symbols),
            symbolication_warnings: rows::c2c_symbolication_warnings(failures),
            mapped_instruction: types::share_instruction(mapped),
        },
    )
}

/// A request for one cache line.
#[derive(Debug)]
pub struct C2cCachelineDetailRequest {
    pub path: String,
    pub cacheline_address: String,
    pub pid: Option<i32>,
    pub tid: Option<i32>,
    pub thread_name_prefix: Option<String>,
    pub start_time_ms: Option<TimeValue>,
    pub end_time_ms: Option<TimeValue>,
    pub limit: usize,
}

/// An access to a cache line.
#[derive(Debug)]
pub struct C2cAccessSiteRow {
    pub offset: u64,
    pub data_address: String,
    pub instruction_address: String,
    /// The unmodified sampled address.
    pub raw_sampled_ip: String,
    /// Whether the address is that of the sampled instruction itself.
    pub exact_ip: bool,
    /// The recorded region of the address, where there is one.
    pub data_mapping: Option<C2cMappedDataAddress>,
    pub function_name: Option<String>,
    pub dso: Option<String>,
    pub file: Option<String>,
    pub line: Option<u32>,
    pub inline_frames: Vec<C2cInlineFrame>,
    pub pid: i32,
    pub tid: i32,
    pub thread_name: String,
    pub cpu: u32,
    pub operation: String,
    pub memory_level: String,
    pub data_source: String,
    /// The unmodified data source value.
    pub raw_data_source: String,
    pub samples: usize,
    pub total_hitm: usize,
    pub local_hitm: usize,
    pub remote_hitm: usize,
    pub total_peer: usize,
    pub local_peer: usize,
    pub remote_peer: usize,
    pub locked: usize,
    pub average_weight: Average,
    pub average_instruction_latency: Option<Average>,
    /// The place that the source is looked up for.
    pub mapped_instruction: Option<MappedInstruction>,
}

/// One cache line.
#[derive(Debug)]
pub struct C2cCachelineDetailResult {
    pub profile: C2cProfileSummary,
    pub cacheline_address: String,
    pub physical_cacheline_addresses: Vec<String>,
    pub data_mappings: Vec<C2cDataMappingRow>,
    pub stats: C2cCachelineStats,
    pub access_sites: Vec<C2cAccessSiteRow>,
    pub symbolication_warnings: Vec<String>,
}

/// Whether an optional text form describes an optional data address.
pub open spec fn describes_opt_data(
    r: Option<C2cMappedDataAddress>,
    m: Option<types::DataFacts>,
) -> bool {
    match (r, m) {
        (Some(r), Some(m)) => rows::describes_data(r, m),
        (None, None) => true,
        _ => false,
    }
}

/// The accesses to a cache line, as they are reported.
pub open spec fn access_classes(s: Seq<C2cSample>, limit: usize) -> Seq<Seq<C2cSample>> {
    rows::limited(classes::ordered(AccessOrder, classes::classes(ByAccess, s)), limit)
}

/// Whether a row reports an access to a cache line.
pub open spec fn access_row(
    row: C2cAccessSiteRow,
    class: Seq<C2cSample>,
    size: u64,
    symbols: Seq<InstructionSymbol>,
) -> bool {
    let x = class[0];
    let stats = types::stats_of(class);
    let mapped = types::opt_instruction(x.mapped_instruction);
    &&& row.offset == filter::offset_in(x.data_address, size)
    &&& row.data_address@ == text::hex_text(x.data_address as int)
    &&& row.instruction_address@ == text::hex_text(x.instruction_address as int)
    &&& row.raw_sampled_ip@ == text::hex_text(x.instruction_address as int)
    &&& row.exact_ip == x.exact_ip
    &&& describes_opt_data(row.data_mapping, types::opt_data(x.mapped_data_address))
    &&& rows::tells_source(
        row.function_name,
        row.file,
        row.line,
        row.inline_frames@,
        rows::source_of(mapped, symbols),
    )
    &&& text::opt(row.dso) == rows::dso_of(mapped)
    &&& row.pid == x.pid
    &&& row.tid == x.tid
    &&& row.thread_name@ == x.thread_name@
    &&& row.cpu == x.cpu
    &&& row.operation@ == data_source::operation_name(x.data_source.raw)
    &&& row.memory_level@ == x.data_source.level_text()
    &&& row.data_source@ == text::hex_text(x.data_source.raw as int)
    &&& row.raw_data_source@ == text::hex_text(x.data_source.raw as int)
    &&& row.samples == stats.samples
    &&& row.total_hitm == stats.hitm()
    &&& row.local_hitm == stats.local_hitm
    &&& row.remote_hitm == stats.remote_hitm
    &&& row.total_peer == stats.peer()
    &&& row.local_peer == stats.local_peer
    &&& row.remote_peer == stats.remote_peer
    &&& row.locked == stats.locked
    &&& row.average_weight == (Average { sum: stats.weight_sum, count: stats.samples })
    &&& row.average_instruction_latency == stats.latency()
    &&& types::opt_instruction(row.mapped_instruction) == mapped
}

/// Reports an access to a cache line.
fn make_access_row(class: &Vec<&C2cSample>, size: u64, symbols: &Vec<InstructionSymbol>) -> (r:
    C2cAccessSiteRow)
    requires
        class@.len() > 0,
    ensures
        access_row(r, classes::samples_at(class@), size, symbols@),
{
    let x: &C2cSample = class[0];
    let stats = classes::tally(class);
    let mapped = &x.mapped_instruction;
    let source = rows::resolve_c2c_instruction(mapped, symbols);
    let name: &String = &x.thread_name;
    let data_mapping: Option<C2cMappedDataAddress> = match &x.mapped_data_address {
        Some(m) => Some(rows::c2c_mapped_data_address(m)),
        None => None,
    };
    C2cAccessSiteRow {
        offset: filter::line_offset(x.data_address, size),
        data_address: address::format_address(x.data_address),
        instruction_address: address::format_address(x.instruction_address),
        raw_sampled_ip: address::format_address(x.instruction_address),
        exact_ip: x.exact_ip,
        data_mapping,
        function_name: source.function_name,
        dso: rows::copy_dso(mapped),
        file: source.file,
        line: source.line,
        inline_frames: source.inline_frames,
        pid: x.pid,
        tid: x.tid,
        thread_name: name.clone(),
        cpu: x.cpu,
        operation: x.data_source.operation().to_string(),
        memory_level: x.data_source.level().to_string(),
        data_source: address::format_address(x.data_source.raw),
        raw_data_source: address::format_address(x.data_source.raw),
        samples: stats.samples,
        total_hitm: stats.total_hitm(),
        local_hitm: stats.local_hitm,
        remote_hitm: stats.remote_hitm,
        total_peer: stats.total_peer(),
        local_peer: stats.local_peer,
        remote_peer: stats.remote_peer,
        locked: stats.locked,
        average_weight: stats.average_weight(),
        average_instruction_latency: stats.average_instruction_latency(),
        mapped_instruction: types::share_instruction(mapped),
    }
}

impl C2cCachelineDetailRequest {
    /// The samples that the request looks at.
    pub open spec fn filter(&self) -> C2cFilter<'_> {
        C2cFilter {
            pid: self.pid,
            tid: self.tid,
            thread_name_prefix: &self.thread_name_prefix,
            start_time_ms: self.start_time_ms,
            end_time_ms: self.end_time_ms,
        }
    }

    /// The cache line that the request names.
    pub open spec fn line(&self) -> u64 {
        address::address_in(self.cacheline_address@)->Ok_0
    }

    /// The samples on the cache line that the request names.
    pub open spec fn members(&self, p: C2cProfile) -> Seq<C2cSample> {
        classes::chosen(
            (OnLine { size: p.cacheline_size, line: self.line() }),
            tools::matched(p, self.filter()),
        )
    }

    /// Why the request cannot be answered, if so.
    pub open spec fn error(&self, p: C2cProfile) -> Option<Seq<char>> {
        match address::address_in(self.cacheline_address@) {
            Err(e) => Some(e),
            Ok(line) => if address::aligned(line, p.cacheline_size) != line {
                Some(
                    "cacheline_address must be "@ + text::decimal(p.cacheline_size as int)
                        + "-byte aligned; use "@ + text::hex_text(
                        address::aligned(line, p.cacheline_size) as int,
                    ),
                )
            } else {
                match filter::filter_error(self.start_time_ms, self.end_time_ms) {
                    Some(e) => Some(e),
                    None => if self.members(p).len() == 0 {
                        Some(
                            "no memory samples matched cacheline "@ + text::hex_text(line as int)
                                + " and the requested filters"@,
                        )
                    } else {
                        None
                    },
                }
            },
        }
    }
}

/// Whether a report answers a request for one cache line.
pub open spec fn answers_line_detail(
    r: C2cCachelineDetailResult,
    p: C2cProfile,
    req: C2cCachelineDetailRequest,
    symbols: Seq<InstructionSymbol>,
    failures: Seq<LookupFailure>,
) -> bool {
    let size = p.cacheline_size;
    let s = req.members(p);
    let stats = types::stats_of(s);
    let shown = access_classes(s, req.limit);
    &&& rows::summarizes(r.profile, p, stats.samples)
    &&& r.cacheline_address@ == text::hex_text(req.line() as int)
    &&& text::views(r.physical_cacheline_addresses@) == rows::address_texts(
        classes::gathered((PhysicalLine { size }), s),
    )
    &&& rows::region_rows(r.data_mappings@, s)
    &&& r.stats == rows::stats_row(stats)
    &&& r.access_sites@.len() == shown.len()
    &&& forall|i: int|
        0 <= i < shown.len() ==> access_row(
            #[trigger] r.access_sites@[i],
            shown[i],
            size,
            symbols,
        )
    &&& tools::warns(r.symbolication_warnings@, failures)
}

/// One cache line of a recording. Sources are those of the given lookups.
pub fn c2c_cacheline_detail(
    profile: &C2cProfile,
    req: &C2cCachelineDetailRequest,
    symbols: &Vec<InstructionSymbol>,
    failures: &Vec<LookupFailure>,
) -> (r: Result<C2cCachelineDetailResult, String>)
    requires
        profile.cacheline_size > 0,
    ensures
        match r {
            Ok(report) => req.error(*profile) is None && answers_line_detail(
                report,
                *profile,
                *req,
                symbols@,
                failures@,
            ),
            Err(e) => req.error(*profile) == Some(e@),
        },
{
    let size: u64 = profile.cacheline_size;
    let line: u64 = match address::parse_address(req.cacheline_address.as_str()) {
        Ok(line) => line,
        Err(e) => {
            return Err(e);
        },
    };
    let aligned: u64 = address::align_cacheline(line, size);
    if line != aligned {
        let mut error = "cacheline_address must be ".to_string();
        text::push_decimal(&mut error, size as u128);
        text::push_text(&mut error, "-byte aligned; use ");
        text::push_text(&mut error, address::format_address(aligned).as_str());
        return Err(error);
    }
    let f = C2cFilter {
        pid: req.pid,
        tid: req.tid,
        thread_name_prefix: &req.thread_name_prefix,
        start_time_ms: req.start_time_ms,
        end_time_ms: req.end_time_ms,
    };
    match f.validate() {
        Ok(_) => {},
        Err(e) => {
            return Err(e);
        },
    }
    let all = tools::match_samples(profile, &f);
    let on_line = OnLine { size, line };
    let members = classes::pick(&on_line, &all);
    let ghost s = classes::samples_at(members@);
    assert(s == req.members(*profile));
    assert(s.len() == members@.len());
    if members.len() == 0 {
        let mut error = "no memory samples matched cacheline ".to_string();
        text::push_text(&mut error, address::format_address(line).as_str());
        text::push_text(&mut error, " and the requested filters");
        return Err(error);
    }
    let stats = classes::tally(&members);
    let by = ByAccess;
    let mut sorted = classes::order_classes(&AccessOrder, classes::classify(&by, &members));
    rows::limit_classes(&mut sorted, req.limit);
    let ghost shown = classes::classes_at(sorted@);
    let mut access_sites: Vec<C2cAccessSiteRow> = Vec::new();
    let mut i: usize = 0;
    while i < sorted.len()
        invariant
            i <= sorted@.len(),
            shown == classes::classes_at(sorted@),
            forall|k: int| 0 <= k < sorted@.len() ==> (#[trigger] sorted@[k])@.len() > 0,
            access_sites@.len() == i,
            forall|k: int|
                0 <= k < i ==> access_row(#[trigger] access_sites@[k], shown[k], size, symbols@),
        decreases sorted@.len() - i,
    {
        assert(sorted@[i as int]@.len() > 0);
        access_sites.push(make_access_row(&sorted[i], size, symbols));
        i += 1;
    }
    Ok(
        C2cCachelineDetailResult {
            profile: rows::c2c_profile_summary(profile, stats.samples),
            cacheline_address: address::format_address(line),
            physical_cacheline_addresses: tools::physical_lines(&members, size),
            data_mappings: rows::c2c_data_mapping_rows(&members),
            stats: rows::c2c_stats_result(&stats),
            access_sites,
            symbolication_warnings: rows::c2c_symbolication_warnings(failures),
        },
    )
}

}
