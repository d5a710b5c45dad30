//! Where a function spends its own time: by instruction and by source line.
use crate::analysis::context_switch;
use crate::analysis::functions::FunctionStats;
use crate::analysis::samples::AnalysisRange;
use crate::analysis::source;
use crate::analysis::source::{
    DwarfResolutionSummary, ExclusiveInstructionBreakdown, ExclusiveSourceBreakdown,
    ExclusiveSourceLineBreakdown, InlineSourceFrame, InstructionRow, LibraryLookups, LibraryOutcome,
    LineRow, LookupState, LookupTotals,
};
use crate::analysis::symbols;
use crate::c2c::filter::borrowed;
use crate::groups;
use crate::groups::Keyed;
use crate::mcp::analysis_cache::AnalysisCache;
use crate::mcp::focus;
use crate::mcp::functions;
use crate::mcp::scope;
use crate::mcp::scope::Scope;
use crate::mcp::summary;
use crate::mcp::summary::{EffectiveTimeRange, ThreadInfo};
use crate::mcp::threads::ThreadScopeSelection;
use crate::profile::resolved::ResolvedProfile;
use crate::profile::symbols::SourcePoint;
use crate::text;
use crate::units::{Ratio, TimeValue};
use vstd::prelude::*;

verus! {

/// The largest number of rows that a report lists.
pub const MAX_ROWS: usize = 500;

/// A request for where a function spends its own time.
#[derive(Debug)]
pub struct FunctionSourceRequest {
    pub path: String,
    pub start_time_ms: Option<TimeValue>,
    pub end_time_ms: Option<TimeValue>,
    pub query: Option<String>,
    pub function_id: Option<String>,
    pub match_mode: String,
    pub thread: Option<String>,
    pub tid: Option<String>,
    pub thread_index: Option<usize>,
    pub thread_name_prefix: Option<String>,
    pub thread_name_prefixes: Vec<String>,
    pub limit: usize,
    pub include_threads: bool,
}

/// A function in a chain of inlined calls.
#[derive(Debug)]
pub struct InlineSourceFrameInfo {
    pub inline_depth: usize,
    pub function_id: String,
    pub function_name: String,
    pub display_name: String,
    pub file: Option<String>,
    pub line: Option<u32>,
    pub source: Option<String>,
}

/// The samples at one instruction.
#[derive(Debug)]
pub struct InstructionSourceRow {
    /// Library-relative instruction address, formatted as hexadecimal.
    pub instruction_address: Option<String>,
    pub library: Option<String>,
    pub library_debug_id: Option<String>,
    pub symbol_name: Option<String>,
    pub symbol_start_address: Option<String>,
    pub symbol_offset: Option<String>,
    pub symbol_size: Option<u64>,
    pub focus_file: Option<String>,
    pub focus_line: Option<u32>,
    pub focus_source: Option<String>,
    /// `dwarf`, `sidecar`, `profile`, or `unresolved`.
    pub source_origin: String,
    /// Frames are ordered from the outer function to the deepest inline frame.
    pub inline_frames: Vec<InlineSourceFrameInfo>,
    pub sample_count: usize,
    pub cpu_sample_time_ms: u64,
    pub percent_of_exclusive: Ratio,
    pub percent_of_scope: Ratio,
}

/// What looking up debug data came to.
#[derive(Debug)]
pub struct DwarfResolutionInfo {
    pub attempted_library_count: usize,
    pub loaded_library_count: usize,
    pub identity_verified_library_count: usize,
    pub attempted_instruction_count: usize,
    pub resolved_instruction_count: usize,
    pub resolved_sample_count: usize,
    pub binary_paths: Vec<String>,
    pub warnings: Vec<String>,
}

/// The samples at one source line.
#[derive(Debug)]
pub struct FunctionSourceLineRow {
    pub library: Option<String>,
    pub file: Option<String>,
    pub line: Option<u32>,
    pub source: Option<String>,
    pub instruction_count: usize,
    pub instruction_addresses: Vec<String>,
    pub sample_count: usize,
    pub cpu_sample_time_ms: u64,
    pub percent_of_exclusive: Ratio,
    pub percent_of_scope: Ratio,
}

/// Where a function spends its own time.
#[derive(Debug)]
pub struct FunctionSourceResult {
    pub effective_range: EffectiveTimeRange,
    pub scope: String,
    pub thread: Option<String>,
    pub tid: Option<String>,
    pub thread_index: Option<usize>,
    pub thread_count: usize,
    pub threads: Vec<ThreadInfo>,
    pub function_id: String,
    pub function_name: String,
    pub display_name: String,
    pub symbol_sidecar_loaded: bool,
    pub dwarf_resolution: DwarfResolutionInfo,
    pub exclusive_samples: usize,
    pub exclusive_time_ms: u64,
    pub exclusive_percent_of_scope: Ratio,
    pub total_scope_samples: usize,
    pub scope_time_ms: u64,
    pub instruction_resolved_samples: usize,
    pub source_resolved_samples: usize,
    pub sidecar_symbolicated_samples: usize,
    pub instruction_count: usize,
    pub returned_instruction_count: usize,
    pub source_line_count: usize,
    pub returned_source_line_count: usize,
    pub instructions: Vec<InstructionSourceRow>,
    pub source_lines: Vec<FunctionSourceLineRow>,
}

/// An address in hexadecimal, where there is one.
pub open spec fn hex_of(address: Option<u64>) -> Option<Seq<char>> {
    match address {
        Some(address) => Some(text::hex_text(address as int)),
        None => None,
    }
}

/// An address in hexadecimal, where there is one.
fn opt_hex(address: Option<u64>) -> (r: Option<String>)
    ensures
        text::opt(r) == hex_of(address),
{
    match address {
        Some(address) => Some(text::hexadecimal_text(address)),
        None => None,
    }
}

/// How far an address lies behind the start of its symbol.
pub open spec fn offset_of(address: Option<u64>, start: Option<u64>) -> Option<u64> {
    match (address, start) {
        (Some(address), Some(start)) => if address >= start {
            Some((address - start) as u64)
        } else {
            None
        },
        _ => None,
    }
}

/// How far an address lies behind the start of its symbol.
fn symbol_offset(address: Option<u64>, start: Option<u64>) -> (r: Option<u64>)
    ensures
        r == offset_of(address, start),
{
    match (address, start) {
        (Some(address), Some(start)) => if address >= start {
            Some(address - start)
        } else {
            None
        },
        _ => None,
    }
}

/// Whether a row tells of a function in a chain of inlined calls.
pub open spec fn tells_frame(r: InlineSourceFrameInfo, depth: int, point: SourcePoint) -> bool {
    &&& r.inline_depth == depth
    &&& r.function_name@ == point.function_name
    &&& r.function_id@ == symbols::id_of(point.function_name)
    &&& r.display_name@ == symbols::compact_of(point.function_name)
    &&& text::opt(r.file) == point.file
    &&& r.line == point.line
    &&& text::opt(r.source) == functions::location(point.file, point.line)
}

/// Whether rows tell of a chain of inlined calls.
pub open spec fn tells_frames(r: Seq<InlineSourceFrameInfo>, chain: Seq<SourcePoint>) -> bool {
    &&& r.len() == chain.len()
    &&& forall|i: int| 0 <= i < r.len() ==> tells_frame(#[trigger] r[i], i, chain[i])
}

/// The rows of a chain of inlined calls.
fn frame_infos(chain: &Vec<InlineSourceFrame>) -> (r: Vec<InlineSourceFrameInfo>)
    ensures
        tells_frames(r@, source::points(chain@)),
{
    let ghost all = source::points(chain@);
    let mut r: Vec<InlineSourceFrameInfo> = Vec::new();
    let mut i: usize = 0;
    while i < chain.len()
        invariant
            i <= chain@.len(),
            all == source::points(chain@),
            r@.len() == i,
            forall|k: int| 0 <= k < i ==> tells_frame(#[trigger] r@[k], k, all[k]),
        decreases chain@.len() - i,
    {
        let frame = &chain[i];
        assert(all[i as int] == frame.point());
        r.push(
            InlineSourceFrameInfo {
                inline_depth: i,
                function_id: symbols::function_id(frame.function_name.as_str()),
                display_name: symbols::compact_function_name(frame.function_name.as_str()),
                source: functions::source_location(&frame.file, frame.line),
                function_name: frame.function_name.clone(),
                file: text::opt_clone(&frame.file),
                line: frame.line,
            },
        );
        i += 1;
    }
    r
}

/// Whether a row tells of the samples at an instruction.
pub open spec fn tells_instruction(
    r: InstructionSourceRow,
    row: InstructionRow,
    exclusive_time_ms: u64,
    scope_time_ms: u64,
) -> bool {
    &&& text::opt(r.instruction_address) == hex_of(row.address)
    &&& text::opt(r.library) == row.library
    &&& text::opt(r.library_debug_id) == row.library_debug_id
    &&& text::opt(r.symbol_name) == row.symbol_name
    &&& text::opt(r.symbol_start_address) == hex_of(row.symbol_start_address)
    &&& text::opt(r.symbol_offset) == hex_of(offset_of(row.address, row.symbol_start_address))
    &&& r.symbol_size == row.symbol_size
    &&& text::opt(r.focus_file) == row.focus_file
    &&& r.focus_line == row.focus_line
    &&& text::opt(r.focus_source) == functions::location(row.focus_file, row.focus_line)
    &&& r.source_origin@ == row.source_origin
    &&& tells_frames(r.inline_frames@, row.inline_frames)
    &&& r.sample_count == row.sample_count
    &&& r.cpu_sample_time_ms == row.cpu_sample_time
    &&& r.percent_of_exclusive == (Ratio { part: row.cpu_sample_time, whole: exclusive_time_ms })
    &&& r.percent_of_scope == (Ratio { part: row.cpu_sample_time, whole: scope_time_ms })
}

/// Whether rows tell of the samples at instructions.
pub open spec fn tells_instructions(
    r: Seq<InstructionSourceRow>,
    rows: Seq<InstructionRow>,
    exclusive_time_ms: u64,
    scope_time_ms: u64,
) -> bool {
    &&& r.len() == rows.len()
    &&& forall|i: int|
        0 <= i < r.len() ==> tells_instruction(
            #[trigger] r[i],
            rows[i],
            exclusive_time_ms,
            scope_time_ms,
        )
}

/// The row of an instruction.
fn instruction_row(
    at: &ExclusiveInstructionBreakdown,
    exclusive_time_ms: u64,
    scope_time_ms: u64,
) -> (r: InstructionSourceRow)
    ensures
        tells_instruction(r, at.model(), exclusive_time_ms, scope_time_ms),
{
    InstructionSourceRow {
        instruction_address: opt_hex(at.address),
        library: text::opt_clone(&at.library),
        library_debug_id: text::opt_clone(&at.library_debug_id),
        symbol_name: text::opt_clone(&at.symbol_name),
        symbol_start_address: opt_hex(at.symbol_start_address),
        symbol_offset: opt_hex(symbol_offset(at.address, at.symbol_start_address)),
        symbol_size: at.symbol_size,
        focus_source: functions::source_location(&at.focus_file, at.focus_line),
        focus_file: text::opt_clone(&at.focus_file),
        focus_line: at.focus_line,
        source_origin: at.source_origin.to_string(),
        inline_frames: frame_infos(&at.inline_frames),
        sample_count: at.sample_count,
        cpu_sample_time_ms: at.cpu_sample_time_ms,
        percent_of_exclusive: Ratio { part: at.cpu_sample_time_ms, whole: exclusive_time_ms },
        percent_of_scope: Ratio { part: at.cpu_sample_time_ms, whole: scope_time_ms },
    }
}

/// The rows of the first instructions.
fn instruction_rows(breakdown: &ExclusiveSourceBreakdown, limit: usize) -> (r: Vec<
    InstructionSourceRow,
>)
    ensures
        tells_instructions(
            r@,
            context_switch::at_most(groups::models(breakdown.instructions@), limit as int),
            breakdown.exclusive_time_ms,
            breakdown.scope_time_ms,
        ),
{
    let ghost rows = groups::models(breakdown.instructions@);
    let mut r: Vec<InstructionSourceRow> = Vec::new();
    let mut i: usize = 0;
    while i < breakdown.instructions.len() && i < limit
        invariant
            i <= breakdown.instructions@.len(),
            i <= limit,
            rows == groups::models(breakdown.instructions@),
            r@.len() == i,
            forall|k: int|
                0 <= k < i ==> tells_instruction(
                    #[trigger] r@[k],
                    rows[k],
                    breakdown.exclusive_time_ms,
                    breakdown.scope_time_ms,
                ),
        decreases breakdown.instructions@.len() - i,
    {
        assert(rows[i as int] == breakdown.instructions@[i as int].model());
        r.push(
            instruction_row(
                &breakdown.instructions[i],
                breakdown.exclusive_time_ms,
                breakdown.scope_time_ms,
            ),
        );
        i += 1;
    }
    r
}

/// Whether texts hold addresses in hexadecimal.
pub open spec fn tells_addresses(r: Seq<String>, addresses: Seq<u64>) -> bool {
    &&& r.len() == addresses.len()
    &&& forall|i: int| 0 <= i < r.len() ==> (#[trigger] r[i])@ == text::hex_text(addresses[i] as int)
}

/// Addresses in hexadecimal.
fn hex_addresses(addresses: &Vec<u64>) -> (r: Vec<String>)
    ensures
        tells_addresses(r@, addresses@),
{
    let mut r: Vec<String> = Vec::new();
    let mut i: usize = 0;
    while i < addresses.len()
        invariant
            i <= addresses@.len(),
            r@.len() == i,
            forall|k: int|
                0 <= k < i ==> (#[trigger] r@[k])@ == text::hex_text(addresses@[k] as int),
        decreases addresses@.len() - i,
    {
        r.push(text::hexadecimal_text(addresses[i]));
        i += 1;
    }
    r
}

/// Whether a row tells of the samples at a source line.
pub open spec fn tells_line(
    r: FunctionSourceLineRow,
    row: LineRow,
    exclusive_time_ms: u64,
    scope_time_ms: u64,
) -> bool {
    &&& text::opt(r.library) == row.library
    &&& text::opt(r.file) == row.file
    &&& r.line == row.line
    &&& text::opt(r.source) == functions::location(row.file, row.line)
    &&& r.instruction_count == row.instruction_addresses.len()
    &&& tells_addresses(r.instruction_addresses@, row.instruction_addresses)
    &&& r.sample_count == row.sample_count
    &&& r.cpu_sample_time_ms == row.cpu_sample_time
    &&& r.percent_of_exclusive == (Ratio { part: row.cpu_sample_time, whole: exclusive_time_ms })
    &&& r.percent_of_scope == (Ratio { part: row.cpu_sample_time, whole: scope_time_ms })
}

/// Whether rows tell of the samples at source lines.
pub open spec fn tells_lines(
    r: Seq<FunctionSourceLineRow>,
    rows: Seq<LineRow>,
    exclusive_time_ms: u64,
    scope_time_ms: u64,
) -> bool {
    &&& r.len() == rows.len()
    &&& forall|i: int|
        0 <= i < r.len() ==> tells_line(#[trigger] r[i], rows[i], exclusive_time_ms, scope_time_ms)
}

/// The row of a source line.
fn line_row(
    at: &ExclusiveSourceLineBreakdown,
    exclusive_time_ms: u64,
    scope_time_ms: u64,
) -> (r: FunctionSourceLineRow)
    ensures
        tells_line(r, at.row(), exclusive_time_ms, scope_time_ms),
{
    FunctionSourceLineRow {
        library: text::opt_clone(&at.library),
        source: functions::source_location(&at.file, at.line),
        file: text::opt_clone(&at.file),
        line: at.line,
        instruction_count: at.instruction_addresses.len(),
        instruction_addresses: hex_addresses(&at.instruction_addresses),
        sample_count: at.sample_count,
        cpu_sample_time_ms: at.cpu_sample_time_ms,
        percent_of_exclusive: Ratio { part: at.cpu_sample_time_ms, whole: exclusive_time_ms },
        percent_of_scope: Ratio { part: at.cpu_sample_time_ms, whole: scope_time_ms },
    }
}

/// The rows of the first source lines.
fn line_rows(breakdown: &ExclusiveSourceBreakdown, limit: usize) -> (r: Vec<FunctionSourceLineRow>)
    ensures
        tells_lines(
            r@,
            context_switch::at_most(source::line_rows(breakdown.source_lines@), limit as int),
            breakdown.exclusive_time_ms,
            breakdown.scope_time_ms,
        ),
{
    let ghost rows = source::line_rows(breakdown.source_lines@);
    let mut r: Vec<FunctionSourceLineRow> = Vec::new();
    let mut i: usize = 0;
    while i < breakdown.source_lines.len() && i < limit
        invariant
            i <= breakdown.source_lines@.len(),
            i <= limit,
            rows == source::line_rows(breakdown.source_lines@),
            r@.len() == i,
            forall|k: int|
                0 <= k < i ==> tells_line(
                    #[trigger] r@[k],
                    rows[k],
                    breakdown.exclusive_time_ms,
                    breakdown.scope_time_ms,
                ),
        decreases breakdown.source_lines@.len() - i,
    {
        assert(rows[i as int] == breakdown.source_lines@[i as int].row());
        r.push(
            line_row(
                &breakdown.source_lines[i],
                breakdown.exclusive_time_ms,
                breakdown.scope_time_ms,
            ),
        );
        i += 1;
    }
    r
}

/// Whether a row tells what looking up debug data came to.
pub open spec fn tells_lookups(r: DwarfResolutionInfo, totals: LookupTotals) -> bool {
    &&& r.attempted_library_count == totals.attempted_library_count
    &&& r.loaded_library_count == totals.loaded_library_count
    &&& r.identity_verified_library_count == totals.identity_verified_library_count
    &&& r.attempted_instruction_count == totals.attempted_instruction_count
    &&& r.resolved_instruction_count == totals.resolved_instruction_count
    &&& r.resolved_sample_count == totals.resolved_sample_count
    &&& text::views(r.binary_paths@) == totals.binary_paths
    &&& text::views(r.warnings@) == totals.warnings
}

/// The row of a summary.
fn lookup_info(summary: DwarfResolutionSummary) -> (r: DwarfResolutionInfo)
    ensures
        tells_lookups(r, summary.totals()),
{
    DwarfResolutionInfo {
        attempted_library_count: summary.attempted_library_count,
        loaded_library_count: summary.loaded_library_count,
        identity_verified_library_count: summary.identity_verified_library_count,
        attempted_instruction_count: summary.attempted_instruction_count,
        resolved_instruction_count: summary.resolved_instruction_count,
        resolved_sample_count: summary.resolved_sample_count,
        binary_paths: summary.binary_paths,
        warnings: summary.warnings,
    }
}

impl FunctionSourceRequest {
    /// The window that the request asks for.
    pub open spec fn window(&self, p: ResolvedProfile) -> AnalysisRange {
        summary::window(p, self.start_time_ms, self.end_time_ms)
    }

    /// The threads that the request is about, or why there are none.
    pub open spec fn scope(&self, p: ResolvedProfile) -> Result<Scope, Seq<char>> {
        scope::narrow(
            p,
            self.start_time_ms,
            self.end_time_ms,
            self.thread,
            self.tid,
            self.thread_index,
            self.thread_name_prefix,
            self.thread_name_prefixes,
        )
    }

    /// The function that the request means, by the tables of the threads.
    pub open spec fn function(&self, tables: Seq<Seq<FunctionStats>>, indices: Seq<usize>) -> Option<
        Seq<char>,
    > {
        functions::meant(
            functions::rows_in(tables, Some(indices), tables.len() as int),
            text::opt(self.query),
            text::opt(self.function_id),
            self.match_mode@,
        )
    }

    /// The number of rows that a report lists at most.
    pub open spec fn row_limit(&self) -> int {
        if self.limit < MAX_ROWS {
            self.limit as int
        } else {
            MAX_ROWS as int
        }
    }
}

/// A request whose function and samples are known, before any debug data.
pub struct SourceStudy<'a> {
    pub range: AnalysisRange,
    pub selection: ThreadScopeSelection<'a>,
    pub function_name: String,
    pub breakdown: ExclusiveSourceBreakdown,
    /// Which libraries to ask about which instructions.
    pub plan: Vec<LibraryLookups>,
}

/// Why a function without samples of its own has no report.
pub open spec fn idle_error(function: Seq<char>, scope: Seq<char>) -> Seq<char> {
    "Function '"@ + function + "' has no exclusive/self samples in scope "@ + scope
        + " and the selected time range"@
}

/// Why a function without samples of its own has no report.
fn idle_message(function: &str, scope: &str) -> (r: String)
    ensures
        r@ == idle_error(function@, scope@),
{
    let mut s = "Function '".to_string();
    text::push_text(&mut s, function);
    text::push_text(&mut s, "' has no exclusive/self samples in scope ");
    text::push_text(&mut s, scope);
    text::push_text(&mut s, " and the selected time range");
    s
}

/// Whether a study knows where a function spends its own time, and what to ask.
pub open spec fn studies(
    study: SourceStudy,
    p: ResolvedProfile,
    range: AnalysisRange,
    scope: Scope,
    function: Seq<char>,
) -> bool {
    &&& study.range == range
    &&& scope::scope_in(study.selection) == scope
    &&& scope::leads_into(study.selection, p)
    &&& study.function_name@ == function
    &&& source::breaks_down(study.breakdown, p, scope.indices, range, function)
    &&& groups::models(study.plan@) == source::lookup_plan(
        groups::models(study.breakdown.instructions@),
    )
}

/// Whether an outcome tells what to ask for a function, or that it has no
/// samples of its own.
pub open spec fn opens(
    r: Result<SourceStudy, String>,
    p: ResolvedProfile,
    range: AnalysisRange,
    scope: Scope,
    function: Seq<char>,
) -> bool {
    exists|b: ExclusiveSourceBreakdown| #[trigger]
        source::breaks_down(b, p, scope.indices, range, function) && match r {
            Ok(study) => b.exclusive_sample_count > 0 && studies(study, p, range, scope, function),
            Err(e) => b.exclusive_sample_count == 0 && e@ == idle_error(function, scope.name),
        }
}

/// Whether an outcome begins the answer to a request, by the tables of the
/// threads.
pub open spec fn begins(
    r: Result<SourceStudy, String>,
    p: ResolvedProfile,
    req: FunctionSourceRequest,
    scope: Scope,
    tables: Seq<Seq<FunctionStats>>,
) -> bool {
    match req.function(tables, scope.indices) {
        None => r matches Err(e) && e@ == focus::missing_error(scope.name),
        Some(function) => opens(r, p, req.window(p), scope, function),
    }
}

/// Whether an outcome begins the answer to a request.
pub open spec fn reports_study(
    r: Result<SourceStudy, String>,
    p: ResolvedProfile,
    req: FunctionSourceRequest,
    scope: Scope,
) -> bool {
    exists|tables: Seq<Seq<FunctionStats>>| #[trigger]
        functions::tables_for(tables, p, scope.indices, req.window(p)) && begins(
            r,
            p,
            req,
            scope,
            tables,
        )
}

/// Finds the function and its samples, by the tables of selected threads.
pub fn study_in_scope<'a>(
    profile: &'a ResolvedProfile,
    req: &FunctionSourceRequest,
    range: AnalysisRange,
    selection: ThreadScopeSelection<'a>,
    tables: &Vec<Vec<FunctionStats>>,
) -> (r: Result<SourceStudy<'a>, String>)
    requires
        range == req.window(*profile),
        scope::leads_into(selection, *profile),
        tables@.len() == profile.threads@.len(),
    ensures
        begins(r, *profile, *req, scope::scope_in(selection), functions::table_rows(tables@)),
{
    let ghost found = scope::scope_in(selection);
    let function_name: String = match functions::resolve_function_name_in_threads(
        tables,
        borrowed(&req.query),
        borrowed(&req.function_id),
        req.match_mode.as_str(),
        Some(&selection.thread_indices),
    ) {
        Some(name) => name,
        None => {
            return Err(focus::missing_message(selection.scope.as_str()));
        },
    };
    let ghost function = function_name@;
    let breakdown = source::exclusive_source_breakdown(
        profile,
        &selection.thread_indices,
        &range,
        function_name.as_str(),
    );
    let ghost b = breakdown;
    if breakdown.exclusive_sample_count == 0 {
        let r: Result<SourceStudy<'a>, String> = Err(
            idle_message(function_name.as_str(), selection.scope.as_str()),
        );
        assert(source::breaks_down(b, *profile, found.indices, range, function));
        assert(opens(r, *profile, range, found, function));
        return r;
    }
    let plan = source::dwarf_lookups(&breakdown);
    let study = SourceStudy { range, selection, function_name, breakdown, plan };
    assert(studies(study, *profile, range, found, function));
    let r: Result<SourceStudy<'a>, String> = Ok(study);
    assert(source::breaks_down(b, *profile, found.indices, range, function));
    assert(opens(r, *profile, range, found, function));
    r
}

/// Finds the function that a request means and its samples, and says which
/// libraries to ask for debug data.
pub fn study_function_source<'a>(
    profile: &'a ResolvedProfile,
    cache: &mut AnalysisCache,
    req: &FunctionSourceRequest,
) -> (r: Result<SourceStudy<'a>, String>)
    requires
        old(cache).belongs_to(*profile),
    ensures
        old(cache).grows_into(*final(cache), *profile),
        match req.scope(*profile) {
            Err(e) => r matches Err(message) && message@ == e,
            Ok(scope) => reports_study(r, *profile, *req, scope),
        },
        r matches Ok(study) ==> scope::leads_into(study.selection, *profile),
{
    let (range, selection) = match scope::choose_narrow(
        profile,
        req.start_time_ms,
        req.end_time_ms,
        &req.thread,
        &req.tid,
        req.thread_index,
        &req.thread_name_prefix,
        &req.thread_name_prefixes,
    ) {
        Ok(found) => found,
        Err(e) => {
            return Err(e);
        },
    };
    let ghost found = scope::scope_in(selection);
    let tables = functions::function_stats_for_threads(profile, cache, &selection.thread_indices, &range);
    let r = study_in_scope(profile, req, range, selection, &tables);
    proof {
        let views = functions::table_rows(tables@);
        assert(functions::tables_for(views, *profile, found.indices, range));
        assert(reports_study(r, *profile, *req, found));
    }
    r
}

/// The instructions of a study and what looking up debug data came to, once
/// the libraries have answered.
pub open spec fn answered_state(
    study: SourceStudy,
    p: ResolvedProfile,
    outcomes: Seq<LibraryOutcome>,
) -> LookupState {
    let plan = groups::models(study.plan@);
    source::after_libraries(
        LookupState {
            rows: groups::models(study.breakdown.instructions@),
            totals: source::planned_totals(plan),
        },
        p,
        study.function_name@,
        plan,
        outcomes,
        plan.len() as int,
    )
}

/// Whether a report tells where a function spends its own time, once the
/// libraries have answered.
pub open spec fn answers_source(
    r: FunctionSourceResult,
    p: ResolvedProfile,
    req: FunctionSourceRequest,
    study: SourceStudy,
    outcomes: Seq<LibraryOutcome>,
    symbol_sidecar_loaded: bool,
) -> bool {
    let found = scope::scope_in(study.selection);
    let b = study.breakdown;
    let state = answered_state(study, p, outcomes);
    let rows = state.rows;
    let lines = source::lines_of(rows);
    let limit = req.row_limit();
    &&& r.effective_range == summary::range_row(study.range)
    &&& r.scope@ == found.name
    &&& scope::tells_thread(r.thread, r.tid, r.thread_index, p, found)
    &&& r.thread_count == found.indices.len()
    &&& scope::lists_threads(r.threads@, req.include_threads, p, found.indices, study.range)
    &&& r.function_name@ == study.function_name@
    &&& r.function_id@ == symbols::id_of(study.function_name@)
    &&& r.display_name@ == symbols::compact_of(study.function_name@)
    &&& r.symbol_sidecar_loaded == symbol_sidecar_loaded
    &&& tells_lookups(r.dwarf_resolution, state.totals)
    &&& r.exclusive_samples == b.exclusive_sample_count
    &&& r.exclusive_time_ms == b.exclusive_time_ms
    &&& r.exclusive_percent_of_scope == (Ratio {
        part: b.exclusive_time_ms,
        whole: b.scope_time_ms,
    })
    &&& r.total_scope_samples == b.scope_sample_count
    &&& r.scope_time_ms == b.scope_time_ms
    &&& r.instruction_resolved_samples == b.instruction_resolved_samples
    &&& r.source_resolved_samples == crate::units::capped_count(
        source::sourced_samples(rows, rows.len() as int) as int,
    )
    &&& r.sidecar_symbolicated_samples == b.sidecar_symbolicated_samples
    &&& r.instruction_count == rows.len()
    &&& r.returned_instruction_count == r.instructions@.len()
    &&& r.source_line_count == lines.len()
    &&& r.returned_source_line_count == r.source_lines@.len()
    &&& tells_instructions(
        r.instructions@,
        context_switch::at_most(rows, limit),
        b.exclusive_time_ms,
        b.scope_time_ms,
    )
    &&& tells_lines(
        r.source_lines@,
        context_switch::at_most(lines, limit),
        b.exclusive_time_ms,
        b.scope_time_ms,
    )
}

/// Where a function spends its own time. `outcomes` holds what became of each
/// library of the plan.
pub fn profile_function_source(
    profile: &ResolvedProfile,
    req: &FunctionSourceRequest,
    study: SourceStudy,
    outcomes: &Vec<LibraryOutcome>,
    symbol_sidecar_loaded: bool,
) -> (r: FunctionSourceResult)
    requires
        outcomes@.len() == study.plan@.len(),
        scope::leads_into(study.selection, *profile),
    ensures
        answers_source(r, *profile, *req, study, outcomes@, symbol_sidecar_loaded),
{
    let ghost before = study;
    let SourceStudy { range, selection, function_name, breakdown, plan } = study;
    let mut breakdown = breakdown;
    let dwarf = source::resolve_dwarf_sources(
        profile,
        function_name.as_str(),
        &mut breakdown,
        &plan,
        outcomes,
    );
    let ghost state = answered_state(before, *profile, outcomes@);
    assert(source::lookup_state(breakdown, dwarf) == state);
    assert(groups::models(breakdown.instructions@).len() == breakdown.instructions@.len());
    assert(source::line_rows(breakdown.source_lines@).len() == breakdown.source_lines@.len());
    let limit: usize = if req.limit < MAX_ROWS {
        req.limit
    } else {
        MAX_ROWS
    };
    let instructions = instruction_rows(&breakdown, limit);
    let source_lines = line_rows(&breakdown, limit);
    let (thread, tid, thread_index) = scope::thread_fields(&selection, Ghost(*profile));
    FunctionSourceResult {
        effective_range: summary::effective_time_range(&range),
        thread,
        tid,
        thread_index,
        thread_count: selection.thread_indices.len(),
        threads: scope::list_threads(
            profile,
            req.include_threads,
            &selection.thread_indices,
            &range,
        ),
        scope: selection.scope,
        function_id: symbols::function_id(function_name.as_str()),
        display_name: symbols::compact_function_name(function_name.as_str()),
        function_name,
        symbol_sidecar_loaded,
        dwarf_resolution: lookup_info(dwarf),
        exclusive_samples: breakdown.exclusive_sample_count,
        exclusive_time_ms: breakdown.exclusive_time_ms,
        exclusive_percent_of_scope: Ratio {
            part: breakdown.exclusive_time_ms,
            whole: breakdown.scope_time_ms,
        },
        total_scope_samples: breakdown.scope_sample_count,
        scope_time_ms: breakdown.scope_time_ms,
        instruction_resolved_samples: breakdown.instruction_resolved_samples,
        source_resolved_samples: breakdown.source_resolved_samples,
        sidecar_symbolicated_samples: breakdown.sidecar_symbolicated_samples,
        instruction_count: breakdown.instructions.len(),
        returned_instruction_count: instructions.len(),
        source_line_count: breakdown.source_lines.len(),
        returned_source_line_count: source_lines.len(),
        instructions,
        source_lines,
    }
}

}
