//! Collapsed stacks of threads.
use crate::analysis::flamegraph;
use crate::analysis::functions::FunctionStats;
use crate::analysis::samples::AnalysisRange;
use crate::c2c::filter::borrowed;
use crate::filters::FrameNameFilter;
use crate::mcp::analysis_cache::AnalysisCache;
use crate::mcp::functions;
use crate::mcp::scope;
use crate::mcp::scope::Scope;
use crate::mcp::summary;
use crate::mcp::summary::{EffectiveTimeRange, ThreadInfo};
use crate::mcp::threads::ThreadScopeSelection;
use crate::profile::resolved::{ResolvedProfile, ResolvedThread};
use crate::text;
use crate::units::TimeValue;
use vstd::prelude::*;

verus! {

/// A request for collapsed stacks.
#[derive(Debug)]
pub struct FlamegraphRequest {
    pub path: String,
    pub start_time_ms: Option<TimeValue>,
    pub end_time_ms: Option<TimeValue>,
    pub thread: Option<String>,
    pub tid: Option<String>,
    pub thread_index: Option<usize>,
    pub thread_name_prefix: Option<String>,
    pub thread_name_prefixes: Vec<String>,
    pub focus_function: Option<String>,
    pub focus_function_id: Option<String>,
    pub match_mode: String,
    pub exclude_framework: bool,
    pub user_code_only: bool,
    pub short_names: bool,
}

/// Collapsed stacks.
#[derive(Debug)]
pub struct FlamegraphResult {
    pub effective_range: EffectiveTimeRange,
    pub scope: String,
    pub thread: Option<String>,
    pub tid: Option<String>,
    pub thread_index: Option<usize>,
    pub thread_count: usize,
    pub threads: Vec<ThreadInfo>,
    pub focus_function: Option<String>,
    pub focus_function_id: Option<String>,
    pub focus_display_name: Option<String>,
    pub collapsed_stacks: String,
}

/// The text of the collapsed stacks of threads.
pub open spec fn stacks_text(
    threads: Seq<&ResolvedThread>,
    range: AnalysisRange,
    focus: Option<Seq<char>>,
    filter: FrameNameFilter,
    short_names: bool,
) -> Seq<char> {
    let rows = flamegraph::flame_rows(
        flamegraph::all_lines(
            threads,
            Some(range),
            focus,
            filter,
            short_names,
            threads.len() as int,
        ),
    );
    flamegraph::rows_text(rows, rows.len() as int)
}

/// Whether a text holds the collapsed stacks of threads.
pub open spec fn tells_stacks(
    drawn: Seq<char>,
    threads: Seq<&ResolvedThread>,
    range: AnalysisRange,
    focus: Option<Seq<char>>,
    exclude_framework: bool,
    short_names: bool,
) -> bool {
    exists|filter: FrameNameFilter| #[trigger]
        filter.is_framework_filter(exclude_framework) && drawn == stacks_text(
            threads,
            range,
            focus,
            filter,
            short_names,
        )
}

impl FlamegraphRequest {
    /// The window that the request asks for.
    pub open spec fn window(&self, p: ResolvedProfile) -> AnalysisRange {
        summary::window(p, self.start_time_ms, self.end_time_ms)
    }

    /// The threads that the request is about, or why there are none.
    pub open spec fn scope(&self, p: ResolvedProfile) -> Result<Scope, Seq<char>> {
        scope::narrow(
            p,
            self.start_time_ms,
            self.end_time_ms,
            self.thread,
            self.tid,
            self.thread_index,
            self.thread_name_prefix,
            self.thread_name_prefixes,
        )
    }

    /// Whether the request asks for the stacks below a function.
    pub open spec fn wants_focus(&self) -> bool {
        self.focus_function is Some || self.focus_function_id is Some
    }

    /// The function that the request means, by the tables of the threads.
    pub open spec fn focus(&self, tables: Seq<Seq<FunctionStats>>, indices: Seq<usize>) -> Option<
        Seq<char>,
    > {
        functions::meant(
            functions::rows_in(tables, Some(indices), tables.len() as int),
            text::opt(self.focus_function),
            text::opt(self.focus_function_id),
            self.match_mode@,
        )
    }
}

/// Why a request that means no function fails.
pub open spec fn missing_error(scope: Seq<char>) -> Seq<char> {
    "Focus function not found in scope "@ + scope + ". Try profile_search_functions first."@
}

/// Whether a report holds the collapsed stacks of a scope.
pub open spec fn tells_flamegraph(
    r: FlamegraphResult,
    p: ResolvedProfile,
    req: FlamegraphRequest,
    scope: Scope,
    focus: Option<Seq<char>>,
) -> bool {
    let range = req.window(p);
    &&& r.effective_range == summary::range_row(range)
    &&& r.scope@ == scope.name
    &&& scope::tells_thread(r.thread, r.tid, r.thread_index, p, scope)
    &&& r.thread_count == scope.indices.len()
    &&& summary::thread_rows(r.threads@, p, scope.indices, Some(range))
    &&& scope::names_focus(r.focus_function, r.focus_function_id, r.focus_display_name, focus)
    &&& tells_stacks(
        r.collapsed_stacks@,
        scope::members(&p, scope.indices),
        range,
        focus,
        req.exclude_framework || req.user_code_only,
        req.short_names,
    )
}

/// Whether an outcome answers a request for collapsed stacks, by the tables of
/// the threads.
pub open spec fn answers_flamegraph(
    r: Result<FlamegraphResult, String>,
    p: ResolvedProfile,
    req: FlamegraphRequest,
    scope: Scope,
    tables: Seq<Seq<FunctionStats>>,
) -> bool {
    let focus = req.focus(tables, scope.indices);
    match r {
        Ok(report) => if req.wants_focus() {
            focus is Some && tells_flamegraph(report, p, req, scope, focus)
        } else {
            tells_flamegraph(report, p, req, scope, None)
        },
        Err(e) => req.wants_focus() && focus is None && e@ == missing_error(scope.name),
    }
}

/// Whether an outcome answers a request for collapsed stacks.
pub open spec fn reports_flamegraph(
    r: Result<FlamegraphResult, String>,
    p: ResolvedProfile,
    req: FlamegraphRequest,
    scope: Scope,
) -> bool {
    exists|tables: Seq<Seq<FunctionStats>>| #[trigger]
        functions::tables_for(tables, p, scope.indices, req.window(p)) && answers_flamegraph(
            r,
            p,
            req,
            scope,
            tables,
        )
}

/// The collapsed stacks of selected threads, by their tables.
pub fn flamegraph_in_scope(
    profile: &ResolvedProfile,
    req: &FlamegraphRequest,
    range: &AnalysisRange,
    selection: &ThreadScopeSelection,
    tables: &Vec<Vec<FunctionStats>>,
) -> (r: Result<FlamegraphResult, String>)
    requires
        *range == req.window(*profile),
        scope::leads_into(*selection, *profile),
        tables@.len() == profile.threads@.len(),
    ensures
        answers_flamegraph(
            r,
            *profile,
            *req,
            scope::scope_in(*selection),
            functions::table_rows(tables@),
        ),
{
    let ghost found = scope::scope_in(*selection);
    let threads = scope::refer_threads(profile, &selection.thread_indices);
    let mut focus: Option<String> = None;
    if req.focus_function.is_some() || req.focus_function_id.is_some() {
        match functions::resolve_function_name_in_threads(
            tables,
            borrowed(&req.focus_function),
            borrowed(&req.focus_function_id),
            req.match_mode.as_str(),
            Some(&selection.thread_indices),
        ) {
            Some(name) => {
                focus = Some(name);
            },
            None => {
                let mut s = "Focus function not found in scope ".to_string();
                text::push_text(&mut s, selection.scope.as_str());
                text::push_text(&mut s, ". Try profile_search_functions first.");
                return Err(s);
            },
        }
    }
    let exclude_framework: bool = functions::exclude_framework_enabled(
        req.exclude_framework,
        req.user_code_only,
    );
    let filter = FrameNameFilter::framework_only(exclude_framework);
    let collapsed_stacks = flamegraph::collapsed_stacks_for_threads_with_options(
        &threads,
        Some(range),
        borrowed(&focus),
        &filter,
        req.short_names,
    );
    assert(tells_stacks(
        collapsed_stacks@,
        scope::members(profile, found.indices),
        req.window(*profile),
        text::opt(focus),
        req.exclude_framework || req.user_code_only,
        req.short_names,
    )) by {
        assert(filter.is_framework_filter(req.exclude_framework || req.user_code_only));
        assert(collapsed_stacks@ == stacks_text(
            scope::members(profile, found.indices),
            req.window(*profile),
            text::opt(focus),
            filter,
            req.short_names,
        ));
    }
    let (focus_function, focus_function_id, focus_display_name) = scope::focus_fields(&focus);
    let (thread, tid, thread_index) = scope::thread_fields(selection, Ghost(*profile));
    let report = FlamegraphResult {
        effective_range: summary::effective_time_range(range),
        scope: selection.scope.clone(),
        thread,
        tid,
        thread_index,
        thread_count: selection.thread_indices.len(),
        threads: summary::thread_infos(profile, &selection.thread_indices, Some(range)),
        focus_function,
        focus_function_id,
        focus_display_name,
        collapsed_stacks,
    };
    assert(tells_flamegraph(report, *profile, *req, found, text::opt(focus)));
    Ok(report)
}

/// The collapsed stacks of threads.
pub fn profile_flamegraph(
    profile: &ResolvedProfile,
    cache: &mut AnalysisCache,
    req: &FlamegraphRequest,
) -> (r: Result<FlamegraphResult, String>)
    requires
        old(cache).belongs_to(*profile),
    ensures
        old(cache).grows_into(*final(cache), *profile),
        match req.scope(*profile) {
            Err(e) => r matches Err(message) && message@ == e,
            Ok(scope) => reports_flamegraph(r, *profile, *req, scope),
        },
{
    let (range, selection) = match scope::choose_narrow(
        profile,
        req.start_time_ms,
        req.end_time_ms,
        &req.thread,
        &req.tid,
        req.thread_index,
        &req.thread_name_prefix,
        &req.thread_name_prefixes,
    ) {
        Ok(found) => found,
        Err(e) => {
            return Err(e);
        },
    };
    let tables = functions::function_stats_for_threads(profile, cache, &selection.thread_indices, &range);
    let r = flamegraph_in_scope(profile, req, &range, &selection, &tables);
    proof {
        let views = functions::table_rows(tables@);
        assert(functions::tables_for(views, *profile, scope::scope_in(selection).indices, range));
        assert(reports_flamegraph(r, *profile, *req, scope::scope_in(selection)));
    }
    r
}

}
