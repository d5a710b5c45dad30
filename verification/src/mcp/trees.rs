//! Call trees and collapsed stacks of threads.
use crate::analysis::call_tree;
use crate::analysis::call_tree::{CallTreeNode, FocusedCallTree, StartFacts};
use crate::analysis::functions::FunctionStats;
use crate::analysis::samples::AnalysisRange;
use crate::c2c::filter::borrowed;
use crate::filters;
use crate::filters::FrameNameFilter;
use crate::mcp::analysis_cache::AnalysisCache;
use crate::mcp::functions;
use crate::mcp::scope;
use crate::mcp::scope::Scope;
use crate::mcp::summary;
use crate::mcp::summary::{EffectiveTimeRange, Rate, ThreadInfo};
use crate::mcp::threads::ThreadScopeSelection;
use crate::profile::resolved::{ResolvedProfile, ResolvedThread};
use crate::text;
use crate::units::{Ratio, TimeValue};
use vstd::prelude::*;

verus! {

/// A request for a call tree.
#[derive(Debug)]
pub struct CallTreeRequest {
    pub path: String,
    pub start_time_ms: Option<TimeValue>,
    pub end_time_ms: Option<TimeValue>,
    pub thread: Option<String>,
    pub tid: Option<String>,
    pub thread_index: Option<usize>,
    pub thread_name_prefix: Option<String>,
    pub thread_name_prefixes: Vec<String>,
    pub focus_function: Option<String>,
    pub focus_function_id: Option<String>,
    pub match_mode: String,
    pub max_depth: usize,
    /// In millionths of a percent.
    pub min_percent: i64,
    pub exclude_framework: bool,
    pub user_code_only: bool,
    pub short_names: bool,
    pub include_names: Option<String>,
    pub exclude_names: Option<String>,
    pub include_regex: Option<String>,
    pub exclude_regex: Option<String>,
    pub include_threads: bool,
}

/// A call tree.
#[derive(Debug)]
pub struct CallTreeResult {
    pub effective_range: EffectiveTimeRange,
    pub scope: String,
    pub thread: Option<String>,
    pub tid: Option<String>,
    pub thread_index: Option<usize>,
    pub thread_count: usize,
    pub sample_count: usize,
    pub wall_time_ms: u64,
    pub cpu_sample_time_ms: u64,
    pub cpu_sample_percent_of_wall: Ratio,
    pub samples_per_second: Rate,
    pub threads: Vec<ThreadInfo>,
    pub focus_function: Option<String>,
    pub focus_function_id: Option<String>,
    pub focus_display_name: Option<String>,
    pub matched_samples: Option<usize>,
    pub focused_time_ms: Option<u64>,
    pub focused_percent: Option<Ratio>,
    pub tree: String,
}

/// How a tree is drawn.
#[derive(Clone, Copy)]
pub struct Drawing {
    pub max_depth: usize,
    /// In millionths of a percent.
    pub min_percent: i64,
    pub short_names: bool,
}

/// Whether a text draws the call tree of threads.
pub open spec fn draws_tree(
    drawn: Seq<char>,
    threads: Seq<&ResolvedThread>,
    interval: u64,
    range: AnalysisRange,
    d: Drawing,
    filter: FrameNameFilter,
) -> bool {
    exists|t: CallTreeNode| #[trigger]
        call_tree::is_call_tree(
            t,
            threads,
            interval,
            Some(range),
            d.max_depth,
            d.min_percent as int,
            filter,
        ) && drawn == call_tree::rendered(t, 0, d.max_depth as int, d.short_names, false)
}

/// A tree below a function, drawn.
#[derive(Debug)]
pub struct DrawnFocus {
    pub sample_count: usize,
    pub total_samples: usize,
    pub focused_time_ms: u64,
    pub focused_percent: Ratio,
    pub tree: String,
}

/// Whether a drawn tree, if there is one, is that below a function.
pub open spec fn draws_focus(
    r: Option<DrawnFocus>,
    name: Seq<char>,
    start: StartFacts,
    threads: Seq<&ResolvedThread>,
    interval: u64,
    range: AnalysisRange,
    d: Drawing,
    filter: FrameNameFilter,
) -> bool {
    exists|t: Option<FocusedCallTree>| #[trigger]
        call_tree::is_focused_tree(
            t,
            name,
            start,
            threads,
            interval,
            Some(range),
            d.max_depth,
            d.min_percent as int,
            filter,
        ) && match (r, t) {
            (Some(drawn), Some(t)) => drawn.sample_count == t.sample_count && drawn.total_samples
                == t.total_samples && drawn.focused_time_ms == t.focused_time_ms
                && drawn.focused_percent == t.focused_percent && drawn.tree@ == call_tree::rendered(
                t.tree,
                0,
                d.max_depth as int,
                d.short_names,
                true,
            ),
            (None, None) => true,
            _ => false,
        }
}

/// Draws the call tree of threads.
pub fn draw_tree(
    threads: &Vec<&ResolvedThread>,
    interval_ms: u64,
    range: &AnalysisRange,
    d: Drawing,
    filter: &FrameNameFilter,
) -> (r: String)
    ensures
        draws_tree(r@, threads@, interval_ms, *range, d, *filter),
{
    let tree = call_tree::build_call_tree_for_threads_with_filter(
        threads,
        interval_ms,
        Some(range),
        d.max_depth,
        d.min_percent,
        filter,
    );
    tree.render_text_with_options(d.max_depth, d.short_names, false)
}

/// Draws a tree below a function, if there is one.
fn draw_focused(t: Option<FocusedCallTree>, d: Drawing) -> (r: Option<DrawnFocus>)
    ensures
        match (r, t) {
            (Some(drawn), Some(t)) => drawn.sample_count == t.sample_count && drawn.total_samples
                == t.total_samples && drawn.focused_time_ms == t.focused_time_ms
                && drawn.focused_percent == t.focused_percent && drawn.tree@ == call_tree::rendered(
                t.tree,
                0,
                d.max_depth as int,
                d.short_names,
                true,
            ),
            (None, None) => true,
            _ => false,
        },
{
    match t {
        Some(t) => Some(
            DrawnFocus {
                sample_count: t.sample_count,
                total_samples: t.total_samples,
                focused_time_ms: t.focused_time_ms,
                focused_percent: t.focused_percent,
                tree: t.tree.render_text_with_options(d.max_depth, d.short_names, true),
            },
        ),
        None => None,
    }
}

/// Draws the call tree below a function.
pub fn draw_focus(
    threads: &Vec<&ResolvedThread>,
    interval_ms: u64,
    range: &AnalysisRange,
    name: &str,
    d: Drawing,
    filter: &FrameNameFilter,
) -> (r: Option<DrawnFocus>)
    ensures
        draws_focus(
            r,
            name@,
            StartFacts::Function(name@),
            threads@,
            interval_ms,
            *range,
            d,
            *filter,
        ),
{
    let t = call_tree::build_focused_call_tree_for_threads_with_filter(
        threads,
        interval_ms,
        Some(range),
        name,
        d.max_depth,
        d.min_percent,
        filter,
    );
    draw_focused(t, d)
}

/// Draws the call tree below a function that has a caller above it.
pub fn draw_under_caller(
    threads: &Vec<&ResolvedThread>,
    interval_ms: u64,
    range: &AnalysisRange,
    name: &str,
    caller: &str,
    relationship: call_tree::CallerRelationship,
    d: Drawing,
    filter: &FrameNameFilter,
) -> (r: Option<DrawnFocus>)
    ensures
        draws_focus(
            r,
            name@,
            (StartFacts::UnderCaller { function: name@, caller: caller@, relationship }),
            threads@,
            interval_ms,
            *range,
            d,
            *filter,
        ),
{
    let t = call_tree::build_focused_call_tree_under_caller_with_filter(
        threads,
        interval_ms,
        Some(range),
        name,
        caller,
        relationship,
        d.max_depth,
        d.min_percent,
        filter,
    );
    draw_focused(t, d)
}

/// Why a function has no tree.
pub open spec fn absent_error(name: Seq<char>, scope: Seq<char>) -> Seq<char> {
    "Function '"@ + name + "' did not appear in any samples in scope "@ + scope
}

/// Why a function has no tree.
pub(crate) fn absent_message(name: &str, scope: &str) -> (r: String)
    ensures
        r@ == absent_error(name@, scope@),
{
    let mut s = "Function '".to_string();
    text::push_text(&mut s, name);
    text::push_text(&mut s, "' did not appear in any samples in scope ");
    text::push_text(&mut s, scope);
    s
}

impl CallTreeRequest {
    /// The window that the request asks for.
    pub open spec fn window(&self, p: ResolvedProfile) -> AnalysisRange {
        summary::window(p, self.start_time_ms, self.end_time_ms)
    }

    /// The threads that the request is about, or why there are none.
    pub open spec fn scope(&self, p: ResolvedProfile) -> Result<Scope, Seq<char>> {
        scope::narrow(
            p,
            self.start_time_ms,
            self.end_time_ms,
            self.thread,
            self.tid,
            self.thread_index,
            self.thread_name_prefix,
            self.thread_name_prefixes,
        )
    }

    /// How the tree is drawn.
    pub open spec fn drawing(&self) -> Drawing {
        Drawing {
            max_depth: self.max_depth,
            min_percent: self.min_percent,
            short_names: self.short_names,
        }
    }

    /// Whether a filter is the one that the request describes.
    pub open spec fn has_filter(&self, filter: FrameNameFilter) -> bool {
        filter.is_requested(
            text::opt(self.include_names),
            text::opt(self.exclude_names),
            text::opt(self.include_regex),
            text::opt(self.exclude_regex),
            self.exclude_framework || self.user_code_only,
        )
    }

    /// Whether the request asks for the tree below a function.
    pub open spec fn wants_focus(&self) -> bool {
        self.focus_function is Some || self.focus_function_id is Some
    }

    /// The function that the request means, by the tables of the threads.
    pub open spec fn focus(&self, tables: Seq<Seq<FunctionStats>>, indices: Seq<usize>) -> Option<
        Seq<char>,
    > {
        functions::meant(
            functions::rows_in(tables, Some(indices), tables.len() as int),
            text::opt(self.focus_function),
            text::opt(self.focus_function_id),
            self.match_mode@,
        )
    }
}

/// Whether a report tells of the threads of a scope.
pub open spec fn tells_scope(
    r: CallTreeResult,
    p: ResolvedProfile,
    req: CallTreeRequest,
    scope: Scope,
) -> bool {
    let range = req.window(p);
    let sum = summary::summary_of(p, scope.indices, Some(range));
    &&& r.effective_range == summary::range_row(range)
    &&& r.scope@ == scope.name
    &&& scope::tells_thread(r.thread, r.tid, r.thread_index, p, scope)
    &&& r.thread_count == scope.indices.len()
    &&& r.sample_count == sum.sample_count
    &&& r.wall_time_ms == sum.wall_time_ms
    &&& r.cpu_sample_time_ms == sum.cpu_sample_time_ms
    &&& r.cpu_sample_percent_of_wall == sum.cpu_sample_percent_of_wall
    &&& r.samples_per_second == sum.samples_per_second
    &&& scope::lists_threads(r.threads@, req.include_threads, p, scope.indices, range)
}

/// Whether an outcome tells of the tree below a function, if there is one.
pub open spec fn tells_focus(
    r: Result<CallTreeResult, String>,
    p: ResolvedProfile,
    req: CallTreeRequest,
    scope: Scope,
    name: Seq<char>,
    drawn: Option<DrawnFocus>,
) -> bool {
    match (r, drawn) {
        (Ok(report), Some(drawn)) => tells_scope(report, p, req, scope) && scope::names_focus(
            report.focus_function,
            report.focus_function_id,
            report.focus_display_name,
            Some(name),
        ) && report.matched_samples == Some(drawn.sample_count) && report.focused_time_ms == Some(
            drawn.focused_time_ms,
        ) && report.focused_percent == Some(drawn.focused_percent) && report.tree@ == drawn.tree@,
        (Err(e), None) => e@ == absent_error(name, scope.name),
        _ => false,
    }
}

/// Whether an outcome answers a request for the tree below a function.
pub open spec fn answers_focus(
    r: Result<CallTreeResult, String>,
    p: ResolvedProfile,
    req: CallTreeRequest,
    scope: Scope,
    name: Seq<char>,
    filter: FrameNameFilter,
) -> bool {
    exists|drawn: Option<DrawnFocus>| #[trigger]
        draws_focus(
            drawn,
            name,
            StartFacts::Function(name),
            scope::members(&p, scope.indices),
            p.interval_ms,
            req.window(p),
            req.drawing(),
            filter,
        ) && tells_focus(r, p, req, scope, name, drawn)
}

/// Whether an outcome answers a request for a call tree, by the tables of the
/// threads and a filter.
pub open spec fn answers_call_tree(
    r: Result<CallTreeResult, String>,
    p: ResolvedProfile,
    req: CallTreeRequest,
    scope: Scope,
    tables: Seq<Seq<FunctionStats>>,
    filter: FrameNameFilter,
) -> bool {
    let threads = scope::members(&p, scope.indices);
    let range = req.window(p);
    if !req.wants_focus() {
        match r {
            Ok(report) => tells_scope(report, p, req, scope) && scope::names_focus(
                report.focus_function,
                report.focus_function_id,
                report.focus_display_name,
                None,
            ) && report.matched_samples is None && report.focused_time_ms is None
                && report.focused_percent is None && draws_tree(
                report.tree@,
                threads,
                p.interval_ms,
                range,
                req.drawing(),
                filter,
            ),
            Err(e) => false,
        }
    } else {
        match req.focus(tables, scope.indices) {
            None => r matches Err(e) && e@
                == "Focus function not found in selected thread scope. Provide focus_function_id or focus_function; try profile_search_functions first."@,
            Some(name) => answers_focus(r, p, req, scope, name, filter),
        }
    }
}

/// Whether an outcome answers a request for a call tree in a scope.
pub open spec fn reports_call_tree(
    r: Result<CallTreeResult, String>,
    p: ResolvedProfile,
    req: CallTreeRequest,
    scope: Scope,
) -> bool {
    match filters::request_error(text::opt(req.include_regex), text::opt(req.exclude_regex)) {
        Some(e) => r matches Err(message) && message@ == e,
        None => exists|tables: Seq<Seq<FunctionStats>>, filter: FrameNameFilter|
            #![trigger functions::tables_for(tables, p, scope.indices, req.window(p)), req.has_filter(filter)]
            functions::tables_for(tables, p, scope.indices, req.window(p)) && req.has_filter(filter)
                && answers_call_tree(r, p, req, scope, tables, filter),
    }
}

/// The call tree of selected threads, by their tables and a filter.
pub fn call_tree_in_scope(
    profile: &ResolvedProfile,
    req: &CallTreeRequest,
    range: &AnalysisRange,
    selection: &ThreadScopeSelection,
    tables: &Vec<Vec<FunctionStats>>,
    filter: &FrameNameFilter,
) -> (r: Result<CallTreeResult, String>)
    requires
        *range == req.window(*profile),
        scope::leads_into(*selection, *profile),
        tables@.len() == profile.threads@.len(),
    ensures
        answers_call_tree(
            r,
            *profile,
            *req,
            scope::scope_in(*selection),
            functions::table_rows(tables@),
            *filter,
        ),
{
    let ghost scope = scope::scope_in(*selection);
    let ghost views = functions::table_rows(tables@);
    let threads = scope::refer_threads(profile, &selection.thread_indices);
    let d = Drawing {
        max_depth: req.max_depth,
        min_percent: req.min_percent,
        short_names: req.short_names,
    };
    let mut focus: Option<String> = None;
    let mut matched_samples: Option<usize> = None;
    let mut focused_time_ms: Option<u64> = None;
    let mut focused_percent: Option<Ratio> = None;
    let tree: String;
    let ghost mut witness: Option<DrawnFocus> = None;
    if req.focus_function.is_some() || req.focus_function_id.is_some() {
        let name: String = match functions::resolve_function_name_in_threads(
            tables,
            borrowed(&req.focus_function),
            borrowed(&req.focus_function_id),
            req.match_mode.as_str(),
            Some(&selection.thread_indices),
        ) {
            Some(name) => name,
            None => {
                return Err(
                    "Focus function not found in selected thread scope. Provide focus_function_id or focus_function; try profile_search_functions first.".to_string(),
                );
            },
        };
        let drawn = draw_focus(&threads, profile.interval_ms, range, name.as_str(), d, filter);
        proof {
            witness = drawn;
            assert(draws_focus(
                witness,
                name@,
                StartFacts::Function(name@),
                scope::members(profile, scope.indices),
                profile.interval_ms,
                req.window(*profile),
                req.drawing(),
                *filter,
            ));
        }
        match drawn {
            Some(drawn) => {
                matched_samples = Some(drawn.sample_count);
                focused_time_ms = Some(drawn.focused_time_ms);
                focused_percent = Some(drawn.focused_percent);
                tree = drawn.tree;
            },
            None => {
                let r: Result<CallTreeResult, String> = Err(
                    absent_message(name.as_str(), selection.scope.as_str()),
                );
                assert(tells_focus(r, *profile, *req, scope, name@, witness));
                assert(answers_focus(r, *profile, *req, scope, name@, *filter));
                return r;
            },
        }
        focus = Some(name);
    } else {
        tree = draw_tree(&threads, profile.interval_ms, range, d, filter);
    }
    let (focus_function, focus_function_id, focus_display_name) = scope::focus_fields(&focus);
    let sum = summary::thread_sample_summary(profile, &selection.thread_indices, Some(range));
    let (thread, tid, thread_index) = scope::thread_fields(selection, Ghost(*profile));
    let report = CallTreeResult {
        effective_range: summary::effective_time_range(range),
        scope: selection.scope.clone(),
        thread,
        tid,
        thread_index,
        thread_count: selection.thread_indices.len(),
        sample_count: sum.sample_count,
        wall_time_ms: sum.wall_time_ms,
        cpu_sample_time_ms: sum.cpu_sample_time_ms,
        cpu_sample_percent_of_wall: sum.cpu_sample_percent_of_wall,
        samples_per_second: sum.samples_per_second,
        threads: scope::list_threads(profile, req.include_threads, &selection.thread_indices, range),
        focus_function,
        focus_function_id,
        focus_display_name,
        matched_samples,
        focused_time_ms,
        focused_percent,
        tree,
    };
    assert(tells_scope(report, *profile, *req, scope));
    let r: Result<CallTreeResult, String> = Ok(report);
    proof {
        if req.wants_focus() {
            let name = text::opt(focus)->0;
            assert(tells_focus(r, *profile, *req, scope, name, witness));
            assert(answers_focus(r, *profile, *req, scope, name, *filter));
        }
    }
    r
}

/// The call tree of threads.
pub fn profile_call_tree(
    profile: &ResolvedProfile,
    cache: &mut AnalysisCache,
    req: &CallTreeRequest,
) -> (r: Result<CallTreeResult, String>)
    requires
        old(cache).belongs_to(*profile),
    ensures
        old(cache).grows_into(*final(cache), *profile),
        match req.scope(*profile) {
            Err(e) => r matches Err(message) && message@ == e,
            Ok(scope) => reports_call_tree(r, *profile, *req, scope),
        },
{
    let (range, selection) = match scope::choose_narrow(
        profile,
        req.start_time_ms,
        req.end_time_ms,
        &req.thread,
        &req.tid,
        req.thread_index,
        &req.thread_name_prefix,
        &req.thread_name_prefixes,
    ) {
        Ok(found) => found,
        Err(e) => {
            return Err(e);
        },
    };
    let exclude_framework: bool = functions::exclude_framework_enabled(
        req.exclude_framework,
        req.user_code_only,
    );
    let filter = match FrameNameFilter::new(
        &req.include_names,
        &req.exclude_names,
        &req.include_regex,
        &req.exclude_regex,
        exclude_framework,
    ) {
        Ok(filter) => filter,
        Err(e) => {
            return Err(e);
        },
    };
    let tables = functions::function_stats_for_threads(profile, cache, &selection.thread_indices, &range);
    let r = call_tree_in_scope(profile, req, &range, &selection, &tables, &filter);
    proof {
        let views = functions::table_rows(tables@);
        assert(functions::tables_for(views, *profile, scope::scope_in(selection).indices, range));
        assert(req.has_filter(filter));
        assert(reports_call_tree(r, *profile, *req, scope::scope_in(selection)));
    }
    r
}

}
