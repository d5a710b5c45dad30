//! The call tree below a function.
use crate::analysis::call_tree::StartFacts;
use crate::analysis::functions::FunctionStats;
use crate::analysis::samples::AnalysisRange;
use crate::analysis::symbols;
use crate::c2c::filter::borrowed;
use crate::filters;
use crate::filters::FrameNameFilter;
use crate::mcp::analysis_cache::AnalysisCache;
use crate::mcp::functions;
use crate::mcp::scope;
use crate::mcp::scope::Scope;
use crate::mcp::summary;
use crate::mcp::summary::{EffectiveTimeRange, Rate, ThreadInfo};
use crate::mcp::threads::ThreadScopeSelection;
use crate::mcp::trees;
use crate::mcp::trees::{DrawnFocus, Drawing};
use crate::profile::resolved::ResolvedProfile;
use crate::text;
use crate::units::{Ratio, TimeValue};
use vstd::prelude::*;

verus! {

/// A request for the call tree below a function.
#[derive(Debug)]
pub struct FocusFunctionRequest {
    pub path: String,
    pub start_time_ms: Option<TimeValue>,
    pub end_time_ms: Option<TimeValue>,
    pub query: Option<String>,
    pub function_id: Option<String>,
    pub match_mode: String,
    pub thread: Option<String>,
    pub tid: Option<String>,
    pub thread_index: Option<usize>,
    pub thread_name_prefix: Option<String>,
    pub thread_name_prefixes: Vec<String>,
    pub max_depth: usize,
    /// In millionths of a percent.
    pub min_percent: i64,
    pub exclude_framework: bool,
    pub user_code_only: bool,
    pub short_names: bool,
    pub include_names: Option<String>,
    pub exclude_names: Option<String>,
    pub include_regex: Option<String>,
    pub exclude_regex: Option<String>,
    pub include_threads: bool,
}

/// The call tree below a function.
#[derive(Debug)]
pub struct FocusFunctionResult {
    pub effective_range: EffectiveTimeRange,
    pub scope: String,
    pub thread: Option<String>,
    pub tid: Option<String>,
    pub thread_index: Option<usize>,
    pub thread_count: usize,
    pub threads: Vec<ThreadInfo>,
    pub function_id: String,
    pub function_name: String,
    pub display_name: String,
    pub matched_samples: usize,
    pub total_thread_samples: usize,
    pub total_scope_samples: usize,
    pub wall_time_ms: u64,
    pub cpu_sample_time_ms: u64,
    pub cpu_sample_percent_of_wall: Ratio,
    pub samples_per_second: Rate,
    pub focused_percent: Ratio,
    pub focused_time_ms: u64,
    pub tree: String,
}

impl FocusFunctionRequest {
    /// The window that the request asks for.
    pub open spec fn window(&self, p: ResolvedProfile) -> AnalysisRange {
        summary::window(p, self.start_time_ms, self.end_time_ms)
    }

    /// The threads that the request is about, or why there are none.
    pub open spec fn scope(&self, p: ResolvedProfile) -> Result<Scope, Seq<char>> {
        scope::narrow(
            p,
            self.start_time_ms,
            self.end_time_ms,
            self.thread,
            self.tid,
            self.thread_index,
            self.thread_name_prefix,
            self.thread_name_prefixes,
        )
    }

    /// How the tree is drawn.
    pub open spec fn drawing(&self) -> Drawing {
        Drawing {
            max_depth: self.max_depth,
            min_percent: self.min_percent,
            short_names: self.short_names,
        }
    }

    /// Whether a filter is the one that the request describes.
    pub open spec fn has_filter(&self, filter: FrameNameFilter) -> bool {
        filter.is_requested(
            text::opt(self.include_names),
            text::opt(self.exclude_names),
            text::opt(self.include_regex),
            text::opt(self.exclude_regex),
            self.exclude_framework || self.user_code_only,
        )
    }

    /// Why the request has no filter.
    pub open spec fn filter_error(&self) -> Option<Seq<char>> {
        filters::request_error(text::opt(self.include_regex), text::opt(self.exclude_regex))
    }

    /// The function that the request means, by the tables of the threads.
    pub open spec fn function(&self, tables: Seq<Seq<FunctionStats>>, indices: Seq<usize>) -> Option<
        Seq<char>,
    > {
        functions::meant(
            functions::rows_in(tables, Some(indices), tables.len() as int),
            text::opt(self.query),
            text::opt(self.function_id),
            self.match_mode@,
        )
    }
}

/// Why a request that means no function fails.
pub open spec fn missing_error(scope: Seq<char>) -> Seq<char> {
    "Function not found in scope "@ + scope
        + ". Provide function_id or query; try profile_search_functions first."@
}

/// Why a request that means no function fails.
pub(crate) fn missing_message(scope: &str) -> (r: String)
    ensures
        r@ == missing_error(scope@),
{
    let mut s = "Function not found in scope ".to_string();
    text::push_text(&mut s, scope);
    text::push_text(
        &mut s,
        ". Provide function_id or query; try profile_search_functions first.",
    );
    s
}

/// Whether a report tells of a drawn tree below a function.
pub open spec fn tells_tree(
    r: FocusFunctionResult,
    p: ResolvedProfile,
    req: FocusFunctionRequest,
    scope: Scope,
    name: Seq<char>,
    drawn: DrawnFocus,
) -> bool {
    let range = req.window(p);
    let sum = summary::summary_of(p, scope.indices, Some(range));
    &&& r.effective_range == summary::range_row(range)
    &&& r.scope@ == scope.name
    &&& scope::tells_thread(r.thread, r.tid, r.thread_index, p, scope)
    &&& r.thread_count == scope.indices.len()
    &&& scope::lists_threads(r.threads@, req.include_threads, p, scope.indices, range)
    &&& r.function_name@ == name
    &&& r.function_id@ == symbols::id_of(name)
    &&& r.display_name@ == symbols::compact_of(name)
    &&& r.matched_samples == drawn.sample_count
    &&& r.total_thread_samples == drawn.total_samples
    &&& r.total_scope_samples == drawn.total_samples
    &&& r.wall_time_ms == sum.wall_time_ms
    &&& r.cpu_sample_time_ms == sum.cpu_sample_time_ms
    &&& r.cpu_sample_percent_of_wall == sum.cpu_sample_percent_of_wall
    &&& r.samples_per_second == sum.samples_per_second
    &&& r.focused_percent == drawn.focused_percent
    &&& r.focused_time_ms == drawn.focused_time_ms
    &&& r.tree@ == drawn.tree@
}

/// Whether an outcome tells of the tree below a function, if there is one.
pub open spec fn tells_focus(
    r: Result<FocusFunctionResult, String>,
    p: ResolvedProfile,
    req: FocusFunctionRequest,
    scope: Scope,
    name: Seq<char>,
    drawn: Option<DrawnFocus>,
) -> bool {
    match (r, drawn) {
        (Ok(report), Some(drawn)) => tells_tree(report, p, req, scope, name, drawn),
        (Err(e), None) => e@ == trees::absent_error(name, scope.name),
        _ => false,
    }
}

/// Whether an outcome tells of the tree below a function, as a filter has it.
pub open spec fn answers_tree(
    r: Result<FocusFunctionResult, String>,
    p: ResolvedProfile,
    req: FocusFunctionRequest,
    scope: Scope,
    name: Seq<char>,
) -> bool {
    exists|filter: FrameNameFilter, drawn: Option<DrawnFocus>|
        #![trigger req.has_filter(filter), tells_focus(r, p, req, scope, name, drawn)]
        req.has_filter(filter) && trees::draws_focus(
            drawn,
            name,
            StartFacts::Function(name),
            scope::members(&p, scope.indices),
            p.interval_ms,
            req.window(p),
            req.drawing(),
            filter,
        ) && tells_focus(r, p, req, scope, name, drawn)
}

/// Whether an outcome answers a request for the tree below a function, by the
/// tables of the threads.
pub open spec fn answers_focus(
    r: Result<FocusFunctionResult, String>,
    p: ResolvedProfile,
    req: FocusFunctionRequest,
    scope: Scope,
    tables: Seq<Seq<FunctionStats>>,
) -> bool {
    match req.function(tables, scope.indices) {
        None => r matches Err(e) && e@ == missing_error(scope.name),
        Some(name) => match req.filter_error() {
            Some(e) => r matches Err(message) && message@ == e,
            None => answers_tree(r, p, req, scope, name),
        },
    }
}

/// Whether an outcome answers a request for the tree below a function.
pub open spec fn reports_focus(
    r: Result<FocusFunctionResult, String>,
    p: ResolvedProfile,
    req: FocusFunctionRequest,
    scope: Scope,
) -> bool {
    exists|tables: Seq<Seq<FunctionStats>>| #[trigger]
        functions::tables_for(tables, p, scope.indices, req.window(p)) && answers_focus(
            r,
            p,
            req,
            scope,
            tables,
        )
}

/// The call tree below a function of selected threads, by their tables.
pub fn focus_in_scope(
    profile: &ResolvedProfile,
    req: &FocusFunctionRequest,
    range: &AnalysisRange,
    selection: &ThreadScopeSelection,
    tables: &Vec<Vec<FunctionStats>>,
) -> (r: Result<FocusFunctionResult, String>)
    requires
        *range == req.window(*profile),
        scope::leads_into(*selection, *profile),
        tables@.len() == profile.threads@.len(),
    ensures
        answers_focus(
            r,
            *profile,
            *req,
            scope::scope_in(*selection),
            functions::table_rows(tables@),
        ),
{
    let ghost found = scope::scope_in(*selection);
    let threads = scope::refer_threads(profile, &selection.thread_indices);
    let function_name: String = match functions::resolve_function_name_in_threads(
        tables,
        borrowed(&req.query),
        borrowed(&req.function_id),
        req.match_mode.as_str(),
        Some(&selection.thread_indices),
    ) {
        Some(name) => name,
        None => {
            return Err(missing_message(selection.scope.as_str()));
        },
    };
    let ghost name = function_name@;
    let exclude_framework: bool = functions::exclude_framework_enabled(
        req.exclude_framework,
        req.user_code_only,
    );
    let filter = match FrameNameFilter::new(
        &req.include_names,
        &req.exclude_names,
        &req.include_regex,
        &req.exclude_regex,
        exclude_framework,
    ) {
        Ok(filter) => filter,
        Err(e) => {
            return Err(e);
        },
    };
    assert(req.has_filter(filter));
    let d = Drawing {
        max_depth: req.max_depth,
        min_percent: req.min_percent,
        short_names: req.short_names,
    };
    let drawn = trees::draw_focus(
        &threads,
        profile.interval_ms,
        range,
        function_name.as_str(),
        d,
        &filter,
    );
    let ghost witness = drawn;
    assert(trees::draws_focus(
        witness,
        name,
        StartFacts::Function(name),
        scope::members(profile, found.indices),
        profile.interval_ms,
        req.window(*profile),
        req.drawing(),
        filter,
    ));
    let focused = match drawn {
        Some(focused) => focused,
        None => {
            let r: Result<FocusFunctionResult, String> = Err(
                trees::absent_message(function_name.as_str(), selection.scope.as_str()),
            );
            assert(tells_focus(r, *profile, *req, found, name, witness));
            assert(answers_tree(r, *profile, *req, found, name));
            return r;
        },
    };
    let sum = summary::thread_sample_summary(profile, &selection.thread_indices, Some(range));
    let (thread, tid, thread_index) = scope::thread_fields(selection, Ghost(*profile));
    let report = FocusFunctionResult {
        effective_range: summary::effective_time_range(range),
        scope: selection.scope.clone(),
        thread,
        tid,
        thread_index,
        thread_count: selection.thread_indices.len(),
        threads: scope::list_threads(
            profile,
            req.include_threads,
            &selection.thread_indices,
            range,
        ),
        function_id: symbols::function_id(function_name.as_str()),
        display_name: symbols::compact_function_name(function_name.as_str()),
        function_name,
        matched_samples: focused.sample_count,
        total_thread_samples: focused.total_samples,
        total_scope_samples: focused.total_samples,
        wall_time_ms: sum.wall_time_ms,
        cpu_sample_time_ms: sum.cpu_sample_time_ms,
        cpu_sample_percent_of_wall: sum.cpu_sample_percent_of_wall,
        samples_per_second: sum.samples_per_second,
        focused_percent: focused.focused_percent,
        focused_time_ms: focused.focused_time_ms,
        tree: focused.tree,
    };
    assert(tells_tree(report, *profile, *req, found, name, witness->0));
    let r: Result<FocusFunctionResult, String> = Ok(report);
    assert(tells_focus(r, *profile, *req, found, name, witness));
    assert(answers_tree(r, *profile, *req, found, name));
    r
}

/// The call tree below a function of threads.
pub fn profile_focus_function(
    profile: &ResolvedProfile,
    cache: &mut AnalysisCache,
    req: &FocusFunctionRequest,
) -> (r: Result<FocusFunctionResult, String>)
    requires
        old(cache).belongs_to(*profile),
    ensures
        old(cache).grows_into(*final(cache), *profile),
        match req.scope(*profile) {
            Err(e) => r matches Err(message) && message@ == e,
            Ok(scope) => reports_focus(r, *profile, *req, scope),
        },
{
    let (range, selection) = match scope::choose_narrow(
        profile,
        req.start_time_ms,
        req.end_time_ms,
        &req.thread,
        &req.tid,
        req.thread_index,
        &req.thread_name_prefix,
        &req.thread_name_prefixes,
    ) {
        Ok(found) => found,
        Err(e) => {
            return Err(e);
        },
    };
    let tables = functions::function_stats_for_threads(profile, cache, &selection.thread_indices, &range);
    let r = focus_in_scope(profile, req, &range, &selection, &tables);
    proof {
        let views = functions::table_rows(tables@);
        assert(functions::tables_for(views, *profile, scope::scope_in(selection).indices, range));
        assert(reports_focus(r, *profile, *req, scope::scope_in(selection)));
    }
    r
}

}
