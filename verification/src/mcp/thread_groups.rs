//! Functions that take the most time in groups of threads.
use crate::analysis::functions::FunctionStats;
use crate::analysis::samples;
use crate::analysis::samples::AnalysisRange;
use crate::mcp::analysis_cache;
use crate::mcp::analysis_cache::AnalysisCache;
use crate::mcp::functions;
use crate::mcp::hotspots;
use crate::mcp::hotspots::{FunctionRow, RowFilter};
use crate::mcp::summary;
use crate::mcp::summary::{EffectiveTimeRange, Rate, ThreadInfo};
use crate::mcp::threads;
use crate::profile::resolved::ResolvedProfile;
use crate::rank;
use crate::text;
use crate::units::{Ratio, TimeValue};
use vstd::prelude::*;

verus! {

/// A request for the functions of groups of threads that take the most time.
#[derive(Debug)]
pub struct ThreadGroupTopFunctionsRequest {
    pub path: String,
    pub start_time_ms: Option<TimeValue>,
    pub end_time_ms: Option<TimeValue>,
    pub thread_name_prefix: Option<String>,
    pub thread_name_prefixes: Vec<String>,
    pub sort_by: String,
    pub limit: usize,
    pub include_names: Option<String>,
    pub exclude_names: Option<String>,
    pub exclude_framework: bool,
    pub user_code_only: bool,
    pub include_threads: bool,
}

/// The functions of a group of threads that take the most time.
#[derive(Debug)]
pub struct ThreadGroupTopFunctionsGroup {
    pub thread_name_prefix: String,
    pub normalized_thread_name_prefix: String,
    pub thread_count: usize,
    pub sample_count: usize,
    pub total_time_ms: u64,
    pub wall_time_ms: u64,
    pub cpu_sample_time_ms: u64,
    pub cpu_sample_percent_of_wall: Ratio,
    pub samples_per_second: Rate,
    pub sort_by: String,
    pub threads: Vec<ThreadInfo>,
    pub functions: Vec<FunctionRow>,
}

/// The functions of groups of threads that take the most time.
#[derive(Debug)]
pub struct ThreadGroupTopFunctionsResult {
    pub effective_range: EffectiveTimeRange,
    pub groups: Vec<ThreadGroupTopFunctionsGroup>,
}

impl ThreadGroupTopFunctionsRequest {
    /// The window that the request asks for.
    pub open spec fn window(&self, p: ResolvedProfile) -> AnalysisRange {
        summary::window(p, self.start_time_ms, self.end_time_ms)
    }

    /// The prefixes that the request names.
    pub open spec fn prefixes(&self) -> Seq<Seq<char>> {
        threads::requested(
            text::opt(self.thread_name_prefix),
            text::views(self.thread_name_prefixes@),
        )
    }

    /// What functions are filtered by.
    pub open spec fn row_filter(&self) -> RowFilter {
        RowFilter {
            include_names: text::opt(self.include_names),
            exclude_names: text::opt(self.exclude_names),
            exclude_framework: self.exclude_framework || self.user_code_only,
        }
    }

    /// Why the request cannot be answered, if so.
    pub open spec fn error(&self, p: ResolvedProfile) -> Option<Seq<char>> {
        match samples::window_error(p.duration_ms, self.start_time_ms, self.end_time_ms) {
            Some(e) => Some(e),
            None => if self.prefixes().len() == 0 {
                Some("Provide thread_name_prefix or thread_name_prefixes, e.g. rayon-gen-*"@)
            } else if forall|i: int|
                0 <= i < self.prefixes().len() ==> group_indices(
                    p,
                    #[trigger] self.prefixes()[i],
                    self.window(p),
                ).len() == 0 {
                Some("No threads matched the requested prefix group(s)"@)
            } else {
                None
            },
        }
    }
}

/// The sampled threads with a prefix.
pub open spec fn group_indices(p: ResolvedProfile, prefix: Seq<char>, range: AnalysisRange) -> Seq<
    usize,
> {
    let found = threads::scope_indices(p.threads@, seq![prefix], range, p.threads@.len() as int);
    Seq::new(found.len(), |i: int| found[i] as usize)
}

/// Whether a row reports a group of threads, by the tables of its threads and
/// what they add up to.
pub open spec fn group_row(
    g: ThreadGroupTopFunctionsGroup,
    p: ResolvedProfile,
    req: ThreadGroupTopFunctionsRequest,
    prefix: Seq<char>,
    stats: Seq<FunctionStats>,
) -> bool {
    let range = req.window(p);
    let indices = group_indices(p, prefix, range);
    let sum = summary::summary_of(p, indices, Some(range));
    &&& g.thread_name_prefix@ == prefix
    &&& g.normalized_thread_name_prefix@ == threads::plain_prefix(prefix)
    &&& g.thread_count == indices.len()
    &&& g.sample_count == sum.sample_count
    &&& g.total_time_ms == sum.cpu_sample_time_ms
    &&& g.wall_time_ms == sum.wall_time_ms
    &&& g.cpu_sample_time_ms == sum.cpu_sample_time_ms
    &&& g.cpu_sample_percent_of_wall == sum.cpu_sample_percent_of_wall
    &&& g.samples_per_second == sum.samples_per_second
    &&& g.sort_by@ == req.sort_by@
    &&& if req.include_threads {
        summary::thread_rows(g.threads@, p, indices, Some(range))
    } else {
        g.threads@.len() == 0
    }
    &&& hotspots::function_rows(
        g.functions@,
        rank::ranked(stats, functions::by_time(req.sort_by@)),
        req.row_filter(),
        req.limit,
    )
}

/// Whether a row reports a group of threads.
pub open spec fn reports_group(
    g: ThreadGroupTopFunctionsGroup,
    p: ResolvedProfile,
    req: ThreadGroupTopFunctionsRequest,
    prefix: Seq<char>,
) -> bool {
    exists|tables: Seq<Seq<FunctionStats>>, stats: Seq<FunctionStats>| #[trigger]
        functions::tables_for(
            tables,
            p,
            group_indices(p, prefix, req.window(p)),
            req.window(p),
        ) && #[trigger] hotspots::aggregates(stats, tables, g.total_time_ms) && group_row(
            g,
            p,
            req,
            prefix,
            stats,
        )
}

/// Whether a report answers a request for groups of threads.
pub open spec fn reports_groups(
    r: ThreadGroupTopFunctionsResult,
    p: ResolvedProfile,
    req: ThreadGroupTopFunctionsRequest,
) -> bool {
    &&& r.effective_range == summary::range_row(req.window(p))
    &&& r.groups@.len() == req.prefixes().len()
    &&& forall|i: int|
        0 <= i < r.groups@.len() ==> reports_group(#[trigger] r.groups@[i], p, req, req.prefixes()[i])
}

/// Reports a group of threads.
fn make_group(
    profile: &ResolvedProfile,
    cache: &mut AnalysisCache,
    req: &ThreadGroupTopFunctionsRequest,
    range: &AnalysisRange,
    prefix: &String,
) -> (r: ThreadGroupTopFunctionsGroup)
    requires
        *range == req.window(*profile),
        old(cache).belongs_to(*profile),
    ensures
        old(cache).grows_into(*final(cache), *profile),
        reports_group(r, *profile, *req, prefix@),
        r.thread_count == group_indices(*profile, prefix@, *range).len(),
{
    let mut one: Vec<String> = Vec::new();
    one.push(prefix.clone());
    assert(text::views(one@) =~= seq![prefix@]);
    let indices = threads::find_scope(&profile.threads, &one, range);
    proof {
        let found = threads::scope_indices(
            profile.threads@,
            seq![prefix@],
            *range,
            profile.threads@.len() as int,
        );
        assert(threads::positions(indices@) == found);
        assert(indices@ =~= group_indices(*profile, prefix@, *range)) by {
            assert forall|i: int| 0 <= i < indices@.len() implies indices@[i] == group_indices(
                *profile,
                prefix@,
                *range,
            )[i] by {
                assert(threads::positions(indices@)[i] == indices@[i]);
            }
        }
    }
    let (stats, total_time_ms, sample_count) = hotspots::aggregate_function_stats(
        profile,
        cache,
        &indices,
        range,
    );
    let ghost rows = stats@;
    let sorted = functions::sort_function_stats(stats, req.sort_by.as_str());
    let sum = summary::thread_sample_summary(profile, &indices, Some(range));
    let exclude_framework: bool = functions::exclude_framework_enabled(
        req.exclude_framework,
        req.user_code_only,
    );
    let list = hotspots::list_functions(
        &sorted,
        &req.include_names,
        &req.exclude_names,
        exclude_framework,
        req.limit,
    );
    let infos: Vec<ThreadInfo> = if req.include_threads {
        summary::thread_infos(profile, &indices, Some(range))
    } else {
        Vec::new()
    };
    let group = ThreadGroupTopFunctionsGroup {
        thread_name_prefix: prefix.clone(),
        normalized_thread_name_prefix: threads::normalized_thread_prefix(prefix.as_str()),
        thread_count: indices.len(),
        sample_count,
        total_time_ms,
        wall_time_ms: sum.wall_time_ms,
        cpu_sample_time_ms: sum.cpu_sample_time_ms,
        cpu_sample_percent_of_wall: sum.cpu_sample_percent_of_wall,
        samples_per_second: sum.samples_per_second,
        sort_by: req.sort_by.clone(),
        threads: infos,
        functions: list,
    };
    assert(group_row(group, *profile, *req, prefix@, rows));
    group
}

/// The functions of groups of threads that take the most time.
pub fn profile_thread_group_top_functions(
    profile: &ResolvedProfile,
    cache: &mut AnalysisCache,
    req: &ThreadGroupTopFunctionsRequest,
) -> (r: Result<ThreadGroupTopFunctionsResult, String>)
    requires
        old(cache).belongs_to(*profile),
    ensures
        old(cache).grows_into(*final(cache), *profile),
        match r {
            Ok(report) => req.error(*profile) is None && reports_groups(report, *profile, *req),
            Err(e) => req.error(*profile) == Some(e@),
        },
{
    let range = match AnalysisRange::resolve(profile, req.start_time_ms, req.end_time_ms) {
        Ok(range) => range,
        Err(e) => {
            return Err(e);
        },
    };
    assert(range == req.window(*profile));
    let prefixes = threads::requested_thread_prefixes(
        &req.thread_name_prefix,
        &req.thread_name_prefixes,
    );
    assert(text::views(prefixes@).len() == prefixes@.len());
    if prefixes.len() == 0 {
        return Err(
            "Provide thread_name_prefix or thread_name_prefixes, e.g. rayon-gen-*".to_string(),
        );
    }
    let mut groups: Vec<ThreadGroupTopFunctionsGroup> = Vec::new();
    let mut matched_any: bool = false;
    let mut i: usize = 0;
    let ghost before = *cache;
    while i < prefixes.len()
        invariant
            before.grows_into(*cache, *profile),
            i <= prefixes@.len(),
            range == req.window(*profile),
            text::views(prefixes@) == req.prefixes(),
            groups@.len() == i,
            forall|k: int|
                0 <= k < i ==> reports_group(
                    #[trigger] groups@[k],
                    *profile,
                    *req,
                    req.prefixes()[k],
                ),
            matched_any == exists|k: int|
                0 <= k < i && group_indices(*profile, #[trigger] req.prefixes()[k], range).len()
                    != 0,
        decreases prefixes@.len() - i,
    {
        let ghost middle = *cache;
        let group = make_group(profile, cache, req, &range, &prefixes[i]);
        proof {
            analysis_cache::lemma_grows_on(before, middle, *cache, *profile);
        }
        assert(req.prefixes()[i as int] == prefixes@[i as int]@);
        if group.thread_count > 0 {
            matched_any = true;
        }
        groups.push(group);
        i += 1;
    }
    if !matched_any {
        return Err("No threads matched the requested prefix group(s)".to_string());
    }
    Ok(
        ThreadGroupTopFunctionsResult {
            effective_range: summary::effective_time_range(&range),
            groups,
        },
    )
}

}
