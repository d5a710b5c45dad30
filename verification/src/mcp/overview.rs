//! A profile and its threads at a glance.
use crate::analysis::samples;
use crate::analysis::samples::AnalysisRange;
use crate::c2c::rows;
use crate::filters;
use crate::mcp::summary;
use crate::mcp::summary::{EffectiveTimeRange, ThreadInfo, ThreadSummaryGroup};
use crate::mcp::threads;
use crate::profile::resolved::{ResolvedProfile, ResolvedThread};
use crate::text;
use crate::units::TimeValue;
use regex::Regex;
use vstd::prelude::*;

verus! {

/// A request for what a profile is.
#[derive(Debug)]
pub struct ProfileInfoRequest {
    pub path: String,
}

/// What a profile is.
#[derive(Debug)]
pub struct ProfileInfoResult {
    pub product: String,
    /// Earliest observed sample timestamp in the profile's original clock domain.
    pub observed_start_time_ms: i64,
    pub duration_ms: u64,
    pub total_samples: usize,
    pub thread_count: usize,
    pub interval_ms: u64,
    pub categories: Vec<String>,
}

/// What a profile is.
pub fn profile_info(profile: &ResolvedProfile) -> (r: ProfileInfoResult)
    ensures
        r.product@ == profile.product@,
        r.observed_start_time_ms == profile.observed_start_time_ms,
        r.duration_ms == profile.duration_ms,
        r.total_samples == profile.total_sample_count,
        r.thread_count == profile.threads@.len(),
        r.interval_ms == profile.interval_ms,
        text::views(r.categories@) == text::views(profile.categories@),
{
    ProfileInfoResult {
        product: profile.product.clone(),
        observed_start_time_ms: profile.observed_start_time_ms,
        duration_ms: profile.duration_ms,
        total_samples: profile.total_sample_count,
        thread_count: profile.threads.len(),
        interval_ms: profile.interval_ms,
        categories: rows::copy_texts(&profile.categories),
    }
}

/// A request for the threads of a profile.
#[derive(Debug)]
pub struct ProfileThreadsRequest {
    pub path: String,
    pub start_time_ms: Option<TimeValue>,
    pub end_time_ms: Option<TimeValue>,
    pub thread_name_prefix: Option<String>,
    pub thread_name_prefixes: Vec<String>,
    pub thread_name_regex: Option<String>,
    pub min_samples: Option<usize>,
    pub min_duration_ms: Option<i64>,
    pub group_by_name_prefix: bool,
    pub include_threads: bool,
}

/// The threads of a profile.
#[derive(Debug)]
pub struct ProfileThreadsResult {
    pub effective_range: EffectiveTimeRange,
    pub threads: Vec<ThreadInfo>,
    pub groups: Vec<ThreadSummaryGroup>,
}

/// Whether a name has one of some prefixes, or there are none.
pub open spec fn has_one(name: Seq<char>, prefixes: Seq<Seq<char>>) -> bool {
    prefixes.len() == 0 || exists|i: int|
        0 <= i < prefixes.len() && threads::has_prefix(name, #[trigger] prefixes[i])
}

impl ProfileThreadsRequest {
    /// The prefixes that the request names.
    pub open spec fn prefixes(&self) -> Seq<Seq<char>> {
        threads::requested(
            text::opt(self.thread_name_prefix),
            text::views(self.thread_name_prefixes@),
        )
    }

    /// The window that the request asks for.
    pub open spec fn window(&self, p: ResolvedProfile) -> AnalysisRange {
        summary::window(p, self.start_time_ms, self.end_time_ms)
    }

    /// Whether a thread is listed.
    pub open spec fn lists(&self, p: ResolvedProfile, t: ResolvedThread) -> bool {
        &&& has_one(t.name@, self.prefixes())
        &&& filters::requested_pattern(text::opt(self.thread_name_regex)) matches Some(pattern)
            ==> filters::regex_finds(pattern, t.name@)
        &&& self.min_samples matches Some(n) ==> samples::samples_counted(
            t,
            Some(self.window(p)),
        ) >= n
        &&& self.min_duration_ms matches Some(d) ==> samples::wall_time(
            t,
            Some(self.window(p)),
        ) >= d
    }

    /// Why the request cannot be answered, if so.
    pub open spec fn error(&self, p: ResolvedProfile) -> Option<Seq<char>> {
        match samples::window_error(p.duration_ms, self.start_time_ms, self.end_time_ms) {
            Some(e) => Some(e),
            None => filters::optional_pattern_error(
                text::opt(self.thread_name_regex),
                "thread_name"@,
            ),
        }
    }
}

/// The listed threads among the first `n`.
pub open spec fn listed(p: ResolvedProfile, req: ProfileThreadsRequest, n: int) -> Seq<usize>
    decreases n,
{
    if n <= 0 {
        Seq::empty()
    } else {
        let before = listed(p, req, n - 1);
        if req.lists(p, p.threads@[n - 1]) {
            before.push((n - 1) as usize)
        } else {
            before
        }
    }
}

/// Whether a report answers a request for threads.
pub open spec fn answers_threads(
    r: ProfileThreadsResult,
    p: ResolvedProfile,
    req: ProfileThreadsRequest,
) -> bool {
    let range = req.window(p);
    let indices = listed(p, req, p.threads@.len() as int);
    &&& r.effective_range == summary::range_row(range)
    &&& if req.include_threads {
        summary::thread_rows(r.threads@, p, indices, Some(range))
    } else {
        r.threads@.len() == 0
    }
    &&& if req.group_by_name_prefix {
        summary::family_rows(r.groups@, p, indices, Some(range))
    } else {
        r.groups@.len() == 0
    }
}

/// Whether a thread is listed, by what its tests said.
pub fn thread_verdict(
    prefix_hit: bool,
    regex_hit: Option<bool>,
    sample_count: usize,
    min_samples: Option<usize>,
    wall_time_ms: u64,
    min_duration_ms: Option<i64>,
) -> (r: bool)
    ensures
        r == (prefix_hit && regex_hit != Some(false) && (min_samples matches Some(n) ==> sample_count
            >= n) && (min_duration_ms matches Some(d) ==> wall_time_ms >= d)),
{
    let missed: bool = match regex_hit {
        Some(hit) => !hit,
        None => false,
    };
    let sampled: bool = match min_samples {
        Some(n) => sample_count >= n,
        None => true,
    };
    let lasting: bool = match min_duration_ms {
        Some(d) => wall_time_ms as i128 >= d as i128,
        None => true,
    };
    prefix_hit && !missed && sampled && lasting
}

/// Whether a thread is listed.
fn is_listed(
    thread: &ResolvedThread,
    req: &ProfileThreadsRequest,
    prefixes: &Vec<String>,
    regex: &Option<Regex>,
    range: &AnalysisRange,
    Ghost(p): Ghost<ResolvedProfile>,
) -> (r: bool)
    requires
        text::views(prefixes@) == req.prefixes(),
        filters::pattern_in(*regex) == filters::requested_pattern(
            text::opt(req.thread_name_regex),
        ),
        *range == req.window(p),
    ensures
        r == req.lists(p, *thread),
{
    assert(text::views(prefixes@).len() == prefixes@.len());
    let prefix_hit: bool = prefixes.len() == 0 || threads::has_any_prefix(
        thread.name.as_str(),
        prefixes,
    );
    let regex_hit: Option<bool> = match regex {
        Some(re) => Some(filters::regex_is_match(re, thread.name.as_str())),
        None => None,
    };
    let sample_count: usize = samples::sample_count(thread, Some(range));
    let wall: u64 = samples::thread_wall_time_ms(thread, Some(range));
    thread_verdict(prefix_hit, regex_hit, sample_count, req.min_samples, wall, req.min_duration_ms)
}

/// The threads of a profile.
pub fn profile_threads(profile: &ResolvedProfile, req: &ProfileThreadsRequest) -> (r: Result<
    ProfileThreadsResult,
    String,
>)
    ensures
        match r {
            Ok(report) => req.error(*profile) is None && answers_threads(report, *profile, *req),
            Err(e) => req.error(*profile) == Some(e@),
        },
{
    let range = match AnalysisRange::resolve(profile, req.start_time_ms, req.end_time_ms) {
        Ok(range) => range,
        Err(e) => {
            return Err(e);
        },
    };
    let prefixes = threads::requested_thread_prefixes(
        &req.thread_name_prefix,
        &req.thread_name_prefixes,
    );
    let regex = match filters::compile_optional_regex(&req.thread_name_regex, "thread_name") {
        Ok(regex) => regex,
        Err(e) => {
            return Err(e);
        },
    };
    let mut indices: Vec<usize> = Vec::new();
    let mut n: usize = 0;
    while n < profile.threads.len()
        invariant
            n <= profile.threads@.len(),
            text::views(prefixes@) == req.prefixes(),
            filters::pattern_in(regex) == filters::requested_pattern(
                text::opt(req.thread_name_regex),
            ),
            range == req.window(*profile),
            indices@ == listed(*profile, *req, n as int),
        decreases profile.threads@.len() - n,
    {
        if is_listed(&profile.threads[n], req, &prefixes, &regex, &range, Ghost(*profile)) {
            indices.push(n);
        }
        n += 1;
    }
    let groups: Vec<ThreadSummaryGroup> = if req.group_by_name_prefix {
        summary::thread_summary_groups(profile, &indices, Some(&range))
    } else {
        Vec::new()
    };
    let infos: Vec<ThreadInfo> = if req.include_threads {
        summary::thread_infos(profile, &indices, Some(&range))
    } else {
        Vec::new()
    };
    Ok(
        ProfileThreadsResult {
            effective_range: summary::effective_time_range(&range),
            threads: infos,
            groups,
        },
    )
}

}
