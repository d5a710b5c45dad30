//! What a function costs below a caller.
use crate::analysis::call_tree;
use crate::analysis::call_tree::{CallerRelationship, StartFacts};
use crate::analysis::functions::FunctionStats;
use crate::analysis::samples;
use crate::analysis::samples::AnalysisRange;
use crate::analysis::symbols;
use crate::c2c::filter::borrowed;
use crate::filters;
use crate::filters::FrameNameFilter;
use crate::mcp::analysis_cache::AnalysisCache;
use crate::mcp::functions;
use crate::mcp::scope;
use crate::mcp::scope::Scope;
use crate::mcp::summary;
use crate::mcp::summary::{EffectiveTimeRange, Rate, ThreadInfo};
use crate::mcp::threads::ThreadScopeSelection;
use crate::mcp::trees;
use crate::mcp::trees::{DrawnFocus, Drawing};
use crate::profile::resolved::{ResolvedProfile, ResolvedSample, ResolvedThread};
use crate::text;
use crate::units;
use crate::units::{Ratio, TimeValue};
use vstd::prelude::*;

verus! {

/// The relationship that a lower-case text names.
pub open spec fn relationship_named(lowered: Seq<char>) -> Option<CallerRelationship> {
    if lowered == "ancestor"@ {
        Some(CallerRelationship::Ancestor)
    } else if lowered == "immediate"@ {
        Some(CallerRelationship::Immediate)
    } else {
        None
    }
}

/// The relationship that a text names, whatever its case and the space around it.
pub open spec fn relationship_of(value: Seq<char>) -> Option<CallerRelationship> {
    relationship_named(text::unicode_lowercase(text::trimmed(value)))
}

/// The relationship that a lower-case text names.
pub fn named_relationship(lowered: &str) -> (r: Result<CallerRelationship, String>)
    ensures
        match (r, relationship_named(lowered@)) {
            (Ok(found), Some(named)) => found == named,
            (Err(e), None) => e@ == "caller_mode must be 'ancestor' or 'immediate'"@,
            _ => false,
        },
{
    proof {
        reveal_strlit("ancestor");
        reveal_strlit("immediate");
    }
    if text::text_eq(lowered, "ancestor") {
        Ok(CallerRelationship::Ancestor)
    } else if text::text_eq(lowered, "immediate") {
        Ok(CallerRelationship::Immediate)
    } else {
        Err("caller_mode must be 'ancestor' or 'immediate'".to_string())
    }
}

/// The relationship that a text names, whatever its case and the space around it.
pub fn parse_caller_relationship(value: &str) -> (r: Result<CallerRelationship, String>)
    ensures
        match (r, relationship_of(value@)) {
            (Ok(found), Some(named)) => found == named,
            (Err(e), None) => e@ == "caller_mode must be 'ancestor' or 'immediate'"@,
            _ => false,
        },
{
    let trimmed: String = text::trim(value);
    let lowered: String = text::to_lowercase(trimmed.as_str());
    named_relationship(lowered.as_str())
}

/// The name of a relationship.
pub open spec fn relationship_label(relationship: CallerRelationship) -> Seq<char> {
    match relationship {
        CallerRelationship::Ancestor => "ancestor"@,
        CallerRelationship::Immediate => "immediate"@,
    }
}

/// The name of a relationship.
pub fn caller_relationship_label(value: CallerRelationship) -> (r: &'static str)
    ensures
        r@ == relationship_label(value),
{
    match value {
        CallerRelationship::Ancestor => "ancestor",
        CallerRelationship::Immediate => "immediate",
    }
}

/// The samples that a caller is part of.
pub open spec fn below_caller(caller: Seq<char>) -> spec_fn(ResolvedSample) -> bool {
    |s: ResolvedSample| s.stack.names().contains(caller)
}

/// The samples that a function is part of below a caller.
pub open spec fn below_function(
    function: Seq<char>,
    caller: Seq<char>,
    relationship: CallerRelationship,
) -> spec_fn(ResolvedSample) -> bool {
    |s: ResolvedSample|
        call_tree::under_caller(s.stack.names(), function, caller, relationship) is Some
}

/// The samples that end in a function below a caller.
pub open spec fn in_function(
    function: Seq<char>,
    caller: Seq<char>,
    relationship: CallerRelationship,
) -> spec_fn(ResolvedSample) -> bool {
    |s: ResolvedSample|
        call_tree::under_caller(s.stack.names(), function, caller, relationship) == Some(
            s.stack.names().len() - 1,
        )
}

/// A question about a sample.
pub trait SampleTest {
    /// The samples with the answer yes.
    spec fn keep(&self) -> spec_fn(ResolvedSample) -> bool;

    /// Whether the answer for a sample is yes.
    fn test(&self, sample: &ResolvedSample) -> (r: bool)
        ensures
            r == self.keep()(*sample),
    ;
}

/// Whether a caller is part of a sample.
pub struct BelowCaller<'a> {
    pub caller: &'a str,
}

impl<'a> SampleTest for BelowCaller<'a> {
    open spec fn keep(&self) -> spec_fn(ResolvedSample) -> bool {
        below_caller(self.caller@)
    }

    fn test(&self, sample: &ResolvedSample) -> (r: bool) {
        let mut i: usize = 0;
        while i < sample.stack.len()
            invariant
                i <= sample.stack.frames().len(),
                forall|k: int| 0 <= k < i ==> sample.stack.names()[k] != self.caller@,
            decreases sample.stack.frames().len() - i,
        {
            if text::text_eq(sample.stack.frame(i).function_name.as_str(), self.caller) {
                assert(sample.stack.names()[i as int] == self.caller@);
                return true;
            }
            i += 1;
        }
        false
    }
}

/// Whether a function is part of a sample below a caller.
pub struct BelowFunction<'a> {
    pub function: &'a str,
    pub caller: &'a str,
    pub relationship: CallerRelationship,
}

impl<'a> SampleTest for BelowFunction<'a> {
    open spec fn keep(&self) -> spec_fn(ResolvedSample) -> bool {
        below_function(self.function@, self.caller@, self.relationship)
    }

    fn test(&self, sample: &ResolvedSample) -> (r: bool) {
        call_tree::function_under_caller_index(
            &sample.stack,
            self.function,
            self.caller,
            self.relationship,
        ).is_some()
    }
}

/// Whether a sample ends in a function below a caller.
pub struct InFunction<'a> {
    pub function: &'a str,
    pub caller: &'a str,
    pub relationship: CallerRelationship,
}

impl<'a> SampleTest for InFunction<'a> {
    open spec fn keep(&self) -> spec_fn(ResolvedSample) -> bool {
        in_function(self.function@, self.caller@, self.relationship)
    }

    fn test(&self, sample: &ResolvedSample) -> (r: bool) {
        match call_tree::function_under_caller_index(
            &sample.stack,
            self.function,
            self.caller,
            self.relationship,
        ) {
            Some(index) => index == sample.stack.len() - 1,
            None => false,
        }
    }
}

/// The time of the samples of threads that satisfy a predicate.
pub open spec fn time_kept(
    p: ResolvedProfile,
    indices: Seq<usize>,
    range: AnalysisRange,
    keep: spec_fn(ResolvedSample) -> bool,
) -> u64 {
    units::capped(
        samples::over_threads(
            p.threads@,
            indices,
            samples::timing(p.interval_ms, Some(range), keep),
            indices.len() as int,
        ) as int,
    )
}

/// The number of samples of threads that satisfy a predicate.
pub open spec fn samples_kept(
    p: ResolvedProfile,
    indices: Seq<usize>,
    range: AnalysisRange,
    keep: spec_fn(ResolvedSample) -> bool,
) -> usize {
    units::capped_count(
        samples::over_threads(
            p.threads@,
            indices,
            samples::counting(Some(range), keep),
            indices.len() as int,
        ) as int,
    )
}

/// The threads among the first `m` with a sample that satisfies a predicate.
pub open spec fn threads_kept(
    p: ResolvedProfile,
    indices: Seq<usize>,
    range: AnalysisRange,
    keep: spec_fn(ResolvedSample) -> bool,
    m: int,
) -> Seq<usize>
    decreases m,
{
    if m <= 0 {
        Seq::empty()
    } else {
        let before = threads_kept(p, indices, range, keep, m - 1);
        if indices[m - 1] < p.threads@.len() && samples::counting(Some(range), keep)(
            p.threads@[indices[m - 1] as int],
        ) > 0 {
            before.push(indices[m - 1])
        } else {
            before
        }
    }
}

/// Samples of threads that satisfy a predicate.
#[derive(Debug)]
pub struct Kept {
    pub time_ms: u64,
    pub samples: usize,
    pub thread_indices: Vec<usize>,
}

/// The time and the number of the samples of a thread that satisfy a predicate.
fn keep_of_thread<T: SampleTest>(
    thread: &ResolvedThread,
    interval_ms: u64,
    range: &AnalysisRange,
    test: &T,
) -> (r: (u64, usize))
    ensures
        r.0 == units::capped(samples::timing(interval_ms, Some(*range), test.keep())(*thread) as int),
        r.1 == samples::counting(Some(*range), test.keep())(*thread),
{
    let ghost keep = test.keep();
    let mut time: u64 = 0;
    let mut count: usize = 0;
    let mut i: usize = 0;
    while i < thread.samples.len()
        invariant
            i <= thread.samples@.len(),
            keep == test.keep(),
            count <= i,
            time == units::capped(
                samples::time_where(*thread, interval_ms, Some(*range), keep, i as int) as int,
            ),
            count == samples::count_where(thread.samples@, Some(*range), keep, i as int),
        decreases thread.samples@.len() - i,
    {
        let sample = &thread.samples[i];
        if range.contains(sample) && test.test(sample) {
            let own: u64 = samples::sample_time_ms(thread, sample, interval_ms);
            time = units::capped_add(time, own);
            count += 1;
        }
        i += 1;
    }
    (time, count)
}

/// The samples of threads that satisfy a predicate.
pub fn keep_samples<T: SampleTest>(
    profile: &ResolvedProfile,
    thread_indices: &Vec<usize>,
    range: &AnalysisRange,
    test: &T,
) -> (r: Kept)
    ensures
        r.time_ms == time_kept(*profile, thread_indices@, *range, test.keep()),
        r.samples == samples_kept(*profile, thread_indices@, *range, test.keep()),
        r.thread_indices@ == threads_kept(
            *profile,
            thread_indices@,
            *range,
            test.keep(),
            thread_indices@.len() as int,
        ),
{
    let ghost keep = test.keep();
    let ghost times = samples::timing(profile.interval_ms, Some(*range), keep);
    let ghost counts = samples::counting(Some(*range), keep);
    let mut time_ms: u64 = 0;
    let mut kept: usize = 0;
    let mut found: Vec<usize> = Vec::new();
    let mut m: usize = 0;
    while m < thread_indices.len()
        invariant
            m <= thread_indices@.len(),
            keep == test.keep(),
            times == samples::timing(profile.interval_ms, Some(*range), keep),
            counts == samples::counting(Some(*range), keep),
            time_ms == units::capped(
                samples::over_threads(profile.threads@, thread_indices@, times, m as int) as int,
            ),
            kept == units::capped_count(
                samples::over_threads(profile.threads@, thread_indices@, counts, m as int) as int,
            ),
            found@ == threads_kept(*profile, thread_indices@, *range, keep, m as int),
        decreases thread_indices@.len() - m,
    {
        let index: usize = thread_indices[m];
        if index < profile.threads.len() {
            let (time, count) = keep_of_thread(
                &profile.threads[index],
                profile.interval_ms,
                range,
                test,
            );
            time_ms = units::capped_add(time_ms, time);
            kept = units::capped_count_add(kept, count);
            if count > 0 {
                found.push(index);
            }
        }
        m += 1;
    }
    Kept { time_ms, samples: kept, thread_indices: found }
}

/// What a function costs below a caller.
#[derive(Debug)]
pub struct FunctionUnderCallerMetrics {
    pub exclusive_time_ms: u64,
    pub descendant_time_ms: u64,
    pub caller_context_time_ms: u64,
    pub scope_time_ms: u64,
    pub exclusive_samples: usize,
    pub descendant_samples: usize,
    pub caller_context_samples: usize,
    pub total_scope_samples: usize,
    pub matched_thread_indices: Vec<usize>,
}

/// Whether metrics tell what a function costs below a caller.
pub open spec fn measures(
    m: FunctionUnderCallerMetrics,
    p: ResolvedProfile,
    indices: Seq<usize>,
    range: AnalysisRange,
    function: Seq<char>,
    caller: Seq<char>,
    relationship: CallerRelationship,
) -> bool {
    let exclusive = in_function(function, caller, relationship);
    let descendant = below_function(function, caller, relationship);
    let context = below_caller(caller);
    &&& m.exclusive_time_ms == time_kept(p, indices, range, exclusive)
    &&& m.exclusive_samples == samples_kept(p, indices, range, exclusive)
    &&& m.descendant_time_ms == time_kept(p, indices, range, descendant)
    &&& m.descendant_samples == samples_kept(p, indices, range, descendant)
    &&& m.caller_context_time_ms == time_kept(p, indices, range, context)
    &&& m.caller_context_samples == samples_kept(p, indices, range, context)
    &&& m.scope_time_ms == time_kept(p, indices, range, samples::any_sample())
    &&& m.total_scope_samples == samples_kept(p, indices, range, samples::any_sample())
    &&& m.matched_thread_indices@ == threads_kept(
        p,
        indices,
        range,
        descendant,
        indices.len() as int,
    )
}

/// What a function costs below a caller.
pub fn compute_function_under_caller_metrics(
    profile: &ResolvedProfile,
    thread_indices: &Vec<usize>,
    range: &AnalysisRange,
    function_name: &str,
    caller_name: &str,
    caller_relationship: CallerRelationship,
) -> (r: FunctionUnderCallerMetrics)
    ensures
        measures(
            r,
            *profile,
            thread_indices@,
            *range,
            function_name@,
            caller_name@,
            caller_relationship,
        ),
{
    let exclusive = keep_samples(
        profile,
        thread_indices,
        range,
        &InFunction {
            function: function_name,
            caller: caller_name,
            relationship: caller_relationship,
        },
    );
    let descendant = keep_samples(
        profile,
        thread_indices,
        range,
        &BelowFunction {
            function: function_name,
            caller: caller_name,
            relationship: caller_relationship,
        },
    );
    let context = keep_samples(
        profile,
        thread_indices,
        range,
        &BelowCaller { caller: caller_name },
    );
    FunctionUnderCallerMetrics {
        exclusive_time_ms: exclusive.time_ms,
        descendant_time_ms: descendant.time_ms,
        caller_context_time_ms: context.time_ms,
        scope_time_ms: summary::scope_total_time_ms(profile, thread_indices, Some(range)),
        exclusive_samples: exclusive.samples,
        descendant_samples: descendant.samples,
        caller_context_samples: context.samples,
        total_scope_samples: summary::count_over(&profile.threads, thread_indices, Some(range)),
        matched_thread_indices: descendant.thread_indices,
    }
}

/// A function below a caller has the caller in its stack.
proof fn lemma_caller_in_stack(
    names: Seq<Seq<char>>,
    function: Seq<char>,
    caller: Seq<char>,
    relationship: CallerRelationship,
    from: int,
)
    requires
        0 <= from,
    ensures
        call_tree::first_under_caller(names, function, caller, relationship, from) is Some
            ==> names.contains(caller),
        call_tree::under_caller(names, function, caller, relationship) is Some ==> (
        call_tree::under_caller_at(names, function, caller, relationship, names.len() - 1)
            ==> names.contains(caller)),
    decreases names.len() - from,
{
    if from < names.len() && !call_tree::under_caller_at(
        names,
        function,
        caller,
        relationship,
        from,
    ) {
        lemma_caller_in_stack(names, function, caller, relationship, from + 1);
    }
}

/// What a function itself costs below a caller is part of what it costs with
/// its callees, and that is part of what the caller costs. All are part of the
/// cost of the threads.
pub proof fn law_metrics_nest(
    m: FunctionUnderCallerMetrics,
    p: ResolvedProfile,
    indices: Seq<usize>,
    range: AnalysisRange,
    function: Seq<char>,
    caller: Seq<char>,
    relationship: CallerRelationship,
)
    requires
        measures(m, p, indices, range, function, caller, relationship),
    ensures
        m.exclusive_time_ms <= m.descendant_time_ms <= m.caller_context_time_ms <= m.scope_time_ms,
        m.exclusive_samples <= m.descendant_samples <= m.caller_context_samples
            <= m.total_scope_samples,
{
    let exclusive = in_function(function, caller, relationship);
    let descendant = below_function(function, caller, relationship);
    let context = below_caller(caller);
    let n = indices.len() as int;
    assert forall|s: ResolvedSample| #[trigger] descendant(s) implies context(s) by {
        lemma_caller_in_stack(s.stack.names(), function, caller, relationship, 0);
    }
    samples::lemma_over_threads_monotone(
        p.threads@,
        indices,
        p.interval_ms,
        Some(range),
        exclusive,
        descendant,
        n,
    );
    samples::lemma_over_threads_monotone(
        p.threads@,
        indices,
        p.interval_ms,
        Some(range),
        descendant,
        context,
        n,
    );
    samples::lemma_over_threads_monotone(
        p.threads@,
        indices,
        p.interval_ms,
        Some(range),
        context,
        samples::any_sample(),
        n,
    );
}

/// A request for what a function costs below a caller.
#[derive(Debug)]
pub struct FunctionUnderCallerRequest {
    pub path: String,
    pub start_time_ms: Option<TimeValue>,
    pub end_time_ms: Option<TimeValue>,
    pub function_name: Option<String>,
    pub function_id: Option<String>,
    pub caller_name: Option<String>,
    pub caller_function_id: Option<String>,
    pub match_mode: String,
    pub caller_match_mode: String,
    pub caller_mode: String,
    pub thread: Option<String>,
    pub tid: Option<String>,
    pub thread_index: Option<usize>,
    pub thread_name_prefix: Option<String>,
    pub thread_name_prefixes: Vec<String>,
    pub max_depth: usize,
    /// In millionths of a percent.
    pub min_percent: i64,
    pub exclude_framework: bool,
    pub user_code_only: bool,
    pub short_names: bool,
    pub include_names: Option<String>,
    pub exclude_names: Option<String>,
    pub include_regex: Option<String>,
    pub exclude_regex: Option<String>,
    pub include_threads: bool,
}

/// What a function costs below a caller.
#[derive(Debug)]
pub struct FunctionUnderCallerResult {
    pub effective_range: EffectiveTimeRange,
    pub scope: String,
    pub thread_count: usize,
    pub threads: Vec<ThreadInfo>,
    pub matched_threads: Vec<ThreadInfo>,
    pub function_id: String,
    pub function_name: String,
    pub display_name: String,
    pub caller_function_id: String,
    pub caller_function_name: String,
    pub caller_display_name: String,
    pub caller_mode: String,
    pub exclusive_time_ms: u64,
    pub descendant_time_ms: u64,
    pub caller_context_time_ms: u64,
    pub scope_time_ms: u64,
    pub wall_time_ms: u64,
    pub cpu_sample_time_ms: u64,
    pub cpu_sample_percent_of_wall: Ratio,
    pub samples_per_second: Rate,
    pub exclusive_percent_of_scope: Ratio,
    pub descendant_percent_of_scope: Ratio,
    pub caller_context_percent_of_scope: Ratio,
    pub descendant_percent_of_caller: Ratio,
    pub exclusive_samples: usize,
    pub descendant_samples: usize,
    pub caller_context_samples: usize,
    pub total_scope_samples: usize,
    pub tree: String,
}

impl FunctionUnderCallerRequest {
    /// The window that the request asks for.
    pub open spec fn window(&self, p: ResolvedProfile) -> AnalysisRange {
        summary::window(p, self.start_time_ms, self.end_time_ms)
    }

    /// The threads that the request is about, or why there are none.
    pub open spec fn scope(&self, p: ResolvedProfile) -> Result<Scope, Seq<char>> {
        scope::wide(
            p,
            self.start_time_ms,
            self.end_time_ms,
            self.thread,
            self.tid,
            self.thread_index,
            self.thread_name_prefix,
            self.thread_name_prefixes,
        )
    }

    /// How the tree is drawn.
    pub open spec fn drawing(&self) -> Drawing {
        Drawing {
            max_depth: self.max_depth,
            min_percent: self.min_percent,
            short_names: self.short_names,
        }
    }

    /// Whether a filter is the one that the request describes.
    pub open spec fn has_filter(&self, filter: FrameNameFilter) -> bool {
        filter.is_requested(
            text::opt(self.include_names),
            text::opt(self.exclude_names),
            text::opt(self.include_regex),
            text::opt(self.exclude_regex),
            self.exclude_framework || self.user_code_only,
        )
    }

    /// Why the request has no filter.
    pub open spec fn filter_error(&self) -> Option<Seq<char>> {
        filters::request_error(text::opt(self.include_regex), text::opt(self.exclude_regex))
    }

    /// The function that the request means, by the tables of the threads.
    pub open spec fn function(&self, tables: Seq<Seq<FunctionStats>>, indices: Seq<usize>) -> Option<
        Seq<char>,
    > {
        functions::meant(
            functions::rows_in(tables, Some(indices), tables.len() as int),
            text::opt(self.function_name),
            text::opt(self.function_id),
            self.match_mode@,
        )
    }

    /// The caller that the request means, by the tables of the threads.
    pub open spec fn caller(&self, tables: Seq<Seq<FunctionStats>>, indices: Seq<usize>) -> Option<
        Seq<char>,
    > {
        functions::meant(
            functions::rows_in(tables, Some(indices), tables.len() as int),
            text::opt(self.caller_name),
            text::opt(self.caller_function_id),
            self.caller_match_mode@,
        )
    }
}

/// Why a function has no cost below a caller.
pub open spec fn absent_error(
    function: Seq<char>,
    caller: Seq<char>,
    scope: Seq<char>,
) -> Seq<char> {
    "Function '"@ + function + "' did not appear under caller '"@ + caller + "' in scope "@ + scope
}

/// Why a function has no cost below a caller.
fn absent_message(function: &str, caller: &str, scope: &str) -> (r: String)
    ensures
        r@ == absent_error(function@, caller@, scope@),
{
    let mut s = "Function '".to_string();
    text::push_text(&mut s, function);
    text::push_text(&mut s, "' did not appear under caller '");
    text::push_text(&mut s, caller);
    text::push_text(&mut s, "' in scope ");
    text::push_text(&mut s, scope);
    s
}

/// What a request means: a function, a caller, and how they relate.
pub struct CallFacts {
    pub function: Seq<char>,
    pub caller: Seq<char>,
    pub relationship: CallerRelationship,
}

/// Whether a report tells what a function costs below a caller.
pub open spec fn tells_cost(
    r: FunctionUnderCallerResult,
    p: ResolvedProfile,
    req: FunctionUnderCallerRequest,
    scope: Scope,
    call: CallFacts,
    m: FunctionUnderCallerMetrics,
    drawn: DrawnFocus,
) -> bool {
    let range = req.window(p);
    let sum = summary::summary_of(p, scope.indices, Some(range));
    &&& r.effective_range == summary::range_row(range)
    &&& r.scope@ == scope.name
    &&& r.thread_count == scope.indices.len()
    &&& scope::lists_threads(r.threads@, req.include_threads, p, scope.indices, range)
    &&& scope::lists_threads(
        r.matched_threads@,
        req.include_threads,
        p,
        m.matched_thread_indices@,
        range,
    )
    &&& r.function_name@ == call.function
    &&& r.function_id@ == symbols::id_of(call.function)
    &&& r.display_name@ == symbols::compact_of(call.function)
    &&& r.caller_function_name@ == call.caller
    &&& r.caller_function_id@ == symbols::id_of(call.caller)
    &&& r.caller_display_name@ == symbols::compact_of(call.caller)
    &&& r.caller_mode@ == relationship_label(call.relationship)
    &&& r.exclusive_time_ms == m.exclusive_time_ms
    &&& r.descendant_time_ms == m.descendant_time_ms
    &&& r.caller_context_time_ms == m.caller_context_time_ms
    &&& r.scope_time_ms == m.scope_time_ms
    &&& r.wall_time_ms == sum.wall_time_ms
    &&& r.cpu_sample_time_ms == sum.cpu_sample_time_ms
    &&& r.cpu_sample_percent_of_wall == sum.cpu_sample_percent_of_wall
    &&& r.samples_per_second == sum.samples_per_second
    &&& r.exclusive_percent_of_scope == (Ratio {
        part: m.exclusive_time_ms,
        whole: m.scope_time_ms,
    })
    &&& r.descendant_percent_of_scope == (Ratio {
        part: m.descendant_time_ms,
        whole: m.scope_time_ms,
    })
    &&& r.caller_context_percent_of_scope == (Ratio {
        part: m.caller_context_time_ms,
        whole: m.scope_time_ms,
    })
    &&& r.descendant_percent_of_caller == (Ratio {
        part: m.descendant_time_ms,
        whole: m.caller_context_time_ms,
    })
    &&& r.exclusive_samples == m.exclusive_samples
    &&& r.descendant_samples == m.descendant_samples
    &&& r.caller_context_samples == m.caller_context_samples
    &&& r.total_scope_samples == m.total_scope_samples
    &&& r.tree@ == drawn.tree@
}

/// Whether an outcome tells what a function costs below a caller, by metrics
/// and the tree below it, if there is one.
pub open spec fn tells_call(
    r: Result<FunctionUnderCallerResult, String>,
    p: ResolvedProfile,
    req: FunctionUnderCallerRequest,
    scope: Scope,
    call: CallFacts,
    m: FunctionUnderCallerMetrics,
    drawn: Option<DrawnFocus>,
) -> bool {
    if m.descendant_samples == 0 {
        r matches Err(e) && e@ == absent_error(call.function, call.caller, scope.name)
    } else {
        match req.filter_error() {
            Some(e) => r matches Err(message) && message@ == e,
            None => match (r, drawn) {
                (Ok(report), Some(drawn)) => tells_cost(report, p, req, scope, call, m, drawn),
                (Err(e), None) => e@ == absent_error(call.function, call.caller, scope.name),
                _ => false,
            },
        }
    }
}

/// Whether a tree, if there is one, is that below a function with a caller, for
/// a filter that a request describes.
pub open spec fn draws_call(
    drawn: Option<DrawnFocus>,
    p: ResolvedProfile,
    req: FunctionUnderCallerRequest,
    scope: Scope,
    call: CallFacts,
) -> bool {
    req.filter_error() is None ==> exists|filter: FrameNameFilter| #[trigger]
        req.has_filter(filter) && trees::draws_focus(
            drawn,
            call.function,
            StartFacts::UnderCaller {
                function: call.function,
                caller: call.caller,
                relationship: call.relationship,
            },
            scope::members(&p, scope.indices),
            p.interval_ms,
            req.window(p),
            req.drawing(),
            filter,
        )
}

/// Whether an outcome tells what a function costs below a caller.
pub open spec fn answers_call(
    r: Result<FunctionUnderCallerResult, String>,
    p: ResolvedProfile,
    req: FunctionUnderCallerRequest,
    scope: Scope,
    call: CallFacts,
) -> bool {
    exists|m: FunctionUnderCallerMetrics, drawn: Option<DrawnFocus>|
        #![trigger tells_call(r, p, req, scope, call, m, drawn)]
        measures(
            m,
            p,
            scope.indices,
            req.window(p),
            call.function,
            call.caller,
            call.relationship,
        ) && (m.descendant_samples > 0 ==> draws_call(drawn, p, req, scope, call)) && tells_call(
            r,
            p,
            req,
            scope,
            call,
            m,
            drawn,
        )
}

/// Whether an outcome answers a request for what a function costs below a
/// caller, by the tables of the threads.
pub open spec fn answers_under_caller(
    r: Result<FunctionUnderCallerResult, String>,
    p: ResolvedProfile,
    req: FunctionUnderCallerRequest,
    scope: Scope,
    relationship: CallerRelationship,
    tables: Seq<Seq<FunctionStats>>,
) -> bool {
    match (req.function(tables, scope.indices), req.caller(tables, scope.indices)) {
        (None, _) => r matches Err(e) && e@
            == "Function not found in selected thread scope. Provide function_id or function_name; try profile_search_functions first."@,
        (_, None) => r matches Err(e) && e@
            == "Caller function not found in selected thread scope. Provide caller_function_id or caller_name; try profile_search_functions first."@,
        (Some(function), Some(caller)) => answers_call(
            r,
            p,
            req,
            scope,
            CallFacts { function, caller, relationship },
        ),
    }
}

/// Whether an outcome answers a request for what a function costs below a caller.
pub open spec fn reports_under_caller(
    r: Result<FunctionUnderCallerResult, String>,
    p: ResolvedProfile,
    req: FunctionUnderCallerRequest,
    scope: Scope,
) -> bool {
    match relationship_of(req.caller_mode@) {
        None => r matches Err(e) && e@ == "caller_mode must be 'ancestor' or 'immediate'"@,
        Some(relationship) => exists|tables: Seq<Seq<FunctionStats>>| #[trigger]
            functions::tables_for(tables, p, scope.indices, req.window(p)) && answers_under_caller(
                r,
                p,
                req,
                scope,
                relationship,
                tables,
            ),
    }
}

/// What a function costs below a caller.
fn report_call(
    profile: &ResolvedProfile,
    req: &FunctionUnderCallerRequest,
    range: &AnalysisRange,
    selection: &ThreadScopeSelection,
    function_name: String,
    caller_name: String,
    caller_relationship: CallerRelationship,
) -> (r: Result<FunctionUnderCallerResult, String>)
    requires
        *range == req.window(*profile),
        scope::leads_into(*selection, *profile),
    ensures
        answers_call(
            r,
            *profile,
            *req,
            scope::scope_in(*selection),
            (CallFacts {
                function: function_name@,
                caller: caller_name@,
                relationship: caller_relationship,
            }),
        ),
{
    let ghost found = scope::scope_in(*selection);
    let ghost call = CallFacts {
        function: function_name@,
        caller: caller_name@,
        relationship: caller_relationship,
    };
    let metrics = compute_function_under_caller_metrics(
        profile,
        &selection.thread_indices,
        range,
        function_name.as_str(),
        caller_name.as_str(),
        caller_relationship,
    );
    if metrics.descendant_samples == 0 {
        let r: Result<FunctionUnderCallerResult, String> = Err(
            absent_message(function_name.as_str(), caller_name.as_str(), selection.scope.as_str()),
        );
        assert(tells_call(r, *profile, *req, found, call, metrics, None));
        assert(answers_call(r, *profile, *req, found, call));
        return r;
    }
    let threads = scope::refer_threads(profile, &selection.thread_indices);
    let exclude_framework: bool = functions::exclude_framework_enabled(
        req.exclude_framework,
        req.user_code_only,
    );
    let filter = match FrameNameFilter::new(
        &req.include_names,
        &req.exclude_names,
        &req.include_regex,
        &req.exclude_regex,
        exclude_framework,
    ) {
        Ok(filter) => filter,
        Err(e) => {
            let r: Result<FunctionUnderCallerResult, String> = Err(e);
            assert(tells_call(r, *profile, *req, found, call, metrics, None));
            assert(answers_call(r, *profile, *req, found, call));
            return r;
        },
    };
    assert(req.has_filter(filter));
    let d = Drawing {
        max_depth: req.max_depth,
        min_percent: req.min_percent,
        short_names: req.short_names,
    };
    let drawn = trees::draw_under_caller(
        &threads,
        profile.interval_ms,
        range,
        function_name.as_str(),
        caller_name.as_str(),
        caller_relationship,
        d,
        &filter,
    );
    let ghost witness = drawn;
    assert(draws_call(witness, *profile, *req, found, call));
    let focused = match drawn {
        Some(focused) => focused,
        None => {
            let r: Result<FunctionUnderCallerResult, String> = Err(
                absent_message(
                    function_name.as_str(),
                    caller_name.as_str(),
                    selection.scope.as_str(),
                ),
            );
            assert(tells_call(r, *profile, *req, found, call, metrics, witness));
            assert(answers_call(r, *profile, *req, found, call));
            return r;
        },
    };
    let sum = summary::thread_sample_summary(profile, &selection.thread_indices, Some(range));
    let report = FunctionUnderCallerResult {
        effective_range: summary::effective_time_range(range),
        scope: selection.scope.clone(),
        thread_count: selection.thread_indices.len(),
        threads: scope::list_threads(
            profile,
            req.include_threads,
            &selection.thread_indices,
            range,
        ),
        matched_threads: scope::list_threads(
            profile,
            req.include_threads,
            &metrics.matched_thread_indices,
            range,
        ),
        function_id: symbols::function_id(function_name.as_str()),
        display_name: symbols::compact_function_name(function_name.as_str()),
        function_name,
        caller_function_id: symbols::function_id(caller_name.as_str()),
        caller_display_name: symbols::compact_function_name(caller_name.as_str()),
        caller_function_name: caller_name,
        caller_mode: caller_relationship_label(caller_relationship).to_string(),
        exclusive_time_ms: metrics.exclusive_time_ms,
        descendant_time_ms: metrics.descendant_time_ms,
        caller_context_time_ms: metrics.caller_context_time_ms,
        scope_time_ms: metrics.scope_time_ms,
        wall_time_ms: sum.wall_time_ms,
        cpu_sample_time_ms: sum.cpu_sample_time_ms,
        cpu_sample_percent_of_wall: sum.cpu_sample_percent_of_wall,
        samples_per_second: sum.samples_per_second,
        exclusive_percent_of_scope: Ratio {
            part: metrics.exclusive_time_ms,
            whole: metrics.scope_time_ms,
        },
        descendant_percent_of_scope: Ratio {
            part: metrics.descendant_time_ms,
            whole: metrics.scope_time_ms,
        },
        caller_context_percent_of_scope: Ratio {
            part: metrics.caller_context_time_ms,
            whole: metrics.scope_time_ms,
        },
        descendant_percent_of_caller: Ratio {
            part: metrics.descendant_time_ms,
            whole: metrics.caller_context_time_ms,
        },
        exclusive_samples: metrics.exclusive_samples,
        descendant_samples: metrics.descendant_samples,
        caller_context_samples: metrics.caller_context_samples,
        total_scope_samples: metrics.total_scope_samples,
        tree: focused.tree,
    };
    assert(tells_cost(report, *profile, *req, found, call, metrics, witness->0));
    let r: Result<FunctionUnderCallerResult, String> = Ok(report);
    assert(tells_call(r, *profile, *req, found, call, metrics, witness));
    assert(answers_call(r, *profile, *req, found, call));
    r
}

/// What a function of selected threads costs below a caller, by their tables.
pub fn under_caller_in_scope(
    profile: &ResolvedProfile,
    req: &FunctionUnderCallerRequest,
    range: &AnalysisRange,
    selection: &ThreadScopeSelection,
    caller_relationship: CallerRelationship,
    tables: &Vec<Vec<FunctionStats>>,
) -> (r: Result<FunctionUnderCallerResult, String>)
    requires
        *range == req.window(*profile),
        scope::leads_into(*selection, *profile),
        tables@.len() == profile.threads@.len(),
    ensures
        answers_under_caller(
            r,
            *profile,
            *req,
            scope::scope_in(*selection),
            caller_relationship,
            functions::table_rows(tables@),
        ),
{
    let function_name: String = match functions::resolve_function_name_in_threads(
        tables,
        borrowed(&req.function_name),
        borrowed(&req.function_id),
        req.match_mode.as_str(),
        Some(&selection.thread_indices),
    ) {
        Some(name) => name,
        None => {
            return Err(
                "Function not found in selected thread scope. Provide function_id or function_name; try profile_search_functions first.".to_string(),
            );
        },
    };
    let caller_name: String = match functions::resolve_function_name_in_threads(
        tables,
        borrowed(&req.caller_name),
        borrowed(&req.caller_function_id),
        req.caller_match_mode.as_str(),
        Some(&selection.thread_indices),
    ) {
        Some(name) => name,
        None => {
            return Err(
                "Caller function not found in selected thread scope. Provide caller_function_id or caller_name; try profile_search_functions first.".to_string(),
            );
        },
    };
    report_call(profile, req, range, selection, function_name, caller_name, caller_relationship)
}

/// What a function of selected threads costs below a caller.
fn report_selection(
    profile: &ResolvedProfile,
    cache: &mut AnalysisCache,
    req: &FunctionUnderCallerRequest,
    range: &AnalysisRange,
    selection: &ThreadScopeSelection,
) -> (r: Result<FunctionUnderCallerResult, String>)
    requires
        *range == req.window(*profile),
        scope::leads_into(*selection, *profile),
        old(cache).belongs_to(*profile),
    ensures
        reports_under_caller(r, *profile, *req, scope::scope_in(*selection)),
        old(cache).grows_into(*final(cache), *profile),
{
    let caller_relationship = match parse_caller_relationship(req.caller_mode.as_str()) {
        Ok(relationship) => relationship,
        Err(e) => {
            return Err(e);
        },
    };
    let tables = functions::function_stats_for_threads(profile, cache, &selection.thread_indices, range);
    let r = under_caller_in_scope(profile, req, range, selection, caller_relationship, &tables);
    proof {
        let views = functions::table_rows(tables@);
        assert(functions::tables_for(views, *profile, scope::scope_in(*selection).indices, *range));
        assert(reports_under_caller(r, *profile, *req, scope::scope_in(*selection)));
    }
    r
}

/// What a function costs below a caller.
pub fn profile_function_under_caller(
    profile: &ResolvedProfile,
    cache: &mut AnalysisCache,
    req: &FunctionUnderCallerRequest,
) -> (r: Result<FunctionUnderCallerResult, String>)
    requires
        old(cache).belongs_to(*profile),
    ensures
        old(cache).grows_into(*final(cache), *profile),
        match req.scope(*profile) {
            Err(e) => r matches Err(message) && message@ == e,
            Ok(scope) => reports_under_caller(r, *profile, *req, scope),
        },
{
    let (range, selection) = match scope::choose_wide(
        profile,
        req.start_time_ms,
        req.end_time_ms,
        &req.thread,
        &req.tid,
        req.thread_index,
        &req.thread_name_prefix,
        &req.thread_name_prefixes,
    ) {
        Ok(found) => found,
        Err(e) => {
            return Err(e);
        },
    };
    report_selection(profile, cache, req, &range, &selection)
}

/// A relationship is read back from its name.
pub proof fn law_relationships_have_names(relationship: CallerRelationship)
    ensures
        relationship_named(relationship_label(relationship)) == Some(relationship),
        relationship_named("ancestor"@) == Some(CallerRelationship::Ancestor),
        relationship_named("immediate"@) == Some(CallerRelationship::Immediate),
{
    reveal_strlit("ancestor");
    reveal_strlit("immediate");
    assert("ancestor"@.len() == 8 && "immediate"@.len() == 9);
}

}
