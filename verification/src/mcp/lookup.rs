//! Finding functions, and what calls them and what they call.
use crate::analysis::context_switch;
use crate::analysis::functions::FunctionStats;
use crate::analysis::samples;
use crate::analysis::samples::AnalysisRange;
use crate::analysis::symbols;
use crate::filters;
use crate::fnv;
use crate::groups;
use crate::groups::{Group, Groups, Keyed};
use crate::mcp::analysis_cache::AnalysisCache;
use crate::mcp::functions;
use crate::mcp::hotspots;
use crate::mcp::hotspots::{Merged, RowFilter};
use crate::mcp::summary;
use crate::mcp::summary::EffectiveTimeRange;
use crate::mcp::threads;
use crate::profile::resolved::{ResolvedProfile, ResolvedSample, ResolvedStack, ResolvedThread};
use crate::rank;
use crate::text;
use crate::units;
use crate::units::{Ratio, TimeValue};
use vstd::prelude::*;

verus! {

/// A request for functions by name.
#[derive(Debug)]
pub struct SearchFunctionsRequest {
    pub path: String,
    pub start_time_ms: Option<TimeValue>,
    pub end_time_ms: Option<TimeValue>,
    pub query: String,
    pub match_mode: String,
    pub thread: Option<String>,
    pub tid: Option<String>,
    pub thread_index: Option<usize>,
    pub sort_by: String,
    pub limit: usize,
    pub include_names: Option<String>,
    pub exclude_names: Option<String>,
    pub exclude_framework: bool,
    pub user_code_only: bool,
}

/// A found function in its thread.
#[derive(Debug)]
pub struct FunctionSearchRow {
    pub function_id: String,
    pub name: String,
    pub display_name: String,
    pub thread: String,
    pub tid: String,
    pub thread_index: usize,
    pub self_percent: Ratio,
    pub total_percent: Ratio,
    pub self_time_ms: u64,
    pub total_time_ms: u64,
    pub sample_count: usize,
    pub library: Option<String>,
    pub file: Option<String>,
    pub line: Option<u32>,
    pub source: Option<String>,
}

/// Found functions.
#[derive(Debug)]
pub struct SearchFunctionsResult {
    pub effective_range: EffectiveTimeRange,
    pub query: String,
    pub match_mode: String,
    pub functions: Vec<FunctionSearchRow>,
}

/// A time in hundredths of a millisecond, halves rounded up.
pub open spec fn hundredths(time: u64) -> int {
    (time + 5_000) / 10_000
}

impl SearchFunctionsRequest {
    /// The window that the request asks for.
    pub open spec fn window(&self, p: ResolvedProfile) -> AnalysisRange {
        summary::window(p, self.start_time_ms, self.end_time_ms)
    }

    /// What functions are filtered by.
    pub open spec fn row_filter(&self) -> RowFilter {
        RowFilter {
            include_names: text::opt(self.include_names),
            exclude_names: text::opt(self.exclude_names),
            exclude_framework: self.exclude_framework || self.user_code_only,
        }
    }

    /// The only thread that is searched, if the request names one, or why
    /// the request cannot be answered.
    pub open spec fn choice(&self, p: ResolvedProfile) -> Result<Option<int>, Seq<char>> {
        match samples::window_error(p.duration_ms, self.start_time_ms, self.end_time_ms) {
            Some(e) => Err(e),
            None => if self.thread is Some || self.tid is Some || self.thread_index is Some {
                match threads::sampled_selection(
                    p.threads@,
                    text::opt(self.thread),
                    text::opt(self.tid),
                    self.thread_index,
                    self.window(p),
                ) {
                    Ok(i) => Ok(Some(i)),
                    Err(e) => Err(e),
                }
            } else {
                Ok(None)
            },
        }
    }

    /// Whether a function is found.
    pub open spec fn finds(&self, s: FunctionStats) -> bool {
        filters::name_matches(s.name@, self.query@, self.match_mode@) && functions::passes(
            s,
            self.row_filter().include_names,
            self.row_filter().exclude_names,
            self.row_filter().exclude_framework,
        )
    }
}

/// The sampled threads that are searched among the first `n`.
pub open spec fn searched(
    threads: Seq<ResolvedThread>,
    only: Option<int>,
    range: AnalysisRange,
    n: int,
) -> Seq<usize>
    decreases n,
{
    if n <= 0 {
        Seq::empty()
    } else {
        let before = searched(threads, only, range, n - 1);
        if (only matches Some(i) ==> i == n - 1) && samples::samples_counted(
            threads[n - 1],
            Some(range),
        ) > 0 {
            before.push((n - 1) as usize)
        } else {
            before
        }
    }
}

/// The found functions among the first `n` rows of a thread's table.
pub open spec fn found_in(
    table: Seq<FunctionStats>,
    req: SearchFunctionsRequest,
    thread: int,
    n: int,
) -> Seq<(int, FunctionStats)>
    decreases n,
{
    if n <= 0 {
        Seq::empty()
    } else {
        let before = found_in(table, req, thread, n - 1);
        if req.finds(table[n - 1]) {
            before.push((thread, table[n - 1]))
        } else {
            before
        }
    }
}

/// The found functions in the first `n` tables, with their threads.
pub open spec fn found(
    tables: Seq<Seq<FunctionStats>>,
    req: SearchFunctionsRequest,
    n: int,
) -> Seq<(int, FunctionStats)>
    decreases n,
{
    if n <= 0 {
        Seq::empty()
    } else {
        found(tables, req, n - 1) + found_in(
            tables[n - 1],
            req,
            n - 1,
            tables[n - 1].len() as int,
        )
    }
}

/// Found functions rank by falling self time, or else by falling total time,
/// in hundredths of a millisecond.
pub open spec fn by_shown_time(sort_by: Seq<char>) -> spec_fn((int, FunctionStats)) -> Seq<i128> {
    |hit: (int, FunctionStats)|
        if sort_by == "self"@ {
            rank::descending(hundredths(hit.1.self_time_ms))
        } else {
            rank::descending(hundredths(hit.1.total_time_ms))
        }
}

/// Whether a row reports a found function.
pub open spec fn search_row(
    row: FunctionSearchRow,
    p: ResolvedProfile,
    hit: (int, FunctionStats),
) -> bool {
    let s = hit.1;
    &&& row.function_id@ == symbols::id_of(s.name@)
    &&& row.name@ == s.name@
    &&& row.display_name@ == symbols::compact_of(s.name@)
    &&& row.thread@ == p.threads@[hit.0].name@
    &&& row.tid@ == p.threads@[hit.0].tid@
    &&& row.thread_index == hit.0
    &&& row.self_percent == s.self_percent
    &&& row.total_percent == s.total_percent
    &&& row.self_time_ms == s.self_time_ms
    &&& row.total_time_ms == s.total_time_ms
    &&& row.sample_count == s.sample_count
    &&& text::opt(row.library) == text::opt(s.library)
    &&& text::opt(row.file) == text::opt(s.file)
    &&& row.line == s.line
    &&& text::opt(row.source) == functions::location(text::opt(s.file), s.line)
}

/// Whether a report lists found functions, by the tables of their threads.
pub open spec fn answers_search(
    r: SearchFunctionsResult,
    p: ResolvedProfile,
    req: SearchFunctionsRequest,
    tables: Seq<Seq<FunctionStats>>,
) -> bool {
    let shown = context_switch::at_most(
        rank::ranked(found(tables, req, tables.len() as int), by_shown_time(req.sort_by@)),
        req.limit as int,
    );
    &&& r.effective_range == summary::range_row(req.window(p))
    &&& r.query@ == req.query@
    &&& r.match_mode@ == req.match_mode@
    &&& r.functions@.len() == shown.len()
    &&& forall|i: int| 0 <= i < shown.len() ==> search_row(#[trigger] r.functions@[i], p, shown[i])
}

/// Whether a report answers a request for functions by name.
pub open spec fn reports_search(
    r: SearchFunctionsResult,
    p: ResolvedProfile,
    req: SearchFunctionsRequest,
    only: Option<int>,
) -> bool {
    exists|tables: Seq<Seq<FunctionStats>>| #[trigger]
        functions::tables_for(
            tables,
            p,
            searched(p.threads@, only, req.window(p), p.threads@.len() as int),
            req.window(p),
        ) && answers_search(r, p, req, tables)
}

/// What positions lead to.
spec fn hits_at(tables: Seq<Vec<FunctionStats>>, at: Seq<(usize, usize)>) -> Seq<
    (int, FunctionStats),
> {
    Seq::new(at.len(), |i: int| hit_at(tables)(at[i]))
}

/// What a position leads to.
spec fn hit_at(tables: Seq<Vec<FunctionStats>>) -> spec_fn((usize, usize)) -> (int, FunctionStats) {
    |at: (usize, usize)| (at.0 as int, tables[at.0 as int]@[at.1 as int])
}

/// Whether positions lead to rows.
spec fn all_valid(tables: Seq<Vec<FunctionStats>>, at: Seq<(usize, usize)>) -> bool {
    forall|i: int|
        0 <= i < at.len() ==> (#[trigger] at[i]).0 < tables.len() && at[i].1
            < tables[at[i].0 as int]@.len()
}

/// The positions of found functions.
fn find_functions(tables: &Vec<Vec<FunctionStats>>, req: &SearchFunctionsRequest) -> (r: Vec<
    (usize, usize),
>)
    ensures
        all_valid(tables@, r@),
        hits_at(tables@, r@) == found(
            functions::table_rows(tables@),
            *req,
            tables@.len() as int,
        ),
{
    let ghost views = functions::table_rows(tables@);
    let exclude_framework: bool = functions::exclude_framework_enabled(
        req.exclude_framework,
        req.user_code_only,
    );
    let mut at: Vec<(usize, usize)> = Vec::new();
    let mut n: usize = 0;
    assert(hits_at(tables@, at@) =~= Seq::<(int, FunctionStats)>::empty());
    while n < tables.len()
        invariant
            n <= tables@.len(),
            views == functions::table_rows(tables@),
            exclude_framework == (req.exclude_framework || req.user_code_only),
            all_valid(tables@, at@),
            hits_at(tables@, at@) == found(views, *req, n as int),
        decreases tables@.len() - n,
    {
        let table = &tables[n];
        let ghost base = found(views, *req, n as int);
        let mut i: usize = 0;
        assert(base + found_in(table@, *req, n as int, 0) =~= base);
        while i < table.len()
            invariant
                n < tables@.len(),
                *table == tables@[n as int],
                i <= table@.len(),
                exclude_framework == (req.exclude_framework || req.user_code_only),
                all_valid(tables@, at@),
                hits_at(tables@, at@) == base + found_in(table@, *req, n as int, i as int),
            decreases table@.len() - i,
        {
            let ghost before = at@;
            let s = &table[i];
            if filters::function_matches(
                s.name.as_str(),
                req.query.as_str(),
                req.match_mode.as_str(),
            ) && functions::function_passes_filters(
                s,
                &req.include_names,
                &req.exclude_names,
                exclude_framework,
            ) {
                at.push((n, i));
                proof {
                    assert(hits_at(tables@, at@) =~= hits_at(tables@, before).push(
                        (n as int, *s),
                    ));
                    assert(hits_at(tables@, at@) =~= base + found_in(
                        table@,
                        *req,
                        n as int,
                        i + 1,
                    ));
                }
            }
            i += 1;
        }
        n += 1;
    }
    at
}

/// A time in hundredths of a millisecond, halves rounded up.
fn to_hundredths(time: u64) -> (r: u128)
    ensures
        r == hundredths(time),
{
    (time as u128 + 5_000) / 10_000
}

/// Ranks found functions.
fn rank_hits(tables: &Vec<Vec<FunctionStats>>, at: Vec<(usize, usize)>, sort_by: &str) -> (r: Vec<
    (usize, usize),
>)
    requires
        all_valid(tables@, at@),
    ensures
        all_valid(tables@, r@),
        hits_at(tables@, r@) == rank::ranked(hits_at(tables@, at@), by_shown_time(sort_by@)),
{
    let by_self: bool = text::text_eq(sort_by, "self");
    let ghost all = at@;
    let ghost hits = hits_at(tables@, all);
    let ghost order = by_shown_time(sort_by@);
    let mut keys: Vec<Vec<i128>> = Vec::new();
    let mut i: usize = 0;
    while i < at.len()
        invariant
            i <= at@.len(),
            all == at@,
            all_valid(tables@, at@),
            hits == hits_at(tables@, all),
            by_self == (sort_by@ == "self"@),
            order == by_shown_time(sort_by@),
            keys@.len() == i,
            forall|k: int| 0 <= k < i ==> (#[trigger] keys@[k])@ == order(hits[k]),
        decreases at@.len() - i,
    {
        let place = at[i];
        let s = &tables[place.0][place.1];
        let mut key: Vec<i128> = Vec::new();
        if by_self {
            rank::push_descending(&mut key, to_hundredths(s.self_time_ms));
        } else {
            rank::push_descending(&mut key, to_hundredths(s.total_time_ms));
        }
        assert(hits[i as int] == (place.0 as int, *s));
        assert(key@ =~= order(hits[i as int]));
        keys.push(key);
        i += 1;
    }
    let ghost ks = rank::key_views(keys@);
    let sorted = rank::arrange(at, &keys);
    proof {
        assert(ks =~= rank::keys_of(hits, order));
        let f = hit_at(tables@);
        rank::lemma_arranged_map(all, ks, f);
        rank::lemma_ranking_len(ks, rank::ranking(ks));
        assert(hits_at(tables@, sorted@) =~= Seq::new(
            all.len(),
            |p: int| f(rank::arranged(all, ks)[p]),
        ));
        assert(hits =~= Seq::new(all.len(), |p: int| f(all[p])));
        assert forall|p: int| 0 <= p < sorted@.len() implies (#[trigger] sorted@[p]).0
            < tables@.len() && sorted@[p].1 < tables@[sorted@[p].0 as int]@.len() by {
            assert(sorted@[p] == all[rank::ranking(ks)[p]]);
        }
    }
    sorted
}

/// Reports found functions, by the tables of their threads.
pub fn search_tables(
    profile: &ResolvedProfile,
    req: &SearchFunctionsRequest,
    range: &AnalysisRange,
    tables: &Vec<Vec<FunctionStats>>,
) -> (r: SearchFunctionsResult)
    requires
        *range == req.window(*profile),
        tables@.len() == profile.threads@.len(),
    ensures
        answers_search(r, *profile, *req, functions::table_rows(tables@)),
{
    let at = find_functions(tables, req);
    let ghost hits = hits_at(tables@, at@);
    let sorted = rank_hits(tables, at, req.sort_by.as_str());
    let ghost ranked = hits_at(tables@, sorted@);
    let ghost shown = context_switch::at_most(ranked, req.limit as int);
    let mut list: Vec<FunctionSearchRow> = Vec::new();
    let mut i: usize = 0;
    while i < sorted.len() && i < req.limit
        invariant
            i <= sorted@.len(),
            i <= req.limit,
            all_valid(tables@, sorted@),
            tables@.len() == profile.threads@.len(),
            ranked == hits_at(tables@, sorted@),
            list@.len() == i,
            forall|k: int| 0 <= k < i ==> search_row(#[trigger] list@[k], *profile, ranked[k]),
        decreases sorted@.len() - i,
    {
        let place = sorted[i];
        let thread = &profile.threads[place.0];
        let s = &tables[place.0][place.1];
        assert(ranked[i as int] == (place.0 as int, *s));
        list.push(
            FunctionSearchRow {
                function_id: symbols::function_id(s.name.as_str()),
                name: s.name.clone(),
                display_name: symbols::compact_function_name(s.name.as_str()),
                thread: thread.name.clone(),
                tid: thread.tid.clone(),
                thread_index: place.0,
                self_percent: s.self_percent,
                total_percent: s.total_percent,
                self_time_ms: s.self_time_ms,
                total_time_ms: s.total_time_ms,
                sample_count: s.sample_count,
                library: text::opt_clone(&s.library),
                file: text::opt_clone(&s.file),
                line: s.line,
                source: functions::source_location(&s.file, s.line),
            },
        );
        i += 1;
    }
    SearchFunctionsResult {
        effective_range: summary::effective_time_range(range),
        query: req.query.clone(),
        match_mode: req.match_mode.clone(),
        functions: list,
    }
}

/// The sampled threads that are searched.
fn find_searched(threads: &Vec<ResolvedThread>, only: Option<usize>, range: &AnalysisRange) -> (r: Vec<
    usize,
>)
    ensures
        r@ == searched(threads@, threads::opt_index(only), *range, threads@.len() as int),
{
    let mut indices: Vec<usize> = Vec::new();
    let mut n: usize = 0;
    while n < threads.len()
        invariant
            n <= threads@.len(),
            indices@ == searched(threads@, threads::opt_index(only), *range, n as int),
        decreases threads@.len() - n,
    {
        let wanted: bool = match only {
            Some(i) => i == n,
            None => true,
        };
        if wanted && samples::sample_count(&threads[n], Some(range)) > 0 {
            indices.push(n);
        }
        n += 1;
    }
    indices
}

/// Functions by name.
pub fn profile_search_functions(
    profile: &ResolvedProfile,
    cache: &mut AnalysisCache,
    req: &SearchFunctionsRequest,
) -> (r: Result<SearchFunctionsResult, String>)
    requires
        old(cache).belongs_to(*profile),
    ensures
        old(cache).grows_into(*final(cache), *profile),
        match r {
            Ok(report) => req.choice(*profile) matches Ok(only) && reports_search(
                report,
                *profile,
                *req,
                only,
            ),
            Err(e) => req.choice(*profile) == Err::<Option<int>, Seq<char>>(e@),
        },
{
    let range = match AnalysisRange::resolve(profile, req.start_time_ms, req.end_time_ms) {
        Ok(range) => range,
        Err(e) => {
            return Err(e);
        },
    };
    assert(range == req.window(*profile));
    let only: Option<usize> = if req.thread.is_some() || req.tid.is_some()
        || req.thread_index.is_some() {
        match threads::select_sample_thread(
            profile,
            &req.thread,
            &req.tid,
            req.thread_index,
            &range,
        ) {
            Ok(selected) => Some(selected.index),
            Err(e) => {
                return Err(e);
            },
        }
    } else {
        None
    };
    assert(req.choice(*profile) == Ok::<Option<int>, Seq<char>>(threads::opt_index(only)));
    let indices = find_searched(&profile.threads, only, &range);
    let tables = functions::function_stats_for_threads(profile, cache, &indices, &range);
    let report = search_tables(profile, req, &range, &tables);
    proof {
        let witness = functions::table_rows(tables@);
        assert(functions::tables_for(witness, *profile, indices@, range));
        assert(reports_search(report, *profile, *req, threads::opt_index(only)));
    }
    Ok(report)
}


/// A request for one function.
#[derive(Debug)]
pub struct FunctionDetailRequest {
    pub path: String,
    pub start_time_ms: Option<TimeValue>,
    pub end_time_ms: Option<TimeValue>,
    pub function_name: Option<String>,
    pub function_id: Option<String>,
    pub match_mode: String,
}

/// A caller or callee and how often it was seen.
#[derive(Debug)]
pub struct CallerCalleeEntry {
    pub function_id: String,
    pub function_name: String,
    pub display_name: String,
    pub count: usize,
}

/// One function.
#[derive(Debug)]
pub struct FunctionDetailResult {
    pub effective_range: EffectiveTimeRange,
    pub function_id: String,
    pub function_name: String,
    pub display_name: String,
    pub self_time_ms: u64,
    pub total_time_ms: u64,
    pub self_percent: Ratio,
    pub total_percent: Ratio,
    pub sample_count: usize,
    pub library: Option<String>,
    pub file: Option<String>,
    pub line: Option<u32>,
    pub source: Option<String>,
    pub callers: Vec<CallerCalleeEntry>,
    pub callees: Vec<CallerCalleeEntry>,
    pub threads: Vec<String>,
}

/// A name on its way to be counted.
pub struct NameItem<'a> {
    name: &'a str,
}

/// A name and how often it was seen.
pub struct CountedName {
    name: String,
    count: usize,
}

impl Keyed for CountedName {
    type Model = (Seq<char>, usize);

    type Key = Seq<char>;

    closed spec fn model(&self) -> (Seq<char>, usize) {
        (self.name@, self.count)
    }

    open spec fn key(m: (Seq<char>, usize)) -> Seq<char> {
        m.0
    }

    open spec fn bucket(k: Seq<char>) -> u64 {
        fnv::of_text(k)
    }
}

impl<'a> Group<NameItem<'a>> for CountedName {
    type Item = Seq<char>;

    closed spec fn seen(item: NameItem<'a>) -> Seq<char> {
        item.name@
    }

    open spec fn key_of(item: Seq<char>) -> Seq<char> {
        item
    }

    open spec fn fresh(item: Seq<char>) -> (Seq<char>, usize) {
        (item, 1)
    }

    open spec fn grown(m: (Seq<char>, usize), item: Seq<char>) -> (Seq<char>, usize) {
        (m.0, units::capped_count(m.1 + 1))
    }

    proof fn keeps_key(m: (Seq<char>, usize), item: Seq<char>) {
    }

    fn hash(item: &NameItem<'a>) -> (r: u64) {
        fnv::hash_text(item.name)
    }

    fn accepts(&self, item: &NameItem<'a>) -> (r: bool) {
        text::text_eq(self.name.as_str(), item.name)
    }

    fn start(item: &NameItem<'a>) -> (r: Self) {
        CountedName { name: item.name.to_string(), count: 1 }
    }

    fn absorb(&mut self, item: &NameItem<'a>) {
        self.count = units::capped_count_add(self.count, 1);
    }
}

/// The names beside a function in the first `n` frames of a stack: those
/// right below it, or else those right above it.
pub open spec fn beside(names: Seq<Seq<char>>, target: Seq<char>, below: bool, n: int) -> Seq<
    Seq<char>,
>
    decreases n,
{
    if n <= 0 {
        Seq::empty()
    } else {
        let before = beside(names, target, below, n - 1);
        let neighbour = if below {
            n
        } else {
            n - 2
        };
        if names[n - 1] == target && 0 <= neighbour < names.len() {
            before.push(names[neighbour])
        } else {
            before
        }
    }
}

/// The names beside a function in the first `n` samples of a thread.
pub open spec fn beside_in_thread(
    samples: Seq<ResolvedSample>,
    range: AnalysisRange,
    target: Seq<char>,
    below: bool,
    n: int,
) -> Seq<Seq<char>>
    decreases n,
{
    if n <= 0 {
        Seq::empty()
    } else {
        let before = beside_in_thread(samples, range, target, below, n - 1);
        let names = samples[n - 1].stack.names();
        if range.covers(samples[n - 1].timestamp_ms) {
            before + beside(names, target, below, names.len() as int)
        } else {
            before
        }
    }
}

/// The names beside a function in the first `n` threads.
pub open spec fn beside_in_threads(
    threads: Seq<ResolvedThread>,
    range: AnalysisRange,
    target: Seq<char>,
    below: bool,
    n: int,
) -> Seq<Seq<char>>
    decreases n,
{
    if n <= 0 {
        Seq::empty()
    } else {
        let samples = threads[n - 1].samples@;
        beside_in_threads(threads, range, target, below, n - 1) + beside_in_thread(
            samples,
            range,
            target,
            below,
            samples.len() as int,
        )
    }
}

/// Names with how often they occur, in the order in which they first do.
pub open spec fn tallied(names: Seq<Seq<char>>) -> Seq<(Seq<char>, usize)> {
    groups::grouped::<NameItem<'static>, CountedName>(names)
}

/// Names rank by falling count.
pub open spec fn by_count() -> spec_fn((Seq<char>, usize)) -> Seq<i128> {
    |m: (Seq<char>, usize)| rank::descending(m.1 as int)
}

/// Whether entries list names with how often they occur, the most frequent first.
pub open spec fn counts_names(list: Seq<CallerCalleeEntry>, names: Seq<Seq<char>>) -> bool {
    let all = rank::ranked(tallied(names), by_count());
    list.len() == all.len() && forall|i: int|
        0 <= i < list.len() ==> (#[trigger] list[i]).function_name@ == all[i].0
            && list[i].function_id@ == symbols::id_of(all[i].0) && list[i].display_name@
            == symbols::compact_of(all[i].0) && list[i].count == all[i].1
}

impl FunctionDetailRequest {
    /// The window that the request asks for.
    pub open spec fn window(&self, p: ResolvedProfile) -> AnalysisRange {
        summary::window(p, self.start_time_ms, self.end_time_ms)
    }

    /// The function that the request means, by the tables of the threads.
    pub open spec fn target(&self, tables: Seq<Seq<FunctionStats>>) -> Option<Seq<char>> {
        functions::meant(
            functions::rows_in(tables, None, tables.len() as int),
            text::opt(self.function_name),
            text::opt(self.function_id),
            self.match_mode@,
        )
    }
}

/// Whether a table has a row for a function.
pub open spec fn has_function(table: Seq<FunctionStats>, name: Seq<char>) -> bool {
    exists|i: int| 0 <= i < table.len() && (#[trigger] table[i]).name@ == name
}

/// The labels of the threads among the first `n` whose tables have a function.
pub open spec fn threads_with(
    p: ResolvedProfile,
    tables: Seq<Seq<FunctionStats>>,
    name: Seq<char>,
    n: int,
) -> Seq<Seq<char>>
    decreases n,
{
    if n <= 0 {
        Seq::empty()
    } else {
        let before = threads_with(p, tables, name, n - 1);
        if has_function(tables[n - 1], name) {
            let t = p.threads@[n - 1];
            before.push(threads::label_of(n - 1, t.name@, t.tid@))
        } else {
            before
        }
    }
}

/// Whether a report describes a function, by the tables of the threads.
pub open spec fn describes_function(
    r: FunctionDetailResult,
    p: ResolvedProfile,
    req: FunctionDetailRequest,
    tables: Seq<Seq<FunctionStats>>,
    name: Seq<char>,
) -> bool {
    let range = req.window(p);
    let n = p.threads@.len() as int;
    let rows = functions::rows_in(tables, None, n);
    let whole = summary::time_over(
        p.threads@,
        searched(p.threads@, None, range, n),
        p.interval_ms,
        Some(range),
    );
    &&& r.effective_range == summary::range_row(range)
    &&& r.function_id@ == symbols::id_of(name)
    &&& r.function_name@ == name
    &&& r.display_name@ == symbols::compact_of(name)
    &&& hotspots::merged_named(rows, name, rows.len() as int) == Some(
        (Merged {
            name,
            self_time: r.self_time_ms,
            total_time: r.total_time_ms,
            sample_count: r.sample_count,
            library: text::opt(r.library),
            file: text::opt(r.file),
            line: r.line,
        }),
    )
    &&& r.self_percent == (Ratio { part: r.self_time_ms, whole })
    &&& r.total_percent == (Ratio { part: r.total_time_ms, whole })
    &&& text::opt(r.source) == functions::location(text::opt(r.file), r.line)
    &&& counts_names(r.callers@, beside_in_threads(p.threads@, range, name, false, n))
    &&& counts_names(r.callees@, beside_in_threads(p.threads@, range, name, true, n))
    &&& text::views(r.threads@) == threads_with(p, tables, name, n)
}

/// The error where no function is meant.
pub open spec fn unknown_function_error() -> Seq<char> {
    "Function not found in any thread. Provide function_id or function_name; try profile_search_functions for substring matches."@
}

/// Whether an outcome answers a request for one function, by the tables of
/// the threads.
pub open spec fn answers_detail(
    r: Result<FunctionDetailResult, String>,
    p: ResolvedProfile,
    req: FunctionDetailRequest,
    tables: Seq<Seq<FunctionStats>>,
) -> bool {
    match r {
        Ok(report) => req.target(tables) matches Some(name) && describes_function(
            report,
            p,
            req,
            tables,
            name,
        ),
        Err(e) => req.target(tables) is None && e@ == unknown_function_error(),
    }
}

/// Whether an outcome answers a request for one function.
pub open spec fn reports_detail(
    r: Result<FunctionDetailResult, String>,
    p: ResolvedProfile,
    req: FunctionDetailRequest,
) -> bool {
    exists|tables: Seq<Seq<FunctionStats>>| #[trigger]
        functions::tables_for(
            tables,
            p,
            searched(p.threads@, None, req.window(p), p.threads@.len() as int),
            req.window(p),
        ) && answers_detail(r, p, req, tables)
}

/// Counts the names beside a function.
fn count_beside(
    threads: &Vec<ResolvedThread>,
    range: &AnalysisRange,
    target: &str,
    below: bool,
) -> (r: Vec<CountedName>)
    ensures
        groups::models(r@) == tallied(
            beside_in_threads(threads@, *range, target@, below, threads@.len() as int),
        ),
{
    let mut counted: Groups<CountedName> = Groups::new();
    let ghost mut names: Seq<Seq<char>> = Seq::empty();
    let mut m: usize = 0;
    while m < threads.len()
        invariant
            m <= threads@.len(),
            counted.well_formed(),
            names == beside_in_threads(threads@, *range, target@, below, m as int),
            counted@ == tallied(names),
        decreases threads@.len() - m,
    {
        let samples = &threads[m].samples;
        let ghost base = names;
        let mut n: usize = 0;
        assert(base + beside_in_thread(samples@, *range, target@, below, 0) =~= base);
        while n < samples.len()
            invariant
                n <= samples@.len(),
                counted.well_formed(),
                names == base + beside_in_thread(samples@, *range, target@, below, n as int),
                counted@ == tallied(names),
            decreases samples@.len() - n,
        {
            let sample = &samples[n];
            if range.contains(sample) {
                let stack: &ResolvedStack = &sample.stack;
                let ghost frames = stack.names();
                let ghost inner = names;
                let mut i: usize = 0;
                let size: usize = stack.len();
                assert(inner + beside(frames, target@, below, 0) =~= inner);
                while i < size
                    invariant
                        i <= size == stack.frames().len(),
                        frames == stack.names(),
                        counted.well_formed(),
                        names == inner + beside(frames, target@, below, i as int),
                        counted@ == tallied(names),
                    decreases size - i,
                {
                    let frame = stack.frame(i);
                    assert(frames[i as int] == frame.function_name@);
                    if text::text_eq(frame.function_name.as_str(), target) {
                        let neighbour: Option<usize> = if below {
                            if i + 1 < size {
                                Some(i + 1)
                            } else {
                                None
                            }
                        } else if i > 0 {
                            Some(i - 1)
                        } else {
                            None
                        };
                        match neighbour {
                            Some(k) => {
                                let name = stack.frame(k).function_name.as_str();
                                assert(frames[k as int] == name@);
                                let item = NameItem { name };
                                let ghost before = names;
                                counted.add(&item);
                                proof {
                                    names = names.push(name@);
                                    assert(names.drop_last() =~= before);
                                    assert(names =~= inner + beside(
                                        frames,
                                        target@,
                                        below,
                                        i + 1,
                                    ));
                                }
                            },
                            None => {},
                        }
                    }
                    i += 1;
                }
                proof {
                    assert(names =~= base + beside_in_thread(
                        samples@,
                        *range,
                        target@,
                        below,
                        n + 1,
                    ));
                }
            }
            n += 1;
        }
        m += 1;
    }
    counted.finish()
}

/// Lists counted names, the most frequent first.
fn list_counted(counted: Vec<CountedName>, Ghost(names): Ghost<Seq<Seq<char>>>) -> (r: Vec<
    CallerCalleeEntry,
>)
    requires
        groups::models(counted@) == tallied(names),
    ensures
        counts_names(r@, names),
{
    let ghost all = counted@;
    let ghost models = groups::models(all);
    let mut keys: Vec<Vec<i128>> = Vec::new();
    let mut i: usize = 0;
    while i < counted.len()
        invariant
            i <= counted@.len(),
            all == counted@,
            models == groups::models(all),
            keys@.len() == i,
            forall|k: int| 0 <= k < i ==> (#[trigger] keys@[k])@ == by_count()(models[k]),
        decreases counted@.len() - i,
    {
        let mut key: Vec<i128> = Vec::new();
        rank::push_descending(&mut key, counted[i].count as u128);
        assert(key@ =~= by_count()(models[i as int]));
        keys.push(key);
        i += 1;
    }
    let ghost ks = rank::key_views(keys@);
    let sorted = rank::arrange(counted, &keys);
    let ghost expected = rank::ranked(models, by_count());
    proof {
        assert(ks =~= rank::keys_of(models, by_count()));
        let f = |m: CountedName| m.model();
        rank::lemma_arranged_map(all, ks, f);
        assert(groups::models(sorted@) =~= Seq::new(
            all.len(),
            |p: int| f(rank::arranged(all, ks)[p]),
        ));
        assert(models =~= Seq::new(all.len(), |p: int| f(all[p])));
    }
    assert(groups::models(sorted@) == expected);
    let mut list: Vec<CallerCalleeEntry> = Vec::new();
    let mut j: usize = 0;
    while j < sorted.len()
        invariant
            j <= sorted@.len(),
            groups::models(sorted@) == expected,
            list@.len() == j,
            forall|k: int|
                0 <= k < j ==> (#[trigger] list@[k]).function_name@ == expected[k].0
                    && list@[k].function_id@ == symbols::id_of(expected[k].0)
                    && list@[k].display_name@ == symbols::compact_of(expected[k].0)
                    && list@[k].count == expected[k].1,
        decreases sorted@.len() - j,
    {
        let m = &sorted[j];
        assert(expected[j as int] == m.model());
        list.push(
            CallerCalleeEntry {
                function_id: symbols::function_id(m.name.as_str()),
                function_name: m.name.clone(),
                display_name: symbols::compact_function_name(m.name.as_str()),
                count: m.count,
            },
        );
        j += 1;
    }
    list
}

/// The times of a function over tables, and the threads that have it.
struct FunctionTotals {
    self_time_ms: u64,
    total_time_ms: u64,
    sample_count: usize,
    library: Option<String>,
    file: Option<String>,
    line: Option<u32>,
    seen: bool,
}

impl FunctionTotals {
    spec fn facts(self, name: Seq<char>) -> Merged {
        Merged {
            name,
            self_time: self.self_time_ms,
            total_time: self.total_time_ms,
            sample_count: self.sample_count,
            library: text::opt(self.library),
            file: text::opt(self.file),
            line: self.line,
        }
    }

    /// Whether the totals are those of some rows.
    spec fn hold(self, rows: Seq<FunctionStats>, name: Seq<char>) -> bool {
        let known = hotspots::merged_named(rows, name, rows.len() as int);
        if self.seen {
            known == Some(self.facts(name))
        } else {
            known is None && self.facts(name) == hotspots::unmerged(name)
        }
    }
}

proof fn lemma_merged_take(rows: Seq<FunctionStats>, more: FunctionStats, name: Seq<char>, n: int)
    requires
        0 <= n <= rows.len(),
    ensures
        hotspots::merged_named(rows.push(more), name, n) == hotspots::merged_named(rows, name, n),
    decreases n,
{
    if n > 0 {
        lemma_merged_take(rows, more, name, n - 1);
    }
}

/// Adds up the rows of a function over tables and lists the threads that have it.
fn add_up(profile: &ResolvedProfile, tables: &Vec<Vec<FunctionStats>>, name: &str) -> (r: (
    FunctionTotals,
    Vec<String>,
))
    requires
        tables@.len() == profile.threads@.len(),
    ensures
        r.0.hold(
            functions::rows_in(
                functions::table_rows(tables@),
                None,
                tables@.len() as int,
            ),
            name@,
        ),
        text::views(r.1@) == threads_with(
            *profile,
            functions::table_rows(tables@),
            name@,
            tables@.len() as int,
        ),
{
    let ghost views = functions::table_rows(tables@);
    let mut totals = FunctionTotals {
        self_time_ms: 0,
        total_time_ms: 0,
        sample_count: 0,
        library: None,
        file: None,
        line: None,
        seen: false,
    };
    let mut labels: Vec<String> = Vec::new();
    let mut n: usize = 0;
    proof {
        assert(totals.facts(name@) =~= hotspots::unmerged(name@));
        assert(text::views(labels@) =~= Seq::<Seq<char>>::empty());
    }
    while n < tables.len()
        invariant
            n <= tables@.len() == profile.threads@.len(),
            views == functions::table_rows(tables@),
            totals.hold(functions::rows_in(views, None, n as int), name@),
            text::views(labels@) == threads_with(*profile, views, name@, n as int),
        decreases tables@.len() - n,
    {
        let table = &tables[n];
        let ghost base = functions::rows_in(views, None, n as int);
        let mut here: bool = false;
        let mut i: usize = 0;
        assert(base + table@.take(0) =~= base);
        while i < table.len()
            invariant
                n < tables@.len(),
                *table == tables@[n as int],
                i <= table@.len(),
                totals.hold(base + table@.take(i as int), name@),
                here == exists|k: int| 0 <= k < i && (#[trigger] table@[k]).name@ == name@,
            decreases table@.len() - i,
        {
            let s = &table[i];
            let ghost rows = base + table@.take(i as int);
            let ghost before = totals;
            proof {
                assert(base + table@.take(i + 1) =~= rows.push(*s));
                lemma_merged_take(rows, *s, name@, rows.len() as int);
            }
            if text::text_eq(s.name.as_str(), name) {
                here = true;
                assert(table@[i as int].name@ == name@);
                totals.self_time_ms = units::capped_add(totals.self_time_ms, s.self_time_ms);
                totals.total_time_ms = units::capped_add(totals.total_time_ms, s.total_time_ms);
                totals.sample_count = units::capped_count_add(totals.sample_count, s.sample_count);
                if totals.library.is_none() {
                    totals.library = text::opt_clone(&s.library);
                }
                if totals.file.is_none() {
                    totals.file = text::opt_clone(&s.file);
                }
                if totals.line.is_none() {
                    totals.line = s.line;
                }
                totals.seen = true;
                assert(totals.facts(name@) =~= hotspots::merged_with(before.facts(name@), *s));
            }
            i += 1;
        }
        assert(table@.take(table@.len() as int) =~= table@);
        assert(here == has_function(views[n as int], name@));
        if here {
            let ghost before = labels@;
            let label = threads::thread_label(n, &profile.threads[n]);
            labels.push(label);
            assert(text::views(labels@) =~= text::views(before).push(label@));
        }
        n += 1;
    }
    (totals, labels)
}

proof fn lemma_has_merged(rows: Seq<FunctionStats>, name: Seq<char>, n: int)
    requires
        0 <= n <= rows.len(),
        exists|i: int| 0 <= i < n && (#[trigger] rows[i]).name@ == name,
    ensures
        hotspots::merged_named(rows, name, n) is Some,
    decreases n,
{
    if rows[n - 1].name@ != name {
        let i = choose|i: int| 0 <= i < n && (#[trigger] rows[i]).name@ == name;
        assert(i < n - 1);
        lemma_has_merged(rows, name, n - 1);
    }
}

/// Describes a function, by the tables of the threads.
pub fn describe_function(
    profile: &ResolvedProfile,
    req: &FunctionDetailRequest,
    range: &AnalysisRange,
    thread_indices: &Vec<usize>,
    tables: &Vec<Vec<FunctionStats>>,
) -> (r: Result<FunctionDetailResult, String>)
    requires
        *range == req.window(*profile),
        thread_indices@ == searched(
            profile.threads@,
            None,
            *range,
            profile.threads@.len() as int,
        ),
        tables@.len() == profile.threads@.len(),
    ensures
        answers_detail(r, *profile, *req, functions::table_rows(tables@)),
{
    let ghost views = functions::table_rows(tables@);
    let query: Option<&str> = crate::c2c::filter::borrowed(&req.function_name);
    let id: Option<&str> = crate::c2c::filter::borrowed(&req.function_id);
    let target: String = match functions::resolve_function_name(
        tables,
        query,
        id,
        req.match_mode.as_str(),
        None,
    ) {
        Some(target) => target,
        None => {
            return Err(
                "Function not found in any thread. Provide function_id or function_name; try profile_search_functions for substring matches.".to_string(),
            );
        },
    };
    let (totals, labels) = add_up(profile, tables, target.as_str());
    proof {
        let rows = functions::rows_in(views, None, views.len() as int);
        functions::law_meant_function_exists(
            rows,
            text::opt(req.function_name),
            text::opt(req.function_id),
            req.match_mode@,
        );
        lemma_has_merged(rows, target@, rows.len() as int);
    }
    let above = count_beside(&profile.threads, range, target.as_str(), false);
    let below = count_beside(&profile.threads, range, target.as_str(), true);
    let ghost n = profile.threads@.len() as int;
    let callers = list_counted(
        above,
        Ghost(beside_in_threads(profile.threads@, *range, target@, false, n)),
    );
    let callees = list_counted(
        below,
        Ghost(beside_in_threads(profile.threads@, *range, target@, true, n)),
    );
    let whole: u64 = summary::scope_total_time_ms(profile, thread_indices, Some(range));
    let source = functions::source_location(&totals.file, totals.line);
    Ok(
        FunctionDetailResult {
            effective_range: summary::effective_time_range(range),
            function_id: symbols::function_id(target.as_str()),
            display_name: symbols::compact_function_name(target.as_str()),
            function_name: target,
            self_time_ms: totals.self_time_ms,
            total_time_ms: totals.total_time_ms,
            self_percent: Ratio { part: totals.self_time_ms, whole },
            total_percent: Ratio { part: totals.total_time_ms, whole },
            sample_count: totals.sample_count,
            library: totals.library,
            source,
            file: totals.file,
            line: totals.line,
            callers,
            callees,
            threads: labels,
        },
    )
}

/// One function: its times, callers and callees.
pub fn profile_function_detail(
    profile: &ResolvedProfile,
    cache: &mut AnalysisCache,
    req: &FunctionDetailRequest,
) -> (r: Result<FunctionDetailResult, String>)
    requires
        old(cache).belongs_to(*profile),
    ensures
        old(cache).grows_into(*final(cache), *profile),
        match samples::window_error(profile.duration_ms, req.start_time_ms, req.end_time_ms) {
            Some(e) => r matches Err(message) && message@ == e,
            None => reports_detail(r, *profile, *req),
        },
{
    let range = match AnalysisRange::resolve(profile, req.start_time_ms, req.end_time_ms) {
        Ok(range) => range,
        Err(e) => {
            return Err(e);
        },
    };
    assert(range == req.window(*profile));
    let indices = find_searched(&profile.threads, None, &range);
    let tables = functions::function_stats_for_threads(profile, cache, &indices, &range);
    let r = describe_function(profile, req, &range, &indices, &tables);
    proof {
        let witness = functions::table_rows(tables@);
        assert(functions::tables_for(witness, *profile, indices@, range));
        assert(reports_detail(r, *profile, *req));
    }
    r
}

}
