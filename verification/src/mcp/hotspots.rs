//! Functions that take the most time.
use crate::analysis::context_switch;
use crate::analysis::functions::FunctionStats;
use crate::analysis::samples;
use crate::analysis::samples::AnalysisRange;
use crate::analysis::symbols;
use crate::fnv;
use crate::groups;
use crate::groups::{Group, Groups, Keyed};
use crate::mcp::analysis_cache::AnalysisCache;
use crate::mcp::functions;
use crate::mcp::summary;
use crate::mcp::summary::EffectiveTimeRange;
use crate::mcp::threads;
use crate::profile::resolved::ResolvedProfile;
use crate::rank;
use crate::sums;
use crate::text;
use crate::units;
use crate::units::{Ratio, TimeValue};
use vstd::prelude::*;

verus! {

/// A function and its time.
#[derive(Debug)]
pub struct FunctionRow {
    pub function_id: String,
    pub name: String,
    pub display_name: String,
    pub self_percent: Ratio,
    pub total_percent: Ratio,
    pub self_time_ms: u64,
    pub total_time_ms: u64,
    pub sample_count: usize,
    pub library: Option<String>,
    pub file: Option<String>,
    pub line: Option<u32>,
    pub source: Option<String>,
}

/// Whether a row reports a function.
pub open spec fn function_row(row: FunctionRow, s: FunctionStats) -> bool {
    &&& row.function_id@ == symbols::id_of(s.name@)
    &&& row.name@ == s.name@
    &&& row.display_name@ == symbols::compact_of(s.name@)
    &&& row.self_percent == s.self_percent
    &&& row.total_percent == s.total_percent
    &&& row.self_time_ms == s.self_time_ms
    &&& row.total_time_ms == s.total_time_ms
    &&& row.sample_count == s.sample_count
    &&& text::opt(row.library) == text::opt(s.library)
    &&& text::opt(row.file) == text::opt(s.file)
    &&& row.line == s.line
    &&& text::opt(row.source) == functions::location(text::opt(s.file), s.line)
}

/// What function rows are filtered by.
#[verifier::ext_equal]
pub struct RowFilter {
    pub include_names: Option<Seq<char>>,
    pub exclude_names: Option<Seq<char>>,
    pub exclude_framework: bool,
}

/// The rows among the first `n` that pass.
pub open spec fn kept(rows: Seq<FunctionStats>, f: RowFilter, n: int) -> Seq<FunctionStats>
    decreases n,
{
    if n <= 0 {
        Seq::empty()
    } else {
        let before = kept(rows, f, n - 1);
        if functions::passes(rows[n - 1], f.include_names, f.exclude_names, f.exclude_framework) {
            before.push(rows[n - 1])
        } else {
            before
        }
    }
}

/// Whether rows report the functions that pass, in order and up to a limit.
pub open spec fn function_rows(
    list: Seq<FunctionRow>,
    rows: Seq<FunctionStats>,
    f: RowFilter,
    limit: usize,
) -> bool {
    let shown = context_switch::at_most(kept(rows, f, rows.len() as int), limit as int);
    list.len() == shown.len() && forall|i: int|
        0 <= i < list.len() ==> function_row(#[trigger] list[i], shown[i])
}

/// Reports a function.
fn make_function_row(s: &FunctionStats) -> (r: FunctionRow)
    ensures
        function_row(r, *s),
{
    FunctionRow {
        function_id: symbols::function_id(s.name.as_str()),
        name: s.name.clone(),
        display_name: symbols::compact_function_name(s.name.as_str()),
        self_percent: s.self_percent,
        total_percent: s.total_percent,
        self_time_ms: s.self_time_ms,
        total_time_ms: s.total_time_ms,
        sample_count: s.sample_count,
        library: text::opt_clone(&s.library),
        file: text::opt_clone(&s.file),
        line: s.line,
        source: functions::source_location(&s.file, s.line),
    }
}

/// Reports the functions that pass, in order and up to a limit.
pub fn list_functions(
    stats: &Vec<FunctionStats>,
    include_names: &Option<String>,
    exclude_names: &Option<String>,
    exclude_framework: bool,
    limit: usize,
) -> (r: Vec<FunctionRow>)
    ensures
        function_rows(
            r@,
            stats@,
            (RowFilter {
                include_names: text::opt(*include_names),
                exclude_names: text::opt(*exclude_names),
                exclude_framework,
            }),
            limit,
        ),
{
    let ghost f = RowFilter {
        include_names: text::opt(*include_names),
        exclude_names: text::opt(*exclude_names),
        exclude_framework,
    };
    let mut list: Vec<FunctionRow> = Vec::new();
    let mut n: usize = 0;
    while n < stats.len()
        invariant
            n <= stats@.len(),
            f.include_names == text::opt(*include_names),
            f.exclude_names == text::opt(*exclude_names),
            f.exclude_framework == exclude_framework,
            list@.len() == context_switch::at_most(kept(stats@, f, n as int), limit as int).len(),
            forall|i: int|
                0 <= i < list@.len() ==> function_row(
                    #[trigger] list@[i],
                    context_switch::at_most(kept(stats@, f, n as int), limit as int)[i],
                ),
        decreases stats@.len() - n,
    {
        let s = &stats[n];
        if functions::function_passes_filters(s, include_names, exclude_names, exclude_framework) {
            if list.len() < limit {
                list.push(make_function_row(s));
            }
        }
        n += 1;
    }
    list
}

/// A request for the functions of a thread that take the most time.
#[derive(Debug)]
pub struct TopFunctionsRequest {
    pub path: String,
    pub start_time_ms: Option<TimeValue>,
    pub end_time_ms: Option<TimeValue>,
    pub thread: Option<String>,
    pub tid: Option<String>,
    pub thread_index: Option<usize>,
    pub sort_by: String,
    pub limit: usize,
    pub include_names: Option<String>,
    pub exclude_names: Option<String>,
    pub exclude_framework: bool,
    pub user_code_only: bool,
}

/// The functions of a thread that take the most time.
#[derive(Debug)]
pub struct TopFunctionsResult {
    pub effective_range: EffectiveTimeRange,
    pub thread: String,
    pub tid: String,
    pub thread_index: usize,
    pub sort_by: String,
    pub functions: Vec<FunctionRow>,
}

impl TopFunctionsRequest {
    /// The window that the request asks for.
    pub open spec fn window(&self, p: ResolvedProfile) -> AnalysisRange {
        summary::window(p, self.start_time_ms, self.end_time_ms)
    }

    /// The thread that the request is about, or why there is none.
    pub open spec fn choice(&self, p: ResolvedProfile) -> threads::Choice {
        match samples::window_error(p.duration_ms, self.start_time_ms, self.end_time_ms) {
            Some(e) => Err(e),
            None => threads::sampled_selection(
                p.threads@,
                text::opt(self.thread),
                text::opt(self.tid),
                self.thread_index,
                self.window(p),
            ),
        }
    }

    /// What functions are filtered by.
    pub open spec fn row_filter(&self) -> RowFilter {
        RowFilter {
            include_names: text::opt(self.include_names),
            exclude_names: text::opt(self.exclude_names),
            exclude_framework: self.exclude_framework || self.user_code_only,
        }
    }
}

/// Whether a report answers a request for the functions of a thread, by a
/// table of their times.
pub open spec fn answers_top_functions(
    r: TopFunctionsResult,
    p: ResolvedProfile,
    req: TopFunctionsRequest,
    index: int,
    table: Seq<FunctionStats>,
) -> bool {
    &&& r.effective_range == summary::range_row(req.window(p))
    &&& r.thread@ == p.threads@[index].name@
    &&& r.tid@ == p.threads@[index].tid@
    &&& r.thread_index == index
    &&& r.sort_by@ == req.sort_by@
    &&& function_rows(
        r.functions@,
        rank::ranked(table, functions::by_time(req.sort_by@)),
        req.row_filter(),
        req.limit,
    )
}

/// Whether a report answers a request for the functions of a thread.
pub open spec fn reports_top_functions(
    r: TopFunctionsResult,
    p: ResolvedProfile,
    req: TopFunctionsRequest,
    index: int,
) -> bool {
    exists|table: Seq<FunctionStats>| #[trigger]
        functions::table_for(table, p, index, req.window(p)) && answers_top_functions(
            r,
            p,
            req,
            index,
            table,
        )
}

/// The functions of a thread that take the most time.
pub fn profile_top_functions(
    profile: &ResolvedProfile,
    cache: &mut AnalysisCache,
    req: &TopFunctionsRequest,
) -> (r: Result<TopFunctionsResult, String>)
    requires
        old(cache).belongs_to(*profile),
    ensures
        old(cache).grows_into(*final(cache), *profile),
        match r {
            Ok(report) => req.choice(*profile) matches Ok(index) && reports_top_functions(
                report,
                *profile,
                *req,
                index,
            ),
            Err(e) => req.choice(*profile) == Err::<int, Seq<char>>(e@),
        },
{
    let range = match AnalysisRange::resolve(profile, req.start_time_ms, req.end_time_ms) {
        Ok(range) => range,
        Err(e) => {
            return Err(e);
        },
    };
    assert(range == req.window(*profile));
    let selected = match threads::select_sample_thread(
        profile,
        &req.thread,
        &req.tid,
        req.thread_index,
        &range,
    ) {
        Ok(selected) => selected,
        Err(e) => {
            return Err(e);
        },
    };
    let stats = functions::function_stats_for_thread(profile, cache, selected.index, &range);
    let ghost table = stats@;
    let sorted = functions::sort_function_stats(stats, req.sort_by.as_str());
    let exclude_framework: bool = functions::exclude_framework_enabled(
        req.exclude_framework,
        req.user_code_only,
    );
    let list = list_functions(
        &sorted,
        &req.include_names,
        &req.exclude_names,
        exclude_framework,
        req.limit,
    );
    let report = TopFunctionsResult {
        effective_range: summary::effective_time_range(&range),
        thread: selected.thread.name.clone(),
        tid: selected.thread.tid.clone(),
        thread_index: selected.index,
        sort_by: req.sort_by.clone(),
        functions: list,
    };
    proof {
        assert(req.choice(*profile) == Ok::<int, Seq<char>>(selected.index as int));
        assert(functions::table_for(table, *profile, selected.index as int, range));
        assert(answers_top_functions(report, *profile, *req, selected.index as int, table));
        assert(reports_top_functions(report, *profile, *req, selected.index as int));
    }
    Ok(report)
}

/// The times of a function over several tables.
struct MergedStats {
    name: String,
    self_time_ms: u64,
    total_time_ms: u64,
    sample_count: usize,
    library: Option<String>,
    file: Option<String>,
    line: Option<u32>,
}

/// The times of a function over several tables, as mathematics. Of what the
/// tables say of its place, the first counts.
#[verifier::ext_equal]
pub struct Merged {
    pub name: Seq<char>,
    pub self_time: u64,
    pub total_time: u64,
    pub sample_count: usize,
    pub library: Option<Seq<char>>,
    pub file: Option<Seq<char>>,
    pub line: Option<u32>,
}

/// The first of two values that is there.
pub open spec fn first_known<T>(a: Option<T>, b: Option<T>) -> Option<T> {
    match a {
        Some(x) => Some(x),
        None => b,
    }
}

/// The times of a function after one more row.
pub open spec fn merged_with(m: Merged, s: FunctionStats) -> Merged {
    Merged {
        name: m.name,
        self_time: units::capped(m.self_time + s.self_time_ms),
        total_time: units::capped(m.total_time + s.total_time_ms),
        sample_count: units::capped_count(m.sample_count + s.sample_count),
        library: first_known(m.library, text::opt(s.library)),
        file: first_known(m.file, text::opt(s.file)),
        line: first_known(m.line, s.line),
    }
}

/// A function without any time.
pub open spec fn unmerged(name: Seq<char>) -> Merged {
    Merged {
        name,
        self_time: 0,
        total_time: 0,
        sample_count: 0,
        library: None,
        file: None,
        line: None,
    }
}

impl Keyed for MergedStats {
    type Model = Merged;

    type Key = Seq<char>;

    closed spec fn model(&self) -> Merged {
        Merged {
            name: self.name@,
            self_time: self.self_time_ms,
            total_time: self.total_time_ms,
            sample_count: self.sample_count,
            library: text::opt(self.library),
            file: text::opt(self.file),
            line: self.line,
        }
    }

    open spec fn key(m: Merged) -> Seq<char> {
        m.name
    }

    open spec fn bucket(k: Seq<char>) -> u64 {
        fnv::of_text(k)
    }
}

impl Group<FunctionStats> for MergedStats {
    type Item = FunctionStats;

    open spec fn seen(item: FunctionStats) -> FunctionStats {
        item
    }

    open spec fn key_of(item: FunctionStats) -> Seq<char> {
        item.name@
    }

    open spec fn fresh(item: FunctionStats) -> Merged {
        merged_with(unmerged(item.name@), item)
    }

    open spec fn grown(m: Merged, item: FunctionStats) -> Merged {
        merged_with(m, item)
    }

    proof fn keeps_key(m: Merged, item: FunctionStats) {
    }

    fn hash(item: &FunctionStats) -> (r: u64) {
        fnv::hash_text(item.name.as_str())
    }

    fn accepts(&self, item: &FunctionStats) -> (r: bool) {
        text::text_eq(self.name.as_str(), item.name.as_str())
    }

    fn start(item: &FunctionStats) -> (r: Self) {
        let r = MergedStats {
            name: item.name.clone(),
            self_time_ms: item.self_time_ms,
            total_time_ms: item.total_time_ms,
            sample_count: item.sample_count,
            library: text::opt_clone(&item.library),
            file: text::opt_clone(&item.file),
            line: item.line,
        };
        assert(r.model() =~= merged_with(unmerged(item.name@), *item));
        r
    }

    fn absorb(&mut self, item: &FunctionStats) {
        let ghost before = self.model();
        self.self_time_ms = units::capped_add(self.self_time_ms, item.self_time_ms);
        self.total_time_ms = units::capped_add(self.total_time_ms, item.total_time_ms);
        self.sample_count = units::capped_count_add(self.sample_count, item.sample_count);
        if self.library.is_none() {
            self.library = text::opt_clone(&item.library);
        }
        if self.file.is_none() {
            self.file = text::opt_clone(&item.file);
        }
        if self.line.is_none() {
            self.line = item.line;
        }
        assert(self.model() =~= merged_with(before, *item));
    }
}

/// The functions of tables, each once.
pub closed spec fn merged(rows: Seq<FunctionStats>) -> Seq<Merged> {
    groups::grouped::<FunctionStats, MergedStats>(rows)
}

/// The times of a function over some rows.
pub open spec fn merged_named(rows: Seq<FunctionStats>, name: Seq<char>, n: int) -> Option<Merged>
    decreases n,
{
    if n <= 0 {
        None
    } else {
        let before = merged_named(rows, name, n - 1);
        if rows[n - 1].name@ == name {
            Some(
                merged_with(
                    match before {
                        Some(m) => m,
                        None => unmerged(name),
                    },
                    rows[n - 1],
                ),
            )
        } else {
            before
        }
    }
}

/// Functions are merged once each, and each holds exactly what the rows with
/// its name add up to.
pub proof fn law_merging_adds_up(rows: Seq<FunctionStats>)
    ensures
        forall|i: int, j: int|
            #![trigger merged(rows)[i], merged(rows)[j]]
            0 <= i < j < merged(rows).len() ==> merged(rows)[i].name != merged(rows)[j].name,
        forall|i: int|
            0 <= i < merged(rows).len() ==> merged_named(
                rows,
                (#[trigger] merged(rows)[i]).name,
                rows.len() as int,
            ) == Some(merged(rows)[i]),
{
    groups::lemma_grouped::<FunctionStats, MergedStats>(rows);
    assert forall|i: int| 0 <= i < merged(rows).len() implies merged_named(
        rows,
        (#[trigger] merged(rows)[i]).name,
        rows.len() as int,
    ) == Some(merged(rows)[i]) by {
        lemma_group_is_merged(rows, merged(rows)[i].name, rows.len() as int);
        assert(rows.take(rows.len() as int) =~= rows);
    }
    assert forall|i: int, j: int|
        #![trigger merged(rows)[i], merged(rows)[j]]
        0 <= i < j < merged(rows).len() implies merged(rows)[i].name != merged(rows)[j].name by {
        let a = <MergedStats as Keyed>::key(merged(rows)[i]);
        let b = <MergedStats as Keyed>::key(merged(rows)[j]);
        assert(a != b);
    }
}

proof fn lemma_group_is_merged(rows: Seq<FunctionStats>, name: Seq<char>, n: int)
    requires
        0 <= n <= rows.len(),
    ensures
        groups::group_of::<FunctionStats, MergedStats>(rows.take(n), name) == merged_named(
            rows,
            name,
            n,
        ),
    decreases n,
{
    if n > 0 {
        lemma_group_is_merged(rows, name, n - 1);
        assert(rows.take(n).drop_last() =~= rows.take(n - 1));
    }
}

/// Functions rank by falling self time.
pub open spec fn by_self() -> spec_fn(Merged) -> Seq<i128> {
    |m: Merged| rank::descending(m.self_time as int)
}

/// Whether a row states the times of a function over several tables.
pub open spec fn states_merged(row: FunctionStats, m: Merged, whole: u64) -> bool {
    &&& row.name@ == m.name
    &&& row.self_time_ms == m.self_time
    &&& row.total_time_ms == m.total_time
    &&& row.self_percent == (Ratio { part: m.self_time, whole })
    &&& row.total_percent == (Ratio { part: m.total_time, whole })
    &&& row.sample_count == m.sample_count
    &&& text::opt(row.library) == m.library
    &&& text::opt(row.file) == m.file
    &&& row.line == m.line
}

/// Whether rows state the times of all functions of several tables.
pub open spec fn aggregates(
    list: Seq<FunctionStats>,
    tables: Seq<Seq<FunctionStats>>,
    whole: u64,
) -> bool {
    let all = rank::ranked(
        merged(functions::rows_in(tables, None, tables.len() as int)),
        by_self(),
    );
    list.len() == all.len() && forall|i: int|
        0 <= i < list.len() ==> states_merged(#[trigger] list[i], all[i], whole)
}

/// Merges the rows of tables.
fn merge_tables(tables: &Vec<Vec<FunctionStats>>) -> (r: Vec<MergedStats>)
    ensures
        groups::models(r@) == merged(
            functions::rows_in(
                functions::table_rows(tables@),
                None,
                tables@.len() as int,
            ),
        ),
{
    let ghost views = functions::table_rows(tables@);
    let mut found: Groups<MergedStats> = Groups::new();
    let mut n: usize = 0;
    while n < tables.len()
        invariant
            n <= tables@.len(),
            views == functions::table_rows(tables@),
            found.well_formed(),
            found@ == merged(functions::rows_in(views, None, n as int)),
        decreases tables@.len() - n,
    {
        let table = &tables[n];
        let ghost base = functions::rows_in(views, None, n as int);
        let mut i: usize = 0;
        assert(base + table@.take(0) =~= base);
        while i < table.len()
            invariant
                n < tables@.len(),
                *table == tables@[n as int],
                i <= table@.len(),
                found.well_formed(),
                found@ == merged(base + table@.take(i as int)),
            decreases table@.len() - i,
        {
            proof {
                let after = base + table@.take(i + 1);
                assert(after.drop_last() =~= base + table@.take(i as int));
                assert(after.last() == table@[i as int]);
            }
            found.add(&table[i]);
            i += 1;
        }
        assert(table@.take(table@.len() as int) =~= table@);
        n += 1;
    }
    found.finish()
}

/// The functions of several tables by falling self time.
pub fn aggregate_tables(tables: &Vec<Vec<FunctionStats>>, total_time_ms: u64) -> (r: Vec<
    FunctionStats,
>)
    ensures
        aggregates(r@, functions::table_rows(tables@), total_time_ms),
{
    let found = merge_tables(tables);
    let ghost all = found@;
    let ghost models = groups::models(all);
    let mut keys: Vec<Vec<i128>> = Vec::new();
    let mut i: usize = 0;
    while i < found.len()
        invariant
            i <= found@.len(),
            all == found@,
            models == groups::models(all),
            keys@.len() == i,
            forall|k: int| 0 <= k < i ==> (#[trigger] keys@[k])@ == by_self()(models[k]),
        decreases found@.len() - i,
    {
        let mut key: Vec<i128> = Vec::new();
        rank::push_descending(&mut key, found[i].self_time_ms as u128);
        assert(key@ =~= by_self()(models[i as int]));
        keys.push(key);
        i += 1;
    }
    let ghost ks = rank::key_views(keys@);
    let sorted = rank::arrange(found, &keys);
    let ghost expected = rank::ranked(models, by_self());
    proof {
        assert(ks =~= rank::keys_of(models, by_self()));
        let f = |m: MergedStats| m.model();
        rank::lemma_arranged_map(all, ks, f);
        assert(groups::models(sorted@) =~= Seq::new(
            all.len(),
            |p: int| f(rank::arranged(all, ks)[p]),
        ));
        assert(models =~= Seq::new(all.len(), |p: int| f(all[p])));
    }
    assert(groups::models(sorted@) == expected);
    let mut list: Vec<FunctionStats> = Vec::new();
    let mut j: usize = 0;
    while j < sorted.len()
        invariant
            j <= sorted@.len(),
            groups::models(sorted@) == expected,
            list@.len() == j,
            forall|k: int|
                0 <= k < j ==> states_merged(#[trigger] list@[k], expected[k], total_time_ms),
        decreases sorted@.len() - j,
    {
        let m = &sorted[j];
        assert(expected[j as int] == m.model());
        list.push(
            FunctionStats {
                name: m.name.clone(),
                self_time_ms: m.self_time_ms,
                total_time_ms: m.total_time_ms,
                self_percent: Ratio { part: m.self_time_ms, whole: total_time_ms },
                total_percent: Ratio { part: m.total_time_ms, whole: total_time_ms },
                sample_count: m.sample_count,
                library: text::opt_clone(&m.library),
                file: text::opt_clone(&m.file),
                line: m.line,
            },
        );
        j += 1;
    }
    list
}

/// The functions of some threads by falling self time, with the time and the
/// number of all their samples.
pub fn aggregate_function_stats(
    profile: &ResolvedProfile,
    cache: &mut AnalysisCache,
    thread_indices: &Vec<usize>,
    range: &AnalysisRange,
) -> (r: (Vec<FunctionStats>, u64, usize))
    requires
        old(cache).belongs_to(*profile),
    ensures
        old(cache).grows_into(*final(cache), *profile),
        r.1 == summary::time_over(
            profile.threads@,
            thread_indices@,
            profile.interval_ms,
            Some(*range),
        ),
        r.2 == summary::samples_over(profile.threads@, thread_indices@, Some(*range)),
        exists|tables: Seq<Seq<FunctionStats>>| #[trigger]
            functions::tables_for(tables, *profile, thread_indices@, *range) && aggregates(
                r.0@,
                tables,
                r.1,
            ),
{
    let total_time_ms: u64 = summary::scope_total_time_ms(profile, thread_indices, Some(range));
    let total_samples: usize = summary::count_over(&profile.threads, thread_indices, Some(range));
    let tables = functions::function_stats_for_threads(profile, cache, thread_indices, range);
    let stats = aggregate_tables(&tables, total_time_ms);
    proof {
        let witness = functions::table_rows(tables@);
        assert(functions::tables_for(witness, *profile, thread_indices@, *range));
    }
    (stats, total_time_ms, total_samples)
}

/// A function that several tables name has, in the merged table, the self time,
/// total time and samples of all their rows with its name together, and every
/// function of the tables is in it once.
pub proof fn law_merged_times_are_sums(rows: Seq<FunctionStats>)
    ensures
        forall|i: int|
            #![trigger merged(rows)[i]]
            0 <= i < merged(rows).len() ==> {
                let m = merged(rows)[i];
                &&& m.self_time == units::capped(
                    sums::sum_of(
                        rows,
                        |row: FunctionStats|
                            if row.name@ == m.name {
                                row.self_time_ms as nat
                            } else {
                                0
                            },
                    ) as int,
                )
                &&& m.total_time == units::capped(
                    sums::sum_of(
                        rows,
                        |row: FunctionStats|
                            if row.name@ == m.name {
                                row.total_time_ms as nat
                            } else {
                                0
                            },
                    ) as int,
                )
                &&& m.sample_count == units::capped_count(
                    sums::sum_of(
                        rows,
                        |row: FunctionStats|
                            if row.name@ == m.name {
                                row.sample_count as nat
                            } else {
                                0
                            },
                    ) as int,
                )
            },
        forall|k: int|
            #![trigger rows[k]]
            0 <= k < rows.len() ==> exists|i: int|
                0 <= i < merged(rows).len() && (#[trigger] merged(rows)[i]).name == rows[k].name@,
        forall|i: int|
            #![trigger merged(rows)[i]]
            0 <= i < merged(rows).len() ==> exists|k: int|
                0 <= k < rows.len() && (#[trigger] rows[k]).name@ == merged(rows)[i].name,
{
    let all = merged(rows);
    groups::lemma_grouped::<FunctionStats, MergedStats>(rows);
    assert forall|i: int|
        #![trigger all[i]]
        0 <= i < all.len() implies {
        let m = all[i];
        &&& m.self_time == units::capped(
            sums::sum_of(
                rows,
                |row: FunctionStats|
                    if row.name@ == m.name {
                        row.self_time_ms as nat
                    } else {
                        0
                    },
            ) as int,
        )
        &&& m.total_time == units::capped(
            sums::sum_of(
                rows,
                |row: FunctionStats|
                    if row.name@ == m.name {
                        row.total_time_ms as nat
                    } else {
                        0
                    },
            ) as int,
        )
        &&& m.sample_count == units::capped_count(
            sums::sum_of(
                rows,
                |row: FunctionStats|
                    if row.name@ == m.name {
                        row.sample_count as nat
                    } else {
                        0
                    },
            ) as int,
        )
    } by {
        let m = all[i];
        assert(<MergedStats as Keyed>::key(all[i]) == m.name);
        groups::lemma_group_sum::<FunctionStats, MergedStats>(
            rows,
            m.name,
            |row: FunctionStats| row.self_time_ms as nat,
            |m: Merged| m.self_time as nat,
            |row: FunctionStats|
                if row.name@ == m.name {
                    row.self_time_ms as nat
                } else {
                    0
                },
            u64::MAX as nat,
        );
        groups::lemma_group_sum::<FunctionStats, MergedStats>(
            rows,
            m.name,
            |row: FunctionStats| row.total_time_ms as nat,
            |m: Merged| m.total_time as nat,
            |row: FunctionStats|
                if row.name@ == m.name {
                    row.total_time_ms as nat
                } else {
                    0
                },
            u64::MAX as nat,
        );
        groups::lemma_group_sum::<FunctionStats, MergedStats>(
            rows,
            m.name,
            |row: FunctionStats| row.sample_count as nat,
            |m: Merged| m.sample_count as nat,
            |row: FunctionStats|
                if row.name@ == m.name {
                    row.sample_count as nat
                } else {
                    0
                },
            usize::MAX as nat,
        );
    }
    assert forall|k: int|
        #![trigger rows[k]]
        0 <= k < rows.len() implies exists|i: int|
        0 <= i < all.len() && (#[trigger] all[i]).name == rows[k].name@ by {
        let i = groups::lemma_item_has_group::<FunctionStats, MergedStats>(rows, k);
        assert(<MergedStats as Keyed>::key(all[i]) == all[i].name);
    }
    assert forall|i: int|
        #![trigger all[i]]
        0 <= i < all.len() implies exists|k: int|
        0 <= k < rows.len() && (#[trigger] rows[k]).name@ == all[i].name by {
        let k = groups::lemma_group_has_item::<FunctionStats, MergedStats>(rows, i);
        assert(rows[k].name@ == all[i].name);
    }
}

/// The first row of a function that knows its library, file or line decides
/// them for the merged function.
pub proof fn law_first_place_counts(rows: Seq<FunctionStats>, i: int, k: int)
    requires
        0 <= i < merged(rows).len(),
        0 <= k < rows.len(),
        rows[k].name@ == merged(rows)[i].name,
    ensures
        rows[k].library is Some && (forall|j: int|
            0 <= j < k && (#[trigger] rows[j]).name@ == rows[k].name@ ==> rows[j].library is None)
            ==> merged(rows)[i].library == Some(rows[k].library->0@),
        rows[k].file is Some && (forall|j: int|
            0 <= j < k && (#[trigger] rows[j]).name@ == rows[k].name@ ==> rows[j].file is None)
            ==> merged(rows)[i].file == Some(rows[k].file->0@),
        rows[k].line is Some && (forall|j: int|
            0 <= j < k && (#[trigger] rows[j]).name@ == rows[k].name@ ==> rows[j].line is None)
            ==> merged(rows)[i].line == rows[k].line,
{
    law_merging_adds_up(rows);
    assert(merged(rows)[i].name == rows[k].name@);
    lemma_first_place(rows, rows[k].name@, k, rows.len() as int);
}

proof fn lemma_no_place(rows: Seq<FunctionStats>, name: Seq<char>, n: int)
    requires
        0 <= n <= rows.len(),
    ensures
        ({
            let m = merged_named(rows, name, n);
            &&& (forall|j: int|
                0 <= j < n && (#[trigger] rows[j]).name@ == name ==> rows[j].library is None) ==> (m
                is Some ==> m->0.library is None)
            &&& (forall|j: int|
                0 <= j < n && (#[trigger] rows[j]).name@ == name ==> rows[j].file is None) ==> (m
                is Some ==> m->0.file is None)
            &&& (forall|j: int|
                0 <= j < n && (#[trigger] rows[j]).name@ == name ==> rows[j].line is None) ==> (m
                is Some ==> m->0.line is None)
        }),
    decreases n,
{
    if n > 0 {
        lemma_no_place(rows, name, n - 1);
        assert(rows[n - 1].name@ == rows[n - 1].name@);
    }
}

proof fn lemma_first_place(rows: Seq<FunctionStats>, name: Seq<char>, k: int, n: int)
    requires
        0 <= k < n <= rows.len(),
        rows[k].name@ == name,
    ensures
        merged_named(rows, name, n) is Some,
        rows[k].library is Some && (forall|j: int|
            0 <= j < k && (#[trigger] rows[j]).name@ == name ==> rows[j].library is None)
            ==> merged_named(rows, name, n)->0.library == Some(rows[k].library->0@),
        rows[k].file is Some && (forall|j: int|
            0 <= j < k && (#[trigger] rows[j]).name@ == name ==> rows[j].file is None)
            ==> merged_named(rows, name, n)->0.file == Some(rows[k].file->0@),
        rows[k].line is Some && (forall|j: int|
            0 <= j < k && (#[trigger] rows[j]).name@ == name ==> rows[j].line is None)
            ==> merged_named(rows, name, n)->0.line == rows[k].line,
    decreases n,
{
    if n - 1 == k {
        lemma_no_place(rows, name, k);
    } else {
        lemma_first_place(rows, name, k, n - 1);
    }
}

}
