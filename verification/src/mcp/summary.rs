//! What profiles and their threads amount to.
use crate::analysis::samples;
use crate::analysis::samples::AnalysisRange;
use crate::fnv;
use crate::groups;
use crate::groups::{Group, Groups, Keyed};
use crate::mcp::threads;
use crate::profile::resolved::{ResolvedProfile, ResolvedThread};
use crate::rank;
use crate::text;
use crate::units;
use crate::units::{Ratio, TimeValue};
use vstd::prelude::*;

verus! {

/// The window of an analysis, relative to the start of the profile.
#[derive(Debug, Clone, Copy, PartialEq, Eq, Structural)]
pub struct EffectiveTimeRange {
    pub start_time_ms: u64,
    pub end_time_ms: u64,
    pub duration_ms: u64,
}

/// The window as it is reported.
pub open spec fn range_row(range: AnalysisRange) -> EffectiveTimeRange {
    EffectiveTimeRange {
        start_time_ms: range.start_time_ms,
        end_time_ms: range.end_time_ms,
        duration_ms: if range.end_time_ms >= range.start_time_ms {
            (range.end_time_ms - range.start_time_ms) as u64
        } else {
            0
        },
    }
}

/// The window as it is reported.
pub fn effective_time_range(range: &AnalysisRange) -> (r: EffectiveTimeRange)
    ensures
        r == range_row(*range),
{
    EffectiveTimeRange {
        start_time_ms: range.start_time_ms,
        end_time_ms: range.end_time_ms,
        duration_ms: range.duration_ms(),
    }
}

/// The window that a request asks for, where it asks for one that can be used.
pub open spec fn window(
    p: ResolvedProfile,
    start: Option<TimeValue>,
    end: Option<TimeValue>,
) -> AnalysisRange {
    AnalysisRange {
        observed_start_time_ms: p.observed_start_time_ms,
        start_time_ms: samples::window_start(start) as u64,
        end_time_ms: samples::window_end(p.duration_ms, end) as u64,
    }
}

/// A number of events in a time. In no time there are none.
#[derive(Debug, Clone, Copy, PartialEq, Eq, Structural)]
pub struct Rate {
    pub count: usize,
    pub time_ms: u64,
}

/// What the samples of threads amount to.
#[derive(Debug, Clone, Copy, PartialEq, Eq, Structural)]
pub struct ThreadSampleSummary {
    pub sample_count: usize,
    pub wall_time_ms: u64,
    pub cpu_sample_time_ms: u64,
    pub cpu_sample_percent_of_wall: Ratio,
    pub samples_per_second: Rate,
}

/// The wall time of a thread.
pub open spec fn walling(range: Option<AnalysisRange>) -> spec_fn(ResolvedThread) -> nat {
    |t: ResolvedThread| samples::wall_time(t, range) as nat
}

/// The samples of threads.
pub open spec fn samples_over(
    threads: Seq<ResolvedThread>,
    indices: Seq<usize>,
    range: Option<AnalysisRange>,
) -> usize {
    units::capped_count(
        samples::over_threads(
            threads,
            indices,
            samples::counting(range, samples::any_sample()),
            indices.len() as int,
        ) as int,
    )
}

/// The time of the samples of threads.
pub open spec fn time_over(
    threads: Seq<ResolvedThread>,
    indices: Seq<usize>,
    interval: u64,
    range: Option<AnalysisRange>,
) -> u64 {
    units::capped(
        samples::over_threads(
            threads,
            indices,
            samples::timing(interval, range, samples::any_sample()),
            indices.len() as int,
        ) as int,
    )
}

/// The wall time of threads.
pub open spec fn wall_over(
    threads: Seq<ResolvedThread>,
    indices: Seq<usize>,
    range: Option<AnalysisRange>,
) -> u64 {
    units::capped(
        samples::over_threads(threads, indices, walling(range), indices.len() as int) as int,
    )
}

/// What the samples of threads amount to.
pub open spec fn summary_of(
    p: ResolvedProfile,
    indices: Seq<usize>,
    range: Option<AnalysisRange>,
) -> ThreadSampleSummary {
    let count = samples_over(p.threads@, indices, range);
    let wall = wall_over(p.threads@, indices, range);
    let cpu = time_over(p.threads@, indices, p.interval_ms, range);
    ThreadSampleSummary {
        sample_count: count,
        wall_time_ms: wall,
        cpu_sample_time_ms: cpu,
        cpu_sample_percent_of_wall: Ratio { part: cpu, whole: wall },
        samples_per_second: Rate { count, time_ms: wall },
    }
}

/// The samples of threads.
pub(crate) fn count_over(
    threads: &Vec<ResolvedThread>,
    indices: &Vec<usize>,
    range: Option<&AnalysisRange>,
) -> (r: usize)
    ensures
        r == samples_over(threads@, indices@, samples::window_of(range)),
{
    let ghost w = samples::window_of(range);
    let ghost quantity = samples::counting(w, samples::any_sample());
    let mut total: usize = 0;
    let mut m: usize = 0;
    while m < indices.len()
        invariant
            m <= indices@.len(),
            w == samples::window_of(range),
            quantity == samples::counting(w, samples::any_sample()),
            total == units::capped_count(
                samples::over_threads(threads@, indices@, quantity, m as int) as int,
            ),
        decreases indices@.len() - m,
    {
        if indices[m] < threads.len() {
            let count: usize = samples::sample_count(&threads[indices[m]], range);
            total = units::capped_count_add(total, count);
        }
        m += 1;
    }
    total
}

/// The time of the samples of threads.
pub fn scope_total_time_ms(
    profile: &ResolvedProfile,
    thread_indices: &Vec<usize>,
    range: Option<&AnalysisRange>,
) -> (r: u64)
    ensures
        r == time_over(
            profile.threads@,
            thread_indices@,
            profile.interval_ms,
            samples::window_of(range),
        ),
{
    let ghost w = samples::window_of(range);
    let ghost quantity = samples::timing(profile.interval_ms, w, samples::any_sample());
    let mut total: u64 = 0;
    let mut m: usize = 0;
    while m < thread_indices.len()
        invariant
            m <= thread_indices@.len(),
            w == samples::window_of(range),
            quantity == samples::timing(profile.interval_ms, w, samples::any_sample()),
            total == units::capped(
                samples::over_threads(
                    profile.threads@,
                    thread_indices@,
                    quantity,
                    m as int,
                ) as int,
            ),
        decreases thread_indices@.len() - m,
    {
        if thread_indices[m] < profile.threads.len() {
            let time: u64 = samples::thread_sample_time_ms(
                &profile.threads[thread_indices[m]],
                profile.interval_ms,
                range,
            );
            total = units::capped_add(total, time);
        }
        m += 1;
    }
    total
}

/// The wall time of threads.
fn wall_total(
    threads: &Vec<ResolvedThread>,
    indices: &Vec<usize>,
    range: Option<&AnalysisRange>,
) -> (r: u64)
    ensures
        r == wall_over(threads@, indices@, samples::window_of(range)),
{
    let ghost w = samples::window_of(range);
    let ghost quantity = walling(w);
    let mut total: u64 = 0;
    let mut m: usize = 0;
    while m < indices.len()
        invariant
            m <= indices@.len(),
            w == samples::window_of(range),
            quantity == walling(w),
            total == units::capped(
                samples::over_threads(threads@, indices@, quantity, m as int) as int,
            ),
        decreases indices@.len() - m,
    {
        if indices[m] < threads.len() {
            let time: u64 = samples::thread_wall_time_ms(&threads[indices[m]], range);
            total = units::capped_add(total, time);
        }
        m += 1;
    }
    total
}

/// What the samples of threads amount to.
pub fn thread_sample_summary(
    profile: &ResolvedProfile,
    thread_indices: &Vec<usize>,
    range: Option<&AnalysisRange>,
) -> (r: ThreadSampleSummary)
    ensures
        r == summary_of(*profile, thread_indices@, samples::window_of(range)),
{
    let sample_count: usize = count_over(&profile.threads, thread_indices, range);
    let wall_time_ms: u64 = wall_total(&profile.threads, thread_indices, range);
    let cpu_sample_time_ms: u64 = scope_total_time_ms(profile, thread_indices, range);
    ThreadSampleSummary {
        sample_count,
        wall_time_ms,
        cpu_sample_time_ms,
        cpu_sample_percent_of_wall: Ratio { part: cpu_sample_time_ms, whole: wall_time_ms },
        samples_per_second: Rate { count: sample_count, time_ms: wall_time_ms },
    }
}

/// A thread in short.
#[derive(Debug)]
pub struct ThreadInfo {
    pub index: usize,
    pub name: String,
    pub pid: String,
    pub tid: String,
    pub sample_count: usize,
    pub duration_ms: u64,
    pub wall_time_ms: u64,
    pub cpu_sample_time_ms: u64,
    pub cpu_sample_percent_of_wall: Ratio,
    pub samples_per_second: Rate,
    pub is_main: bool,
}

/// Whether a row is about a thread.
pub open spec fn thread_row(
    row: ThreadInfo,
    p: ResolvedProfile,
    index: usize,
    range: Option<AnalysisRange>,
) -> bool {
    let t = p.threads@[index as int];
    let summary = summary_of(p, seq![index], range);
    &&& row.index == index
    &&& row.name@ == t.name@
    &&& row.pid@ == t.pid@
    &&& row.tid@ == t.tid@
    &&& row.sample_count == summary.sample_count
    &&& row.duration_ms == summary.wall_time_ms
    &&& row.wall_time_ms == summary.wall_time_ms
    &&& row.cpu_sample_time_ms == summary.cpu_sample_time_ms
    &&& row.cpu_sample_percent_of_wall == summary.cpu_sample_percent_of_wall
    &&& row.samples_per_second == summary.samples_per_second
    &&& row.is_main == t.is_main
}

/// The indices that name a thread.
pub open spec fn known(threads: Seq<ResolvedThread>, indices: Seq<usize>) -> Seq<usize>
    decreases indices.len(),
{
    if indices.len() == 0 {
        Seq::empty()
    } else {
        let before = known(threads, indices.drop_last());
        if indices.last() < threads.len() {
            before.push(indices.last())
        } else {
            before
        }
    }
}

/// Whether rows are about threads.
pub open spec fn thread_rows(
    rows: Seq<ThreadInfo>,
    p: ResolvedProfile,
    indices: Seq<usize>,
    range: Option<AnalysisRange>,
) -> bool {
    let shown = known(p.threads@, indices);
    rows.len() == shown.len() && forall|i: int|
        0 <= i < rows.len() ==> thread_row(#[trigger] rows[i], p, shown[i], range)
}

/// A thread in short.
pub fn thread_info(
    profile: &ResolvedProfile,
    index: usize,
    thread: &ResolvedThread,
    range: Option<&AnalysisRange>,
) -> (r: ThreadInfo)
    requires
        index < profile.threads@.len(),
        *thread == profile.threads@[index as int],
    ensures
        thread_row(r, *profile, index, samples::window_of(range)),
{
    let mut one: Vec<usize> = Vec::new();
    one.push(index);
    assert(one@ =~= seq![index]);
    let summary = thread_sample_summary(profile, &one, range);
    ThreadInfo {
        index,
        name: thread.name.clone(),
        pid: thread.pid.clone(),
        tid: thread.tid.clone(),
        sample_count: summary.sample_count,
        duration_ms: summary.wall_time_ms,
        wall_time_ms: summary.wall_time_ms,
        cpu_sample_time_ms: summary.cpu_sample_time_ms,
        cpu_sample_percent_of_wall: summary.cpu_sample_percent_of_wall,
        samples_per_second: summary.samples_per_second,
        is_main: thread.is_main,
    }
}

/// Threads in short.
pub fn thread_infos(
    profile: &ResolvedProfile,
    thread_indices: &Vec<usize>,
    range: Option<&AnalysisRange>,
) -> (r: Vec<ThreadInfo>)
    ensures
        thread_rows(r@, *profile, thread_indices@, samples::window_of(range)),
{
    let ghost w = samples::window_of(range);
    let mut rows: Vec<ThreadInfo> = Vec::new();
    let mut i: usize = 0;
    while i < thread_indices.len()
        invariant
            i <= thread_indices@.len(),
            w == samples::window_of(range),
            thread_rows(rows@, *profile, thread_indices@.take(i as int), w),
        decreases thread_indices@.len() - i,
    {
        let index: usize = thread_indices[i];
        proof {
            assert(thread_indices@.take(i + 1).drop_last() =~= thread_indices@.take(i as int));
            assert(thread_indices@.take(i + 1).last() == index);
        }
        if index < profile.threads.len() {
            rows.push(thread_info(profile, index, &profile.threads[index], range));
        }
        i += 1;
    }
    assert(thread_indices@.take(thread_indices@.len() as int) =~= thread_indices@);
    rows
}

/// Threads whose names differ in their numbers only.
#[derive(Debug)]
pub struct ThreadSummaryGroup {
    pub name_prefix: String,
    pub thread_count: usize,
    pub sample_count: usize,
    pub wall_time_ms: u64,
    pub cpu_sample_time_ms: u64,
    pub cpu_sample_percent_of_wall: Ratio,
    pub samples_per_second: Rate,
    pub max_thread_duration_ms: u64,
    pub main_thread_count: usize,
}

/// A thread on its way into a family.
pub struct FamilyItem {
    name: String,
    index: usize,
}

/// The threads of a family.
pub struct Family {
    name: String,
    indices: Vec<usize>,
}

impl Keyed for Family {
    type Model = (Seq<char>, Seq<usize>);

    type Key = Seq<char>;

    closed spec fn model(&self) -> (Seq<char>, Seq<usize>) {
        (self.name@, self.indices@)
    }

    open spec fn key(m: (Seq<char>, Seq<usize>)) -> Seq<char> {
        m.0
    }

    open spec fn bucket(k: Seq<char>) -> u64 {
        fnv::of_text(k)
    }
}

impl Group<FamilyItem> for Family {
    type Item = (Seq<char>, usize);

    closed spec fn seen(item: FamilyItem) -> (Seq<char>, usize) {
        (item.name@, item.index)
    }

    open spec fn key_of(item: (Seq<char>, usize)) -> Seq<char> {
        item.0
    }

    open spec fn fresh(item: (Seq<char>, usize)) -> (Seq<char>, Seq<usize>) {
        (item.0, seq![item.1])
    }

    open spec fn grown(m: (Seq<char>, Seq<usize>), item: (Seq<char>, usize)) -> (
        Seq<char>,
        Seq<usize>,
    ) {
        (m.0, m.1.push(item.1))
    }

    proof fn keeps_key(m: (Seq<char>, Seq<usize>), item: (Seq<char>, usize)) {
    }

    fn hash(item: &FamilyItem) -> (r: u64) {
        fnv::hash_text(item.name.as_str())
    }

    fn accepts(&self, item: &FamilyItem) -> (r: bool) {
        text::text_eq(self.name.as_str(), item.name.as_str())
    }

    fn start(item: &FamilyItem) -> (r: Self) {
        let mut indices: Vec<usize> = Vec::new();
        indices.push(item.index);
        assert(indices@ =~= seq![item.index]);
        Family { name: item.name.clone(), indices }
    }

    fn absorb(&mut self, item: &FamilyItem) {
        self.indices.push(item.index);
    }
}

/// Threads with the names of their families.
pub open spec fn family_items(threads: Seq<ResolvedThread>, indices: Seq<usize>) -> Seq<
    (Seq<char>, usize),
> {
    let shown = known(threads, indices);
    Seq::new(
        shown.len(),
        |i: int| (threads::family(threads[shown[i] as int].name@), shown[i]),
    )
}

/// The families of threads with more samples first, equal ones by name.
pub open spec fn families(
    threads: Seq<ResolvedThread>,
    indices: Seq<usize>,
    range: Option<AnalysisRange>,
) -> Seq<(Seq<char>, Seq<usize>)> {
    rank::ranked(
        groups::grouped::<FamilyItem, Family>(family_items(threads, indices)),
        by_samples(threads, range),
    )
}

/// Families rank by falling samples, then by name.
pub open spec fn by_samples(threads: Seq<ResolvedThread>, range: Option<AnalysisRange>) -> spec_fn(
    (Seq<char>, Seq<usize>),
) -> Seq<i128> {
    |family: (Seq<char>, Seq<usize>)|
        rank::descending(samples_over(threads, family.1, range) as int) + rank::textual(family.0)
}

/// The longest wall time of the first `m` threads.
pub open spec fn longest_wall(
    threads: Seq<ResolvedThread>,
    indices: Seq<usize>,
    range: Option<AnalysisRange>,
    m: int,
) -> u64
    decreases m,
{
    if m <= 0 {
        0
    } else {
        let before = longest_wall(threads, indices, range, m - 1);
        if indices[m - 1] < threads.len() && samples::wall_time(
            threads[indices[m - 1] as int],
            range,
        ) > before {
            samples::wall_time(threads[indices[m - 1] as int], range)
        } else {
            before
        }
    }
}

/// Whether a thread is a main thread, as a number.
pub open spec fn being_main() -> spec_fn(ResolvedThread) -> nat {
    |t: ResolvedThread|
        if t.is_main {
            1nat
        } else {
            0nat
        }
}

/// Whether a row is about a family of threads.
pub open spec fn family_row(
    row: ThreadSummaryGroup,
    p: ResolvedProfile,
    family: (Seq<char>, Seq<usize>),
    range: Option<AnalysisRange>,
) -> bool {
    let summary = summary_of(p, family.1, range);
    &&& row.name_prefix@ == family.0
    &&& row.thread_count == family.1.len()
    &&& row.sample_count == summary.sample_count
    &&& row.wall_time_ms == summary.wall_time_ms
    &&& row.cpu_sample_time_ms == summary.cpu_sample_time_ms
    &&& row.cpu_sample_percent_of_wall == summary.cpu_sample_percent_of_wall
    &&& row.samples_per_second == summary.samples_per_second
    &&& row.max_thread_duration_ms == longest_wall(
        p.threads@,
        family.1,
        range,
        family.1.len() as int,
    )
    &&& row.main_thread_count == samples::over_threads(
        p.threads@,
        family.1,
        being_main(),
        family.1.len() as int,
    )
}

/// Whether rows are about families of threads.
pub open spec fn family_rows(
    rows: Seq<ThreadSummaryGroup>,
    p: ResolvedProfile,
    indices: Seq<usize>,
    range: Option<AnalysisRange>,
) -> bool {
    let all = families(p.threads@, indices, range);
    rows.len() == all.len() && forall|i: int|
        0 <= i < rows.len() ==> family_row(#[trigger] rows[i], p, all[i], range)
}

/// Reports a family of threads.
fn make_family_row(profile: &ResolvedProfile, family: &Family, range: Option<&AnalysisRange>) -> (r:
    ThreadSummaryGroup)
    ensures
        family_row(r, *profile, family.model(), samples::window_of(range)),
{
    let ghost w = samples::window_of(range);
    let threads = &profile.threads;
    let summary = thread_sample_summary(profile, &family.indices, range);
    let mut longest: u64 = 0;
    let mut main_count: usize = 0;
    let mut m: usize = 0;
    while m < family.indices.len()
        invariant
            m <= family.indices@.len(),
            w == samples::window_of(range),
            *threads == profile.threads,
            main_count <= m,
            longest == longest_wall(threads@, family.indices@, w, m as int),
            main_count == samples::over_threads(
                threads@,
                family.indices@,
                being_main(),
                m as int,
            ),
        decreases family.indices@.len() - m,
    {
        let index: usize = family.indices[m];
        if index < threads.len() {
            let wall: u64 = samples::thread_wall_time_ms(&threads[index], range);
            if wall > longest {
                longest = wall;
            }
            if threads[index].is_main {
                main_count += 1;
            }
        }
        m += 1;
    }
    ThreadSummaryGroup {
        name_prefix: family.name.clone(),
        thread_count: family.indices.len(),
        sample_count: summary.sample_count,
        wall_time_ms: summary.wall_time_ms,
        cpu_sample_time_ms: summary.cpu_sample_time_ms,
        cpu_sample_percent_of_wall: summary.cpu_sample_percent_of_wall,
        samples_per_second: summary.samples_per_second,
        max_thread_duration_ms: longest,
        main_thread_count: main_count,
    }
}

/// Sorts threads into families.
fn sort_families(threads: &Vec<ResolvedThread>, indices: &Vec<usize>) -> (r: Vec<Family>)
    ensures
        groups::models(r@) == groups::grouped::<FamilyItem, Family>(
            family_items(threads@, indices@),
        ),
{
    let mut found: Groups<Family> = Groups::new();
    let mut i: usize = 0;
    assert(family_items(threads@, indices@.take(0)) =~= Seq::<(Seq<char>, usize)>::empty());
    while i < indices.len()
        invariant
            i <= indices@.len(),
            found.well_formed(),
            found@ == groups::grouped::<FamilyItem, Family>(
                family_items(threads@, indices@.take(i as int)),
            ),
        decreases indices@.len() - i,
    {
        let index: usize = indices[i];
        let ghost before = family_items(threads@, indices@.take(i as int));
        proof {
            assert(indices@.take(i + 1).drop_last() =~= indices@.take(i as int));
            assert(indices@.take(i + 1).last() == index);
        }
        if index < threads.len() {
            let name = threads::summary_thread_name_prefix(threads[index].name.as_str());
            proof {
                let after = family_items(threads@, indices@.take(i + 1));
                assert(after =~= before.push((name@, index)));
                assert(after.drop_last() =~= before);
            }
            found.add(&FamilyItem { name, index });
        } else {
            assert(family_items(threads@, indices@.take(i + 1)) =~= before);
        }
        i += 1;
    }
    assert(indices@.take(indices@.len() as int) =~= indices@);
    found.finish()
}

/// Threads by family, families with more samples first.
pub fn thread_summary_groups(
    profile: &ResolvedProfile,
    thread_indices: &Vec<usize>,
    range: Option<&AnalysisRange>,
) -> (r: Vec<ThreadSummaryGroup>)
    ensures
        family_rows(r@, *profile, thread_indices@, samples::window_of(range)),
{
    let ghost w = samples::window_of(range);
    let found = sort_families(&profile.threads, thread_indices);
    let ghost all = found@;
    let ghost models = groups::models(all);
    let ghost order = by_samples(profile.threads@, w);
    let mut keys: Vec<Vec<i128>> = Vec::new();
    let mut i: usize = 0;
    while i < found.len()
        invariant
            i <= found@.len(),
            all == found@,
            models == groups::models(all),
            w == samples::window_of(range),
            order == by_samples(profile.threads@, w),
            keys@.len() == i,
            forall|k: int| 0 <= k < i ==> (#[trigger] keys@[k])@ == order(models[k]),
        decreases found@.len() - i,
    {
        let mut key: Vec<i128> = Vec::new();
        let count: usize = count_over(&profile.threads, &found[i].indices, range);
        rank::push_descending(&mut key, count as u128);
        rank::push_textual(&mut key, found[i].name.as_str());
        assert(key@ =~= order(models[i as int]));
        keys.push(key);
        i += 1;
    }
    let ghost ks = rank::key_views(keys@);
    let sorted = rank::arrange(found, &keys);
    proof {
        assert(ks =~= rank::keys_of(models, order));
        let f = |family: Family| family.model();
        rank::lemma_arranged_map(all, ks, f);
        assert(groups::models(sorted@) =~= Seq::new(
            all.len(),
            |p: int| f(rank::arranged(all, ks)[p]),
        ));
        assert(models =~= Seq::new(all.len(), |p: int| f(all[p])));
    }
    let ghost expected = families(profile.threads@, thread_indices@, w);
    assert(groups::models(sorted@) == expected);
    let mut rows: Vec<ThreadSummaryGroup> = Vec::new();
    let mut j: usize = 0;
    while j < sorted.len()
        invariant
            j <= sorted@.len(),
            w == samples::window_of(range),
            groups::models(sorted@) == expected,
            rows@.len() == j,
            forall|k: int|
                0 <= k < j ==> family_row(#[trigger] rows@[k], *profile, expected[k], w),
        decreases sorted@.len() - j,
    {
        assert(expected[j as int] == sorted@[j as int].model());
        rows.push(make_family_row(profile, &sorted[j], range));
        j += 1;
    }
    rows
}

}
