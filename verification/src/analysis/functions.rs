//! Self and total time by function.
use crate::analysis::call_tree;
use crate::analysis::samples;
use crate::analysis::samples::AnalysisRange;
use crate::fnv;
use crate::groups;
use crate::groups::{Group, Groups, Keyed};
use crate::profile::resolved::{ResolvedFrame, ResolvedSample, ResolvedThread};
use crate::rank;
use crate::sums;
use crate::units;
use crate::units::Ratio;
use vstd::prelude::*;

verus! {

/// The time of one function.
#[derive(Debug, Clone)]
pub struct FunctionStats {
    pub name: String,
    pub self_time_ms: u64,
    pub total_time_ms: u64,
    pub self_percent: Ratio,
    pub total_percent: Ratio,
    pub sample_count: usize,
    pub library: Option<String>,
    pub file: Option<String>,
    pub line: Option<u32>,
}

/// The samples whose leaf frame has a name.
pub open spec fn leaf_is(name: Seq<char>) -> spec_fn(ResolvedSample) -> bool {
    |s: ResolvedSample| s.stack.names().len() > 0 && s.stack.names().last() == name
}

/// The samples whose stack holds a name.
pub open spec fn stack_has(name: Seq<char>) -> spec_fn(ResolvedSample) -> bool {
    |s: ResolvedSample| s.stack.names().contains(name)
}

/// The frame that stands for a name in a stack that holds it: the leaf, if it
/// has the name, else the outermost frame with the name.
pub open spec fn frame_in(s: ResolvedSample, name: Seq<char>) -> ResolvedFrame {
    if leaf_is(name)(s) {
        *s.stack.frames().last()
    } else {
        *s.stack.frames()[call_tree::first_named(s.stack.names(), name, 0).unwrap()]
    }
}

/// The frame that stands for a name in the first counted sample that holds it.
pub open spec fn origin(
    samples: Seq<ResolvedSample>,
    range: Option<AnalysisRange>,
    name: Seq<char>,
    n: int,
) -> Option<ResolvedFrame>
    decreases n,
{
    if n <= 0 {
        None
    } else {
        match origin(samples, range, name, n - 1) {
            Some(frame) => Some(frame),
            None => if samples::counts(range, samples[n - 1]) && stack_has(name)(samples[n - 1]) {
                Some(frame_in(samples[n - 1], name))
            } else {
                None
            },
        }
    }
}

/// Whether a row states the time of its function in a thread.
pub open spec fn states(
    row: FunctionStats,
    thread: ResolvedThread,
    interval: u64,
    range: Option<AnalysisRange>,
) -> bool {
    let n = thread.samples@.len() as int;
    let name = row.name@;
    let whole = units::capped(samples::time_counted(thread, interval, range) as int);
    &&& row.self_time_ms == units::capped(
        samples::time_where(thread, interval, range, leaf_is(name), n) as int,
    )
    &&& row.total_time_ms == units::capped(
        samples::time_where(thread, interval, range, stack_has(name), n) as int,
    )
    &&& row.sample_count == samples::count_where(thread.samples@, range, leaf_is(name), n)
    &&& row.self_percent == (Ratio { part: row.self_time_ms, whole })
    &&& row.total_percent == (Ratio { part: row.total_time_ms, whole })
    &&& origin(thread.samples@, range, name, n) matches Some(frame) && row.library == frame.library
        && row.file == frame.file && row.line == frame.line
}

/// Whether a list of rows holds one with a name.
pub open spec fn has_row(rows: Seq<FunctionStats>, name: Seq<char>) -> bool {
    exists|i: int| 0 <= i < rows.len() && #[trigger] rows[i].name@ == name
}

/// Whether rows state the time of every function in a thread once, in the
/// order of falling self time.
pub open spec fn is_function_table(
    rows: Seq<FunctionStats>,
    thread: ResolvedThread,
    interval: u64,
    range: Option<AnalysisRange>,
) -> bool {
    &&& forall|i: int| 0 <= i < rows.len() ==> states(#[trigger] rows[i], thread, interval, range)
    &&& forall|i: int, j: int|
        #![trigger rows[i], rows[j]]
        0 <= i < j < rows.len() ==> rows[i].name@ != rows[j].name@ && rows[i].self_time_ms
            >= rows[j].self_time_ms
    &&& forall|name: Seq<char>| #[trigger]
        has_row(rows, name) <==> origin(
            thread.samples@,
            range,
            name,
            thread.samples@.len() as int,
        ) is Some
}

struct FrameHit<'a> {
    frame: &'a ResolvedFrame,
    leaf: bool,
    time: u64,
    sample: usize,
}

struct FunctionStatsAccum {
    name: String,
    self_time_ms: u64,
    total_time_ms: u64,
    sample_count: usize,
    library: Option<String>,
    file: Option<String>,
    line: Option<u32>,
    seen: Option<usize>,
}

struct AccumModel {
    name: Seq<char>,
    self_time: u64,
    total_time: u64,
    sample_count: usize,
    library: Option<String>,
    file: Option<String>,
    line: Option<u32>,
    seen: Option<usize>,
}

spec fn after_hit(m: AccumModel, leaf: bool, time: u64, sample: usize) -> AccumModel {
    if leaf {
        AccumModel {
            self_time: units::capped(m.self_time + time),
            sample_count: units::capped_count(m.sample_count + 1),
            ..m
        }
    } else if m.seen == Some(sample) {
        m
    } else {
        AccumModel {
            total_time: units::capped(m.total_time + time),
            seen: Some(sample),
            ..m
        }
    }
}

impl Keyed for FunctionStatsAccum {
    type Model = AccumModel;

    type Key = Seq<char>;

    closed spec fn model(&self) -> AccumModel {
        AccumModel {
            name: self.name@,
            self_time: self.self_time_ms,
            total_time: self.total_time_ms,
            sample_count: self.sample_count,
            library: self.library,
            file: self.file,
            line: self.line,
            seen: self.seen,
        }
    }

    closed spec fn key(m: AccumModel) -> Seq<char> {
        m.name
    }

    closed spec fn bucket(k: Seq<char>) -> u64 {
        fnv::of_text(k)
    }
}

impl<'a> Group<FrameHit<'a>> for FunctionStatsAccum {
    type Item = FrameHit<'a>;

    closed spec fn seen(item: FrameHit<'a>) -> FrameHit<'a> {
        item
    }

    closed spec fn key_of(item: FrameHit<'a>) -> Seq<char> {
        item.frame.function_name@
    }

    closed spec fn fresh(item: FrameHit<'a>) -> AccumModel {
        after_hit(
            AccumModel {
                name: item.frame.function_name@,
                self_time: 0,
                total_time: 0,
                sample_count: 0,
                library: item.frame.library,
                file: item.frame.file,
                line: item.frame.line,
                seen: None,
            },
            item.leaf,
            item.time,
            item.sample,
        )
    }

    closed spec fn grown(m: AccumModel, item: FrameHit<'a>) -> AccumModel {
        after_hit(m, item.leaf, item.time, item.sample)
    }

    proof fn keeps_key(m: AccumModel, item: FrameHit<'a>) {
    }

    fn hash(item: &FrameHit<'a>) -> (r: u64) {
        fnv::hash_text(item.frame.function_name.as_str())
    }

    fn accepts(&self, item: &FrameHit<'a>) -> (r: bool) {
        self.name == item.frame.function_name
    }

    fn start(item: &FrameHit<'a>) -> (r: Self) {
        let mut accum = FunctionStatsAccum {
            name: item.frame.function_name.clone(),
            self_time_ms: 0,
            total_time_ms: 0,
            sample_count: 0,
            library: item.frame.library.clone(),
            file: item.frame.file.clone(),
            line: item.frame.line,
            seen: None,
        };
        accum.absorb(item);
        accum
    }

    fn absorb(&mut self, item: &FrameHit<'a>) {
        if item.leaf {
            self.self_time_ms = units::capped_add(self.self_time_ms, item.time);
            self.sample_count = units::capped_count_add(self.sample_count, 1);
        } else {
            let again: bool = match self.seen {
                Some(sample) => sample == item.sample,
                None => false,
            };
            if !again {
                self.total_time_ms = units::capped_add(self.total_time_ms, item.time);
                self.seen = Some(item.sample);
            }
        }
    }
}

/// Whether a name has a group, after the first `i` samples and then, with
/// `j >= 0`, the leaf and the first `j` frames of the next.
spec fn present(
    thread: ResolvedThread,
    range: Option<AnalysisRange>,
    name: Seq<char>,
    i: int,
    j: int,
) -> bool {
    ||| origin(thread.samples@, range, name, i) is Some
    ||| j >= 0 && (leaf_is(name)(thread.samples@[i]) || thread.samples@[i].stack.names().take(
        j,
    ).contains(name))
}

spec fn frame_for(
    thread: ResolvedThread,
    range: Option<AnalysisRange>,
    name: Seq<char>,
    i: int,
) -> ResolvedFrame {
    match origin(thread.samples@, range, name, i) {
        Some(frame) => frame,
        None => frame_in(thread.samples@[i], name),
    }
}

/// What a group holds, after the first `i` samples and then, with `j >= 0`,
/// the leaf and the first `j` frames of the next.
spec fn group_holds(
    g: AccumModel,
    thread: ResolvedThread,
    interval: u64,
    range: Option<AnalysisRange>,
    i: int,
    j: int,
) -> bool {
    let name = g.name;
    let leaf = leaf_is(name);
    let time = samples::time_of(thread.sample_weight_type, thread.samples@[i], interval);
    let names = thread.samples@[i].stack.names();
    let leaf_done = if j >= 0 {
        i + 1
    } else {
        i
    };
    let hit = j >= 0 && names.take(j).contains(name);
    &&& g.self_time == units::capped(
        samples::time_where(thread, interval, range, leaf, leaf_done) as int,
    )
    &&& g.sample_count == samples::count_where(thread.samples@, range, leaf, leaf_done)
    &&& g.total_time == units::capped(
        samples::time_where(thread, interval, range, stack_has(name), i) as int + if hit {
            time as int
        } else {
            0
        },
    )
    &&& if hit {
        g.seen == Some(i as usize)
    } else {
        g.seen matches Some(s) ==> s < i
    }
    &&& present(thread, range, name, i, j)
    &&& g.library == frame_for(thread, range, name, i).library
    &&& g.file == frame_for(thread, range, name, i).file
    &&& g.line == frame_for(thread, range, name, i).line
}

spec fn table_holds(
    gs: Seq<AccumModel>,
    thread: ResolvedThread,
    interval: u64,
    range: Option<AnalysisRange>,
    i: int,
    j: int,
) -> bool {
    &&& groups::distinct::<FunctionStatsAccum>(gs)
    &&& forall|p: int|
        0 <= p < gs.len() ==> group_holds(#[trigger] gs[p], thread, interval, range, i, j)
    &&& forall|name: Seq<char>|
        #![trigger present(thread, range, name, i, j)]
        #![trigger groups::group_at::<FunctionStatsAccum>(gs, name, 0)]
        groups::group_at::<FunctionStatsAccum>(gs, name, 0) is Some <==> present(
            thread,
            range,
            name,
            i,
            j,
        )
}

proof fn lemma_first_named(names: Seq<Seq<char>>, name: Seq<char>, from: int)
    requires
        0 <= from,
    ensures
        match call_tree::first_named(names, name, from) {
            Some(i) => from <= i < names.len() && names[i] == name && forall|k: int|
                from <= k < i ==> names[k] != name,
            None => forall|k: int| from <= k < names.len() ==> names[k] != name,
        },
    decreases names.len() - from,
{
    if from < names.len() && names[from] != name {
        lemma_first_named(names, name, from + 1);
    }
}

/// The leaf of a counted sample.
proof fn lemma_leaf_step(
    gs: Seq<AccumModel>,
    thread: ResolvedThread,
    interval: u64,
    range: Option<AnalysisRange>,
    i: int,
    item: FrameHit<'_>,
)
    requires
        0 <= i < thread.samples@.len() <= usize::MAX,
        table_holds(gs, thread, interval, range, i, -1),
        samples::counts(range, thread.samples@[i]),
        thread.samples@[i].stack.frames().len() > 0,
        *item.frame == *thread.samples@[i].stack.frames().last(),
        item.leaf,
        item.time == samples::time_of(thread.sample_weight_type, thread.samples@[i], interval),
        item.sample == i,
    ensures
        table_holds(
            groups::with_item::<FrameHit<'_>, FunctionStatsAccum>(gs, item),
            thread,
            interval,
            range,
            i,
            0,
        ),
{
    let after = groups::with_item::<FrameHit<'_>, FunctionStatsAccum>(gs, item);
    let s = thread.samples@[i];
    let names = s.stack.names();
    let k0 = item.frame.function_name@;
    assert(names.last() == k0);
    assert(names.take(0).len() == 0);
    groups::lemma_with_item::<FrameHit<'_>, FunctionStatsAccum>(gs, item);
    groups::lemma_group_at::<FunctionStatsAccum>(gs, k0, 0);
    assert forall|name: Seq<char>| leaf_is(name)(s) <==> name == k0 by {}
    assert forall|p: int| 0 <= p < after.len() implies group_holds(
        #[trigger] after[p],
        thread,
        interval,
        range,
        i,
        0,
    ) by {
        let name = after[p].name;
        samples::lemma_count_bound(thread.samples@, range, leaf_is(name), i);
        if name == k0 {
            match groups::group_at::<FunctionStatsAccum>(gs, k0, 0) {
                Some(q) => {
                    assert(group_holds(gs[q], thread, interval, range, i, -1));
                },
                None => {
                    assert(!present(thread, range, k0, i, -1));
                    lemma_unseen(thread, interval, range, k0, i);
                },
            }
        } else {
            assert(group_holds(gs[p], thread, interval, range, i, -1));
        }
    }
    assert forall|name: Seq<char>|
        #![trigger present(thread, range, name, i, 0)]
        #![trigger groups::group_at::<FunctionStatsAccum>(after, name, 0)]
        groups::group_at::<FunctionStatsAccum>(after, name, 0) is Some <==> present(
        thread,
        range,
        name,
        i,
        0,
    ) by {
        assert(groups::group_at::<FunctionStatsAccum>(gs, name, 0) is Some <==> present(
            thread,
            range,
            name,
            i,
            -1,
        ));
    }
}

/// A name that no counted sample holds has no time.
proof fn lemma_unseen(
    thread: ResolvedThread,
    interval: u64,
    range: Option<AnalysisRange>,
    name: Seq<char>,
    n: int,
)
    requires
        origin(thread.samples@, range, name, n) is None,
    ensures
        samples::time_where(thread, interval, range, leaf_is(name), n) == 0,
        samples::time_where(thread, interval, range, stack_has(name), n) == 0,
        samples::count_where(thread.samples@, range, leaf_is(name), n) == 0,
    decreases n,
{
    if n > 0 {
        lemma_unseen(thread, interval, range, name, n - 1);
        let s = thread.samples@[n - 1];
        if leaf_is(name)(s) {
            assert(s.stack.names()[s.stack.names().len() - 1] == name);
            assert(stack_has(name)(s));
        }
    }
}

/// The next frame of a counted sample.
proof fn lemma_frame_step(
    gs: Seq<AccumModel>,
    thread: ResolvedThread,
    interval: u64,
    range: Option<AnalysisRange>,
    i: int,
    j: int,
    item: FrameHit<'_>,
)
    requires
        0 <= i < thread.samples@.len() <= usize::MAX,
        0 <= j < thread.samples@[i].stack.frames().len(),
        table_holds(gs, thread, interval, range, i, j),
        samples::counts(range, thread.samples@[i]),
        *item.frame == *thread.samples@[i].stack.frames()[j],
        !item.leaf,
        item.time == samples::time_of(thread.sample_weight_type, thread.samples@[i], interval),
        item.sample == i,
    ensures
        table_holds(
            groups::with_item::<FrameHit<'_>, FunctionStatsAccum>(gs, item),
            thread,
            interval,
            range,
            i,
            j + 1,
        ),
{
    let after = groups::with_item::<FrameHit<'_>, FunctionStatsAccum>(gs, item);
    let s = thread.samples@[i];
    let names = s.stack.names();
    let k0 = item.frame.function_name@;
    assert(names[j] == k0);
    assert(names.take(j + 1) =~= names.take(j).push(k0));
    assert forall|name: Seq<char>| #[trigger] names.take(j + 1).contains(name) <==> names.take(
        j,
    ).contains(name) || name == k0 by {
        let a = names.take(j);
        let b = names.take(j + 1);
        if a.contains(name) {
            let x = choose|x: int| 0 <= x < a.len() && a[x] == name;
            assert(b[x] == name);
        }
        if name == k0 {
            assert(b[j] == name);
        }
        if b.contains(name) {
            let x = choose|x: int| 0 <= x < b.len() && b[x] == name;
            if x < j {
                assert(a[x] == name);
            }
        }
    }
    groups::lemma_with_item::<FrameHit<'_>, FunctionStatsAccum>(gs, item);
    groups::lemma_group_at::<FunctionStatsAccum>(gs, k0, 0);
    assert forall|p: int| 0 <= p < after.len() implies group_holds(
        #[trigger] after[p],
        thread,
        interval,
        range,
        i,
        j + 1,
    ) by {
        let name = after[p].name;
        if name == k0 {
            match groups::group_at::<FunctionStatsAccum>(gs, k0, 0) {
                Some(q) => {
                    assert(group_holds(gs[q], thread, interval, range, i, j));
                },
                None => {
                    assert(!present(thread, range, k0, i, j));
                    lemma_unseen(thread, interval, range, k0, i);
                    assert(!names.take(j).contains(k0));
                    lemma_first_named(names, k0, 0);
                    assert(call_tree::first_named(names, k0, 0) == Some(j)) by {
                        let f = call_tree::first_named(names, k0, 0);
                        if let Some(x) = f {
                            if x < j {
                                assert(names.take(j)[x] == k0);
                            }
                        }
                    }
                },
            }
        } else {
            assert(group_holds(gs[p], thread, interval, range, i, j));
        }
    }
    assert forall|name: Seq<char>|
        #![trigger present(thread, range, name, i, j + 1)]
        #![trigger groups::group_at::<FunctionStatsAccum>(after, name, 0)]
        groups::group_at::<FunctionStatsAccum>(after, name, 0) is Some <==> present(
        thread,
        range,
        name,
        i,
        j + 1,
    ) by {
        assert(groups::group_at::<FunctionStatsAccum>(gs, name, 0) is Some <==> present(
            thread,
            range,
            name,
            i,
            j,
        ));
        assert(names.take(j + 1).contains(name) <==> names.take(j).contains(name) || name == k0);
    }
}

/// The end of a sample.
proof fn lemma_sample_end(
    gs: Seq<AccumModel>,
    thread: ResolvedThread,
    interval: u64,
    range: Option<AnalysisRange>,
    i: int,
    j: int,
)
    requires
        0 <= i < thread.samples@.len() <= usize::MAX,
        table_holds(gs, thread, interval, range, i, j),
        j == -1 ==> !samples::counts(range, thread.samples@[i])
            || thread.samples@[i].stack.frames().len() == 0,
        j != -1 ==> samples::counts(range, thread.samples@[i]) && j
            == thread.samples@[i].stack.frames().len() && j > 0,
    ensures
        table_holds(gs, thread, interval, range, i + 1, -1),
{
    let s = thread.samples@[i];
    let names = s.stack.names();
    assert(names.take(names.len() as int) =~= names);
    assert forall|name: Seq<char>| j == -1 implies !(samples::counts(range, s) && #[trigger] stack_has(name)(s)) by {}
    assert forall|name: Seq<char>| leaf_is(name)(s) implies #[trigger] stack_has(name)(s) by {
        assert(names[names.len() - 1] == name);
    }
    assert forall|name: Seq<char>| #[trigger] present(thread, range, name, i + 1, -1) <==> present(
        thread,
        range,
        name,
        i,
        j,
    ) by {
        assert(leaf_is(name)(s) ==> stack_has(name)(s));
    }
    assert forall|p: int| 0 <= p < gs.len() implies group_holds(
        #[trigger] gs[p],
        thread,
        interval,
        range,
        i + 1,
        -1,
    ) by {
        assert(group_holds(gs[p], thread, interval, range, i, j));
        let name = gs[p].name;
        assert(leaf_is(name)(s) ==> stack_has(name)(s));
        assert(present(thread, range, name, i + 1, -1) <==> present(thread, range, name, i, j));
    }
    assert forall|name: Seq<char>|
        #![trigger present(thread, range, name, i + 1, -1)]
        #![trigger groups::group_at::<FunctionStatsAccum>(gs, name, 0)]
        groups::group_at::<FunctionStatsAccum>(gs, name, 0) is Some <==> present(
        thread,
        range,
        name,
        i + 1,
        -1,
    ) by {
        assert(present(thread, range, name, i + 1, -1) <==> present(thread, range, name, i, j));
    }
}

/// The time of every function in a thread, in the order of falling self time.
/// Self time goes to the leaf of each stack, total time once to every function
/// in it.
pub fn compute_function_stats(
    thread: &ResolvedThread,
    interval_ms: u64,
    range: Option<&AnalysisRange>,
) -> (r: Vec<FunctionStats>)
    ensures
        is_function_table(r@, *thread, interval_ms, samples::window_of(range)),
{
    let ghost window = samples::window_of(range);
    let total_profile_time: u64 = samples::thread_sample_time_ms(thread, interval_ms, range);
    let mut table: Groups<FunctionStatsAccum> = Groups::new();
    let size: usize = thread.samples.len();
    proof {
        assert forall|name: Seq<char>|
            #![trigger present(*thread, window, name, 0, -1)]
            #![trigger groups::group_at::<FunctionStatsAccum>(table@, name, 0)]
            groups::group_at::<FunctionStatsAccum>(table@, name, 0) is Some <==> present(
            *thread,
            window,
            name,
            0,
            -1,
        ) by {}
    }
    let mut i: usize = 0;
    while i < size
        invariant
            i <= size == thread.samples@.len(),
            window == samples::window_of(range),
            table.well_formed(),
            table_holds(table@, *thread, interval_ms, window, i as int, -1),
        decreases size - i,
    {
        let sample = &thread.samples[i];
        let mut done: bool = false;
        if samples::in_window(range, sample) {
            if !sample.stack.is_empty() {
                let time: u64 = samples::sample_time_ms(thread, sample, interval_ms);
                let leaf = FrameHit {
                    frame: sample.stack.frame(sample.stack.len() - 1),
                    leaf: true,
                    time,
                    sample: i,
                };
                proof {
                    lemma_leaf_step(table@, *thread, interval_ms, window, i as int, leaf);
                }
                table.add(&leaf);
                let mut j: usize = 0;
                while j < sample.stack.len()
                    invariant
                        i < size == thread.samples@.len(),
                        window == samples::window_of(range),
                        *sample == thread.samples@[i as int],
                        samples::counts(window, *sample),
                        time == samples::time_of(thread.sample_weight_type, *sample, interval_ms),
                        j <= sample.stack.frames().len(),
                        table.well_formed(),
                        table_holds(table@, *thread, interval_ms, window, i as int, j as int),
                    decreases sample.stack.frames().len() - j,
                {
                    let hit = FrameHit { frame: sample.stack.frame(j), leaf: false, time, sample: i };
                    proof {
                        lemma_frame_step(
                            table@,
                            *thread,
                            interval_ms,
                            window,
                            i as int,
                            j as int,
                            hit,
                        );
                    }
                    table.add(&hit);
                    j += 1;
                }
                proof {
                    lemma_sample_end(table@, *thread, interval_ms, window, i as int, j as int);
                }
                done = true;
            }
        }
        proof {
            if !done {
                lemma_sample_end(table@, *thread, interval_ms, window, i as int, -1);
            }
        }
        i += 1;
    }
    let accums = table.finish();
    finish_table(&accums, thread, interval_ms, range, total_profile_time)
}

/// Orders the finished groups and turns them into rows.
fn finish_table(
    accums: &Vec<FunctionStatsAccum>,
    thread: &ResolvedThread,
    interval_ms: u64,
    range: Option<&AnalysisRange>,
    total_profile_time: u64,
) -> (r: Vec<FunctionStats>)
    requires
        table_holds(
            groups::models(accums@),
            *thread,
            interval_ms,
            samples::window_of(range),
            thread.samples@.len() as int,
            -1,
        ),
        total_profile_time == units::capped(
            samples::time_counted(*thread, interval_ms, samples::window_of(range)) as int,
        ),
    ensures
        is_function_table(r@, *thread, interval_ms, samples::window_of(range)),
{
    let ghost window = samples::window_of(range);
    let ghost gs = groups::models(accums@);
    let mut keys: Vec<Vec<i128>> = Vec::new();
    let mut i: usize = 0;
    while i < accums.len()
        invariant
            i <= accums@.len(),
            keys@.len() == i,
            forall|k: int|
                0 <= k < i ==> #[trigger] keys@[k]@ == rank::descending(
                    accums@[k].self_time_ms as int,
                ),
        decreases accums@.len() - i,
    {
        let mut key: Vec<i128> = Vec::new();
        rank::push_descending(&mut key, accums[i].self_time_ms as u128);
        assert(key@ =~= rank::descending(accums@[i as int].self_time_ms as int));
        keys.push(key);
        i += 1;
    }
    let order = rank::rank(&keys);
    let ghost ks = rank::key_views(keys@);
    let ghost ord = rank::as_ints(order@);
    let mut rows: Vec<FunctionStats> = Vec::new();
    let mut t: usize = 0;
    while t < order.len()
        invariant
            t <= order@.len() == accums@.len(),
            forall|k: int| 0 <= k < order@.len() ==> #[trigger] order@[k] < accums@.len(),
            rows@.len() == t,
            forall|k: int|
                #![trigger rows@[k]]
                0 <= k < t ==> {
                    let accum = accums@[order@[k] as int];
                    &&& rows@[k].name == accum.name
                    &&& rows@[k].self_time_ms == accum.self_time_ms
                    &&& rows@[k].total_time_ms == accum.total_time_ms
                    &&& rows@[k].sample_count == accum.sample_count
                    &&& rows@[k].library == accum.library
                    &&& rows@[k].file == accum.file
                    &&& rows@[k].line == accum.line
                    &&& rows@[k].self_percent == (Ratio {
                        part: accum.self_time_ms,
                        whole: total_profile_time,
                    })
                    &&& rows@[k].total_percent == (Ratio {
                        part: accum.total_time_ms,
                        whole: total_profile_time,
                    })
                },
        decreases order@.len() - t,
    {
        let accum = &accums[order[t]];
        rows.push(
            FunctionStats {
                name: accum.name.clone(),
                self_time_ms: accum.self_time_ms,
                total_time_ms: accum.total_time_ms,
                self_percent: Ratio { part: accum.self_time_ms, whole: total_profile_time },
                total_percent: Ratio { part: accum.total_time_ms, whole: total_profile_time },
                sample_count: accum.sample_count,
                library: accum.library.clone(),
                file: accum.file.clone(),
                line: accum.line,
            },
        );
        t += 1;
    }
    proof {
        let n = thread.samples@.len() as int;
        assert forall|k: int| 0 <= k < rows@.len() implies states(
            #[trigger] rows@[k],
            *thread,
            interval_ms,
            window,
        ) by {
            let a = order@[k] as int;
            assert(group_holds(gs[a], *thread, interval_ms, window, n, -1));
        }
        assert forall|k: int, l: int|
            #![trigger rows@[k], rows@[l]]
            0 <= k < l < rows@.len() implies rows@[k].name@ != rows@[l].name@
            && rows@[k].self_time_ms >= rows@[l].self_time_ms by {
            let a = order@[k] as int;
            let b = order@[l] as int;
            assert(ord[k] == a && ord[l] == b);
            assert(rank::key_before(ks, ord[k], ord[l]));
            rank::lemma_ranking_len(ks, ord);
            assert(a != b);
            assert(gs[a].name == accums@[a].name@ && gs[b].name == accums@[b].name@);
            if a < b {
                assert(gs[a].name != gs[b].name);
            } else {
                assert(gs[b].name != gs[a].name);
            }
            rank::lemma_descending(accums@[a].self_time_ms as int, accums@[b].self_time_ms as int);
            assert(ks[a] == keys@[a]@ && ks[b] == keys@[b]@);
        }
        assert forall|name: Seq<char>| #[trigger] has_row(rows@, name) <==> origin(
            thread.samples@,
            window,
            name,
            n,
        ) is Some by {
            groups::lemma_group_at::<FunctionStatsAccum>(gs, name, 0);
            assert(groups::group_at::<FunctionStatsAccum>(gs, name, 0) is Some <==> present(
                *thread,
                window,
                name,
                n,
                -1,
            ));
            if has_row(rows@, name) {
                let k = choose|k: int| 0 <= k < rows@.len() && #[trigger] rows@[k].name@ == name;
                let a = order@[k] as int;
                assert(gs[a].name == name);
            }
            if let Some(a) = groups::group_at::<FunctionStatsAccum>(gs, name, 0) {
                assert(ord.contains(a));
                let k = choose|k: int| 0 <= k < ord.len() && ord[k] == a;
                assert(order@[k] == a);
                assert(rows@[k].name@ == name);
            }
        }
    }
    rows
}

/// A function's self time is part of its total time, and both are part of the
/// time of the thread.
pub proof fn law_self_within_total(
    thread: ResolvedThread,
    interval: u64,
    range: Option<AnalysisRange>,
    name: Seq<char>,
)
    ensures
        ({
            let n = thread.samples@.len() as int;
            samples::time_where(thread, interval, range, leaf_is(name), n) <= samples::time_where(
                thread,
                interval,
                range,
                stack_has(name),
                n,
            ) <= samples::time_counted(thread, interval, range)
        }),
{
    let n = thread.samples@.len() as int;
    assert forall|s: ResolvedSample| #[trigger] leaf_is(name)(s) implies stack_has(name)(s) by {
        assert(s.stack.names()[s.stack.names().len() - 1] == name);
    }
    samples::lemma_where_monotone(thread, interval, range, leaf_is(name), stack_has(name), n);
    samples::lemma_where_monotone(thread, interval, range, stack_has(name), samples::any_sample(), n);
}

/// The samples that have a frame.
pub open spec fn has_leaf() -> spec_fn(ResolvedSample) -> bool {
    |s: ResolvedSample| s.stack.names().len() > 0
}

/// The self time of a function.
pub open spec fn self_time() -> spec_fn(FunctionStats) -> nat {
    |row: FunctionStats| row.self_time_ms as nat
}

/// The self times of all functions of a thread add up to the time of its
/// samples that have a frame, as long as that fits.
pub proof fn law_self_times_add_up(
    rows: Seq<FunctionStats>,
    thread: ResolvedThread,
    interval: u64,
    range: Option<AnalysisRange>,
)
    requires
        is_function_table(rows, thread, interval, range),
        samples::time_where(thread, interval, range, has_leaf(), thread.samples@.len() as int)
            <= u64::MAX,
    ensures
        sums::sum_of(rows, self_time()) == samples::time_where(
            thread,
            interval,
            range,
            has_leaf(),
            thread.samples@.len() as int,
        ),
{
    let n = thread.samples@.len() as int;
    let f = own_time(thread, interval, range, n);
    lemma_own_times(rows, thread, interval, range, n);
    assert forall|i: int| 0 <= i < rows.len() implies f(#[trigger] rows[i]) == self_time()(
        rows[i],
    ) by {
        let leaf = leaf_is(rows[i].name@);
        assert forall|s: ResolvedSample| #[trigger] leaf(s) implies has_leaf()(s) by {}
        samples::lemma_where_monotone(thread, interval, range, leaf, has_leaf(), n);
        assert(states(rows[i], thread, interval, range));
    }
    sums::lemma_sum_same(rows, f, self_time());
}

spec fn own_time(thread: ResolvedThread, interval: u64, range: Option<AnalysisRange>, n: int)
    -> spec_fn(FunctionStats) -> nat {
    |row: FunctionStats| samples::time_where(thread, interval, range, leaf_is(row.name@), n)
}

proof fn lemma_own_times(
    rows: Seq<FunctionStats>,
    thread: ResolvedThread,
    interval: u64,
    range: Option<AnalysisRange>,
    n: int,
)
    requires
        is_function_table(rows, thread, interval, range),
        0 <= n <= thread.samples@.len(),
    ensures
        sums::sum_of(rows, own_time(thread, interval, range, n)) == samples::time_where(
            thread,
            interval,
            range,
            has_leaf(),
            n,
        ),
    decreases n,
{
    let f = own_time(thread, interval, range, n);
    if n == 0 {
        lemma_no_sum(rows, f);
    } else {
        lemma_own_times(rows, thread, interval, range, n - 1);
        let g = own_time(thread, interval, range, n - 1);
        let sample = thread.samples@[n - 1];
        if samples::counts(range, sample) && has_leaf()(sample) {
            let name = sample.stack.names().last();
            assert(sample.stack.names()[sample.stack.names().len() - 1] == name);
            lemma_origin_found(thread.samples@, range, name, n - 1, thread.samples@.len() as int);
            assert(has_row(rows, name));
            let p = choose|i: int| 0 <= i < rows.len() && #[trigger] rows[i].name@ == name;
            assert forall|i: int| 0 <= i < rows.len() && i != p implies f(#[trigger] rows[i]) == g(
                rows[i],
            ) by {
                if i < p {
                    assert(rows[i].name@ != rows[p].name@);
                } else {
                    assert(rows[p].name@ != rows[i].name@);
                }
            }
            sums::lemma_sum_raised(
                rows,
                f,
                g,
                p,
                samples::time_of(thread.sample_weight_type, sample, interval) as nat,
            );
        } else {
            sums::lemma_sum_same(rows, f, g);
        }
    }
}

proof fn lemma_no_sum(rows: Seq<FunctionStats>, f: spec_fn(FunctionStats) -> nat)
    requires
        forall|row: FunctionStats| #[trigger] f(row) == 0,
    ensures
        sums::sum_of(rows, f) == 0,
    decreases rows.len(),
{
    if rows.len() > 0 {
        lemma_no_sum(rows.drop_last(), f);
    }
}

proof fn lemma_origin_found(
    samples: Seq<ResolvedSample>,
    range: Option<AnalysisRange>,
    name: Seq<char>,
    at: int,
    n: int,
)
    requires
        0 <= at < n,
        samples::counts(range, samples[at]),
        stack_has(name)(samples[at]),
    ensures
        origin(samples, range, name, n) is Some,
    decreases n,
{
    if at < n - 1 {
        lemma_origin_found(samples, range, name, at, n - 1);
    }
}

}
