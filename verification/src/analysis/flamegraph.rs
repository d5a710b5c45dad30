//! Collapsed stacks for flamegraphs.
use crate::analysis::call_tree;
use crate::analysis::samples;
use crate::analysis::samples::AnalysisRange;
use crate::analysis::symbols;
use crate::filters::FrameNameFilter;
use crate::fnv;
use crate::groups;
use crate::groups::{Group, Groups, Keyed};
use crate::profile::resolved::{ResolvedStack, ResolvedThread};
use crate::rank;
use crate::text;
use crate::units;
use vstd::prelude::*;

verus! {

/// Whether a frame is shown: the focused function always, others when they
/// pass the filter.
pub open spec fn frame_shown(
    name: Seq<char>,
    focus: Option<Seq<char>>,
    filter: FrameNameFilter,
) -> bool {
    focus == Some(name) || filter.passes(name)
}

/// The names shown among the frames from `from` up to `to`.
pub open spec fn shown_names(
    names: Seq<Seq<char>>,
    focus: Option<Seq<char>>,
    filter: FrameNameFilter,
    short_names: bool,
    from: int,
    to: int,
) -> Seq<Seq<char>>
    decreases to - from,
{
    if to <= from {
        Seq::empty()
    } else {
        let before = shown_names(names, focus, filter, short_names, from, to - 1);
        let name = names[to - 1];
        if frame_shown(name, focus, filter) {
            before.push(
                if short_names {
                    symbols::compact_of(name)
                } else {
                    name
                },
            )
        } else {
            before
        }
    }
}

/// The first frame that a line shows: the outermost frame of the focused
/// function, or the root without one.
pub open spec fn first_shown(names: Seq<Seq<char>>, focus: Option<Seq<char>>) -> Option<int> {
    match focus {
        Some(function) => call_tree::first_named(names, function, 0),
        None => Some(0),
    }
}

/// The line of a stack: the shown names, root first, joined by semicolons.
/// None if the stack lacks the focused function or nothing is shown.
pub open spec fn stack_line(
    names: Seq<Seq<char>>,
    focus: Option<Seq<char>>,
    filter: FrameNameFilter,
    short_names: bool,
) -> Option<Seq<char>> {
    match first_shown(names, focus) {
        Some(from) => {
            let line = text::joined(
                shown_names(names, focus, filter, short_names, from, names.len() as int),
                ";"@,
            );
            if line.len() > 0 {
                Some(line)
            } else {
                None
            }
        },
        None => None,
    }
}

/// The lines and weights of the first `n` samples of a thread.
pub open spec fn thread_lines(
    thread: ResolvedThread,
    range: Option<AnalysisRange>,
    focus: Option<Seq<char>>,
    filter: FrameNameFilter,
    short_names: bool,
    n: int,
) -> Seq<(Seq<char>, u32)>
    decreases n,
{
    if n <= 0 {
        Seq::empty()
    } else {
        let before = thread_lines(thread, range, focus, filter, short_names, n - 1);
        let sample = thread.samples@[n - 1];
        if samples::counts(range, sample) {
            match stack_line(sample.stack.names(), focus, filter, short_names) {
                Some(line) => before.push((line, samples::weight_of(sample))),
                None => before,
            }
        } else {
            before
        }
    }
}

/// The lines and weights of the first `m` threads.
pub open spec fn all_lines(
    threads: Seq<&ResolvedThread>,
    range: Option<AnalysisRange>,
    focus: Option<Seq<char>>,
    filter: FrameNameFilter,
    short_names: bool,
    m: int,
) -> Seq<(Seq<char>, u32)>
    decreases m,
{
    if m <= 0 {
        Seq::empty()
    } else {
        let thread = *threads[m - 1];
        all_lines(threads, range, focus, filter, short_names, m - 1) + thread_lines(
            thread,
            range,
            focus,
            filter,
            short_names,
            thread.samples@.len() as int,
        )
    }
}

/// The weight of all lines with a text.
pub open spec fn weight_at(lines: Seq<(Seq<char>, u32)>, line: Seq<char>) -> nat
    decreases lines.len(),
{
    if lines.len() == 0 {
        0
    } else {
        weight_at(lines.drop_last(), line) + if lines.last().0 == line {
            lines.last().1 as nat
        } else {
            0nat
        }
    }
}

/// A line of a flamegraph under construction.
pub struct FlameStack {
    line: String,
    count: u64,
}

/// A line and its weight.
pub struct FlameHit {
    line: String,
    weight: u32,
}

impl Keyed for FlameStack {
    type Model = (Seq<char>, u64);

    type Key = Seq<char>;

    closed spec fn model(&self) -> (Seq<char>, u64) {
        (self.line@, self.count)
    }

    open spec fn key(m: (Seq<char>, u64)) -> Seq<char> {
        m.0
    }

    open spec fn bucket(k: Seq<char>) -> u64 {
        fnv::of_text(k)
    }
}

impl Group<FlameHit> for FlameStack {
    type Item = (Seq<char>, u32);

    closed spec fn seen(item: FlameHit) -> (Seq<char>, u32) {
        (item.line@, item.weight)
    }

    open spec fn key_of(item: (Seq<char>, u32)) -> Seq<char> {
        item.0
    }

    open spec fn fresh(item: (Seq<char>, u32)) -> (Seq<char>, u64) {
        (item.0, item.1 as u64)
    }

    open spec fn grown(m: (Seq<char>, u64), item: (Seq<char>, u32)) -> (Seq<char>, u64) {
        (m.0, units::capped(m.1 + item.1))
    }

    proof fn keeps_key(m: (Seq<char>, u64), item: (Seq<char>, u32)) {
    }

    fn hash(item: &FlameHit) -> (r: u64) {
        fnv::hash_text(item.line.as_str())
    }

    fn accepts(&self, item: &FlameHit) -> (r: bool) {
        self.line == item.line
    }

    fn start(item: &FlameHit) -> (r: Self) {
        FlameStack { line: item.line.clone(), count: item.weight as u64 }
    }

    fn absorb(&mut self, item: &FlameHit) {
        self.count = units::capped_add(self.count, item.weight as u64);
    }
}

/// The distinct lines with their weights, the heaviest first, equal ones in
/// the order in which they first appear.
pub open spec fn flame_rows(lines: Seq<(Seq<char>, u32)>) -> Seq<(Seq<char>, u64)> {
    rank::ranked(groups::grouped::<FlameHit, FlameStack>(lines), by_count())
}

/// Rows rank by falling weight.
pub open spec fn by_count() -> spec_fn((Seq<char>, u64)) -> Seq<i128> {
    |row: (Seq<char>, u64)| rank::descending(row.1 as int)
}

/// The first `n` rows as text, one line each.
pub open spec fn rows_text(rows: Seq<(Seq<char>, u64)>, n: int) -> Seq<char>
    decreases n,
{
    if n <= 0 {
        Seq::empty()
    } else {
        rows_text(rows, n - 1) + (rows[n - 1].0 + " "@ + text::decimal(rows[n - 1].1 as int)
            + "\n"@)
    }
}

/// The line of a stack, if it has one.
fn line_of(
    stack: &ResolvedStack,
    focus_function: Option<&str>,
    include_frame: &FrameNameFilter,
    short_names: bool,
) -> (r: Option<String>)
    ensures
        match r {
            Some(line) => stack_line(
                stack.names(),
                text::opt_str(focus_function),
                *include_frame,
                short_names,
            ) == Some(line@),
            None => stack_line(
                stack.names(),
                text::opt_str(focus_function),
                *include_frame,
                short_names,
            ) is None,
        },
{
    let ghost names = stack.names();
    let ghost focus = text::opt_str(focus_function);
    let from: usize = match focus_function {
        Some(function) => match call_tree::function_index(stack, function) {
            Some(i) => i,
            None => {
                return None;
            },
        },
        None => 0,
    };
    let mut shown: Vec<String> = Vec::new();
    let mut k: usize = from;
    assert(text::views(shown@) =~= shown_names(
        names,
        focus,
        *include_frame,
        short_names,
        from as int,
        from as int,
    ));
    while k < stack.len()
        invariant
            from <= k <= stack.frames().len(),
            names == stack.names(),
            focus == text::opt_str(focus_function),
            text::views(shown@) == shown_names(
                names,
                focus,
                *include_frame,
                short_names,
                from as int,
                k as int,
            ),
        decreases stack.frames().len() - k,
    {
        let name = stack.frame(k).function_name.as_str();
        let focused: bool = match focus_function {
            Some(function) => text::text_eq(function, name),
            None => false,
        };
        if focused || include_frame.includes(name) {
            let ghost before = shown@;
            let label = if short_names {
                symbols::compact_function_name(name)
            } else {
                name.to_string()
            };
            shown.push(label);
            assert(text::views(shown@) =~= text::views(before).push(label@));
        }
        k += 1;
    }
    let line = text::join_text(&shown, ";");
    if line.as_str().is_empty() {
        None
    } else {
        Some(line)
    }
}

/// The collapsed stacks of the threads: one line per distinct stack with its
/// weight, the heaviest first. With a focused function a stack begins at its
/// outermost frame of that function, and stacks without it are left out.
pub fn collapsed_stacks_for_threads_with_options(
    threads: &Vec<&ResolvedThread>,
    range: Option<&AnalysisRange>,
    focus_function: Option<&str>,
    include_frame: &FrameNameFilter,
    short_names: bool,
) -> (r: String)
    ensures
        ({
            let rows = flame_rows(
                all_lines(
                    threads@,
                    samples::window_of(range),
                    text::opt_str(focus_function),
                    *include_frame,
                    short_names,
                    threads@.len() as int,
                ),
            );
            r@ == rows_text(rows, rows.len() as int)
        }),
{
    let ghost window = samples::window_of(range);
    let ghost focus = text::opt_str(focus_function);
    let mut stacks: Groups<FlameStack> = Groups::new();
    let ghost mut lines: Seq<(Seq<char>, u32)> = Seq::empty();
    let mut m: usize = 0;
    while m < threads.len()
        invariant
            m <= threads@.len(),
            window == samples::window_of(range),
            focus == text::opt_str(focus_function),
            lines == all_lines(threads@, window, focus, *include_frame, short_names, m as int),
            stacks.well_formed(),
            stacks@ == groups::grouped::<FlameHit, FlameStack>(lines),
        decreases threads@.len() - m,
    {
        let thread: &ResolvedThread = threads[m];
        let ghost base = lines;
        let mut i: usize = 0;
        assert(base + thread_lines(*thread, window, focus, *include_frame, short_names, 0) =~= base);
        while i < thread.samples.len()
            invariant
                i <= thread.samples@.len(),
                window == samples::window_of(range),
                focus == text::opt_str(focus_function),
                lines == base + thread_lines(
                    *thread,
                    window,
                    focus,
                    *include_frame,
                    short_names,
                    i as int,
                ),
                stacks.well_formed(),
                stacks@ == groups::grouped::<FlameHit, FlameStack>(lines),
            decreases thread.samples@.len() - i,
        {
            let sample = &thread.samples[i];
            if samples::in_window(range, sample) {
                if let Some(line) = line_of(
                    &sample.stack,
                    focus_function,
                    include_frame,
                    short_names,
                ) {
                    let hit = FlameHit { line, weight: samples::sample_weight(sample) };
                    stacks.add(&hit);
                    proof {
                        let item = (hit.line@, hit.weight);
                        let next = lines.push(item);
                        assert(next.drop_last() =~= lines);
                        lines = next;
                        assert(lines =~= base + thread_lines(
                            *thread,
                            window,
                            focus,
                            *include_frame,
                            short_names,
                            i + 1,
                        ));
                    }
                }
            }
            i += 1;
        }
        m += 1;
    }
    let ghost all = stacks@;
    let stacks = stacks.finish();
    let mut keys: Vec<Vec<i128>> = Vec::new();
    let mut i: usize = 0;
    while i < stacks.len()
        invariant
            i <= stacks@.len(),
            all == groups::models(stacks@),
            keys@.len() == i,
            forall|k: int| 0 <= k < i ==> #[trigger] keys@[k]@ == by_count()(all[k]),
        decreases stacks@.len() - i,
    {
        let mut key: Vec<i128> = Vec::new();
        rank::push_descending(&mut key, stacks[i].count as u128);
        assert(key@ =~= by_count()(all[i as int]));
        keys.push(key);
        i += 1;
    }
    let order = rank::rank(&keys);
    let ghost rows = flame_rows(lines);
    proof {
        assert(rank::key_views(keys@) =~= rank::keys_of(all, by_count()));
        rank::lemma_ranked(all, by_count(), rank::as_ints(order@));
    }
    let mut output = String::new();
    let mut t: usize = 0;
    while t < order.len()
        invariant
            t <= order@.len() == stacks@.len(),
            all == groups::models(stacks@),
            rows.len() == order@.len(),
            forall|k: int|
                0 <= k < order@.len() ==> #[trigger] order@[k] < stacks@.len() && rows[k]
                    == all[order@[k] as int],
            output@ == rows_text(rows, t as int),
        decreases order@.len() - t,
    {
        let ghost before = output@;
        let stack = &stacks[order[t]];
        text::push_text(&mut output, stack.line.as_str());
        text::push_text(&mut output, " ");
        text::push_decimal(&mut output, stack.count as u128);
        text::push_text(&mut output, "\n");
        assert(output@ =~= before + (rows[t as int].0 + " "@ + text::decimal(rows[t as int].1 as int)
            + "\n"@));
        t += 1;
    }
    output
}

/// A line of the flamegraph weighs what all stacks with that line weigh, and
/// every line that some stack has appears once.
pub proof fn law_line_weights(lines: Seq<(Seq<char>, u32)>, line: Seq<char>)
    ensures
        match groups::group_of::<FlameHit, FlameStack>(lines, line) {
            Some(row) => row == (line, units::capped(weight_at(lines, line) as int)),
            None => weight_at(lines, line) == 0 && forall|i: int|
                0 <= i < lines.len() ==> (#[trigger] lines[i]).0 != line,
        },
        groups::distinct::<FlameStack>(groups::grouped::<FlameHit, FlameStack>(lines)),
    decreases lines.len(),
{
    groups::lemma_grouped::<FlameHit, FlameStack>(lines);
    if lines.len() > 0 {
        let rest = lines.drop_last();
        law_line_weights(rest, line);
        assert forall|i: int| 0 <= i < lines.len() && groups::group_of::<FlameHit, FlameStack>(
            lines,
            line,
        ) is None implies (#[trigger] lines[i]).0 != line by {
            if i < rest.len() {
                assert(rest[i] == lines[i]);
            }
        }
    }
}

/// A line shows only names that pass the filter, and the focused function.
pub proof fn law_filtered_frames_are_hidden(
    names: Seq<Seq<char>>,
    focus: Option<Seq<char>>,
    filter: FrameNameFilter,
    from: int,
    to: int,
)
    ensures
        forall|i: int|
            0 <= i < shown_names(names, focus, filter, false, from, to).len() ==> frame_shown(
                #[trigger] shown_names(names, focus, filter, false, from, to)[i],
                focus,
                filter,
            ),
    decreases to - from,
{
    if from < to {
        law_filtered_frames_are_hidden(names, focus, filter, from, to - 1);
        let before = shown_names(names, focus, filter, false, from, to - 1);
        let after = shown_names(names, focus, filter, false, from, to);
        assert forall|i: int| 0 <= i < after.len() implies frame_shown(
            #[trigger] after[i],
            focus,
            filter,
        ) by {
            if i < before.len() {
                assert(after[i] == before[i]);
            }
        }
    }
}

}
