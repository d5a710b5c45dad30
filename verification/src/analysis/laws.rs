//! What holds of the analyses as a whole.
use crate::analysis::call_tree;
use crate::analysis::call_tree::{CallTreeNode, CallerRelationship, StartFacts, Visit};
use crate::analysis::flamegraph;
use crate::analysis::flamegraph::{FlameHit, FlameStack};
use crate::analysis::functions;
use crate::analysis::functions::FunctionStats;
use crate::analysis::samples;
use crate::analysis::samples::AnalysisRange;
use crate::analysis::source;
use crate::analysis::source::{
    ExclusiveInstructionBreakdown, ExclusiveSourceBreakdown, InstructionRow, LineGroup,
    SourceLineAccum,
};
use crate::analysis::symbols;
use crate::filters::FrameNameFilter;
use crate::groups;
use crate::groups::{Group, Keyed};
use crate::profile::dwarf;
use crate::profile::dwarf::DwarfAddressInfo;
use crate::profile::resolved::{
    ResolvedFrame, ResolvedProfile, ResolvedSample, ResolvedThread, SampleWeightType,
};
use crate::profile::symbols::SourcePoint;
use crate::rank;
use crate::sums;
use crate::text;
use crate::units;
use crate::units::{Ratio, TimeValue};
use std::sync::Arc;
use vstd::prelude::*;
use vstd::utf8::*;

verus! {

proof fn lemma_last_named(s: Seq<SourcePoint>, name: Seq<char>, n: int)
    requires
        0 <= n <= s.len(),
    ensures
        match source::last_named(s, name, n) {
            Some(i) => 0 <= i < n && s[i].function_name == name && forall|j: int|
                i < j < n ==> (#[trigger] s[j]).function_name != name,
            None => forall|j: int| 0 <= j < n ==> (#[trigger] s[j]).function_name != name,
        },
    decreases n,
{
    if n > 0 {
        lemma_last_named(s, name, n - 1);
    }
}

/// Once debug data is applied to an instruction, the source position of the
/// function is that of the innermost frame with its name, never that of a call
/// inlined below it. Where no frame has its name but the symbol has, it is that
/// of the outermost frame, and else what it was. The frames are taken over as
/// they are, what the data knows of the symbol comes before what was known, and
/// nothing else changes.
pub proof fn law_debug_data_locates_the_function(
    before: ExclusiveInstructionBreakdown,
    after: ExclusiveInstructionBreakdown,
    function: Seq<char>,
    info: DwarfAddressInfo,
)
    requires
        after.model() == source::with_facts(before.model(), function, source::facts(info)),
    ensures
        forall|i: int|
            #![trigger info.frames@[i]]
            0 <= i < info.frames@.len() && info.frames@[i].function_name@ == function && (forall|
                j: int,
            |
                i < j < info.frames@.len() ==> (#[trigger] info.frames@[j]).function_name@
                    != function) ==> text::opt(after.focus_file) == text::opt(info.frames@[i].file)
                && after.focus_line == info.frames@[i].line,
        info.frames@.len() > 0 && (forall|j: int|
            0 <= j < info.frames@.len() ==> (#[trigger] info.frames@[j]).function_name@
                != function) ==> if text::opt(before.symbol_name) == Some(function) || text::opt(
            info.symbol_name,
        ) == Some(function) {
            text::opt(after.focus_file) == text::opt(info.frames@[0].file) && after.focus_line
                == info.frames@[0].line
        } else {
            text::opt(after.focus_file) == text::opt(before.focus_file) && after.focus_line
                == before.focus_line
        },
        info.frames@.len() > 0 ==> after.source_origin@ == "dwarf"@ && after.inline_frames@.len()
            == info.frames@.len() && forall|i: int|
            #![trigger after.inline_frames@[i]]
            0 <= i < info.frames@.len() ==> after.inline_frames@[i].function_name@
                == info.frames@[i].function_name@ && text::opt(after.inline_frames@[i].file)
                == text::opt(info.frames@[i].file) && after.inline_frames@[i].line
                == info.frames@[i].line,
        info.frames@.len() == 0 ==> text::opt(after.focus_file) == text::opt(before.focus_file)
            && after.focus_line == before.focus_line && after.source_origin@
            == before.source_origin@ && source::points(after.inline_frames@) == source::points(
            before.inline_frames@,
        ),
        text::opt(after.symbol_name) == if info.symbol_name is Some {
            text::opt(info.symbol_name)
        } else {
            text::opt(before.symbol_name)
        },
        after.symbol_start_address == if info.symbol_start_address is Some {
            info.symbol_start_address
        } else {
            before.symbol_start_address
        },
        after.sample_count == before.sample_count,
        after.cpu_sample_time_ms == before.cpu_sample_time_ms,
        after.address == before.address,
        after.library_index == before.library_index,
        text::opt(after.library) == text::opt(before.library),
        text::opt(after.library_debug_id) == text::opt(before.library_debug_id),
        after.symbol_size == before.symbol_size,
{
    let frames = dwarf::points(info.frames@);
    let shown = source::points(after.inline_frames@);
    lemma_last_named(frames, function, frames.len() as int);
    assert(frames.len() == info.frames@.len());
    assert forall|i: int| 0 <= i < info.frames@.len() implies frames[i].function_name == (
    #[trigger] info.frames@[i]).function_name@ && frames[i].file == text::opt(info.frames@[i].file)
        && frames[i].line == info.frames@[i].line by {}
    if info.frames@.len() > 0 {
        assert(shown == frames);
        assert forall|i: int|
            #![trigger after.inline_frames@[i]]
            0 <= i < info.frames@.len() implies after.inline_frames@[i].function_name@
            == info.frames@[i].function_name@ && text::opt(after.inline_frames@[i].file)
            == text::opt(info.frames@[i].file) && after.inline_frames@[i].line
            == info.frames@[i].line by {
            assert(shown[i] == after.inline_frames@[i].point());
            assert(frames[i] == info.frames@[i].point());
        }
    }
    match source::last_named(frames, function, frames.len() as int) {
        Some(k) => {
            assert(info.frames@[k].function_name@ == function);
        },
        None => {},
    }
}

/// A sample of a function as its leaf says where in the source it stands: at
/// the innermost frame of its chain of inlined calls that has the function's
/// name, where that frame knows a place, and else where the leaf says.
pub proof fn law_samples_locate_the_function(
    frames: Seq<Arc<ResolvedFrame>>,
    function: Seq<char>,
    time: u64,
    i: int,
)
    requires
        frames.len() > 0,
        0 <= i < source::leaf_row(frames, function, time).inline_frames.len(),
        source::leaf_row(frames, function, time).inline_frames[i].function_name == function,
        forall|j: int|
            i < j < source::leaf_row(frames, function, time).inline_frames.len() ==> (
            #[trigger] source::leaf_row(frames, function, time).inline_frames[j]).function_name
                != function,
    ensures
        ({
            let row = source::leaf_row(frames, function, time);
            let at = row.inline_frames[i];
            let leaf = *frames[frames.len() - 1];
            &&& row.focus_file == if at.file is Some {
                at.file
            } else {
                text::opt(leaf.file)
            }
            &&& row.focus_line == if at.line is Some {
                at.line
            } else {
                leaf.line
            }
            &&& row.sample_count == 1
            &&& row.cpu_sample_time == time
        }),
{
    let row = source::leaf_row(frames, function, time);
    lemma_last_named(row.inline_frames, function, row.inline_frames.len() as int);
}

proof fn lemma_run_at_end(frames: Seq<Arc<ResolvedFrame>>, n: int)
    requires
        0 <= n <= frames.len(),
    ensures
        ({
            let at = frames.last().instruction->0;
            let k = source::run_at_end(frames, at, n) as int;
            &&& k <= n
            &&& forall|i: int|
                n - k <= i < n ==> source::same_instruction(*#[trigger] frames[i], at)
            &&& n - k > 0 ==> !source::same_instruction(*frames[n - k - 1], at)
        }),
    decreases n,
{
    if n > 0 {
        lemma_run_at_end(frames, n - 1);
    }
}

/// The chain of inlined calls at a leaf without known inline frames of its
/// symbol is the longest run of frames at the end of the stack that execute
/// the leaf's instruction, or the leaf alone where it has none; the leaf comes
/// last.
pub proof fn law_inlined_frames_share_the_instruction(frames: Seq<Arc<ResolvedFrame>>)
    requires
        frames.len() > 0,
        source::symbol_of(*frames.last()) matches Some(symbol) ==> symbol.frames@.len() == 0,
    ensures
        ({
            let chain = source::inline_points(frames);
            let n = frames.len() as int;
            let k = chain.len() as int;
            let leaf = *frames.last();
            &&& 1 <= k <= n
            &&& forall|i: int|
                #![trigger chain[i]]
                0 <= i < k ==> chain[i].function_name == frames[n - k + i].function_name@
                    && chain[i].file == text::opt(frames[n - k + i].file) && chain[i].line
                    == frames[n - k + i].line
            &&& forall|i: int|
                n - k <= i < n - 1 ==> (#[trigger] frames[i]).instruction is Some
                    && leaf.instruction is Some && frames[i].instruction->0.address
                    == leaf.instruction->0.address
            &&& k < n ==> leaf.instruction is None || frames[n - k - 1].instruction is None
                || frames[n - k - 1].instruction->0.address != leaf.instruction->0.address
                || text::opt(frames[n - k - 1].instruction->0.library_debug_id) != text::opt(
                leaf.instruction->0.library_debug_id,
            )
        }),
{
    let n = frames.len() as int;
    lemma_run_at_end(frames, n);
    assert(frames.last().instruction is Some ==> source::same_instruction(
        *frames[n - 1],
        frames.last().instruction->0,
    ));
}

proof fn lemma_kept_positions(
    names: Seq<Seq<char>>,
    filter: FrameNameFilter,
    from: int,
    to: int,
) -> (at: Seq<int>)
    requires
        0 <= from <= to <= names.len(),
    ensures
        at.len() == call_tree::kept(names, filter, from, to).len(),
        forall|i: int|
            0 <= i < at.len() ==> from <= #[trigger] at[i] < to && filter.passes(names[at[i]])
                && call_tree::kept(names, filter, from, to)[i] == names[at[i]],
        forall|i: int, j: int|
            #![trigger at[i], at[j]]
            0 <= i < j < at.len() ==> at[i] < at[j],
        forall|k: int|
            #![trigger names[k]]
            from <= k < to && filter.passes(names[k]) ==> at.contains(k),
    decreases to - from,
{
    if to == from {
        Seq::empty()
    } else {
        let before = lemma_kept_positions(names, filter, from, to - 1);
        if filter.passes(names[to - 1]) {
            let at = before.push(to - 1);
            assert forall|k: int|
                #![trigger names[k]]
                from <= k < to && filter.passes(names[k]) implies at.contains(k) by {
                if k < to - 1 {
                    let i = choose|i: int| 0 <= i < before.len() && before[i] == k;
                    assert(at[i] == k);
                } else {
                    assert(at[before.len() as int] == k);
                }
            }
            at
        } else {
            before
        }
    }
}

/// The path that a stack is charged to is made of the frames from the first
/// one on that pass the filter, in their order. Every such frame is on it,
/// whatever was left out before, unless the limit is reached by frames that
/// come before it.
pub proof fn law_passing_frames_are_charged(
    names: Seq<Seq<char>>,
    filter: FrameNameFilter,
    from: int,
    limit: int,
)
    requires
        0 <= from <= names.len(),
        0 <= limit,
    ensures
        exists|at: Seq<int>|
            #![trigger at.len()]
            {
                let path = call_tree::charged_path(names, filter, from, limit);
                &&& at.len() == path.len()
                &&& at.len() <= limit
                &&& forall|i: int|
                    0 <= i < at.len() ==> from <= #[trigger] at[i] < names.len() && filter.passes(
                        names[at[i]],
                    ) && path[i] == names[at[i]]
                &&& forall|i: int, j: int|
                    #![trigger at[i], at[j]]
                    0 <= i < j < at.len() ==> at[i] < at[j]
                &&& forall|k: int|
                    #![trigger names[k]]
                    from <= k < names.len() && filter.passes(names[k]) ==> at.contains(k) || (
                    at.len() == limit && forall|i: int|
                        0 <= i < limit ==> #[trigger] at[i] < k)
            },
{
    let all = lemma_kept_positions(names, filter, from, names.len() as int);
    let path = call_tree::charged_path(names, filter, from, limit);
    let at = if all.len() <= limit {
        all
    } else {
        all.take(limit)
    };
    assert(at.len() == path.len());
    assert forall|i: int| 0 <= i < at.len() implies from <= #[trigger] at[i] < names.len()
        && filter.passes(names[at[i]]) && path[i] == names[at[i]] by {
        assert(at[i] == all[i]);
    }
    assert forall|k: int|
        #![trigger names[k]]
        from <= k < names.len() && filter.passes(names[k]) implies at.contains(k) || (at.len()
        == limit && forall|i: int| 0 <= i < limit ==> #[trigger] at[i] < k) by {
        let q = choose|q: int| 0 <= q < all.len() && all[q] == k;
        if q < at.len() {
            assert(at[q] == k);
        } else {
            assert forall|i: int| 0 <= i < limit implies #[trigger] at[i] < k by {
                assert(at[i] == all[i]);
                assert(all[i] < all[q]);
            }
        }
    }
}

proof fn lemma_shown_positions(
    names: Seq<Seq<char>>,
    focus: Option<Seq<char>>,
    filter: FrameNameFilter,
    short_names: bool,
    from: int,
    to: int,
) -> (at: Seq<int>)
    requires
        0 <= from <= to <= names.len(),
    ensures
        at.len() == flamegraph::shown_names(names, focus, filter, short_names, from, to).len(),
        forall|i: int|
            0 <= i < at.len() ==> from <= #[trigger] at[i] < to && (focus == Some(names[at[i]])
                || filter.passes(names[at[i]])) && flamegraph::shown_names(
                names,
                focus,
                filter,
                short_names,
                from,
                to,
            )[i] == if short_names {
                symbols::compact_of(names[at[i]])
            } else {
                names[at[i]]
            },
        forall|i: int, j: int|
            #![trigger at[i], at[j]]
            0 <= i < j < at.len() ==> at[i] < at[j],
        forall|k: int|
            #![trigger names[k]]
            from <= k < to && (focus == Some(names[k]) || filter.passes(names[k])) ==> at.contains(
                k,
            ),
    decreases to - from,
{
    if to == from {
        Seq::empty()
    } else {
        let before = lemma_shown_positions(names, focus, filter, short_names, from, to - 1);
        if flamegraph::frame_shown(names[to - 1], focus, filter) {
            let at = before.push(to - 1);
            assert forall|k: int|
                #![trigger names[k]]
                from <= k < to && (focus == Some(names[k]) || filter.passes(
                    names[k],
                )) implies at.contains(k) by {
                if k < to - 1 {
                    let i = choose|i: int| 0 <= i < before.len() && before[i] == k;
                    assert(at[i] == k);
                } else {
                    assert(at[before.len() as int] == k);
                }
            }
            at
        } else {
            before
        }
    }
}

/// A line of a flamegraph shows, from the first frame on and in their order,
/// every frame that passes the filter or is the focused function, and no other.
pub proof fn law_passing_frames_are_shown(
    names: Seq<Seq<char>>,
    focus: Option<Seq<char>>,
    filter: FrameNameFilter,
    short_names: bool,
    from: int,
)
    requires
        0 <= from <= names.len(),
    ensures
        exists|at: Seq<int>|
            #![trigger at.len()]
            {
                let shown = flamegraph::shown_names(
                    names,
                    focus,
                    filter,
                    short_names,
                    from,
                    names.len() as int,
                );
                &&& at.len() == shown.len()
                &&& forall|i: int|
                    0 <= i < at.len() ==> from <= #[trigger] at[i] < names.len() && shown[i]
                        == if short_names {
                        symbols::compact_of(names[at[i]])
                    } else {
                        names[at[i]]
                    }
                &&& forall|i: int, j: int|
                    #![trigger at[i], at[j]]
                    0 <= i < j < at.len() ==> at[i] < at[j]
                &&& forall|k: int|
                    #![trigger names[k]]
                    from <= k < names.len() ==> (at.contains(k) <==> focus == Some(names[k])
                        || filter.passes(names[k]))
            },
{
    let at = lemma_shown_positions(names, focus, filter, short_names, from, names.len() as int);
    assert(at.len() == at.len());
}

/// The lines of a flamegraph fall in weight. Each has the weight of all samples
/// with that line, and the line of every sample is there once.
pub proof fn law_heaviest_lines_lead(lines: Seq<(Seq<char>, u32)>)
    ensures
        ({
            let rows = flamegraph::flame_rows(lines);
            &&& forall|i: int, j: int|
                #![trigger rows[i], rows[j]]
                0 <= i < j < rows.len() ==> rows[i].1 >= rows[j].1
            &&& forall|i: int|
                #![trigger rows[i]]
                0 <= i < rows.len() ==> rows[i].1 == units::capped(
                    sums::sum_of(
                        lines,
                        |line: (Seq<char>, u32)|
                            if line.0 == rows[i].0 {
                                line.1 as nat
                            } else {
                                0
                            },
                    ) as int,
                )
            &&& forall|k: int|
                #![trigger lines[k]]
                0 <= k < lines.len() ==> exists|i: int|
                    0 <= i < rows.len() && (#[trigger] rows[i]).0 == lines[k].0
        }),
{
    let all = groups::grouped::<FlameHit, FlameStack>(lines);
    let rows = flamegraph::flame_rows(lines);
    let heavier = |a: (Seq<char>, u64), b: (Seq<char>, u64)| a.1 > b.1;
    assert forall|i: int, j: int|
        #![trigger all[i], all[j]]
        0 <= i < all.len() && 0 <= j < all.len() && heavier(all[i], all[j]) implies rank::lex_before(
        flamegraph::by_count()(all[i]),
        flamegraph::by_count()(all[j]),
    ) by {
        rank::lemma_descending(all[i].1 as int, all[j].1 as int);
    }
    rank::lemma_ranked_prefers(all, flamegraph::by_count(), heavier);
    groups::lemma_grouped::<FlameHit, FlameStack>(lines);
    assert forall|i: int, j: int|
        #![trigger rows[i], rows[j]]
        0 <= i < j < rows.len() implies rows[i].1 >= rows[j].1 by {
        assert(!heavier(rows[j], rows[i]));
    }
    assert forall|i: int|
        #![trigger rows[i]]
        0 <= i < rows.len() implies rows[i].1 == units::capped(
        sums::sum_of(
            lines,
            |line: (Seq<char>, u32)|
                if line.0 == rows[i].0 {
                    line.1 as nat
                } else {
                    0
                },
        ) as int,
    ) by {
        assert(all.contains(rows[i]));
        let p = choose|p: int| 0 <= p < all.len() && all[p] == rows[i];
        assert(<FlameStack as Keyed>::key(all[p]) == rows[i].0);
        groups::lemma_group_sum::<FlameHit, FlameStack>(
            lines,
            rows[i].0,
            |line: (Seq<char>, u32)| line.1 as nat,
            |row: (Seq<char>, u64)| row.1 as nat,
            |line: (Seq<char>, u32)|
                if line.0 == rows[i].0 {
                    line.1 as nat
                } else {
                    0
                },
            u64::MAX as nat,
        );
    }
    assert forall|k: int|
        #![trigger lines[k]]
        0 <= k < lines.len() implies exists|i: int|
        0 <= i < rows.len() && (#[trigger] rows[i]).0 == lines[k].0 by {
        let p = groups::lemma_item_has_group::<FlameHit, FlameStack>(lines, k);
        assert(rows.contains(all[p]));
        let i = choose|i: int| 0 <= i < rows.len() && rows[i] == all[p];
        assert(<FlameStack as Keyed>::key(all[p]) == rows[i].0);
    }
}

/// A function stands in a stack where its outermost frame is: no frame further
/// out has its name, and where it is not found no frame has.
pub proof fn law_outermost_frame_is_found(names: Seq<Seq<char>>, name: Seq<char>)
    ensures
        match call_tree::first_named(names, name, 0) {
            Some(i) => 0 <= i < names.len() && names[i] == name && forall|k: int|
                0 <= k < i ==> #[trigger] names[k] != name,
            None => !names.contains(name),
        },
{
    lemma_first_named(names, name, 0);
}

proof fn lemma_first_named(names: Seq<Seq<char>>, name: Seq<char>, from: int)
    requires
        0 <= from,
    ensures
        match call_tree::first_named(names, name, from) {
            Some(i) => from <= i < names.len() && names[i] == name && forall|k: int|
                from <= k < i ==> #[trigger] names[k] != name,
            None => forall|k: int| from <= k < names.len() ==> #[trigger] names[k] != name,
        },
    decreases names.len() - from,
{
    if from < names.len() && names[from] != name {
        lemma_first_named(names, name, from + 1);
    }
}

/// A function is found under a caller at a frame of its own with the caller
/// above it: anywhere above, or right above where the caller must be immediate.
/// The leaf goes before all others, and else the outermost such frame. It is
/// not found exactly where no such frame is.
pub proof fn law_function_under_caller(
    names: Seq<Seq<char>>,
    function: Seq<char>,
    caller: Seq<char>,
    relationship: CallerRelationship,
)
    ensures
        ({
            let at = call_tree::under_caller(names, function, caller, relationship);
            let last = names.len() - 1;
            &&& at matches Some(i) ==> 0 <= i <= last && names[i] == function && if relationship
                == CallerRelationship::Immediate {
                i > 0 && names[i - 1] == caller
            } else {
                exists|k: int| 0 <= k < i && names[k] == caller
            }
            &&& last > 0 && names[last] == function && names[last - 1] == caller ==> at == Some(last)
            &&& relationship == CallerRelationship::Ancestor && last >= 0 && names[last] == function
                && (exists|k: int| 0 <= k < last && names[k] == caller) ==> at == Some(last)
            &&& forall|i: int, k: int|
                #![trigger names[i], names[k]]
                0 <= k < i <= last && names[i] == function && names[k] == caller && (relationship
                    == CallerRelationship::Ancestor || k == i - 1) ==> at is Some && (at->0 <= i
                    || at->0 == last)
        }),
{
    let at = call_tree::under_caller(names, function, caller, relationship);
    let last = names.len() - 1;
    lemma_first_under_caller(names, function, caller, relationship, 0);
    assert forall|i: int, k: int|
        #![trigger names[i], names[k]]
        0 <= k < i <= last && names[i] == function && names[k] == caller && (relationship
            == CallerRelationship::Ancestor || k == i - 1) implies at is Some && (at->0 <= i
        || at->0 == last) by {
        assert(call_tree::has_caller(names, i, caller, relationship));
        assert(call_tree::under_caller_at(names, function, caller, relationship, i));
    }
    if last > 0 && names[last] == function && names[last - 1] == caller {
        assert(call_tree::has_caller(names, last, caller, relationship));
    }
}

proof fn lemma_first_under_caller(
    names: Seq<Seq<char>>,
    function: Seq<char>,
    caller: Seq<char>,
    relationship: CallerRelationship,
    from: int,
)
    requires
        0 <= from,
    ensures
        match call_tree::first_under_caller(names, function, caller, relationship, from) {
            Some(i) => from <= i < names.len() && call_tree::under_caller_at(
                names,
                function,
                caller,
                relationship,
                i,
            ) && forall|k: int|
                from <= k < i ==> !#[trigger] call_tree::under_caller_at(
                    names,
                    function,
                    caller,
                    relationship,
                    k,
                ),
            None => forall|k: int|
                from <= k < names.len() ==> !#[trigger] call_tree::under_caller_at(
                    names,
                    function,
                    caller,
                    relationship,
                    k,
                ),
        },
    decreases names.len() - from,
{
    if from < names.len() && !call_tree::under_caller_at(
        names,
        function,
        caller,
        relationship,
        from,
    ) {
        lemma_first_under_caller(names, function, caller, relationship, from + 1);
    }
}

/// A window that is not refused lies in the profile and starts no later than it
/// ends. A bound that lies in the profile is kept as it is, and one that is not
/// given is the start or the end of the profile.
pub proof fn law_windows_lie_in_the_profile(
    duration: u64,
    start: Option<TimeValue>,
    end: Option<TimeValue>,
)
    requires
        samples::window_error(duration, start, end) is None,
    ensures
        0 <= samples::window_start(start) <= samples::window_end(duration, end) <= duration,
        start is None ==> samples::window_start(start) == 0,
        end is None ==> samples::window_end(duration, end) == duration,
        start matches Some(TimeValue::Finite(t)) ==> (0 <= t <= duration
            ==> samples::window_start(start) == t) && (t < 0 ==> samples::window_start(start) == 0),
        end matches Some(TimeValue::Finite(t)) ==> (0 <= t <= duration ==> samples::window_end(
            duration,
            end,
        ) == t) && (t > duration ==> samples::window_end(duration, end) == duration),
{
}

/// A window is refused exactly where a bound is not finite, where it does not
/// end after it starts, or where it begins behind the profile or ends before it.
pub proof fn law_refused_windows(
    duration: u64,
    start: Option<TimeValue>,
    end: Option<TimeValue>,
)
    ensures
        samples::window_error(duration, start, end) is Some <==> start == Some(
            TimeValue::NotFinite,
        ) || end == Some(TimeValue::NotFinite) || (start matches Some(TimeValue::Finite(a))
            && end matches Some(TimeValue::Finite(b)) && b <= a) || (start matches Some(
            TimeValue::Finite(a),
        ) && a > duration) || (end matches Some(TimeValue::Finite(b)) && b < 0),
{
}

/// A window covers a time exactly where it lies, counted from the start of the
/// observation, neither before the window's start nor after its end.
pub proof fn law_windows_cover_their_bounds(range: AnalysisRange, time: i64)
    ensures
        range.covers(TimeValue::Finite(time)) <==> !(time - range.observed_start_time_ms
            < range.start_time_ms) && !(time - range.observed_start_time_ms > range.end_time_ms),
        !range.covers(TimeValue::NotFinite),
{
}

/// The time that a sample stands for does not depend on its weight's sign. It
/// is nothing without weight, and where it fits it is the interval, or a
/// millisecond of tracing, for each unit of weight; allocated bytes are no time,
/// and such a sample stands for one interval.
pub proof fn law_weights_scale_time(
    a: ResolvedSample,
    b: ResolvedSample,
    interval: u64,
)
    requires
        a.weight == -b.weight || a.weight == b.weight,
    ensures
        samples::time_of(SampleWeightType::Samples, a, interval) == samples::time_of(
            SampleWeightType::Samples,
            b,
            interval,
        ),
        a.weight == 0 ==> samples::time_of(SampleWeightType::Samples, a, interval) == 0,
        a.weight == 1 ==> samples::time_of(SampleWeightType::Samples, a, interval) == interval,
        a.weight >= 0 && interval * a.weight <= u64::MAX ==> samples::time_of(
            SampleWeightType::Samples,
            a,
            interval,
        ) == interval * a.weight,
        a.weight >= 0 && 1_000_000 * a.weight <= u64::MAX ==> samples::time_of(
            SampleWeightType::TracingMilliseconds,
            a,
            interval,
        ) == 1_000_000 * a.weight,
        samples::time_of(SampleWeightType::Bytes, a, interval) == interval,
{
    assert(a.weight == 0 ==> interval * samples::weight_of(a) == 0) by (nonlinear_arith)
        requires
            a.weight == 0 ==> samples::weight_of(a) == 0,
    ;
}

/// The wall time of a thread in a window is the time that the window shares
/// with the time from the thread's first sample to its last: it never exceeds
/// either, and where the window holds all samples it is all of that time.
pub proof fn law_wall_time(thread: ResolvedThread, range: AnalysisRange, i: int, j: int)
    requires
        0 <= i < thread.samples@.len(),
        0 <= j < thread.samples@.len(),
        range.start_time_ms <= range.end_time_ms,
        thread.samples@[i].timestamp_ms is Finite,
        thread.samples@[j].timestamp_ms is Finite,
        forall|k: int|
            0 <= k < thread.samples@.len() ==> ((#[trigger] thread.samples@[k].timestamp_ms)
                matches TimeValue::Finite(t) ==> thread.samples@[i].timestamp_ms->Finite_0 <= t
                <= thread.samples@[j].timestamp_ms->Finite_0),
    ensures
        ({
            let first = thread.samples@[i].timestamp_ms->Finite_0 - range.observed_start_time_ms;
            let last = thread.samples@[j].timestamp_ms->Finite_0 - range.observed_start_time_ms;
            let time = samples::wall_time(thread, Some(range));
            &&& time <= range.end_time_ms - range.start_time_ms
            &&& time <= last - first
            &&& range.start_time_ms <= first && last <= range.end_time_ms ==> time == last - first
            &&& first <= range.start_time_ms && range.end_time_ms <= last ==> time
                == range.end_time_ms - range.start_time_ms
            &&& last < range.start_time_ms || first > range.end_time_ms ==> time == 0
            &&& first <= range.start_time_ms <= last <= range.end_time_ms ==> time == last
                - range.start_time_ms
        }),
{
    let n = thread.samples@.len() as int;
    samples::lemma_time_bounds(thread.samples@, n);
    assert(thread.samples@[i].timestamp_ms is Finite);
    assert(thread.samples@[j].timestamp_ms is Finite);
    lemma_times_occur(thread.samples@, n);
}

proof fn lemma_times_occur(s: Seq<ResolvedSample>, n: int)
    requires
        0 <= n <= s.len(),
    ensures
        samples::earliest(s, n) matches Some(t) ==> exists|k: int|
            0 <= k < n && #[trigger] s[k].timestamp_ms == TimeValue::Finite(t),
        samples::latest(s, n) matches Some(t) ==> exists|k: int|
            0 <= k < n && #[trigger] s[k].timestamp_ms == TimeValue::Finite(t),
    decreases n,
{
    if n > 0 {
        lemma_times_occur(s, n - 1);
        assert(s[n - 1].timestamp_ms == s[n - 1].timestamp_ms);
    }
}

/// Where a stack lacks the focused function it has no line, and else its line
/// starts with the outermost frame of that function.
pub proof fn law_focused_lines_start_at_the_function(
    names: Seq<Seq<char>>,
    function: Seq<char>,
    filter: FrameNameFilter,
    short_names: bool,
)
    ensures
        !names.contains(function) ==> flamegraph::stack_line(
            names,
            Some(function),
            filter,
            short_names,
        ) is None,
        flamegraph::first_shown(names, Some(function)) matches Some(i) ==> 0 <= i < names.len()
            && names[i] == function && forall|k: int| 0 <= k < i ==> #[trigger] names[k] != function,
        flamegraph::first_shown(names, None) == Some(0int),
{
    lemma_first_named(names, function, 0);
}

/// The source lines of a function fall in time, then stand in the order of
/// their files and rise in line. Every instruction's file and line is there,
/// with no fewer samples and no less time than the instruction.
pub proof fn law_hottest_lines_lead(rows: Seq<InstructionRow>)
    ensures
        ({
            let lines = source::lines_of(rows);
            &&& forall|i: int, j: int|
                #![trigger lines[i], lines[j]]
                0 <= i < j < lines.len() ==> {
                    let a = lines[i];
                    let b = lines[j];
                    a.cpu_sample_time > b.cpu_sample_time || (a.cpu_sample_time
                        == b.cpu_sample_time && (a.file is Some && b.file is Some
                        ==> !rank::spelled_before(encode_utf8(b.file->0), encode_utf8(a.file->0)))
                        && (b.file is None ==> a.file is None) && (a.file == b.file && b.line is None
                        ==> a.line is None) && (a.file == b.file && a.line is Some && b.line is Some
                        ==> a.line->0 <= b.line->0))
                }
            &&& forall|k: int|
                #![trigger rows[k]]
                0 <= k < rows.len() ==> exists|i: int|
                    #![trigger lines[i]]
                    0 <= i < lines.len() && lines[i].file == rows[k].focus_file && lines[i].line
                        == rows[k].focus_line && lines[i].sample_count >= rows[k].sample_count
                        && lines[i].cpu_sample_time >= rows[k].cpu_sample_time
        }),
{
    let all = groups::grouped::<ExclusiveInstructionBreakdown, SourceLineAccum>(rows);
    let sorted = rank::ranked(all, source::by_line());
    let lines = source::lines_of(rows);
    let better = |x: LineGroup, y: LineGroup|
        {
            let a = x.row;
            let b = y.row;
            a.cpu_sample_time > b.cpu_sample_time || (a.cpu_sample_time == b.cpu_sample_time
                && comes_first(a.file, a.line, b.file, b.line))
        };
    assert forall|i: int, j: int|
        #![trigger all[i], all[j]]
        0 <= i < all.len() && 0 <= j < all.len() && better(all[i], all[j]) implies rank::lex_before(
        source::by_line()(all[i]),
        source::by_line()(all[j]),
    ) by {
        let a = all[i].row;
        let b = all[j].row;
        let u = rank::opt_textual(a.file) + rank::opt_ascending(source::opt_line(a.line));
        let v = rank::opt_textual(b.file) + rank::opt_ascending(source::opt_line(b.line));
        if a.cpu_sample_time == b.cpu_sample_time {
            lemma_place_leads(a.file, a.line, b.file, b.line);
        }
        rank::lemma_descending_leads(a.cpu_sample_time as int, b.cpu_sample_time as int, u, v);
        assert(source::by_line()(all[i]) =~= rank::descending(a.cpu_sample_time as int) + u);
        assert(source::by_line()(all[j]) =~= rank::descending(b.cpu_sample_time as int) + v);
    }
    rank::lemma_ranked_prefers(all, source::by_line(), better);
    assert forall|i: int, j: int|
        #![trigger lines[i], lines[j]]
        0 <= i < j < lines.len() implies {
        let a = lines[i];
        let b = lines[j];
        a.cpu_sample_time > b.cpu_sample_time || (a.cpu_sample_time == b.cpu_sample_time && (a.file
            is Some && b.file is Some ==> !rank::spelled_before(
            encode_utf8(b.file->0),
            encode_utf8(a.file->0),
        )) && (b.file is None ==> a.file is None) && (a.file == b.file && b.line is None ==> a.line
            is None) && (a.file == b.file && a.line is Some && b.line is Some ==> a.line->0
            <= b.line->0))
    } by {
        assert(lines[i] == sorted[i].row && lines[j] == sorted[j].row);
        assert(!better(sorted[j], sorted[i]));
    }
    assert forall|k: int|
        #![trigger rows[k]]
        0 <= k < rows.len() implies exists|i: int|
        #![trigger lines[i]]
        0 <= i < lines.len() && lines[i].file == rows[k].focus_file && lines[i].line
            == rows[k].focus_line && lines[i].sample_count >= rows[k].sample_count
            && lines[i].cpu_sample_time >= rows[k].cpu_sample_time by {
        let g = groups::lemma_item_has_group::<ExclusiveInstructionBreakdown, SourceLineAccum>(
            rows,
            k,
        );
        assert(sorted.contains(all[g]));
        let i = choose|i: int| 0 <= i < sorted.len() && sorted[i] == all[g];
        assert(lines[i] == all[g].row);
        assert(<SourceLineAccum as Keyed>::key(all[g]) == <SourceLineAccum as Group<
            ExclusiveInstructionBreakdown,
        >>::key_of(rows[k]));
        lemma_line_holds(rows, k, all[g]);
    }
}

spec fn comes_first(
    file: Option<Seq<char>>,
    line: Option<u32>,
    other_file: Option<Seq<char>>,
    other_line: Option<u32>,
) -> bool {
    (file is None && other_file is Some) || (file is Some && other_file is Some
        && rank::spelled_before(encode_utf8(file->0), encode_utf8(other_file->0))) || (file
        == other_file && ((line is None && other_line is Some) || (line is Some && other_line
        is Some && line->0 < other_line->0)))
}

proof fn lemma_place_leads(
    file: Option<Seq<char>>,
    line: Option<u32>,
    other_file: Option<Seq<char>>,
    other_line: Option<u32>,
)
    requires
        comes_first(file, line, other_file, other_line),
    ensures
        rank::lex_before(
            rank::opt_textual(file) + rank::opt_ascending(source::opt_line(line)),
            rank::opt_textual(other_file) + rank::opt_ascending(source::opt_line(other_line)),
        ),
{
    let none = Seq::<i128>::empty();
    let la = rank::opt_ascending(source::opt_line(line));
    let lb = rank::opt_ascending(source::opt_line(other_line));
    let na = if line is Some {
        rank::ascending(line->0 as int)
    } else {
        none
    };
    let nb = if other_line is Some {
        rank::ascending(other_line->0 as int)
    } else {
        none
    };
    if line is Some && other_line is Some {
        rank::lemma_ascending_leads(line->0 as int, other_line->0 as int, none, none);
        assert(na + none =~= na);
        assert(nb + none =~= nb);
    }
    let fa = if line is Some {
        1int
    } else {
        0
    };
    let fb = if other_line is Some {
        1int
    } else {
        0
    };
    rank::lemma_ascending_leads(fa, fb, na, nb);
    assert(la =~= rank::ascending(fa) + na);
    assert(lb =~= rank::ascending(fb) + nb);
    let ta = if file is Some {
        rank::textual(file->0) + la
    } else {
        la
    };
    let tb = if other_file is Some {
        rank::textual(other_file->0) + lb
    } else {
        lb
    };
    if file is Some && other_file is Some {
        rank::lemma_textual_leads(file->0, other_file->0, la, lb);
    }
    let ga = if file is Some {
        1int
    } else {
        0
    };
    let gb = if other_file is Some {
        1int
    } else {
        0
    };
    rank::lemma_ascending_leads(ga, gb, ta, tb);
    assert(rank::opt_textual(file) + la =~= rank::ascending(ga) + ta);
    assert(rank::opt_textual(other_file) + lb =~= rank::ascending(gb) + tb);
}

proof fn lemma_line_holds(rows: Seq<InstructionRow>, k: int, group: LineGroup)
    requires
        0 <= k < rows.len(),
        groups::grouped::<ExclusiveInstructionBreakdown, SourceLineAccum>(rows).contains(group),
        <SourceLineAccum as Keyed>::key(group) == <SourceLineAccum as Group<
            ExclusiveInstructionBreakdown,
        >>::key_of(rows[k]),
    ensures
        group.row.sample_count >= rows[k].sample_count,
        group.row.cpu_sample_time >= rows[k].cpu_sample_time,
{
    let all = groups::grouped::<ExclusiveInstructionBreakdown, SourceLineAccum>(rows);
    let key = <SourceLineAccum as Keyed>::key(group);
    let count = |row: InstructionRow|
        if <SourceLineAccum as Group<ExclusiveInstructionBreakdown>>::key_of(row) == key {
            row.sample_count as nat
        } else {
            0
        };
    let time = |row: InstructionRow|
        if <SourceLineAccum as Group<ExclusiveInstructionBreakdown>>::key_of(row) == key {
            row.cpu_sample_time as nat
        } else {
            0
        };
    groups::lemma_grouped::<ExclusiveInstructionBreakdown, SourceLineAccum>(rows);
    let g = choose|g: int| 0 <= g < all.len() && all[g] == group;
    assert(all[g] == group);
    groups::lemma_group_sum::<ExclusiveInstructionBreakdown, SourceLineAccum>(
        rows,
        key,
        |row: InstructionRow| row.sample_count as nat,
        |m: LineGroup| m.row.sample_count as nat,
        count,
        usize::MAX as nat,
    );
    groups::lemma_group_sum::<ExclusiveInstructionBreakdown, SourceLineAccum>(
        rows,
        key,
        |row: InstructionRow| row.cpu_sample_time as nat,
        |m: LineGroup| m.row.cpu_sample_time as nat,
        time,
        u64::MAX as nat,
    );
    lemma_part_of_sum(rows, count, k);
    lemma_part_of_sum(rows, time, k);
}

proof fn lemma_part_of_sum<T>(s: Seq<T>, f: spec_fn(T) -> nat, k: int)
    requires
        0 <= k < s.len(),
    ensures
        f(s[k]) <= sums::sum_of(s, f),
    decreases s.len(),
{
    if k < s.len() - 1 {
        lemma_part_of_sum(s.drop_last(), f, k);
    }
}

/// The instructions of a function fall in time, and those with the same time
/// rise in address, those without one first.
pub proof fn law_hottest_instructions_lead(
    b: ExclusiveSourceBreakdown,
    profile: ResolvedProfile,
    indices: Seq<usize>,
    range: AnalysisRange,
    function: Seq<char>,
)
    requires
        source::breaks_down(b, profile, indices, range, function),
    ensures
        forall|i: int, j: int|
            #![trigger b.instructions@[i], b.instructions@[j]]
            0 <= i < j < b.instructions@.len() ==> {
                let x = b.instructions@[i];
                let y = b.instructions@[j];
                x.cpu_sample_time_ms > y.cpu_sample_time_ms || (x.cpu_sample_time_ms
                    == y.cpu_sample_time_ms && (y.address is None ==> x.address is None) && (
                x.address is Some && y.address is Some ==> x.address->0 <= y.address->0))
            },
{
    let all = groups::grouped::<ExclusiveInstructionBreakdown, ExclusiveInstructionBreakdown>(
        source::scope_rows(profile, indices, range, function, indices.len() as int),
    );
    let key = source::by_instruction();
    let sorted = groups::models(b.instructions@);
    let none = Seq::<i128>::empty();
    let better = |x: InstructionRow, y: InstructionRow|
        x.cpu_sample_time > y.cpu_sample_time || (x.cpu_sample_time == y.cpu_sample_time && ((
        x.address is None && y.address is Some) || (x.address is Some && y.address is Some
            && x.address->0 < y.address->0)));
    assert forall|i: int, j: int|
        #![trigger all[i], all[j]]
        0 <= i < all.len() && 0 <= j < all.len() && better(all[i], all[j]) implies rank::lex_before(
        key(all[i]),
        key(all[j]),
    ) by {
        let x = all[i];
        let y = all[j];
        let u = rank::opt_ascending(rank::opt_int(x.address));
        let v = rank::opt_ascending(rank::opt_int(y.address));
        let nx = if x.address is Some {
            rank::ascending(x.address->0 as int)
        } else {
            none
        };
        let ny = if y.address is Some {
            rank::ascending(y.address->0 as int)
        } else {
            none
        };
        if x.address is Some && y.address is Some {
            rank::lemma_ascending_leads(x.address->0 as int, y.address->0 as int, none, none);
            assert(nx + none =~= nx);
            assert(ny + none =~= ny);
        }
        let fx = if x.address is Some {
            1int
        } else {
            0
        };
        let fy = if y.address is Some {
            1int
        } else {
            0
        };
        rank::lemma_ascending_leads(fx, fy, nx, ny);
        assert(u =~= rank::ascending(fx) + nx);
        assert(v =~= rank::ascending(fy) + ny);
        rank::lemma_descending_leads(x.cpu_sample_time as int, y.cpu_sample_time as int, u, v);
    }
    rank::lemma_ranked_prefers(all, key, better);
    assert forall|i: int, j: int|
        #![trigger b.instructions@[i], b.instructions@[j]]
        0 <= i < j < b.instructions@.len() implies !better(
        b.instructions@[j].model(),
        b.instructions@[i].model(),
    ) by {
        assert(sorted[i] == b.instructions@[i].model());
        assert(sorted[j] == b.instructions@[j].model());
        assert(!better(sorted[j], sorted[i]));
    }
}

/// A function stands in its source where the first counted sample that holds
/// it says: at the leaf where the leaf is the function, and else at its
/// outermost frame.
pub proof fn law_first_sample_places_a_function(
    rows: Seq<FunctionStats>,
    thread: ResolvedThread,
    interval: u64,
    range: Option<AnalysisRange>,
    i: int,
    k: int,
    at: int,
)
    requires
        functions::is_function_table(rows, thread, interval, range),
        0 <= i < rows.len(),
        0 <= k < thread.samples@.len(),
        samples::counts(range, thread.samples@[k]),
        forall|j: int|
            0 <= j < k && samples::counts(range, #[trigger] thread.samples@[j])
                ==> !thread.samples@[j].stack.names().contains(rows[i].name@),
        0 <= at < thread.samples@[k].stack.names().len(),
        thread.samples@[k].stack.names()[at] == rows[i].name@,
        at == thread.samples@[k].stack.names().len() - 1 || (thread.samples@[k].stack.names().last()
            != rows[i].name@ && forall|j: int|
            0 <= j < at ==> #[trigger] thread.samples@[k].stack.names()[j] != rows[i].name@),
    ensures
        rows[i].file == thread.samples@[k].stack.frames()[at].file,
        rows[i].line == thread.samples@[k].stack.frames()[at].line,
        rows[i].library == thread.samples@[k].stack.frames()[at].library,
{
    let name = rows[i].name@;
    let s = thread.samples@;
    let n = s.len() as int;
    assert(functions::states(rows[i], thread, interval, range));
    assert(s[k].stack.names().contains(name));
    lemma_unplaced(s, range, name, k);
    lemma_placed(s, range, name, k, n);
    lemma_first_named(s[k].stack.names(), name, 0);
}

proof fn lemma_unplaced(
    s: Seq<ResolvedSample>,
    range: Option<AnalysisRange>,
    name: Seq<char>,
    n: int,
)
    requires
        0 <= n <= s.len(),
        forall|j: int|
            0 <= j < n && samples::counts(range, #[trigger] s[j]) ==> !s[j].stack.names().contains(
                name,
            ),
    ensures
        functions::origin(s, range, name, n) is None,
    decreases n,
{
    if n > 0 {
        lemma_unplaced(s, range, name, n - 1);
    }
}

proof fn lemma_placed(
    s: Seq<ResolvedSample>,
    range: Option<AnalysisRange>,
    name: Seq<char>,
    k: int,
    n: int,
)
    requires
        0 <= k < n <= s.len(),
        functions::origin(s, range, name, k) is None,
        samples::counts(range, s[k]),
        s[k].stack.names().contains(name),
    ensures
        functions::origin(s, range, name, n) == Some(functions::frame_in(s[k], name)),
    decreases n,
{
    if n > k + 1 {
        lemma_placed(s, range, name, k, n - 1);
    }
}

/// Every counted sample that takes part in a tree makes one visit, in the order
/// of the samples: to the frames from where the tree starts, with the sample's
/// time. A tree from the root takes all frames of all counted samples, and a
/// tree of a function those below its outermost frame.
pub proof fn law_samples_make_visits(
    thread: ResolvedThread,
    interval: u64,
    range: Option<AnalysisRange>,
    start: StartFacts,
    filter: FrameNameFilter,
    limit: int,
    n: int,
)
    requires
        0 <= n < thread.samples@.len(),
    ensures
        ({
            let before = call_tree::thread_visits(thread, interval, range, start, filter, limit, n);
            let after = call_tree::thread_visits(
                thread,
                interval,
                range,
                start,
                filter,
                limit,
                n + 1,
            );
            let sample = thread.samples@[n];
            let names = sample.stack.names();
            &&& !samples::counts(range, sample) ==> after == before
            &&& samples::counts(range, sample) && start == StartFacts::Root ==> after == before.push(
                Visit {
                    path: call_tree::charged_path(names, filter, 0, limit),
                    time: samples::time_of(thread.sample_weight_type, sample, interval),
                },
            )
            &&& start matches StartFacts::Function(function) ==> (!names.contains(function) ==> after
                == before)
            &&& start matches StartFacts::Function(function) ==> forall|i: int|
                #![trigger names[i]]
                samples::counts(range, sample) && 0 <= i < names.len() && names[i] == function && (
                forall|k: int| 0 <= k < i ==> #[trigger] names[k] != function) ==> after
                    == before.push(
                    Visit {
                        path: call_tree::charged_path(names, filter, i + 1, limit),
                        time: samples::time_of(thread.sample_weight_type, sample, interval),
                    },
                )
        }),
{
    let names = thread.samples@[n].stack.names();
    if let StartFacts::Function(function) = start {
        lemma_first_named(names, function, 0);
    }
}

/// The children of a node fall in time and have different names. A function
/// that stacks call from there is a child exactly where its share of the whole
/// reaches the limit, and a child has the time of all visits through it.
pub proof fn law_heaviest_children_lead(
    node: CallTreeNode,
    p: Seq<Seq<char>>,
    visits: Seq<Visit>,
    whole: u64,
    thread_whole: u64,
    limit: int,
)
    requires
        call_tree::shows(node, p, visits, whole, thread_whole, limit),
    ensures
        forall|i: int, j: int|
            #![trigger node.children@[i], node.children@[j]]
            0 <= i < j < node.children@.len() ==> node.children@[i].total_time_ms
                >= node.children@[j].total_time_ms && node.children@[i].function_name@
                != node.children@[j].function_name@,
        forall|i: int|
            #![trigger node.children@[i]]
            0 <= i < node.children@.len() ==> {
                let child = node.children@[i];
                &&& child.total_time_ms == units::capped(
                    sums::sum_of(visits, time_through(p.push(child.function_name@))) as int,
                )
                &&& whole > 0 ==> child.total_time_ms * 100_000_000 >= limit * whole
            },
        forall|k: int|
            #![trigger visits[k]]
            0 <= k < visits.len() && p.is_prefix_of(visits[k].path) && visits[k].path.len() > p.len()
                && (Ratio {
                part: units::capped(
                    sums::sum_of(visits, time_through(p.push(visits[k].path[p.len() as int]))) as int,
                ),
                whole,
            }).reaches(limit) ==> exists|i: int|
                #![trigger node.children@[i]]
                0 <= i < node.children@.len() && node.children@[i].function_name@
                    == visits[k].path[p.len() as int],
{
    assert forall|i: int|
        #![trigger node.children@[i]]
        0 <= i < node.children@.len() implies {
        let child = node.children@[i];
        &&& child.total_time_ms == units::capped(
            sums::sum_of(visits, time_through(p.push(child.function_name@))) as int,
        )
        &&& whole > 0 ==> child.total_time_ms * 100_000_000 >= limit * whole
    } by {
        let child = node.children@[i];
        let name = child.function_name@;
        lemma_time_through(visits, p.push(name));
        assert(call_tree::shows(child, p.push(name), visits, whole, thread_whole, limit));
        assert(call_tree::has_child(node.children@, name));
    }
    assert forall|k: int|
        #![trigger visits[k]]
        0 <= k < visits.len() && p.is_prefix_of(visits[k].path) && visits[k].path.len() > p.len()
            && (Ratio {
            part: units::capped(
                sums::sum_of(visits, time_through(p.push(visits[k].path[p.len() as int]))) as int,
            ),
            whole,
        }).reaches(limit) implies exists|i: int|
        #![trigger node.children@[i]]
        0 <= i < node.children@.len() && node.children@[i].function_name@
            == visits[k].path[p.len() as int] by {
        let path = visits[k].path;
        let name = path[p.len() as int];
        assert(p.push(name) =~= path.take(p.len() as int + 1));
        assert(p.push(name).is_prefix_of(path));
        lemma_time_through(visits, p.push(name));
        assert(call_tree::visited(visits, p.push(name)));
        assert(call_tree::has_child(node.children@, name));
        let i = choose|i: int|
            0 <= i < node.children@.len() && #[trigger] node.children@[i].function_name@ == name;
        assert(node.children@[i].function_name@ == name);
    }
}

/// The time of a visit that goes through a path.
pub open spec fn time_through(p: Seq<Seq<char>>) -> spec_fn(Visit) -> nat {
    |v: Visit|
        if p.len() <= v.path.len() && v.path.take(p.len() as int) == p {
            v.time as nat
        } else {
            0
        }
}

proof fn lemma_time_through(visits: Seq<Visit>, p: Seq<Seq<char>>)
    ensures
        call_tree::total_at(visits, p) == sums::sum_of(visits, time_through(p)),
    decreases visits.len(),
{
    if visits.len() > 0 {
        lemma_time_through(visits.drop_last(), p);
        let path = visits.last().path;
        if p.len() <= path.len() {
            assert(path.take(p.len() as int) =~= path.subrange(0, p.len() as int));
        }
    }
}

/// A function has a sample to itself where the last frame is the function, and
/// a part in it where some frame is.
pub proof fn law_own_samples(s: ResolvedSample, name: Seq<char>)
    ensures
        functions::leaf_is(name)(s) <==> s.stack.frames().len() > 0
            && s.stack.frames()[s.stack.frames().len() - 1].function_name@ == name,
        functions::stack_has(name)(s) <==> exists|k: int|
            #![trigger s.stack.frames()[k]]
            0 <= k < s.stack.frames().len() && s.stack.frames()[k].function_name@ == name,
{
    let names = s.stack.names();
    let frames = s.stack.frames();
    assert(names.len() == frames.len());
    if names.contains(name) {
        let k = choose|k: int| 0 <= k < names.len() && names[k] == name;
        assert(frames[k].function_name@ == name);
    }
    if exists|k: int|
        #![trigger frames[k]]
        0 <= k < frames.len() && frames[k].function_name@ == name {
        let k = choose|k: int|
            #![trigger frames[k]]
            0 <= k < frames.len() && frames[k].function_name@ == name;
        assert(names[k] == name);
    }
}

proof fn lemma_some_counted(
    s: Seq<ResolvedSample>,
    range: Option<AnalysisRange>,
    keep: spec_fn(ResolvedSample) -> bool,
    n: int,
)
    requires
        0 <= n <= s.len(),
    ensures
        samples::count_where(s, range, keep, n) > 0 <==> exists|k: int|
            #![trigger s[k]]
            0 <= k < n && samples::counts(range, s[k]) && keep(s[k]),
    decreases n,
{
    if n > 0 {
        lemma_some_counted(s, range, keep, n - 1);
        if samples::counts(range, s[n - 1]) && keep(s[n - 1]) {
            assert(s[n - 1] == s[n - 1]);
        }
    }
}

/// The threads that a breakdown of a function matched are those of the scope
/// with a counted sample whose leaf is the function.
pub proof fn law_matched_threads_have_samples(
    b: ExclusiveSourceBreakdown,
    profile: ResolvedProfile,
    indices: Seq<usize>,
    range: AnalysisRange,
    function: Seq<char>,
)
    requires
        source::breaks_down(b, profile, indices, range, function),
    ensures
        forall|i: usize| #[trigger]
            b.matched_thread_indices@.contains(i) <==> indices.contains(i) && i
                < profile.threads@.len() && exists|k: int|
                #![trigger profile.threads@[i as int].samples@[k]]
                0 <= k < profile.threads@[i as int].samples@.len() && range.covers(
                    profile.threads@[i as int].samples@[k].timestamp_ms,
                ) && functions::leaf_is(function)(profile.threads@[i as int].samples@[k]),
{
    let own = functions::leaf_is(function);
    assert forall|i: usize| #[trigger]
        b.matched_thread_indices@.contains(i) <==> indices.contains(i) && i < profile.threads@.len()
            && exists|k: int|
            #![trigger profile.threads@[i as int].samples@[k]]
            0 <= k < profile.threads@[i as int].samples@.len() && range.covers(
                profile.threads@[i as int].samples@[k].timestamp_ms,
            ) && own(profile.threads@[i as int].samples@[k]) by {
        lemma_matching(profile, indices, range, own, indices.len() as int, i);
        if i < profile.threads@.len() {
            let s = profile.threads@[i as int].samples@;
            lemma_some_counted(s, Some(range), own, s.len() as int);
            if samples::count_where(s, Some(range), own, s.len() as int) > 0 {
                let k = choose|k: int|
                    #![trigger s[k]]
                    0 <= k < s.len() && samples::counts(Some(range), s[k]) && own(s[k]);
                assert(range.covers(s[k].timestamp_ms));
            }
            if exists|k: int|
                #![trigger s[k]]
                0 <= k < s.len() && range.covers(s[k].timestamp_ms) && own(s[k]) {
                let k = choose|k: int|
                    #![trigger s[k]]
                    0 <= k < s.len() && range.covers(s[k].timestamp_ms) && own(s[k]);
                assert(samples::counts(Some(range), s[k]));
            }
        }
        if indices.contains(i) {
            let j = choose|j: int| 0 <= j < indices.len() && indices[j] == i;
            assert(indices[j] == i);
        }
    }
}

proof fn lemma_matching(
    profile: ResolvedProfile,
    indices: Seq<usize>,
    range: AnalysisRange,
    keep: spec_fn(ResolvedSample) -> bool,
    m: int,
    i: usize,
)
    requires
        0 <= m <= indices.len(),
    ensures
        source::matching_threads(profile, indices, range, keep, m).contains(i) <==> (exists|j: int|
            #![trigger indices[j]]
            0 <= j < m && indices[j] == i) && i < profile.threads@.len() && samples::counting(
            Some(range),
            keep,
        )(profile.threads@[i as int]) > 0,
    decreases m,
{
    if m > 0 {
        let before = source::matching_threads(profile, indices, range, keep, m - 1);
        let after = source::matching_threads(profile, indices, range, keep, m);
        lemma_matching(profile, indices, range, keep, m - 1, i);
        if before.contains(i) {
            let p = choose|p: int| 0 <= p < before.len() && before[p] == i;
            assert(after[p] == i);
        }
        if after.contains(i) {
            let p = choose|p: int| 0 <= p < after.len() && after[p] == i;
            if p < before.len() {
                assert(before[p] == i);
            } else {
                assert(indices[m - 1] == i);
            }
        }
        if indices[m - 1] == i && after.len() > before.len() {
            assert(after[before.len() as int] == i);
        }
    }
}

/// Every counted sample of a thread whose leaf is the function gives one row,
/// with one sample and its time, at the leaf's instruction; no other gives any.
pub proof fn law_own_samples_give_rows(
    thread: ResolvedThread,
    interval: u64,
    range: AnalysisRange,
    function: Seq<char>,
    n: int,
)
    requires
        0 <= n < thread.samples@.len(),
    ensures
        ({
            let before = source::thread_rows(thread, interval, range, function, n);
            let after = source::thread_rows(thread, interval, range, function, n + 1);
            let sample = thread.samples@[n];
            let frames = sample.stack.frames();
            let leaf = frames[frames.len() - 1];
            let own = range.covers(sample.timestamp_ms) && frames.len() > 0
                && leaf.function_name@ == function;
            &&& !own ==> after == before
            &&& own ==> {
                let row = after.last();
                &&& after.len() == before.len() + 1
                &&& after.drop_last() == before
                &&& row.sample_count == 1
                &&& row.cpu_sample_time == samples::time_of(
                    thread.sample_weight_type,
                    sample,
                    interval,
                )
                &&& leaf.instruction is None ==> row.address is None
                &&& leaf.instruction matches Some(at) ==> row.address == Some(at.address)
                    && row.library_index == at.library_index && row.library_debug_id == text::opt(
                    at.library_debug_id,
                )
                &&& row.library == text::opt(leaf.library)
            }
        }),
{
    let sample = thread.samples@[n];
    let before = source::thread_rows(thread, interval, range, function, n);
    let after = source::thread_rows(thread, interval, range, function, n + 1);
    law_own_samples(sample, function);
    assert(sample.stack.names().len() == sample.stack.frames().len());
    if after.len() > before.len() {
        assert(after.drop_last() =~= before);
    }
}

/// The samples that end in a function, that do so at a known address, and that
/// do so with a known symbol are parts of each other.
pub proof fn law_known_samples_nest(s: ResolvedSample, function: Seq<char>)
    ensures
        source::leaf_symbolicated(function)(s) ==> source::leaf_addressed(function)(s),
        source::leaf_addressed(function)(s) ==> functions::leaf_is(function)(s),
        functions::leaf_is(function)(s) && s.stack.frames().last().instruction is Some
            ==> source::leaf_addressed(function)(s),
{
}

}
