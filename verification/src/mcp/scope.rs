//! The threads and the time that a request is about.
use crate::analysis::samples;
use crate::analysis::samples::AnalysisRange;
use crate::analysis::symbols;
use crate::mcp::summary;
use crate::mcp::summary::ThreadInfo;
use crate::mcp::threads;
use crate::mcp::threads::ThreadScopeSelection;
use crate::profile::resolved::{ResolvedProfile, ResolvedThread};
use crate::text;
use crate::units::TimeValue;
use vstd::prelude::*;

verus! {

/// Threads that a request is about: what they are called together, their
/// positions, and the only one, if it is one.
#[verifier::ext_equal]
pub struct Scope {
    pub name: Seq<char>,
    pub indices: Seq<usize>,
    pub only: Option<int>,
}

/// The scope that a selection tells.
pub open spec fn scope_of(f: threads::ScopeFacts) -> Result<Scope, Seq<char>> {
    match f {
        Ok((name, found, only)) => Ok(
            Scope { name, indices: Seq::new(found.len(), |i: int| found[i] as usize), only },
        ),
        Err(e) => Err(e),
    }
}

/// The scope of a selection.
pub open spec fn scope_in(s: ThreadScopeSelection) -> Scope {
    Scope {
        name: s.scope@,
        indices: s.thread_indices@,
        only: match s.selected_thread {
            Some(t) => Some(t.index as int),
            None => None,
        },
    }
}

/// A selection tells its scope.
proof fn lemma_scope(r: Result<ThreadScopeSelection, String>)
    ensures
        r matches Ok(s) ==> scope_of(threads::scope_facts(r)) == Ok::<Scope, Seq<char>>(
            scope_in(s),
        ),
        r matches Err(e) ==> scope_of(threads::scope_facts(r)) == Err::<Scope, Seq<char>>(e@),
{
    if let Ok(s) = r {
        let found = threads::positions(s.thread_indices@);
        assert(Seq::new(found.len(), |i: int| found[i] as usize) =~= s.thread_indices@);
    }
}

/// Whether a selection leads to threads of a profile.
pub open spec fn leads_into(s: ThreadScopeSelection, p: ResolvedProfile) -> bool {
    &&& forall|k: int|
        0 <= k < s.thread_indices@.len() ==> #[trigger] s.thread_indices@[k] < p.threads@.len()
    &&& s.selected_thread matches Some(t) ==> t.index < p.threads@.len() && *t.thread
        == p.threads@[t.index as int]
}

/// The threads of a scope.
pub open spec fn members<'a>(p: &'a ResolvedProfile, indices: Seq<usize>) -> Seq<&'a ResolvedThread> {
    Seq::new(indices.len(), |i: int| &p.threads@[indices[i] as int])
}

/// The threads of a scope.
pub(crate) fn refer_threads<'a>(profile: &'a ResolvedProfile, indices: &Vec<usize>) -> (r: Vec<
    &'a ResolvedThread,
>)
    requires
        forall|k: int| 0 <= k < indices@.len() ==> #[trigger] indices@[k] < profile.threads@.len(),
    ensures
        r@ == members(profile, indices@),
{
    let mut r: Vec<&'a ResolvedThread> = Vec::new();
    let mut i: usize = 0;
    while i < indices.len()
        invariant
            i <= indices@.len(),
            forall|k: int|
                0 <= k < indices@.len() ==> #[trigger] indices@[k] < profile.threads@.len(),
            r@.len() == i,
            forall|k: int| 0 <= k < i ==> *(#[trigger] r@[k]) == profile.threads@[indices@[k] as int],
        decreases indices@.len() - i,
    {
        let index: usize = indices[i];
        r.push(&profile.threads[index]);
        i += 1;
    }
    assert(r@ =~= members(profile, indices@));
    r
}

/// Whether fields tell of the only thread of a scope, if it is one.
pub open spec fn tells_thread(
    thread: Option<String>,
    tid: Option<String>,
    thread_index: Option<usize>,
    p: ResolvedProfile,
    scope: Scope,
) -> bool {
    match scope.only {
        Some(i) => text::opt(thread) == Some(p.threads@[i].name@) && text::opt(tid) == Some(
            p.threads@[i].tid@,
        ) && thread_index == Some(i as usize),
        None => thread is None && tid is None && thread_index is None,
    }
}

/// The fields that tell of the only thread of a selection, if it is one.
pub(crate) fn thread_fields(s: &ThreadScopeSelection, Ghost(p): Ghost<ResolvedProfile>) -> (r: (
    Option<String>,
    Option<String>,
    Option<usize>,
))
    requires
        leads_into(*s, p),
    ensures
        tells_thread(r.0, r.1, r.2, p, scope_in(*s)),
{
    match &s.selected_thread {
        Some(t) => (Some(t.thread.name.clone()), Some(t.thread.tid.clone()), Some(t.index)),
        None => (None, None, None),
    }
}

/// Whether rows list the threads of a scope, where they are asked for.
pub open spec fn lists_threads(
    list: Seq<ThreadInfo>,
    wanted: bool,
    p: ResolvedProfile,
    indices: Seq<usize>,
    range: AnalysisRange,
) -> bool {
    if wanted {
        summary::thread_rows(list, p, indices, Some(range))
    } else {
        list.len() == 0
    }
}

/// Lists the threads of a scope, where they are asked for.
pub(crate) fn list_threads(
    profile: &ResolvedProfile,
    wanted: bool,
    indices: &Vec<usize>,
    range: &AnalysisRange,
) -> (r: Vec<ThreadInfo>)
    ensures
        lists_threads(r@, wanted, *profile, indices@, *range),
{
    if wanted {
        summary::thread_infos(profile, indices, Some(range))
    } else {
        Vec::new()
    }
}

/// The threads that a request with a window is about, or why there are none:
/// those with a prefix, or else one thread.
pub open spec fn narrow(
    p: ResolvedProfile,
    start_time_ms: Option<TimeValue>,
    end_time_ms: Option<TimeValue>,
    thread: Option<String>,
    tid: Option<String>,
    thread_index: Option<usize>,
    thread_name_prefix: Option<String>,
    thread_name_prefixes: Vec<String>,
) -> Result<Scope, Seq<char>> {
    match samples::window_error(p.duration_ms, start_time_ms, end_time_ms) {
        Some(e) => Err(e),
        None => scope_of(
            threads::narrow_scope(
                p.threads@,
                text::opt(thread),
                text::opt(tid),
                thread_index,
                threads::requested(
                    text::opt(thread_name_prefix),
                    text::views(thread_name_prefixes@),
                ),
                summary::window(p, start_time_ms, end_time_ms),
            ),
        ),
    }
}

/// The threads that a request with a window is about, or why there are none:
/// one thread, those with a prefix, or all with samples.
pub open spec fn wide(
    p: ResolvedProfile,
    start_time_ms: Option<TimeValue>,
    end_time_ms: Option<TimeValue>,
    thread: Option<String>,
    tid: Option<String>,
    thread_index: Option<usize>,
    thread_name_prefix: Option<String>,
    thread_name_prefixes: Vec<String>,
) -> Result<Scope, Seq<char>> {
    match samples::window_error(p.duration_ms, start_time_ms, end_time_ms) {
        Some(e) => Err(e),
        None => scope_of(
            threads::any_scope(
                p.threads@,
                text::opt(thread),
                text::opt(tid),
                thread_index,
                threads::requested(
                    text::opt(thread_name_prefix),
                    text::views(thread_name_prefixes@),
                ),
                summary::window(p, start_time_ms, end_time_ms),
            ),
        ),
    }
}

/// Finds the window and the threads that a request is about: those with a
/// prefix, or else one thread.
pub fn choose_narrow<'a>(
    profile: &'a ResolvedProfile,
    start_time_ms: Option<TimeValue>,
    end_time_ms: Option<TimeValue>,
    thread: &Option<String>,
    tid: &Option<String>,
    thread_index: Option<usize>,
    thread_name_prefix: &Option<String>,
    thread_name_prefixes: &Vec<String>,
) -> (r: Result<(AnalysisRange, ThreadScopeSelection<'a>), String>)
    ensures
        match (
            r,
            narrow(
                *profile,
                start_time_ms,
                end_time_ms,
                *thread,
                *tid,
                thread_index,
                *thread_name_prefix,
                *thread_name_prefixes,
            ),
        ) {
            (Ok((range, s)), Ok(scope)) => range == summary::window(
                *profile,
                start_time_ms,
                end_time_ms,
            ) && scope == scope_in(s) && leads_into(s, *profile),
            (Err(e), Err(message)) => e@ == message,
            _ => false,
        },
{
    let range = match AnalysisRange::resolve(profile, start_time_ms, end_time_ms) {
        Ok(range) => range,
        Err(e) => {
            return Err(e);
        },
    };
    let selected = threads::select_thread_indices_for_single_or_prefix_scope(
        profile,
        thread,
        tid,
        thread_index,
        thread_name_prefix,
        thread_name_prefixes,
        &range,
    );
    proof {
        lemma_scope(selected);
    }
    match selected {
        Ok(selection) => Ok((range, selection)),
        Err(e) => Err(e),
    }
}

/// Finds the window and the threads that a request is about: one thread, those
/// with a prefix, or all with samples.
pub fn choose_wide<'a>(
    profile: &'a ResolvedProfile,
    start_time_ms: Option<TimeValue>,
    end_time_ms: Option<TimeValue>,
    thread: &Option<String>,
    tid: &Option<String>,
    thread_index: Option<usize>,
    thread_name_prefix: &Option<String>,
    thread_name_prefixes: &Vec<String>,
) -> (r: Result<(AnalysisRange, ThreadScopeSelection<'a>), String>)
    ensures
        match (
            r,
            wide(
                *profile,
                start_time_ms,
                end_time_ms,
                *thread,
                *tid,
                thread_index,
                *thread_name_prefix,
                *thread_name_prefixes,
            ),
        ) {
            (Ok((range, s)), Ok(scope)) => range == summary::window(
                *profile,
                start_time_ms,
                end_time_ms,
            ) && scope == scope_in(s) && leads_into(s, *profile),
            (Err(e), Err(message)) => e@ == message,
            _ => false,
        },
{
    let range = match AnalysisRange::resolve(profile, start_time_ms, end_time_ms) {
        Ok(range) => range,
        Err(e) => {
            return Err(e);
        },
    };
    let selected = threads::select_thread_indices_for_scope(
        profile,
        thread,
        tid,
        thread_index,
        thread_name_prefix,
        thread_name_prefixes,
        &range,
    );
    proof {
        lemma_scope(selected);
    }
    match selected {
        Ok(selection) => Ok((range, selection)),
        Err(e) => Err(e),
    }
}

/// Whether fields name a function, if there is one.
pub open spec fn names_focus(
    function: Option<String>,
    id: Option<String>,
    display: Option<String>,
    focus: Option<Seq<char>>,
) -> bool {
    match focus {
        Some(name) => text::opt(function) == Some(name) && text::opt(id) == Some(
            symbols::id_of(name),
        ) && text::opt(display) == Some(symbols::compact_of(name)),
        None => function is None && id is None && display is None,
    }
}

/// The fields that name a function, if there is one.
pub(crate) fn focus_fields(focus: &Option<String>) -> (r: (Option<String>, Option<String>, Option<String>))
    ensures
        names_focus(r.0, r.1, r.2, text::opt(*focus)),
{
    match focus {
        Some(name) => (
            Some(name.clone()),
            Some(symbols::function_id(name.as_str())),
            Some(symbols::compact_function_name(name.as_str())),
        ),
        None => (None, None, None),
    }
}

}
