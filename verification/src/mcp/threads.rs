//! Which threads a request is about.
use crate::analysis::samples;
use crate::analysis::samples::AnalysisRange;
use crate::profile::resolved::{ResolvedProfile, ResolvedThread};
use crate::text;
use vstd::prelude::*;

verus! {

/// A prefix without surrounding white space and without a final `*`.
pub open spec fn plain_prefix(prefix: Seq<char>) -> Seq<char> {
    let s = text::trimmed(prefix);
    if s.len() > 0 && s.last() == '*' {
        s.drop_last()
    } else {
        s
    }
}

/// Whether a thread's name starts with a requested prefix.
pub open spec fn has_prefix(name: Seq<char>, prefix: Seq<char>) -> bool {
    text::begins_with(name, plain_prefix(prefix))
}

/// A prefix without surrounding white space and without a final `*`.
pub fn normalized_thread_prefix(prefix: &str) -> (r: String)
    ensures
        r@ == plain_prefix(prefix@),
{
    let all = text::chars_of(prefix);
    let mut chars = text::trim_chars(&all);
    if chars.len() > 0 && chars[chars.len() - 1] == '*' {
        let last = chars.pop();
        assert(chars@ =~= text::trimmed(prefix@).drop_last());
    }
    text::string_of(&chars)
}

/// Whether a thread's name starts with a requested prefix.
pub fn thread_name_matches_prefix(thread_name: &str, prefix: &str) -> (r: bool)
    ensures
        r == has_prefix(thread_name@, prefix@),
{
    text::starts_with_text(thread_name, normalized_thread_prefix(prefix).as_str())
}

proof fn lemma_trimmed_start_len(s: Seq<char>)
    ensures
        text::trimmed_start(s).len() <= s.len(),
    decreases s.len(),
{
    if s.len() > 0 {
        lemma_trimmed_start_len(s.skip(1));
    }
}

proof fn lemma_trimmed_end_len(s: Seq<char>, drop: spec_fn(char) -> bool)
    ensures
        text::trimmed_end_by(s, drop).len() <= s.len(),
    decreases s.len(),
{
    if s.len() > 0 {
        lemma_trimmed_end_len(s.drop_last(), drop);
    }
}

/// A `*` behind a prefix without white space around it changes nothing, unless
/// the prefix ends in one already.
pub proof fn law_star_is_optional(name: Seq<char>, prefix: Seq<char>)
    requires
        text::trimmed(prefix) == prefix,
        prefix.len() > 0 ==> prefix.last() != '*',
    ensures
        has_prefix(name, prefix.push('*')) == has_prefix(name, prefix),
{
    let starred = prefix.push('*');
    if prefix.len() > 0 && text::white_space(prefix[0]) {
        lemma_trimmed_start_len(prefix.skip(1));
        lemma_trimmed_end_len(text::trimmed_start(prefix), |c: char| text::white_space(c));
    }
    assert(starred[0] == (if prefix.len() > 0 { prefix[0] } else { '*' }));
    assert(text::trimmed_start(starred) == starred);
    assert(text::trimmed(starred) == starred);
    assert(starred.drop_last() =~= prefix);
}

/// The digits that numbered threads differ by.
pub open spec fn is_digit() -> spec_fn(char) -> bool {
    |c: char| text::ascii_digit(c)
}

/// A thread's name without its number. A name of digits alone stays.
pub open spec fn family(name: Seq<char>) -> Seq<char> {
    let s = text::trimmed_end_by(name, is_digit());
    if s.len() == 0 {
        name
    } else {
        s
    }
}

/// A thread's name without its number.
pub fn summary_thread_name_prefix(thread_name: &str) -> (r: String)
    ensures
        r@ == family(thread_name@),
{
    let mut chars = text::chars_of(thread_name);
    let ghost all = chars@;
    let ghost drop = is_digit();
    while chars.len() > 0 && text::is_digit(chars[chars.len() - 1])
        invariant
            drop == is_digit(),
            text::trimmed_end_by(all, drop) == text::trimmed_end_by(chars@, drop),
        decreases chars@.len(),
    {
        let ghost before = chars@;
        let last = chars.pop();
        assert(chars@ =~= before.drop_last());
    }
    if chars.len() == 0 {
        text::string_of(&text::chars_of(thread_name))
    } else {
        text::string_of(&chars)
    }
}

/// The prefixes after one more from the list, unless it is empty or there.
pub open spec fn with_prefix(prefixes: Seq<Seq<char>>, prefix: Seq<char>) -> Seq<Seq<char>> {
    let s = text::trimmed(prefix);
    if s.len() == 0 || prefixes.contains(s) {
        prefixes
    } else {
        prefixes.push(s)
    }
}

/// The prefixes that a request names.
pub open spec fn requested(single: Option<Seq<char>>, list: Seq<Seq<char>>) -> Seq<Seq<char>>
    decreases list.len(),
{
    if list.len() == 0 {
        match single {
            Some(prefix) => with_prefix(Seq::empty(), prefix),
            None => Seq::empty(),
        }
    } else {
        with_prefix(requested(single, list.drop_last()), list.last())
    }
}

/// Whether a text stands in a list.
fn stands_in(list: &Vec<String>, s: &String) -> (r: bool)
    ensures
        r == text::views(list@).contains(s@),
{
    let mut i: usize = 0;
    while i < list.len()
        invariant
            i <= list@.len(),
            forall|k: int| 0 <= k < i ==> #[trigger] text::views(list@)[k] != s@,
        decreases list@.len() - i,
    {
        if text::text_eq(list[i].as_str(), s.as_str()) {
            assert(text::views(list@)[i as int] == s@);
            return true;
        }
        i += 1;
    }
    false
}

/// Adds a prefix, unless it is empty or there.
fn add_prefix(prefixes: &mut Vec<String>, prefix: &str)
    ensures
        text::views(final(prefixes)@) == with_prefix(text::views(old(prefixes)@), prefix@),
{
    let trimmed = text::trim(prefix);
    let chars = text::chars_of(trimmed.as_str());
    if chars.len() > 0 && !stands_in(prefixes, &trimmed) {
        let ghost before = prefixes@;
        prefixes.push(trimmed);
        assert(text::views(prefixes@) =~= text::views(before).push(trimmed@));
    }
}

/// The prefixes that a request names, each once and without white space around it.
pub fn requested_thread_prefixes(
    thread_name_prefix: &Option<String>,
    thread_name_prefixes: &Vec<String>,
) -> (r: Vec<String>)
    ensures
        text::views(r@) == requested(
            text::opt(*thread_name_prefix),
            text::views(thread_name_prefixes@),
        ),
{
    let ghost single = text::opt(*thread_name_prefix);
    let ghost list = text::views(thread_name_prefixes@);
    let mut prefixes: Vec<String> = Vec::new();
    assert(text::views(prefixes@) =~= Seq::<Seq<char>>::empty());
    match thread_name_prefix {
        Some(prefix) => {
            add_prefix(&mut prefixes, prefix.as_str());
        },
        None => {},
    }
    let mut i: usize = 0;
    assert(list.take(0) =~= Seq::<Seq<char>>::empty());
    while i < thread_name_prefixes.len()
        invariant
            i <= thread_name_prefixes@.len(),
            list == text::views(thread_name_prefixes@),
            text::views(prefixes@) == requested(single, list.take(i as int)),
        decreases thread_name_prefixes@.len() - i,
    {
        assert(list.take(i + 1).drop_last() =~= list.take(i as int));
        add_prefix(&mut prefixes, thread_name_prefixes[i].as_str());
        i += 1;
    }
    assert(list.take(list.len() as int) =~= list);
    prefixes
}

/// Whether a thread may be selected: by name, as a main thread, and with
/// samples in the window where there is one.
pub open spec fn eligible(
    t: ResolvedThread,
    name: Option<Seq<char>>,
    main_only: bool,
    range: Option<AnalysisRange>,
) -> bool {
    (name matches Some(n) ==> t.name@ == n) && (main_only ==> t.is_main) && (range is Some
        ==> samples::samples_counted(t, range) > 0)
}

/// How many samples a thread has, in the window where there is one.
pub open spec fn load_of(t: ResolvedThread, range: Option<AnalysisRange>) -> nat {
    match range {
        Some(_) => samples::samples_counted(t, range),
        None => t.samples@.len(),
    }
}

/// The eligible thread among the first `n` with the most samples, the last
/// one of several.
pub open spec fn busiest(
    threads: Seq<ResolvedThread>,
    name: Option<Seq<char>>,
    main_only: bool,
    range: Option<AnalysisRange>,
    n: int,
) -> Option<int>
    decreases n,
{
    if n <= 0 {
        None
    } else {
        let best = busiest(threads, name, main_only, range, n - 1);
        if !eligible(threads[n - 1], name, main_only, range) {
            best
        } else {
            match best {
                Some(b) => if load_of(threads[b], range) > load_of(threads[n - 1], range) {
                    Some(b)
                } else {
                    Some(n - 1)
                },
                None => Some(n - 1),
            }
        }
    }
}

/// A selected thread is eligible, none has more samples, and none after it as many.
pub proof fn law_busiest_has_most_samples(
    threads: Seq<ResolvedThread>,
    name: Option<Seq<char>>,
    main_only: bool,
    range: Option<AnalysisRange>,
    n: int,
)
    requires
        0 <= n <= threads.len(),
    ensures
        match busiest(threads, name, main_only, range, n) {
            Some(b) => 0 <= b < n && eligible(threads[b], name, main_only, range) && forall|i: int|
                0 <= i < n && eligible(#[trigger] threads[i], name, main_only, range) ==> load_of(
                    threads[i],
                    range,
                ) <= load_of(threads[b], range) && (i > b ==> load_of(threads[i], range) < load_of(
                    threads[b],
                    range,
                )),
            None => forall|i: int|
                0 <= i < n ==> !eligible(#[trigger] threads[i], name, main_only, range),
        },
    decreases n,
{
    if n > 0 {
        law_busiest_has_most_samples(threads, name, main_only, range, n - 1);
    }
}

/// What an index says.
pub open spec fn opt_index(i: Option<usize>) -> Option<int> {
    match i {
        Some(i) => Some(i as int),
        None => None,
    }
}

/// The eligible thread with the most samples.
fn find_busiest(
    threads: &Vec<ResolvedThread>,
    name: Option<&str>,
    main_only: bool,
    range: Option<&AnalysisRange>,
) -> (r: Option<usize>)
    ensures
        opt_index(r) == busiest(
            threads@,
            text::opt_str(name),
            main_only,
            samples::window_of(range),
            threads@.len() as int,
        ),
        r matches Some(i) ==> i < threads@.len(),
{
    let ghost wanted = text::opt_str(name);
    let ghost window = samples::window_of(range);
    let mut best: Option<usize> = None;
    let mut most: usize = 0;
    let mut n: usize = 0;
    while n < threads.len()
        invariant
            n <= threads@.len(),
            wanted == text::opt_str(name),
            window == samples::window_of(range),
            opt_index(best) == busiest(threads@, wanted, main_only, window, n as int),
            best matches Some(b) ==> b < n && most == load_of(threads@[b as int], window),
        decreases threads@.len() - n,
    {
        let t = &threads[n];
        let named: bool = match name {
            Some(name) => text::text_eq(t.name.as_str(), name),
            None => true,
        };
        if named && (!main_only || t.is_main) {
            let (sampled, load): (bool, usize) = match range {
                Some(_) => {
                    let count: usize = samples::sample_count(t, range);
                    (count > 0, count)
                },
                None => (true, t.samples.len()),
            };
            if sampled {
                match best {
                    Some(b) => {
                        if most <= load {
                            best = Some(n);
                            most = load;
                        }
                    },
                    None => {
                        best = Some(n);
                        most = load;
                    },
                }
            }
        }
        n += 1;
    }
    best
}

/// A thread of a profile with its position.
pub struct SelectedThread<'a> {
    pub index: usize,
    pub thread: &'a ResolvedThread,
}

/// The first thread with an id, looking from `from` on.
pub open spec fn with_tid(threads: Seq<ResolvedThread>, tid: Seq<char>, from: int) -> Option<int>
    decreases threads.len() - from,
{
    if from < 0 || from >= threads.len() {
        None
    } else if threads[from].tid@ == tid {
        Some(from)
    } else {
        with_tid(threads, tid, from + 1)
    }
}

/// An index, or an error.
pub type Choice = Result<int, Seq<char>>;

/// The index, or an error where there is none.
pub open spec fn or_error(i: Option<int>, error: Seq<char>) -> Choice {
    match i {
        Some(i) => Ok(i),
        None => Err(error),
    }
}

/// The thread that a request names by index or id, if it does.
pub open spec fn named_by_id(
    threads: Seq<ResolvedThread>,
    tid: Option<Seq<char>>,
    thread_index: Option<usize>,
) -> Option<Choice> {
    match (thread_index, tid) {
        (Some(index), _) => Some(
            if index < threads.len() {
                Ok(index as int)
            } else {
                Err("Thread index "@ + text::decimal(index as int) + " not found"@)
            },
        ),
        (None, Some(tid)) => Some(
            or_error(with_tid(threads, tid, 0), "Thread tid '"@ + tid + "' not found"@),
        ),
        (None, None) => None,
    }
}

/// The main thread with the most samples, or else any.
pub open spec fn preferred(
    threads: Seq<ResolvedThread>,
    range: Option<AnalysisRange>,
) -> Option<int> {
    let n = threads.len() as int;
    match busiest(threads, None, true, range, n) {
        Some(i) => Some(i),
        None => busiest(threads, None, false, range, n),
    }
}

/// The thread that a request selects.
pub open spec fn selection(
    threads: Seq<ResolvedThread>,
    name: Option<Seq<char>>,
    tid: Option<Seq<char>>,
    thread_index: Option<usize>,
) -> Choice {
    match named_by_id(threads, tid, thread_index) {
        Some(choice) => choice,
        None => match name {
            Some(name) => or_error(
                busiest(threads, Some(name), false, None, threads.len() as int),
                "Thread '"@ + name + "' not found"@,
            ),
            None => or_error(preferred(threads, None), "No threads found"@),
        },
    }
}

/// The thread with samples in a window that a request selects. A thread named
/// by index or id is taken whatever its samples.
pub open spec fn sampled_selection(
    threads: Seq<ResolvedThread>,
    name: Option<Seq<char>>,
    tid: Option<Seq<char>>,
    thread_index: Option<usize>,
    range: AnalysisRange,
) -> Choice {
    match named_by_id(threads, tid, thread_index) {
        Some(choice) => choice,
        None => match name {
            Some(name) => or_error(
                busiest(threads, Some(name), false, Some(range), threads.len() as int),
                "Thread '"@ + name + "' has no samples in the selected time range"@,
            ),
            None => or_error(
                preferred(threads, Some(range)),
                "No sampled threads found in the selected time range"@,
            ),
        },
    }
}

/// What a selection says.
pub open spec fn choice_of(r: Result<SelectedThread, String>) -> Choice {
    match r {
        Ok(t) => Ok(t.index as int),
        Err(e) => Err(e@),
    }
}

/// Whether a selection leads to the thread at its position.
pub open spec fn points_into(r: Result<SelectedThread, String>, threads: Seq<ResolvedThread>) -> bool {
    r matches Ok(t) ==> t.index < threads.len() && *t.thread == threads[t.index as int]
}

/// A text between two others.
fn quoted(before: &str, middle: &str, after: &str) -> (r: String)
    ensures
        r@ == before@ + middle@ + after@,
{
    let mut s = before.to_string();
    text::push_text(&mut s, middle);
    text::push_text(&mut s, after);
    s
}

/// The first thread with an id.
fn find_tid(threads: &Vec<ResolvedThread>, tid: &str) -> (r: Option<usize>)
    ensures
        opt_index(r) == with_tid(threads@, tid@, 0),
        r matches Some(i) ==> i < threads@.len(),
{
    let mut i: usize = 0;
    while i < threads.len()
        invariant
            i <= threads@.len(),
            with_tid(threads@, tid@, 0) == with_tid(threads@, tid@, i as int),
        decreases threads@.len() - i,
    {
        if text::text_eq(threads[i].tid.as_str(), tid) {
            return Some(i);
        }
        i += 1;
    }
    None
}

/// The thread at a position, or an error.
fn select_at<'a>(threads: &'a Vec<ResolvedThread>, index: Option<usize>, error: String) -> (r: Result<
    SelectedThread<'a>,
    String,
>)
    requires
        index matches Some(i) ==> i < threads@.len(),
    ensures
        choice_of(r) == or_error(opt_index(index), error@),
        points_into(r, threads@),
{
    match index {
        Some(index) => Ok(SelectedThread { index, thread: &threads[index] }),
        None => Err(error),
    }
}

/// The thread that a request names by index or id, if it does.
fn select_by_id<'a>(
    threads: &'a Vec<ResolvedThread>,
    tid: &Option<String>,
    thread_index: Option<usize>,
) -> (r: Option<Result<SelectedThread<'a>, String>>)
    ensures
        match r {
            Some(r) => named_by_id(threads@, text::opt(*tid), thread_index) == Some(choice_of(r))
                && points_into(r, threads@),
            None => named_by_id(threads@, text::opt(*tid), thread_index) is None,
        },
{
    match thread_index {
        Some(index) => {
            if index < threads.len() {
                Some(Ok(SelectedThread { index, thread: &threads[index] }))
            } else {
                let number = text::decimal_text(index as u128);
                Some(Err(quoted("Thread index ", number.as_str(), " not found")))
            }
        },
        None => match tid {
            Some(tid) => {
                let index = find_tid(threads, tid.as_str());
                let error = quoted("Thread tid '", tid.as_str(), "' not found");
                Some(select_at(threads, index, error))
            },
            None => None,
        },
    }
}

/// The main thread with the most samples, or else any.
fn find_preferred(threads: &Vec<ResolvedThread>, range: Option<&AnalysisRange>) -> (r: Option<usize>)
    ensures
        opt_index(r) == preferred(threads@, samples::window_of(range)),
        r matches Some(i) ==> i < threads@.len(),
{
    match find_busiest(threads, None, true, range) {
        Some(i) => Some(i),
        None => find_busiest(threads, None, false, range),
    }
}

/// The thread that a request selects.
pub fn select_thread<'a>(
    profile: &'a ResolvedProfile,
    thread_name: &Option<String>,
    tid: &Option<String>,
    thread_index: Option<usize>,
) -> (r: Result<SelectedThread<'a>, String>)
    ensures
        choice_of(r) == selection(
            profile.threads@,
            text::opt(*thread_name),
            text::opt(*tid),
            thread_index,
        ),
        points_into(r, profile.threads@),
{
    let threads: &'a Vec<ResolvedThread> = &profile.threads;
    match select_by_id(threads, tid, thread_index) {
        Some(r) => r,
        None => match thread_name {
            Some(name) => {
                let index = find_busiest(threads, Some(name.as_str()), false, None);
                let error = quoted("Thread '", name.as_str(), "' not found");
                select_at(threads, index, error)
            },
            None => {
                let index = find_preferred(threads, None);
                select_at(threads, index, "No threads found".to_string())
            },
        },
    }
}

/// The thread with samples in a window that a request selects.
pub fn select_sample_thread<'a>(
    profile: &'a ResolvedProfile,
    thread_name: &Option<String>,
    tid: &Option<String>,
    thread_index: Option<usize>,
    range: &AnalysisRange,
) -> (r: Result<SelectedThread<'a>, String>)
    ensures
        choice_of(r) == sampled_selection(
            profile.threads@,
            text::opt(*thread_name),
            text::opt(*tid),
            thread_index,
            *range,
        ),
        points_into(r, profile.threads@),
{
    let threads: &'a Vec<ResolvedThread> = &profile.threads;
    match select_by_id(threads, tid, thread_index) {
        Some(r) => r,
        None => match thread_name {
            Some(name) => {
                let index = find_busiest(threads, Some(name.as_str()), false, Some(range));
                let error = quoted(
                    "Thread '",
                    name.as_str(),
                    "' has no samples in the selected time range",
                );
                select_at(threads, index, error)
            },
            None => {
                let index = find_preferred(threads, Some(range));
                select_at(
                    threads,
                    index,
                    "No sampled threads found in the selected time range".to_string(),
                )
            },
        },
    }
}

/// The label of a thread.
pub open spec fn label_of(index: int, name: Seq<char>, tid: Seq<char>) -> Seq<char> {
    name + " [tid="@ + tid + ", index="@ + text::decimal(index) + "]"@
}

/// The label of a thread.
pub fn thread_label(index: usize, thread: &ResolvedThread) -> (r: String)
    ensures
        r@ == label_of(index as int, thread.name@, thread.tid@),
{
    let mut s = thread.name.clone();
    text::push_text(&mut s, " [tid=");
    text::push_text(&mut s, thread.tid.as_str());
    text::push_text(&mut s, ", index=");
    text::push_decimal(&mut s, index as u128);
    text::push_text(&mut s, "]");
    s
}

/// Whether a thread belongs to a scope: it has samples in the window, and one
/// of the prefixes where there are any.
pub open spec fn in_scope(
    t: ResolvedThread,
    prefixes: Seq<Seq<char>>,
    range: AnalysisRange,
) -> bool {
    samples::samples_counted(t, Some(range)) > 0 && (prefixes.len() == 0 || exists|i: int|
        0 <= i < prefixes.len() && has_prefix(t.name@, #[trigger] prefixes[i]))
}

/// The threads of a scope among the first `n`.
pub open spec fn scope_indices(
    threads: Seq<ResolvedThread>,
    prefixes: Seq<Seq<char>>,
    range: AnalysisRange,
    n: int,
) -> Seq<int>
    decreases n,
{
    if n <= 0 {
        Seq::empty()
    } else {
        let before = scope_indices(threads, prefixes, range, n - 1);
        if in_scope(threads[n - 1], prefixes, range) {
            before.push(n - 1)
        } else {
            before
        }
    }
}

/// What indices say.
pub open spec fn positions(s: Seq<usize>) -> Seq<int> {
    Seq::new(s.len(), |i: int| s[i] as int)
}

/// Whether a name has one of some prefixes.
pub(crate) fn has_any_prefix(name: &str, prefixes: &Vec<String>) -> (r: bool)
    ensures
        r == exists|i: int|
            0 <= i < text::views(prefixes@).len() && has_prefix(
                name@,
                #[trigger] text::views(prefixes@)[i],
            ),
{
    let mut i: usize = 0;
    while i < prefixes.len()
        invariant
            i <= prefixes@.len(),
            forall|k: int| 0 <= k < i ==> !has_prefix(name@, #[trigger] text::views(prefixes@)[k]),
        decreases prefixes@.len() - i,
    {
        if thread_name_matches_prefix(name, prefixes[i].as_str()) {
            assert(has_prefix(name@, text::views(prefixes@)[i as int]));
            return true;
        }
        i += 1;
    }
    false
}

/// The threads of a scope.
pub(crate) fn find_scope(threads: &Vec<ResolvedThread>, prefixes: &Vec<String>, range: &AnalysisRange) -> (r: Vec<
    usize,
>)
    ensures
        positions(r@) == scope_indices(
            threads@,
            text::views(prefixes@),
            *range,
            threads@.len() as int,
        ),
        forall|k: int| 0 <= k < r@.len() ==> #[trigger] r@[k] < threads@.len(),
{
    let mut indices: Vec<usize> = Vec::new();
    let mut n: usize = 0;
    assert(positions(indices@) =~= Seq::<int>::empty());
    while n < threads.len()
        invariant
            n <= threads@.len(),
            positions(indices@) == scope_indices(
                threads@,
                text::views(prefixes@),
                *range,
                n as int,
            ),
            forall|k: int| 0 <= k < indices@.len() ==> #[trigger] indices@[k] < threads@.len(),
        decreases threads@.len() - n,
    {
        let ghost before = indices@;
        if (prefixes.len() == 0 || has_any_prefix(threads[n].name.as_str(), prefixes))
            && samples::sample_count(&threads[n], Some(range)) > 0 {
            indices.push(n);
            assert(positions(indices@) =~= positions(before).push(n as int));
        }
        n += 1;
    }
    indices
}

/// A scope of threads, or why there is none.
pub type ScopeFacts = Result<(Seq<char>, Seq<int>, Option<int>), Seq<char>>;

/// The scope of all threads with one of some prefixes.
pub open spec fn prefix_scope(
    threads: Seq<ResolvedThread>,
    prefixes: Seq<Seq<char>>,
    range: AnalysisRange,
) -> ScopeFacts {
    let indices = scope_indices(threads, prefixes, range, threads.len() as int);
    let names = text::joined(prefixes, ", "@);
    if indices.len() == 0 {
        Err("No threads matched prefix(es): "@ + names)
    } else {
        Ok(("thread prefix(es): "@ + names, indices, None))
    }
}

/// The scope of one thread.
pub open spec fn single_scope(threads: Seq<ResolvedThread>, choice: Choice) -> ScopeFacts {
    match choice {
        Ok(i) => Ok((label_of(i, threads[i].name@, threads[i].tid@), seq![i], Some(i))),
        Err(e) => Err(e),
    }
}

/// Why one cannot ask for a thread and for prefixes at once.
pub open spec fn conflict_error() -> Seq<char> {
    "Use either thread/tid/thread_index or thread_name_prefix, not both"@
}

/// The threads that a request is about: one thread, those with a prefix, or
/// else all with samples in the window.
pub open spec fn any_scope(
    threads: Seq<ResolvedThread>,
    name: Option<Seq<char>>,
    tid: Option<Seq<char>>,
    thread_index: Option<usize>,
    prefixes: Seq<Seq<char>>,
    range: AnalysisRange,
) -> ScopeFacts {
    let explicit = name is Some || tid is Some || thread_index is Some;
    if explicit && prefixes.len() > 0 {
        Err(conflict_error())
    } else if explicit {
        single_scope(threads, sampled_selection(threads, name, tid, thread_index, range))
    } else if prefixes.len() > 0 {
        prefix_scope(threads, prefixes, range)
    } else {
        let indices = scope_indices(threads, prefixes, range, threads.len() as int);
        if indices.len() == 0 {
            Err("No sampled threads found"@)
        } else {
            Ok(("all sampled threads"@, indices, None))
        }
    }
}

/// The threads that a request is about: those with a prefix, or else one thread.
pub open spec fn narrow_scope(
    threads: Seq<ResolvedThread>,
    name: Option<Seq<char>>,
    tid: Option<Seq<char>>,
    thread_index: Option<usize>,
    prefixes: Seq<Seq<char>>,
    range: AnalysisRange,
) -> ScopeFacts {
    let explicit = name is Some || tid is Some || thread_index is Some;
    if explicit && prefixes.len() > 0 {
        Err(conflict_error())
    } else if prefixes.len() > 0 {
        prefix_scope(threads, prefixes, range)
    } else {
        single_scope(threads, sampled_selection(threads, name, tid, thread_index, range))
    }
}

/// Threads that a request is about.
pub struct ThreadScopeSelection<'a> {
    pub scope: String,
    pub thread_indices: Vec<usize>,
    pub selected_thread: Option<SelectedThread<'a>>,
}

/// What a scope says.
pub open spec fn scope_facts(r: Result<ThreadScopeSelection, String>) -> ScopeFacts {
    match r {
        Ok(s) => Ok(
            (
                s.scope@,
                positions(s.thread_indices@),
                match s.selected_thread {
                    Some(t) => Some(t.index as int),
                    None => None,
                },
            ),
        ),
        Err(e) => Err(e@),
    }
}

/// Whether a scope leads to threads of a profile.
pub open spec fn scope_points_into(
    r: Result<ThreadScopeSelection, String>,
    threads: Seq<ResolvedThread>,
) -> bool {
    r matches Ok(s) ==> (forall|k: int|
        0 <= k < s.thread_indices@.len() ==> #[trigger] s.thread_indices@[k] < threads.len()) && (
    s.selected_thread matches Some(t) ==> t.index < threads.len() && *t.thread
        == threads[t.index as int])
}

/// The scope of all threads with one of some prefixes.
fn select_prefix_scope<'a>(
    threads: &'a Vec<ResolvedThread>,
    prefixes: &Vec<String>,
    range: &AnalysisRange,
) -> (r: Result<ThreadScopeSelection<'a>, String>)
    ensures
        scope_facts(r) == prefix_scope(threads@, text::views(prefixes@), *range),
        scope_points_into(r, threads@),
{
    let thread_indices = find_scope(threads, prefixes, range);
    let names = text::join_text(prefixes, ", ");
    assert(positions(thread_indices@).len() == thread_indices@.len());
    if thread_indices.len() == 0 {
        let mut error = "No threads matched prefix(es): ".to_string();
        text::push_text(&mut error, names.as_str());
        return Err(error);
    }
    let mut scope = "thread prefix(es): ".to_string();
    text::push_text(&mut scope, names.as_str());
    Ok(ThreadScopeSelection { scope, thread_indices, selected_thread: None })
}

/// The scope of one thread.
fn select_single_scope<'a>(
    profile: &'a ResolvedProfile,
    thread: &Option<String>,
    tid: &Option<String>,
    thread_index: Option<usize>,
    range: &AnalysisRange,
) -> (r: Result<ThreadScopeSelection<'a>, String>)
    ensures
        scope_facts(r) == single_scope(
            profile.threads@,
            sampled_selection(
                profile.threads@,
                text::opt(*thread),
                text::opt(*tid),
                thread_index,
                *range,
            ),
        ),
        scope_points_into(r, profile.threads@),
{
    match select_sample_thread(profile, thread, tid, thread_index, range) {
        Ok(selected) => {
            let scope = thread_label(selected.index, selected.thread);
            let mut thread_indices: Vec<usize> = Vec::new();
            thread_indices.push(selected.index);
            assert(positions(thread_indices@) =~= seq![selected.index as int]);
            Ok(ThreadScopeSelection { scope, thread_indices, selected_thread: Some(selected) })
        },
        Err(e) => Err(e),
    }
}

/// The threads that a request is about: one thread, those with a prefix, or
/// else all with samples in the window.
pub fn select_thread_indices_for_scope<'a>(
    profile: &'a ResolvedProfile,
    thread: &Option<String>,
    tid: &Option<String>,
    thread_index: Option<usize>,
    thread_name_prefix: &Option<String>,
    thread_name_prefixes: &Vec<String>,
    range: &AnalysisRange,
) -> (r: Result<ThreadScopeSelection<'a>, String>)
    ensures
        scope_facts(r) == any_scope(
            profile.threads@,
            text::opt(*thread),
            text::opt(*tid),
            thread_index,
            requested(text::opt(*thread_name_prefix), text::views(thread_name_prefixes@)),
            *range,
        ),
        scope_points_into(r, profile.threads@),
{
    let prefixes = requested_thread_prefixes(thread_name_prefix, thread_name_prefixes);
    assert(text::views(prefixes@).len() == prefixes@.len());
    let explicit: bool = thread.is_some() || tid.is_some() || thread_index.is_some();
    if explicit && prefixes.len() > 0 {
        return Err("Use either thread/tid/thread_index or thread_name_prefix, not both".to_string());
    }
    if explicit {
        return select_single_scope(profile, thread, tid, thread_index, range);
    }
    if prefixes.len() > 0 {
        return select_prefix_scope(&profile.threads, &prefixes, range);
    }
    let thread_indices = find_scope(&profile.threads, &prefixes, range);
    assert(positions(thread_indices@).len() == thread_indices@.len());
    if thread_indices.len() == 0 {
        return Err("No sampled threads found".to_string());
    }
    Ok(
        ThreadScopeSelection {
            scope: "all sampled threads".to_string(),
            thread_indices,
            selected_thread: None,
        },
    )
}

/// The threads that a request is about: those with a prefix, or else one thread.
pub fn select_thread_indices_for_single_or_prefix_scope<'a>(
    profile: &'a ResolvedProfile,
    thread: &Option<String>,
    tid: &Option<String>,
    thread_index: Option<usize>,
    thread_name_prefix: &Option<String>,
    thread_name_prefixes: &Vec<String>,
    range: &AnalysisRange,
) -> (r: Result<ThreadScopeSelection<'a>, String>)
    ensures
        scope_facts(r) == narrow_scope(
            profile.threads@,
            text::opt(*thread),
            text::opt(*tid),
            thread_index,
            requested(text::opt(*thread_name_prefix), text::views(thread_name_prefixes@)),
            *range,
        ),
        scope_points_into(r, profile.threads@),
{
    let prefixes = requested_thread_prefixes(thread_name_prefix, thread_name_prefixes);
    assert(text::views(prefixes@).len() == prefixes@.len());
    let explicit: bool = thread.is_some() || tid.is_some() || thread_index.is_some();
    if explicit && prefixes.len() > 0 {
        return Err("Use either thread/tid/thread_index or thread_name_prefix, not both".to_string());
    }
    if prefixes.len() > 0 {
        return select_prefix_scope(&profile.threads, &prefixes, range);
    }
    select_single_scope(profile, thread, tid, thread_index, range)
}

/// An index selects exactly its thread, whatever threads share its name.
pub proof fn law_indices_select_their_threads(
    threads: Seq<ResolvedThread>,
    name: Option<Seq<char>>,
    tid: Option<Seq<char>>,
    index: usize,
    range: AnalysisRange,
)
    requires
        index < threads.len(),
    ensures
        selection(threads, name, tid, Some(index)) == Ok::<int, Seq<char>>(index as int),
        sampled_selection(threads, name, tid, Some(index), range) == Ok::<int, Seq<char>>(
            index as int,
        ),
{
}

/// The id of a thread selects a thread with that id, and where no other thread
/// has it, exactly that thread.
pub proof fn law_ids_select_their_threads(
    threads: Seq<ResolvedThread>,
    name: Option<Seq<char>>,
    index: int,
    range: AnalysisRange,
)
    requires
        0 <= index < threads.len(),
    ensures
        ({
            let tid = threads[index].tid@;
            let choice = selection(threads, name, Some(tid), None);
            &&& choice matches Ok(i) && 0 <= i <= index && threads[i].tid@ == tid
            &&& (forall|i: int|
                0 <= i < threads.len() && (#[trigger] threads[i]).tid@ == tid ==> i == index)
                ==> choice == Ok::<int, Seq<char>>(index)
            &&& sampled_selection(threads, name, Some(tid), None, range) == choice
        }),
{
    lemma_tid_found(threads, index, 0);
}

proof fn lemma_tid_found(threads: Seq<ResolvedThread>, index: int, from: int)
    requires
        0 <= from <= index < threads.len(),
    ensures
        with_tid(threads, threads[index].tid@, from) matches Some(i) && from <= i <= index
            && threads[i].tid@ == threads[index].tid@,
    decreases threads.len() - from,
{
    if threads[from].tid@ != threads[index].tid@ {
        lemma_tid_found(threads, index, from + 1);
    }
}

/// The prefixes of a request stand once each, have no white space around them
/// and are not empty. Each is one that was given, and every given one that is
/// more than white space is there.
pub proof fn law_requested_prefixes(single: Option<Seq<char>>, list: Seq<Seq<char>>)
    ensures
        ({
            let r = requested(single, list);
            &&& r.no_duplicates()
            &&& forall|i: int|
                0 <= i < r.len() ==> (#[trigger] r[i]).len() > 0 && (single is Some && r[i]
                    == text::trimmed(single->0) || exists|k: int|
                    0 <= k < list.len() && r[i] == text::trimmed(#[trigger] list[k]))
            &&& single matches Some(s) ==> (text::trimmed(s).len() > 0 ==> r.len() > 0 && r[0]
                == text::trimmed(s))
            &&& forall|k: int|
                0 <= k < list.len() && text::trimmed(#[trigger] list[k]).len() > 0 ==> r.contains(
                    text::trimmed(list[k]),
                )
        }),
    decreases list.len(),
{
    let r = requested(single, list);
    if list.len() > 0 {
        let rest = list.drop_last();
        let before = requested(single, rest);
        law_requested_prefixes(single, rest);
        assert forall|i: int| 0 <= i < r.len() implies (#[trigger] r[i]).len() > 0 && (single is Some
            && r[i] == text::trimmed(single->0) || exists|k: int|
            0 <= k < list.len() && r[i] == text::trimmed(#[trigger] list[k])) by {
            if i < before.len() {
                assert(r[i] == before[i]);
                if !(single is Some && r[i] == text::trimmed(single->0)) {
                    let k = choose|k: int|
                        0 <= k < rest.len() && before[i] == text::trimmed(#[trigger] rest[k]);
                    assert(list[k] == rest[k]);
                }
            } else {
                assert(r[i] == text::trimmed(list[list.len() - 1]));
            }
        }
        assert forall|k: int|
            0 <= k < list.len() && text::trimmed(#[trigger] list[k]).len() > 0 implies r.contains(
            text::trimmed(list[k]),
        ) by {
            let s = text::trimmed(list[k]);
            if k < rest.len() {
                assert(rest[k] == list[k]);
                let i = choose|i: int| 0 <= i < before.len() && before[i] == s;
                assert(r[i] == s);
            } else if before.contains(s) {
                let i = choose|i: int| 0 <= i < before.len() && before[i] == s;
                assert(r[i] == s);
            } else {
                assert(r[before.len() as int] == s);
            }
        }
        assert(r.no_duplicates()) by {
            assert forall|i: int, j: int| 0 <= i < r.len() && 0 <= j < r.len() && i != j implies r[i]
                != r[j] by {
                if i < before.len() && j < before.len() {
                    assert(before[i] != before[j]);
                } else if i < before.len() {
                    assert(before.contains(before[i]));
                } else if j < before.len() {
                    assert(before.contains(before[j]));
                }
            }
        }
    }
}

/// A thread is in a scope exactly where it has samples in the window and, where
/// prefixes are given, one of them; threads of a scope stand in their order.
pub proof fn law_scopes_hold_their_threads(
    threads: Seq<ResolvedThread>,
    prefixes: Seq<Seq<char>>,
    range: AnalysisRange,
    n: int,
)
    requires
        0 <= n <= threads.len(),
    ensures
        ({
            let r = scope_indices(threads, prefixes, range, n);
            &&& forall|i: int, j: int|
                #![trigger r[i], r[j]]
                0 <= i < j < r.len() ==> r[i] < r[j]
            &&& forall|i: int| 0 <= i < r.len() ==> 0 <= #[trigger] r[i] < n
            &&& forall|k: int|
                #![trigger threads[k]]
                0 <= k < n ==> (r.contains(k) <==> samples::samples_counted(threads[k], Some(range))
                    > 0 && (prefixes.len() == 0 || exists|i: int|
                    0 <= i < prefixes.len() && has_prefix(threads[k].name@, #[trigger] prefixes[i])))
        }),
    decreases n,
{
    if n > 0 {
        let before = scope_indices(threads, prefixes, range, n - 1);
        let r = scope_indices(threads, prefixes, range, n);
        law_scopes_hold_their_threads(threads, prefixes, range, n - 1);
        assert forall|k: int|
            #![trigger threads[k]]
            0 <= k < n implies (r.contains(k) <==> samples::samples_counted(threads[k], Some(range))
            > 0 && (prefixes.len() == 0 || exists|i: int|
            0 <= i < prefixes.len() && has_prefix(threads[k].name@, #[trigger] prefixes[i]))) by {
            if before.contains(k) {
                let i = choose|i: int| 0 <= i < before.len() && before[i] == k;
                assert(r[i] == k);
            }
            if r.contains(k) {
                let i = choose|i: int| 0 <= i < r.len() && r[i] == k;
                if i < before.len() {
                    assert(before[i] == k);
                }
            }
            if k == n - 1 && in_scope(threads[k], prefixes, range) {
                assert(r[before.len() as int] == k);
            }
        }
    }
}

/// The family of a thread is its name without the digits at the end, unless
/// the name is made of digits alone.
pub proof fn law_families_drop_numbers(name: Seq<char>)
    ensures
        family(name) == name.take(family(name).len() as int),
        family(name).len() < name.len() ==> family(name).len() > 0 && !('0' <= family(name).last()
            && family(name).last() <= '9') && forall|k: int|
            family(name).len() <= k < name.len() ==> '0' <= #[trigger] name[k] && name[k] <= '9',
        name.len() > 0 && family(name).len() == name.len() ==> !('0' <= name.last() && name.last()
            <= '9') || forall|k: int| 0 <= k < name.len() ==> '0' <= #[trigger] name[k] && name[k]
            <= '9',
{
    text::lemma_trimmed_end(name, is_digit());
    let s = text::trimmed_end_by(name, is_digit());
    assert forall|k: int| s.len() <= k < name.len() implies '0' <= #[trigger] name[k] && name[k]
        <= '9' by {
        assert(is_digit()(name[k]));
    }
    if s.len() > 0 {
        assert(!is_digit()(s.last()));
    }
    assert(name.take(name.len() as int) =~= name);
}

/// A request is about one thread where it names one, about the threads with its
/// prefixes where it gives some, and else about all threads with samples in the
/// window. It may not ask for both.
pub proof fn law_scopes_follow_requests(
    threads: Seq<ResolvedThread>,
    name: Option<Seq<char>>,
    tid: Option<Seq<char>>,
    thread_index: Option<usize>,
    prefixes: Seq<Seq<char>>,
    range: AnalysisRange,
)
    ensures
        ({
            let wide = any_scope(threads, name, tid, thread_index, prefixes, range);
            let narrow = narrow_scope(threads, name, tid, thread_index, prefixes, range);
            let names_one = name is Some || tid is Some || thread_index is Some;
            &&& names_one && prefixes.len() > 0 ==> wide is Err && narrow is Err
            &&& names_one && prefixes.len() == 0 ==> wide == narrow && (wide matches Ok(
                (_, indices, only),
            ) ==> indices.len() == 1 && only == Some(indices[0]) && sampled_selection(
                threads,
                name,
                tid,
                thread_index,
                range,
            ) == Ok::<int, Seq<char>>(indices[0]))
            &&& !names_one && prefixes.len() > 0 ==> wide == narrow && (wide matches Ok(
                (_, indices, only),
            ) ==> only is None && indices == scope_indices(
                threads,
                prefixes,
                range,
                threads.len() as int,
            ) && indices.len() > 0)
            &&& !names_one && prefixes.len() == 0 ==> (wide matches Ok((_, indices, only)) ==> only
                is None && indices.len() > 0 && forall|k: int|
                #![trigger threads[k]]
                0 <= k < threads.len() ==> (indices.contains(k) <==> samples::samples_counted(
                    threads[k],
                    Some(range),
                ) > 0))
            &&& thread_index matches Some(i) ==> i < threads.len() && prefixes.len() == 0 ==> (wide
                matches Ok((_, indices, _)) && indices == seq![i as int])
        }),
{
    law_scopes_hold_their_threads(threads, prefixes, range, threads.len() as int);
}

}
