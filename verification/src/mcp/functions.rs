//! Functions of threads: their times, and finding them by name.
use crate::analysis::functions;
use crate::analysis::functions::FunctionStats;
use crate::analysis::samples::AnalysisRange;
use crate::analysis::symbols;
use crate::filters;
use crate::mcp::analysis_cache;
use crate::mcp::analysis_cache::AnalysisCache;
use crate::profile::resolved::ResolvedProfile;
use crate::rank;
use crate::text;
use vstd::prelude::*;

verus! {

/// The window that function times are taken over: none where it is the whole
/// profile.
pub open spec fn stats_window(p: ResolvedProfile, range: AnalysisRange) -> Option<AnalysisRange> {
    if range.start_time_ms == 0 && range.end_time_ms == p.duration_ms {
        None
    } else {
        Some(range)
    }
}

/// Whether rows state the times of the functions of a thread, if it exists.
pub open spec fn table_for(
    rows: Seq<FunctionStats>,
    p: ResolvedProfile,
    index: int,
    range: AnalysisRange,
) -> bool {
    if 0 <= index < p.threads@.len() {
        functions::is_function_table(
            rows,
            p.threads@[index],
            p.interval_ms,
            stats_window(p, range),
        )
    } else {
        rows.len() == 0
    }
}

/// The times of the functions of a thread. Those over the whole profile are
/// kept.
pub fn function_stats_for_thread(
    profile: &ResolvedProfile,
    cache: &mut AnalysisCache,
    thread_index: usize,
    range: &AnalysisRange,
) -> (r: Vec<FunctionStats>)
    requires
        old(cache).belongs_to(*profile),
    ensures
        old(cache).grows_into(*final(cache), *profile),
        table_for(r@, *profile, thread_index as int, *range),
        final(cache).tables() == if thread_index < profile.threads@.len() && stats_window(
            *profile,
            *range,
        ) is None {
            old(cache).tables().update(thread_index as int, Some(r@))
        } else {
            old(cache).tables()
        },
{
    if range.is_full_profile(profile) {
        return match cache.function_stats(profile, thread_index) {
            Some(rows) => {
                assert(cache.tables()[thread_index as int] == Some(rows@));
                rows
            },
            None => Vec::new(),
        };
    }
    if thread_index >= profile.threads.len() {
        return Vec::new();
    }
    let thread = &profile.threads[thread_index];
    functions::compute_function_stats(thread, profile.interval_ms, Some(range))
}

/// The rows of tables, one table per thread.
pub open spec fn table_rows(tables: Seq<Vec<FunctionStats>>) -> Seq<Seq<FunctionStats>> {
    Seq::new(tables.len(), |i: int| tables[i]@)
}

/// Whether tables state the times of the functions of some threads of a
/// profile; the tables of other threads are empty.
pub open spec fn tables_for(
    tables: Seq<Seq<FunctionStats>>,
    p: ResolvedProfile,
    indices: Seq<usize>,
    range: AnalysisRange,
) -> bool {
    tables.len() == p.threads@.len() && forall|i: int|
        0 <= i < tables.len() ==> if indices.contains(i as usize) {
            table_for(#[trigger] tables[i], p, i, range)
        } else {
            tables[i].len() == 0
        }
}

/// The times of the functions of some threads.
pub fn function_stats_for_threads(
    profile: &ResolvedProfile,
    cache: &mut AnalysisCache,
    thread_indices: &Vec<usize>,
    range: &AnalysisRange,
) -> (r: Vec<Vec<FunctionStats>>)
    requires
        old(cache).belongs_to(*profile),
    ensures
        old(cache).grows_into(*final(cache), *profile),
        tables_for(table_rows(r@), *profile, thread_indices@, *range),
{
    let size: usize = profile.threads.len();
    let mut wanted: Vec<bool> = Vec::new();
    let mut k: usize = 0;
    while k < size
        invariant
            k <= size,
            wanted@.len() == k,
            forall|i: int| 0 <= i < k ==> !(#[trigger] wanted@[i]),
        decreases size - k,
    {
        wanted.push(false);
        k += 1;
    }
    let mut m: usize = 0;
    while m < thread_indices.len()
        invariant
            m <= thread_indices@.len(),
            wanted@.len() == size,
            forall|i: int|
                0 <= i < size ==> #[trigger] wanted@[i] == thread_indices@.take(
                    m as int,
                ).contains(i as usize),
        decreases thread_indices@.len() - m,
    {
        let index: usize = thread_indices[m];
        let ghost before = wanted@;
        if index < size {
            wanted.set(index, true);
        }
        proof {
            let old_part = thread_indices@.take(m as int);
            let new_part = thread_indices@.take(m + 1);
            assert(new_part =~= old_part.push(index));
            assert forall|i: int| 0 <= i < size implies #[trigger] wanted@[i] == new_part.contains(
                i as usize,
            ) by {
                assert(before[i] == old_part.contains(i as usize));
                if old_part.contains(i as usize) {
                    let q = choose|q: int| 0 <= q < old_part.len() && old_part[q] == i as usize;
                    assert(new_part[q] == i as usize);
                }
                if i == index {
                    assert(new_part[m as int] == i as usize);
                }
                if new_part.contains(i as usize) {
                    let q = choose|q: int| 0 <= q < new_part.len() && new_part[q] == i as usize;
                    if q < m {
                        assert(old_part[q] == i as usize);
                    }
                }
            }
        }
        m += 1;
    }
    assert(thread_indices@.take(thread_indices@.len() as int) =~= thread_indices@);
    let ghost before = *cache;
    let mut tables: Vec<Vec<FunctionStats>> = Vec::new();
    let mut n: usize = 0;
    while n < size
        invariant
            before.grows_into(*cache, *profile),
            n <= size == profile.threads@.len(),
            wanted@.len() == size,
            forall|i: int|
                0 <= i < size ==> #[trigger] wanted@[i] == thread_indices@.contains(i as usize),
            tables@.len() == n,
            forall|i: int|
                0 <= i < n ==> if thread_indices@.contains(i as usize) {
                    table_for((#[trigger] tables@[i])@, *profile, i, *range)
                } else {
                    tables@[i]@.len() == 0
                },
        decreases size - n,
    {
        assert(wanted@[n as int] == thread_indices@.contains(n));
        if wanted[n] {
            let ghost middle = *cache;
            tables.push(function_stats_for_thread(profile, cache, n, range));
            proof {
                analysis_cache::lemma_grows_on(before, middle, *cache, *profile);
            }
        } else {
            tables.push(Vec::new());
        }
        n += 1;
    }
    tables
}

/// Rows rank by falling total time, or else by falling self time.
pub open spec fn by_time(sort_by: Seq<char>) -> spec_fn(FunctionStats) -> Seq<i128> {
    |row: FunctionStats|
        if sort_by == "total"@ {
            rank::descending(row.total_time_ms as int)
        } else {
            rank::descending(row.self_time_ms as int)
        }
}

/// The rows by falling total time, or else by falling self time; equal ones
/// keep their order.
pub fn sort_function_stats(stats: Vec<FunctionStats>, sort_by: &str) -> (r: Vec<FunctionStats>)
    ensures
        r@ == rank::ranked(stats@, by_time(sort_by@)),
        r@.len() == stats@.len(),
{
    let total: bool = text::text_eq(sort_by, "total");
    let ghost all = stats@;
    let ghost order = by_time(sort_by@);
    let mut keys: Vec<Vec<i128>> = Vec::new();
    let mut i: usize = 0;
    while i < stats.len()
        invariant
            i <= stats@.len(),
            all == stats@,
            total == (sort_by@ == "total"@),
            order == by_time(sort_by@),
            keys@.len() == i,
            forall|k: int| 0 <= k < i ==> (#[trigger] keys@[k])@ == order(all[k]),
        decreases stats@.len() - i,
    {
        let mut key: Vec<i128> = Vec::new();
        let time: u64 = if total {
            stats[i].total_time_ms
        } else {
            stats[i].self_time_ms
        };
        rank::push_descending(&mut key, time as u128);
        assert(key@ =~= order(all[i as int]));
        keys.push(key);
        i += 1;
    }
    assert(rank::key_views(keys@) =~= rank::keys_of(all, order));
    rank::arrange(stats, &keys)
}

/// The rows of the selected tables among the first `n`, in the order of their threads.
pub open spec fn rows_in(
    tables: Seq<Seq<FunctionStats>>,
    selected: Option<Seq<usize>>,
    n: int,
) -> Seq<FunctionStats>
    decreases n,
{
    if n <= 0 {
        Seq::empty()
    } else {
        let before = rows_in(tables, selected, n - 1);
        if selected matches Some(indices) ==> indices.contains((n - 1) as usize) {
            before + tables[n - 1]
        } else {
            before
        }
    }
}

/// The first row with an identifier, looking from `from` on.
pub open spec fn with_id(rows: Seq<FunctionStats>, id: Seq<char>, from: int) -> Option<Seq<char>>
    decreases rows.len() - from,
{
    if from < 0 || from >= rows.len() {
        None
    } else if symbols::id_of(rows[from].name@) == id {
        Some(rows[from].name@)
    } else {
        with_id(rows, id, from + 1)
    }
}

/// Whether some row matches a query and has exactly its name.
pub open spec fn has_exact(rows: Seq<FunctionStats>, query: Seq<char>, mode: Seq<char>) -> bool {
    exists|i: int|
        0 <= i < rows.len() && (#[trigger] rows[i]).name@ == query && filters::name_matches(
            rows[i].name@,
            query,
            mode,
        )
}

/// The matching row with the most total time among the first `n`, the first
/// one of several.
pub open spec fn heaviest(
    rows: Seq<FunctionStats>,
    query: Seq<char>,
    mode: Seq<char>,
    n: int,
) -> Option<int>
    decreases n,
{
    if n <= 0 {
        None
    } else {
        let best = heaviest(rows, query, mode, n - 1);
        if !filters::name_matches(rows[n - 1].name@, query, mode) {
            best
        } else {
            match best {
                Some(b) => if rows[n - 1].total_time_ms > rows[b].total_time_ms {
                    Some(n - 1)
                } else {
                    Some(b)
                },
                None => Some(n - 1),
            }
        }
    }
}

/// The function that a request means: the one with the identifier, or else
/// the one whose name is the query, or else the matching one with the most
/// total time.
pub open spec fn meant(
    rows: Seq<FunctionStats>,
    query: Option<Seq<char>>,
    id: Option<Seq<char>>,
    mode: Seq<char>,
) -> Option<Seq<char>> {
    match (id, query) {
        (Some(id), _) => with_id(rows, id, 0),
        (None, Some(query)) => if has_exact(rows, query, mode) {
            Some(query)
        } else {
            match heaviest(rows, query, mode, rows.len() as int) {
                Some(i) => Some(rows[i].name@),
                None => None,
            }
        },
        (None, None) => None,
    }
}

/// What the function that a request means is called.
pub open spec fn name_in(r: Option<String>) -> Option<Seq<char>> {
    text::opt(r)
}

/// A table row by its table and position.
#[derive(Clone, Copy)]
struct RowAt {
    table: usize,
    row: usize,
}

/// The rows that positions lead to.
spec fn rows_at(tables: Seq<Vec<FunctionStats>>, at: Seq<RowAt>) -> Seq<FunctionStats> {
    Seq::new(at.len(), |i: int| tables[at[i].table as int]@[at[i].row as int])
}

/// Whether positions lead to rows.
spec fn all_valid(tables: Seq<Vec<FunctionStats>>, at: Seq<RowAt>) -> bool {
    forall|i: int|
        0 <= i < at.len() ==> (#[trigger] at[i]).table < tables.len() && at[i].row
            < tables[at[i].table as int]@.len()
}

/// Whether an index is selected.
fn is_selected(selected: Option<&Vec<usize>>, index: usize) -> (r: bool)
    ensures
        r == (indices_of(selected) matches Some(indices) ==> indices.contains(index)),
{
    match selected {
        Some(indices) => {
            let mut i: usize = 0;
            while i < indices.len()
                invariant
                    i <= indices@.len(),
                    indices_of(selected) == Some(indices@),
                    forall|k: int| 0 <= k < i ==> #[trigger] indices@[k] != index,
                decreases indices@.len() - i,
            {
                if indices[i] == index {
                    assert(indices@[i as int] == index);
                    return true;
                }
                i += 1;
            }
            false
        },
        None => true,
    }
}

/// The selected indices.
pub open spec fn indices_of(selected: Option<&Vec<usize>>) -> Option<Seq<usize>> {
    match selected {
        Some(indices) => Some(indices@),
        None => None,
    }
}

/// The positions of the rows of the selected tables.
fn select_rows(tables: &Vec<Vec<FunctionStats>>, selected: Option<&Vec<usize>>) -> (r: Vec<RowAt>)
    ensures
        all_valid(tables@, r@),
        rows_at(tables@, r@) == rows_in(
            table_rows(tables@),
            indices_of(selected),
            tables@.len() as int,
        ),
{
    let ghost chosen = indices_of(selected);
    let mut at: Vec<RowAt> = Vec::new();
    let mut n: usize = 0;
    assert(rows_at(tables@, at@) =~= Seq::<FunctionStats>::empty());
    while n < tables.len()
        invariant
            n <= tables@.len(),
            chosen == indices_of(selected),
            all_valid(tables@, at@),
            rows_at(tables@, at@) == rows_in(table_rows(tables@), chosen, n as int),
        decreases tables@.len() - n,
    {
        let ghost base = rows_in(table_rows(tables@), chosen, n as int);
        if is_selected(selected, n) {
            let table = &tables[n];
            let mut row: usize = 0;
            assert(base + table@.take(0) =~= base);
            while row < table.len()
                invariant
                    n < tables@.len(),
                    *table == tables@[n as int],
                    row <= table@.len(),
                    all_valid(tables@, at@),
                    rows_at(tables@, at@) == base + table@.take(row as int),
                decreases table@.len() - row,
            {
                let ghost before = at@;
                at.push(RowAt { table: n, row });
                proof {
                    assert(rows_at(tables@, at@) =~= rows_at(tables@, before).push(
                        table@[row as int],
                    ));
                    assert(table@.take(row + 1) =~= table@.take(row as int).push(
                        table@[row as int],
                    ));
                }
                row += 1;
            }
            assert(table@.take(table@.len() as int) =~= table@);
        }
        n += 1;
    }
    at
}

/// The function that a request means, among the rows of selected tables.
#[verifier::loop_isolation(false)]
pub fn resolve_function_name_in_threads(
    stats_by_thread: &Vec<Vec<FunctionStats>>,
    query: Option<&str>,
    function_id: Option<&str>,
    match_mode: &str,
    thread_indices: Option<&Vec<usize>>,
) -> (r: Option<String>)
    ensures
        name_in(r) == meant(
            rows_in(
                table_rows(stats_by_thread@),
                indices_of(thread_indices),
                stats_by_thread@.len() as int,
            ),
            text::opt_str(query),
            text::opt_str(function_id),
            match_mode@,
        ),
{
    let at = select_rows(stats_by_thread, thread_indices);
    let ghost rows = rows_at(stats_by_thread@, at@);
    let ghost expected = meant(
        rows,
        text::opt_str(query),
        text::opt_str(function_id),
        match_mode@,
    );
    if let Some(id) = function_id {
        let mut i: usize = 0;
        while i < at.len()
            invariant
                i <= at@.len(),
                all_valid(stats_by_thread@, at@),
                rows == rows_at(stats_by_thread@, at@),
                expected == with_id(rows, id@, 0),
                with_id(rows, id@, 0) == with_id(rows, id@, i as int),
            decreases at@.len() - i,
        {
            let place = at[i];
            let row = &stats_by_thread[place.table][place.row];
            assert(*row == rows[i as int]);
            if text::text_eq(symbols::function_id(row.name.as_str()).as_str(), id) {
                return Some(row.name.clone());
            }
            i += 1;
        }
        return None;
    }
    let wanted: &str = match query {
        Some(query) => query,
        None => {
            return None;
        },
    };
    let mut best: Option<usize> = None;
    let mut n: usize = 0;
    while n < at.len()
        invariant
            n <= at@.len(),
            all_valid(stats_by_thread@, at@),
            rows == rows_at(stats_by_thread@, at@),
            expected == meant(rows, Some(wanted@), None, match_mode@),
            forall|k: int|
                0 <= k < n ==> !((#[trigger] rows[k]).name@ == wanted@ && filters::name_matches(
                    rows[k].name@,
                    wanted@,
                    match_mode@,
                )),
            best matches Some(b) ==> b < n,
            match best {
                Some(b) => heaviest(rows, wanted@, match_mode@, n as int) == Some(b as int),
                None => heaviest(rows, wanted@, match_mode@, n as int) is None,
            },
        decreases at@.len() - n,
    {
        let place = at[n];
        let row = &stats_by_thread[place.table][place.row];
        assert(*row == rows[n as int]);
        if filters::function_matches(row.name.as_str(), wanted, match_mode) {
            if text::text_eq(row.name.as_str(), wanted) {
                return Some(row.name.clone());
            }
            match best {
                Some(b) => {
                    let other = at[b];
                    if row.total_time_ms > stats_by_thread[other.table][other.row].total_time_ms {
                        best = Some(n);
                    }
                },
                None => {
                    best = Some(n);
                },
            }
        }
        n += 1;
    }
    match best {
        Some(b) => {
            let place = at[b];
            Some(stats_by_thread[place.table][place.row].name.clone())
        },
        None => None,
    }
}

/// The function that a request means, in one thread or in all.
pub fn resolve_function_name(
    stats_by_thread: &Vec<Vec<FunctionStats>>,
    query: Option<&str>,
    function_id: Option<&str>,
    match_mode: &str,
    thread_index: Option<usize>,
) -> (r: Option<String>)
    ensures
        name_in(r) == meant(
            rows_in(
                table_rows(stats_by_thread@),
                match thread_index {
                    Some(index) => Some(seq![index]),
                    None => None,
                },
                stats_by_thread@.len() as int,
            ),
            text::opt_str(query),
            text::opt_str(function_id),
            match_mode@,
        ),
{
    match thread_index {
        Some(index) => {
            let mut one: Vec<usize> = Vec::new();
            one.push(index);
            assert(one@ =~= seq![index]);
            resolve_function_name_in_threads(
                stats_by_thread,
                query,
                function_id,
                match_mode,
                Some(&one),
            )
        },
        None => resolve_function_name_in_threads(
            stats_by_thread,
            query,
            function_id,
            match_mode,
            None,
        ),
    }
}

/// A function that a request means has a row, and by identifier or query it
/// is what was asked for.
pub proof fn law_meant_function_exists(
    rows: Seq<FunctionStats>,
    query: Option<Seq<char>>,
    id: Option<Seq<char>>,
    mode: Seq<char>,
)
    ensures
        meant(rows, query, id, mode) matches Some(name) ==> functions::has_row(rows, name) && match (
            id,
            query,
        ) {
            (Some(id), _) => symbols::id_of(name) == id,
            (None, Some(query)) => filters::name_matches(name, query, mode),
            (None, None) => false,
        },
{
    match (id, query) {
        (Some(id), _) => lemma_with_id(rows, id, 0),
        (None, Some(query)) => {
            lemma_heaviest(rows, query, mode, rows.len() as int);
        },
        (None, None) => {},
    }
}

proof fn lemma_with_id(rows: Seq<FunctionStats>, id: Seq<char>, from: int)
    requires
        0 <= from,
    ensures
        with_id(rows, id, from) matches Some(name) ==> functions::has_row(rows, name)
            && symbols::id_of(name) == id,
    decreases rows.len() - from,
{
    if from < rows.len() {
        if symbols::id_of(rows[from].name@) == id {
            assert(rows[from].name@ == rows[from].name@);
        } else {
            lemma_with_id(rows, id, from + 1);
        }
    }
}

proof fn lemma_heaviest(rows: Seq<FunctionStats>, query: Seq<char>, mode: Seq<char>, n: int)
    requires
        0 <= n <= rows.len(),
    ensures
        heaviest(rows, query, mode, n) matches Some(b) ==> 0 <= b < n && filters::name_matches(
            rows[b].name@,
            query,
            mode,
        ),
    decreases n,
{
    if n > 0 {
        lemma_heaviest(rows, query, mode, n - 1);
    }
}

/// Where a function stands in its source, as far as it is known.
pub open spec fn location(file: Option<Seq<char>>, line: Option<u32>) -> Option<Seq<char>> {
    match (file, line) {
        (Some(file), Some(line)) => Some(file + ":"@ + text::decimal(line as int)),
        (Some(file), None) => Some(file),
        _ => None,
    }
}

/// Where a function stands in its source, as far as it is known.
pub fn source_location(file: &Option<String>, line: Option<u32>) -> (r: Option<String>)
    ensures
        text::opt(r) == location(text::opt(*file), line),
{
    match (file, line) {
        (Some(file), Some(line)) => {
            let mut s = file.clone();
            text::push_text(&mut s, ":");
            text::push_decimal(&mut s, line as u128);
            Some(s)
        },
        (Some(file), None) => Some(file.clone()),
        _ => None,
    }
}

/// Framework code is left out where either of two switches asks for it.
pub fn exclude_framework_enabled(exclude_framework: bool, user_code_only: bool) -> (r: bool)
    ensures
        r == (exclude_framework || user_code_only),
{
    exclude_framework || user_code_only
}

/// The text that a function's filters look at.
pub open spec fn searchable(row: FunctionStats) -> Seq<char> {
    let with_library = match text::opt(row.library) {
        Some(library) => row.name@ + " "@ + library,
        None => row.name@,
    };
    match text::opt(row.file) {
        Some(file) => with_library + " "@ + file,
        None => with_library,
    }
}

/// Whether a function passes filters by name, library and file.
pub open spec fn passes(
    row: FunctionStats,
    include_names: Option<Seq<char>>,
    exclude_names: Option<Seq<char>>,
    exclude_framework: bool,
) -> bool {
    &&& include_names matches Some(p) ==> filters::any_alternative(searchable(row), p)
    &&& exclude_names matches Some(p) ==> !filters::any_alternative(searchable(row), p)
    &&& exclude_framework ==> !symbols::framework_function(row.name@, text::opt(row.library))
}

/// Whether a function passes filters by name, library and file.
pub fn function_passes_filters(
    stats: &FunctionStats,
    include_names: &Option<String>,
    exclude_names: &Option<String>,
    exclude_framework: bool,
) -> (r: bool)
    ensures
        r == passes(
            *stats,
            text::opt(*include_names),
            text::opt(*exclude_names),
            exclude_framework,
        ),
{
    let mut s = stats.name.clone();
    match &stats.library {
        Some(library) => {
            text::push_text(&mut s, " ");
            text::push_text(&mut s, library.as_str());
        },
        None => {},
    }
    match &stats.file {
        Some(file) => {
            text::push_text(&mut s, " ");
            text::push_text(&mut s, file.as_str());
        },
        None => {},
    }
    assert(s@ =~= searchable(*stats));
    let include_hit: Option<bool> = match include_names {
        Some(p) => Some(filters::pattern_matches(s.as_str(), p.as_str())),
        None => None,
    };
    let exclude_hit: Option<bool> = match exclude_names {
        Some(p) => Some(filters::pattern_matches(s.as_str(), p.as_str())),
        None => None,
    };
    let library: Option<&str> = match &stats.library {
        Some(library) => Some(library.as_str()),
        None => None,
    };
    let framework: bool = exclude_framework && symbols::is_framework_function(
        stats.name.as_str(),
        library,
    );
    filters::frame_verdict(include_hit, None, exclude_hit, None, framework)
}

/// The identifier of a function with a row finds that function, unless another
/// row's name has the same identifier.
pub proof fn law_identifiers_find_their_functions(
    rows: Seq<FunctionStats>,
    name: Seq<char>,
    query: Option<Seq<char>>,
    mode: Seq<char>,
)
    requires
        functions::has_row(rows, name),
        forall|i: int|
            0 <= i < rows.len() && symbols::id_of((#[trigger] rows[i]).name@) == symbols::id_of(name)
                ==> rows[i].name@ == name,
    ensures
        meant(rows, query, Some(symbols::id_of(name)), mode) == Some(name),
{
    lemma_id_found(rows, name, 0);
}

proof fn lemma_id_found(rows: Seq<FunctionStats>, name: Seq<char>, from: int)
    requires
        0 <= from,
        exists|i: int| from <= i < rows.len() && (#[trigger] rows[i]).name@ == name,
        forall|i: int|
            0 <= i < rows.len() && symbols::id_of((#[trigger] rows[i]).name@) == symbols::id_of(name)
                ==> rows[i].name@ == name,
    ensures
        with_id(rows, symbols::id_of(name), from) == Some(name),
    decreases rows.len() - from,
{
    if symbols::id_of(rows[from].name@) != symbols::id_of(name) {
        lemma_id_found(rows, name, from + 1);
    }
}

/// A query means the function that it names where one has that name and
/// matches, and else a matching function such that no matching one has more
/// total time. It means none exactly where none matches.
pub proof fn law_queries_mean_the_heaviest(
    rows: Seq<FunctionStats>,
    query: Seq<char>,
    mode: Seq<char>,
)
    ensures
        match meant(rows, Some(query), None, mode) {
            Some(name) => name == query || exists|i: int|
                #![trigger rows[i]]
                0 <= i < rows.len() && rows[i].name@ == name && forall|k: int|
                    #![trigger rows[k]]
                    0 <= k < rows.len() && filters::name_matches(rows[k].name@, query, mode)
                        ==> rows[k].total_time_ms <= rows[i].total_time_ms,
            None => forall|k: int|
                #![trigger rows[k]]
                0 <= k < rows.len() ==> !filters::name_matches(rows[k].name@, query, mode),
        },
        forall|k: int|
            #![trigger rows[k]]
            0 <= k < rows.len() && rows[k].name@ == query && filters::name_matches(
                query,
                query,
                mode,
            ) ==> meant(rows, Some(query), None, mode) == Some(query),
{
    lemma_none_heavier(rows, query, mode, rows.len() as int);
    if has_exact(rows, query, mode) {
    } else {
        if let Some(i) = heaviest(rows, query, mode, rows.len() as int) {
            assert(rows[i].name@ == meant(rows, Some(query), None, mode)->0);
        }
    }
}

proof fn lemma_none_heavier(rows: Seq<FunctionStats>, query: Seq<char>, mode: Seq<char>, n: int)
    requires
        0 <= n <= rows.len(),
    ensures
        match heaviest(rows, query, mode, n) {
            Some(i) => 0 <= i < n && forall|k: int|
                #![trigger rows[k]]
                0 <= k < n && filters::name_matches(rows[k].name@, query, mode)
                    ==> rows[k].total_time_ms <= rows[i].total_time_ms,
            None => forall|k: int|
                #![trigger rows[k]]
                0 <= k < n ==> !filters::name_matches(rows[k].name@, query, mode),
        },
    decreases n,
{
    if n > 0 {
        lemma_none_heavier(rows, query, mode, n - 1);
    }
}

/// Where a function stands in its source is told by its file, and its line
/// behind a colon where that is known; without a file nothing is told.
pub proof fn law_places_name_their_file(file: Seq<char>, line: u32)
    ensures
        location(Some(file), None) == Some(file),
        location(Some(file), Some(line)) matches Some(place) && text::begins_with(place, file)
            && place.len() == file.len() + 1 + text::decimal(line as int).len() && place[
        file.len() as int] == ':' && place.skip(file.len() as int + 1) == text::decimal(line as int),
        location(None, Some(line)) is None,
        location(None, None) is None,
{
    reveal_strlit(":");
    let place = location(Some(file), Some(line))->0;
    assert(place.subrange(0, file.len() as int) =~= file);
    assert(place.skip(file.len() as int + 1) =~= text::decimal(line as int));
}

/// The rows of selected threads are those of their tables, in the order of the
/// threads, and no other thread's.
pub proof fn law_selected_rows(
    tables: Seq<Seq<FunctionStats>>,
    selected: Option<Seq<usize>>,
    n: int,
    row: FunctionStats,
)
    requires
        0 <= n <= tables.len() <= usize::MAX,
    ensures
        rows_in(tables, selected, n).contains(row) <==> exists|t: int|
            #![trigger tables[t]]
            0 <= t < n && tables[t].contains(row) && (selected is None || selected->0.contains(
                t as usize,
            )),
    decreases n,
{
    if n > 0 {
        let before = rows_in(tables, selected, n - 1);
        let after = rows_in(tables, selected, n);
        let table = tables[n - 1];
        law_selected_rows(tables, selected, n - 1, row);
        if before.contains(row) {
            let i = choose|i: int| 0 <= i < before.len() && before[i] == row;
            assert(after[i] == row);
        }
        if after.contains(row) {
            let i = choose|i: int| 0 <= i < after.len() && after[i] == row;
            if i < before.len() {
                assert(before[i] == row);
            } else {
                assert(table[i - before.len()] == row);
                assert(tables[n - 1].contains(row));
            }
        }
        if table.contains(row) && (selected is None || selected->0.contains((n - 1) as usize)) {
            let i = choose|i: int| 0 <= i < table.len() && table[i] == row;
            assert(after[before.len() + i] == row);
        }
    }
}

}
