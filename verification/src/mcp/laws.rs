//! What holds of the tools' reports as a whole.
use crate::analysis::call_tree;
use crate::analysis::call_tree::CallerRelationship;
use crate::analysis::context_switch;
use crate::analysis::functions as stats;
use crate::analysis::functions::FunctionStats;
use crate::analysis::samples;
use crate::analysis::samples::AnalysisRange;
use crate::filters;
use crate::groups;
use crate::groups::Keyed;
use crate::mcp::events;
use crate::mcp::events::MarkerInfo;
use crate::mcp::functions;
use crate::mcp::hotspots;
use crate::mcp::hotspots::{
    FunctionRow, Merged, RowFilter, TopFunctionsRequest, TopFunctionsResult,
};
use crate::mcp::lookup;
use crate::mcp::lookup::{
    CallerCalleeEntry, CountedName, NameItem, SearchFunctionsRequest, SearchFunctionsResult,
};
use crate::mcp::overview;
use crate::mcp::overview::ProfileThreadsRequest;
use crate::mcp::scope::Scope;
use crate::mcp::source;
use crate::mcp::summary;
use crate::mcp::summary::{Family, FamilyItem, ThreadSummaryGroup};
use crate::mcp::thread_groups;
use crate::mcp::thread_groups::{ThreadGroupTopFunctionsGroup, ThreadGroupTopFunctionsRequest};
use crate::mcp::threads;
use crate::mcp::trees::DrawnFocus;
use crate::mcp::under_caller;
use crate::mcp::under_caller::{
    CallFacts, FunctionUnderCallerMetrics, FunctionUnderCallerRequest, FunctionUnderCallerResult,
};
use crate::profile::resolved::{
    ResolvedMarker, ResolvedProfile, ResolvedSample, ResolvedThread,
};
use crate::rank;
use crate::sums;
use crate::text;
use crate::units;
use vstd::prelude::*;
use vstd::utf8::*;

verus! {

/// Sorting function times by `total` makes total time fall, and by anything
/// else self time. No row is lost, doubled or changed, and rows with the same
/// time stay in their order.
pub proof fn law_sorted_times_fall(stats: Seq<FunctionStats>, sort_by: Seq<char>)
    ensures
        ({
            let r = rank::ranked(stats, functions::by_time(sort_by));
            &&& r.len() == stats.len()
            &&& r.to_multiset() == stats.to_multiset()
            &&& forall|i: int, j: int|
                #![trigger r[i], r[j]]
                0 <= i < j < r.len() ==> if sort_by == "total"@ {
                    r[i].total_time_ms >= r[j].total_time_ms
                } else {
                    r[i].self_time_ms >= r[j].self_time_ms
                }
            &&& forall|k: int| 0 <= k < stats.len() ==> r.contains(#[trigger] stats[k])
            &&& forall|i: int| 0 <= i < r.len() ==> stats.contains(#[trigger] r[i])
        }),
        exists|order: Seq<int>|
            #![trigger order.no_duplicates()]
            {
                let r = rank::ranked(stats, functions::by_time(sort_by));
                &&& order.no_duplicates()
                &&& order.len() == stats.len()
                &&& forall|i: int|
                    0 <= i < stats.len() ==> 0 <= #[trigger] order[i] < stats.len() && r[i]
                        == stats[order[i]]
                &&& forall|i: int, j: int|
                    #![trigger order[i], order[j]]
                    0 <= i < j < stats.len() && (if sort_by == "total"@ {
                        stats[order[i]].total_time_ms == stats[order[j]].total_time_ms
                    } else {
                        stats[order[i]].self_time_ms == stats[order[j]].self_time_ms
                    }) ==> order[i] < order[j]
            },
{
    let key = functions::by_time(sort_by);
    let r = rank::ranked(stats, key);
    let better = |a: FunctionStats, b: FunctionStats|
        if sort_by == "total"@ {
            a.total_time_ms > b.total_time_ms
        } else {
            a.self_time_ms > b.self_time_ms
        };
    assert forall|i: int, j: int|
        #![trigger stats[i], stats[j]]
        0 <= i < stats.len() && 0 <= j < stats.len() && better(stats[i], stats[j]) implies rank::lex_before(
        key(stats[i]),
        key(stats[j]),
    ) by {
        rank::lemma_descending(stats[i].total_time_ms as int, stats[j].total_time_ms as int);
        rank::lemma_descending(stats[i].self_time_ms as int, stats[j].self_time_ms as int);
    }
    rank::lemma_ranked_prefers(stats, key, better);
    assert forall|i: int, j: int|
        #![trigger r[i], r[j]]
        0 <= i < j < r.len() implies if sort_by == "total"@ {
        r[i].total_time_ms >= r[j].total_time_ms
    } else {
        r[i].self_time_ms >= r[j].self_time_ms
    } by {
        assert(!better(r[j], r[i]));
    }
    rank::law_ranking_is_stable(stats, key);
}

proof fn lemma_kept(rows: Seq<FunctionStats>, f: RowFilter, n: int) -> (at: Seq<int>)
    requires
        0 <= n <= rows.len(),
    ensures
        at.len() == hotspots::kept(rows, f, n).len(),
        forall|i: int|
            0 <= i < at.len() ==> 0 <= #[trigger] at[i] < n && hotspots::kept(rows, f, n)[i]
                == rows[at[i]] && functions::passes(
                rows[at[i]],
                f.include_names,
                f.exclude_names,
                f.exclude_framework,
            ),
        forall|i: int, j: int|
            #![trigger at[i], at[j]]
            0 <= i < j < at.len() ==> at[i] < at[j],
        forall|k: int|
            #![trigger rows[k]]
            0 <= k < n && functions::passes(
                rows[k],
                f.include_names,
                f.exclude_names,
                f.exclude_framework,
            ) ==> at.contains(k),
    decreases n,
{
    if n == 0 {
        Seq::empty()
    } else {
        let before = lemma_kept(rows, f, n - 1);
        if functions::passes(rows[n - 1], f.include_names, f.exclude_names, f.exclude_framework) {
            let at = before.push(n - 1);
            assert forall|k: int|
                #![trigger rows[k]]
                0 <= k < n && functions::passes(
                    rows[k],
                    f.include_names,
                    f.exclude_names,
                    f.exclude_framework,
                ) implies at.contains(k) by {
                if k < n - 1 {
                    let i = choose|i: int| 0 <= i < before.len() && before[i] == k;
                    assert(at[i] == k);
                } else {
                    assert(at[before.len() as int] == k);
                }
            }
            at
        } else {
            before
        }
    }
}

/// The reported functions fall in total time where they are sorted by `total`,
/// and else in self time. Each of them is a row of the table that passes the
/// filters, and a row that passes is reported unless the limit is reached and
/// no reported function has less time than it.
pub proof fn law_heaviest_functions_lead(
    list: Seq<FunctionRow>,
    table: Seq<FunctionStats>,
    sort_by: Seq<char>,
    f: RowFilter,
    limit: usize,
)
    requires
        hotspots::function_rows(
            list,
            rank::ranked(table, functions::by_time(sort_by)),
            f,
            limit,
        ),
    ensures
        list.len() <= limit,
        forall|i: int, j: int|
            #![trigger list[i], list[j]]
            0 <= i < j < list.len() ==> if sort_by == "total"@ {
                list[i].total_time_ms >= list[j].total_time_ms
            } else {
                list[i].self_time_ms >= list[j].self_time_ms
            },
        forall|i: int|
            #![trigger list[i]]
            0 <= i < list.len() ==> exists|k: int|
                #![trigger table[k]]
                0 <= k < table.len() && table[k].name@ == list[i].name@ && table[k].self_time_ms
                    == list[i].self_time_ms && table[k].total_time_ms == list[i].total_time_ms
                    && functions::passes(
                    table[k],
                    f.include_names,
                    f.exclude_names,
                    f.exclude_framework,
                ),
        forall|k: int|
            #![trigger table[k]]
            0 <= k < table.len() && functions::passes(
                table[k],
                f.include_names,
                f.exclude_names,
                f.exclude_framework,
            ) ==> (exists|i: int|
                #![trigger list[i]]
                0 <= i < list.len() && list[i].name@ == table[k].name@ && list[i].self_time_ms
                    == table[k].self_time_ms && list[i].total_time_ms == table[k].total_time_ms)
                || (list.len() == limit && forall|i: int|
                #![trigger list[i]]
                0 <= i < list.len() ==> if sort_by == "total"@ {
                    list[i].total_time_ms >= table[k].total_time_ms
                } else {
                    list[i].self_time_ms >= table[k].self_time_ms
                }),
{
    let rows = rank::ranked(table, functions::by_time(sort_by));
    let kept = hotspots::kept(rows, f, rows.len() as int);
    let shown = context_switch::at_most(kept, limit as int);
    law_sorted_times_fall(table, sort_by);
    let at = lemma_kept(rows, f, rows.len() as int);
    assert forall|i: int| 0 <= i < list.len() implies hotspots::function_row(
        #[trigger] list[i],
        rows[at[i]],
    ) by {
        assert(shown[i] == kept[i]);
        assert(hotspots::function_row(list[i], shown[i]));
    }
    assert forall|i: int, j: int|
        #![trigger list[i], list[j]]
        0 <= i < j < list.len() implies if sort_by == "total"@ {
        list[i].total_time_ms >= list[j].total_time_ms
    } else {
        list[i].self_time_ms >= list[j].self_time_ms
    } by {
        assert(hotspots::function_row(list[i], rows[at[i]]));
        assert(hotspots::function_row(list[j], rows[at[j]]));
        assert(at[i] < at[j]);
    }
    assert forall|i: int|
        #![trigger list[i]]
        0 <= i < list.len() implies exists|k: int|
        #![trigger table[k]]
        0 <= k < table.len() && table[k].name@ == list[i].name@ && table[k].self_time_ms
            == list[i].self_time_ms && table[k].total_time_ms == list[i].total_time_ms
            && functions::passes(
            table[k],
            f.include_names,
            f.exclude_names,
            f.exclude_framework,
        ) by {
        assert(hotspots::function_row(list[i], rows[at[i]]));
        assert(table.contains(rows[at[i]]));
        let k = choose|k: int| 0 <= k < table.len() && table[k] == rows[at[i]];
        assert(table[k].name@ == list[i].name@);
    }
    assert forall|k: int|
        #![trigger table[k]]
        0 <= k < table.len() && functions::passes(
            table[k],
            f.include_names,
            f.exclude_names,
            f.exclude_framework,
        ) implies (exists|i: int|
        #![trigger list[i]]
        0 <= i < list.len() && list[i].name@ == table[k].name@ && list[i].self_time_ms
            == table[k].self_time_ms && list[i].total_time_ms == table[k].total_time_ms) || (
    list.len() == limit && forall|i: int|
        #![trigger list[i]]
        0 <= i < list.len() ==> if sort_by == "total"@ {
            list[i].total_time_ms >= table[k].total_time_ms
        } else {
            list[i].self_time_ms >= table[k].self_time_ms
        }) by {
        assert(rows.contains(table[k]));
        let p = choose|p: int| 0 <= p < rows.len() && rows[p] == table[k];
        assert(at.contains(p));
        let q = choose|q: int| 0 <= q < at.len() && at[q] == p;
        if q < list.len() {
            assert(hotspots::function_row(list[q], rows[at[q]]));
        } else {
            assert forall|i: int|
                #![trigger list[i]]
                0 <= i < list.len() implies if sort_by == "total"@ {
                list[i].total_time_ms >= table[k].total_time_ms
            } else {
                list[i].self_time_ms >= table[k].self_time_ms
            } by {
                assert(hotspots::function_row(list[i], rows[at[i]]));
                assert(at[i] < at[q]);
                assert(rows[at[q]] == table[k]);
            }
        }
    }
}

/// The functions that a report on a thread lists fall in total time where the
/// request sorts by `total`, and else in self time.
pub proof fn law_top_functions_fall(
    r: TopFunctionsResult,
    p: ResolvedProfile,
    req: TopFunctionsRequest,
    index: int,
)
    requires
        hotspots::reports_top_functions(r, p, req, index),
    ensures
        r.functions@.len() <= req.limit,
        forall|i: int, j: int|
            #![trigger r.functions@[i], r.functions@[j]]
            0 <= i < j < r.functions@.len() ==> if req.sort_by@ == "total"@ {
                r.functions@[i].total_time_ms >= r.functions@[j].total_time_ms
            } else {
                r.functions@[i].self_time_ms >= r.functions@[j].self_time_ms
            },
{
    let table = choose|table: Seq<FunctionStats>| #[trigger]
        functions::table_for(table, p, index, req.window(p)) && hotspots::answers_top_functions(
            r,
            p,
            req,
            index,
            table,
        );
    law_heaviest_functions_lead(r.functions@, table, req.sort_by@, req.row_filter(), req.limit);
}

/// The functions that a report on a group of threads lists fall in total time
/// where the request sorts by `total`, and else in self time.
pub proof fn law_group_functions_fall(
    g: ThreadGroupTopFunctionsGroup,
    p: ResolvedProfile,
    req: ThreadGroupTopFunctionsRequest,
    prefix: Seq<char>,
)
    requires
        thread_groups::reports_group(g, p, req, prefix),
    ensures
        g.functions@.len() <= req.limit,
        forall|i: int, j: int|
            #![trigger g.functions@[i], g.functions@[j]]
            0 <= i < j < g.functions@.len() ==> if req.sort_by@ == "total"@ {
                g.functions@[i].total_time_ms >= g.functions@[j].total_time_ms
            } else {
                g.functions@[i].self_time_ms >= g.functions@[j].self_time_ms
            },
{
    let (tables, stats) = choose|tables: Seq<Seq<FunctionStats>>, stats: Seq<FunctionStats>|
        #[trigger] functions::tables_for(
            tables,
            p,
            thread_groups::group_indices(p, prefix, req.window(p)),
            req.window(p),
        ) && #[trigger] hotspots::aggregates(stats, tables, g.total_time_ms)
            && thread_groups::group_row(g, p, req, prefix, stats);
    law_heaviest_functions_lead(g.functions@, stats, req.sort_by@, req.row_filter(), req.limit);
}

proof fn lemma_found_in(table: Seq<FunctionStats>, req: SearchFunctionsRequest, thread: int, n: int)
    requires
        0 <= n <= table.len(),
    ensures
        forall|k: int|
            #![trigger table[k]]
            0 <= k < n && req.finds(table[k]) ==> lookup::found_in(table, req, thread, n).contains(
                (thread, table[k]),
            ),
        forall|i: int|
            #![trigger lookup::found_in(table, req, thread, n)[i]]
            0 <= i < lookup::found_in(table, req, thread, n).len() ==> {
                let hit = lookup::found_in(table, req, thread, n)[i];
                hit.0 == thread && req.finds(hit.1) && table.contains(hit.1)
            },
    decreases n,
{
    if n > 0 {
        let before = lookup::found_in(table, req, thread, n - 1);
        let after = lookup::found_in(table, req, thread, n);
        lemma_found_in(table, req, thread, n - 1);
        assert forall|k: int|
            #![trigger table[k]]
            0 <= k < n && req.finds(table[k]) implies after.contains((thread, table[k])) by {
            if k < n - 1 {
                let i = choose|i: int| 0 <= i < before.len() && before[i] == (thread, table[k]);
                assert(after[i] == (thread, table[k]));
            } else {
                assert(after[before.len() as int] == (thread, table[k]));
            }
        }
        assert forall|i: int|
            #![trigger after[i]]
            0 <= i < after.len() implies {
            let hit = after[i];
            hit.0 == thread && req.finds(hit.1) && table.contains(hit.1)
        } by {
            if i < before.len() {
                assert(after[i] == before[i]);
            }
        }
    }
}

proof fn lemma_found(tables: Seq<Seq<FunctionStats>>, req: SearchFunctionsRequest, n: int)
    requires
        0 <= n <= tables.len(),
    ensures
        forall|t: int, k: int|
            #![trigger tables[t][k]]
            0 <= t < n && 0 <= k < tables[t].len() && req.finds(tables[t][k]) ==> lookup::found(
                tables,
                req,
                n,
            ).contains((t, tables[t][k])),
        forall|i: int|
            #![trigger lookup::found(tables, req, n)[i]]
            0 <= i < lookup::found(tables, req, n).len() ==> {
                let hit = lookup::found(tables, req, n)[i];
                0 <= hit.0 < n && req.finds(hit.1) && tables[hit.0].contains(hit.1)
            },
    decreases n,
{
    if n > 0 {
        let before = lookup::found(tables, req, n - 1);
        let more = lookup::found_in(tables[n - 1], req, n - 1, tables[n - 1].len() as int);
        let after = lookup::found(tables, req, n);
        lemma_found(tables, req, n - 1);
        lemma_found_in(tables[n - 1], req, n - 1, tables[n - 1].len() as int);
        assert forall|t: int, k: int|
            #![trigger tables[t][k]]
            0 <= t < n && 0 <= k < tables[t].len() && req.finds(tables[t][k]) implies after.contains(
            (t, tables[t][k]),
        ) by {
            let hit = (t, tables[t][k]);
            if t < n - 1 {
                let i = choose|i: int| 0 <= i < before.len() && before[i] == hit;
                assert(after[i] == hit);
            } else {
                let i = choose|i: int| 0 <= i < more.len() && more[i] == hit;
                assert(after[before.len() + i] == hit);
            }
        }
        assert forall|i: int|
            #![trigger after[i]]
            0 <= i < after.len() implies {
            let hit = after[i];
            0 <= hit.0 < n && req.finds(hit.1) && tables[hit.0].contains(hit.1)
        } by {
            if i < before.len() {
                assert(after[i] == before[i]);
            } else {
                assert(after[i] == more[i - before.len()]);
            }
        }
    }
}

/// A search lists functions whose names match and that pass the filters, those
/// with more self time first where it sorts by `self`, and else those with more
/// total time, as far as hundredths of a millisecond tell. Every function of
/// the searched threads that matches and passes is listed, unless the limit is
/// reached and no listed function has less time.
pub proof fn law_search_results_lead(
    r: SearchFunctionsResult,
    p: ResolvedProfile,
    req: SearchFunctionsRequest,
    tables: Seq<Seq<FunctionStats>>,
)
    requires
        lookup::answers_search(r, p, req, tables),
    ensures
        r.functions@.len() <= req.limit,
        forall|i: int, j: int|
            #![trigger r.functions@[i], r.functions@[j]]
            0 <= i < j < r.functions@.len() ==> {
                let a = r.functions@[i];
                let b = r.functions@[j];
                if req.sort_by@ == "self"@ {
                    (a.self_time_ms + 5_000) / 10_000 >= (b.self_time_ms + 5_000) / 10_000
                } else {
                    (a.total_time_ms + 5_000) / 10_000 >= (b.total_time_ms + 5_000) / 10_000
                }
            },
        forall|i: int|
            #![trigger r.functions@[i]]
            0 <= i < r.functions@.len() ==> exists|t: int, k: int|
                #![trigger tables[t][k]]
                {
                    let row = r.functions@[i];
                    &&& t == row.thread_index
                    &&& 0 <= t < tables.len()
                    &&& 0 <= k < tables[t].len()
                    &&& tables[t][k].name@ == row.name@
                    &&& tables[t][k].self_time_ms == row.self_time_ms
                    &&& tables[t][k].total_time_ms == row.total_time_ms
                    &&& filters::name_matches(row.name@, req.query@, req.match_mode@)
                    &&& functions::passes(
                        tables[t][k],
                        text::opt(req.include_names),
                        text::opt(req.exclude_names),
                        req.exclude_framework || req.user_code_only,
                    )
                },
        forall|t: int, k: int|
            #![trigger tables[t][k]]
            0 <= t < tables.len() && 0 <= k < tables[t].len() && filters::name_matches(
                tables[t][k].name@,
                req.query@,
                req.match_mode@,
            ) && functions::passes(
                tables[t][k],
                text::opt(req.include_names),
                text::opt(req.exclude_names),
                req.exclude_framework || req.user_code_only,
            ) ==> (exists|i: int|
                #![trigger r.functions@[i]]
                0 <= i < r.functions@.len() && r.functions@[i].thread_index == t
                    && r.functions@[i].name@ == tables[t][k].name@) || (r.functions@.len()
                == req.limit && forall|i: int|
                #![trigger r.functions@[i]]
                0 <= i < r.functions@.len() ==> if req.sort_by@ == "self"@ {
                    (r.functions@[i].self_time_ms + 5_000) / 10_000 >= (tables[t][k].self_time_ms
                        + 5_000) / 10_000
                } else {
                    (r.functions@[i].total_time_ms + 5_000) / 10_000 >= (tables[t][k].total_time_ms
                        + 5_000) / 10_000
                }),
{
    let all = lookup::found(tables, req, tables.len() as int);
    let key = lookup::by_shown_time(req.sort_by@);
    let sorted = rank::ranked(all, key);
    let shown = context_switch::at_most(sorted, req.limit as int);
    let time = |hit: (int, FunctionStats)|
        if req.sort_by@ == "self"@ {
            (hit.1.self_time_ms + 5_000) / 10_000
        } else {
            (hit.1.total_time_ms + 5_000) / 10_000
        };
    let better = |a: (int, FunctionStats), b: (int, FunctionStats)| time(a) > time(b);
    lemma_found(tables, req, tables.len() as int);
    assert forall|i: int, j: int|
        #![trigger all[i], all[j]]
        0 <= i < all.len() && 0 <= j < all.len() && better(all[i], all[j]) implies rank::lex_before(
        key(all[i]),
        key(all[j]),
    ) by {
        rank::lemma_descending(time(all[i]), time(all[j]));
    }
    rank::lemma_ranked_prefers(all, key, better);
    assert forall|i: int| 0 <= i < r.functions@.len() implies lookup::search_row(
        #[trigger] r.functions@[i],
        p,
        sorted[i],
    ) by {
        assert(shown[i] == sorted[i]);
    }
    assert forall|i: int, j: int|
        #![trigger r.functions@[i], r.functions@[j]]
        0 <= i < j < r.functions@.len() implies time(sorted[i]) >= time(sorted[j])
        && lookup::search_row(r.functions@[i], p, sorted[i]) && lookup::search_row(
        r.functions@[j],
        p,
        sorted[j],
    ) by {
        assert(!better(sorted[j], sorted[i]));
    }
    assert forall|i: int|
        #![trigger r.functions@[i]]
        0 <= i < r.functions@.len() implies exists|t: int, k: int|
        #![trigger tables[t][k]]
        {
            let row = r.functions@[i];
            &&& t == row.thread_index
            &&& 0 <= t < tables.len()
            &&& 0 <= k < tables[t].len()
            &&& tables[t][k].name@ == row.name@
            &&& tables[t][k].self_time_ms == row.self_time_ms
            &&& tables[t][k].total_time_ms == row.total_time_ms
            &&& filters::name_matches(row.name@, req.query@, req.match_mode@)
            &&& functions::passes(
                tables[t][k],
                text::opt(req.include_names),
                text::opt(req.exclude_names),
                req.exclude_framework || req.user_code_only,
            )
        } by {
        assert(lookup::search_row(r.functions@[i], p, sorted[i]));
        assert(all.contains(sorted[i]));
        let q = choose|q: int| 0 <= q < all.len() && all[q] == sorted[i];
        let hit = all[q];
        let k = choose|k: int| 0 <= k < tables[hit.0].len() && tables[hit.0][k] == hit.1;
        assert(tables[hit.0][k].name@ == r.functions@[i].name@);
    }
    assert forall|t: int, k: int|
        #![trigger tables[t][k]]
        0 <= t < tables.len() && 0 <= k < tables[t].len() && filters::name_matches(
            tables[t][k].name@,
            req.query@,
            req.match_mode@,
        ) && functions::passes(
            tables[t][k],
            text::opt(req.include_names),
            text::opt(req.exclude_names),
            req.exclude_framework || req.user_code_only,
        ) implies (exists|i: int|
        #![trigger r.functions@[i]]
        0 <= i < r.functions@.len() && r.functions@[i].thread_index == t && r.functions@[i].name@
            == tables[t][k].name@) || (r.functions@.len() == req.limit && forall|i: int|
        #![trigger r.functions@[i]]
        0 <= i < r.functions@.len() ==> if req.sort_by@ == "self"@ {
            (r.functions@[i].self_time_ms + 5_000) / 10_000 >= (tables[t][k].self_time_ms + 5_000)
                / 10_000
        } else {
            (r.functions@[i].total_time_ms + 5_000) / 10_000 >= (tables[t][k].total_time_ms + 5_000)
                / 10_000
        }) by {
        let hit = (t, tables[t][k]);
        assert(req.finds(tables[t][k]));
        assert(all.contains(hit));
        let q = choose|q: int| 0 <= q < all.len() && all[q] == hit;
        assert(sorted.contains(all[q]));
        let m = choose|m: int| 0 <= m < sorted.len() && sorted[m] == hit;
        if m < r.functions@.len() {
            assert(lookup::search_row(r.functions@[m], p, sorted[m]));
        } else {
            assert forall|i: int|
                #![trigger r.functions@[i]]
                0 <= i < r.functions@.len() implies time(sorted[i]) >= time(hit)
                && lookup::search_row(r.functions@[i], p, sorted[i]) by {
                assert(!better(sorted[m], sorted[i]));
            }
        }
    }
}

/// How often a name stands in a list.
pub open spec fn occurrences(names: Seq<Seq<char>>, name: Seq<char>) -> nat {
    sums::sum_of(names, one_for(name))
}

/// One for a name, and nothing for any other.
pub open spec fn one_for(name: Seq<char>) -> spec_fn(Seq<char>) -> nat {
    |n: Seq<char>|
        if n == name {
            1nat
        } else {
            0
        }
}

/// Callers and callees fall in how often they stand beside the function. Each
/// is counted as often as it stands there, and every one of them is listed.
pub proof fn law_neighbours_are_counted(list: Seq<CallerCalleeEntry>, names: Seq<Seq<char>>)
    requires
        lookup::counts_names(list, names),
    ensures
        forall|i: int, j: int|
            #![trigger list[i], list[j]]
            0 <= i < j < list.len() ==> list[i].count >= list[j].count && list[i].function_name@
                != list[j].function_name@,
        forall|i: int|
            #![trigger list[i]]
            0 <= i < list.len() ==> list[i].count == units::capped_count(
                occurrences(names, list[i].function_name@) as int,
            ),
        forall|k: int|
            #![trigger names[k]]
            0 <= k < names.len() ==> exists|i: int|
                0 <= i < list.len() && (#[trigger] list[i]).function_name@ == names[k],
{
    let all = lookup::tallied(names);
    let sorted = rank::ranked(all, lookup::by_count());
    let more = |a: (Seq<char>, usize), b: (Seq<char>, usize)| a.1 > b.1;
    assert forall|i: int, j: int|
        #![trigger all[i], all[j]]
        0 <= i < all.len() && 0 <= j < all.len() && more(all[i], all[j]) implies rank::lex_before(
        lookup::by_count()(all[i]),
        lookup::by_count()(all[j]),
    ) by {
        rank::lemma_descending(all[i].1 as int, all[j].1 as int);
    }
    rank::lemma_ranked_prefers(all, lookup::by_count(), more);
    rank::law_ranking_is_stable(all, lookup::by_count());
    let order = choose|order: Seq<int>|
        #![trigger order.no_duplicates()]
        {
            &&& order.no_duplicates()
            &&& order.len() == all.len()
            &&& sorted.len() == all.len()
            &&& forall|p: int|
                0 <= p < all.len() ==> 0 <= #[trigger] order[p] < all.len() && sorted[p]
                    == all[order[p]]
            &&& forall|p: int, q: int|
                #![trigger order[p], order[q]]
                0 <= p < q < all.len() && lookup::by_count()(all[order[p]]) == lookup::by_count()(
                    all[order[q]],
                ) ==> order[p] < order[q]
        };
    groups::lemma_grouped::<NameItem<'static>, CountedName>(names);
    assert forall|i: int, j: int|
        #![trigger list[i], list[j]]
        0 <= i < j < list.len() implies list[i].count >= list[j].count && list[i].function_name@
        != list[j].function_name@ by {
        assert(!more(sorted[j], sorted[i]));
        assert(order[i] != order[j]);
        let (a, b) = if order[i] < order[j] {
            (order[i], order[j])
        } else {
            (order[j], order[i])
        };
        assert(<CountedName as Keyed>::key(all[a]) != <CountedName as Keyed>::key(all[b]));
    }
    assert forall|i: int|
        #![trigger list[i]]
        0 <= i < list.len() implies list[i].count == units::capped_count(
        occurrences(names, list[i].function_name@) as int,
    ) by {
        let name = list[i].function_name@;
        assert(sorted[i] == all[order[i]]);
        assert(<CountedName as Keyed>::key(all[order[i]]) == name);
        groups::lemma_group_sum::<NameItem<'static>, CountedName>(
            names,
            name,
            |n: Seq<char>| 1nat,
            |m: (Seq<char>, usize)| m.1 as nat,
            one_for(name),
            usize::MAX as nat,
        );
        assert(list[i].count == sorted[i].1);
        assert(groups::group_of::<NameItem<'static>, CountedName>(names, name) == Some(
            all[order[i]],
        ));
    }
    assert forall|k: int|
        #![trigger names[k]]
        0 <= k < names.len() implies exists|i: int|
        0 <= i < list.len() && (#[trigger] list[i]).function_name@ == names[k] by {
        let q = groups::lemma_item_has_group::<NameItem<'static>, CountedName>(names, k);
        assert(sorted.contains(all[q]));
        let i = choose|i: int| 0 <= i < sorted.len() && sorted[i] == all[q];
        assert(list[i].function_name@ == sorted[i].0);
        assert(<CountedName as Keyed>::key(all[q]) == names[k]);
    }
}

/// A callee of a function in a stack is the frame right below one of its
/// frames, and a caller the frame right above one: every such frame counts,
/// each once, and no other.
pub proof fn law_neighbours_stand_beside(
    names: Seq<Seq<char>>,
    target: Seq<char>,
    below: bool,
    n: int,
)
    requires
        0 <= n <= names.len(),
    ensures
        exists|at: Seq<int>|
            #![trigger at.len()]
            {
                let list = lookup::beside(names, target, below, n);
                &&& at.len() == list.len()
                &&& forall|i: int|
                    0 <= i < at.len() ==> 0 <= #[trigger] at[i] < n && names[at[i]] == target
                        && list[i] == if below {
                        names[at[i] + 1]
                    } else {
                        names[at[i] - 1]
                    }
                &&& forall|i: int, j: int|
                    #![trigger at[i], at[j]]
                    0 <= i < j < at.len() ==> at[i] < at[j]
                &&& forall|k: int|
                    #![trigger names[k]]
                    0 <= k < n ==> (at.contains(k) <==> names[k] == target && if below {
                        k + 1 < names.len()
                    } else {
                        k > 0
                    })
            },
    decreases n,
{
    if n == 0 {
        let at = Seq::<int>::empty();
        assert(at.len() == 0);
    } else {
        law_neighbours_stand_beside(names, target, below, n - 1);
        let list = lookup::beside(names, target, below, n - 1);
        let after = lookup::beside(names, target, below, n);
        let before = choose|at: Seq<int>|
            #![trigger at.len()]
            {
                &&& at.len() == list.len()
                &&& forall|i: int|
                    0 <= i < at.len() ==> 0 <= #[trigger] at[i] < n - 1 && names[at[i]] == target
                        && list[i] == if below {
                        names[at[i] + 1]
                    } else {
                        names[at[i] - 1]
                    }
                &&& forall|i: int, j: int|
                    #![trigger at[i], at[j]]
                    0 <= i < j < at.len() ==> at[i] < at[j]
                &&& forall|k: int|
                    #![trigger names[k]]
                    0 <= k < n - 1 ==> (at.contains(k) <==> names[k] == target && if below {
                        k + 1 < names.len()
                    } else {
                        k > 0
                    })
            };
        let taken = names[n - 1] == target && if below {
            n < names.len()
        } else {
            n > 1
        };
        let at = if taken {
            before.push(n - 1)
        } else {
            before
        };
        assert(at.len() == after.len());
        assert forall|k: int|
            #![trigger names[k]]
            0 <= k < n implies (at.contains(k) <==> names[k] == target && if below {
            k + 1 < names.len()
        } else {
            k > 0
        }) by {
            if at.contains(k) {
                let i = choose|i: int| 0 <= i < at.len() && at[i] == k;
                if i < before.len() {
                    assert(before[i] == k);
                }
            }
            if before.contains(k) {
                let i = choose|i: int| 0 <= i < before.len() && before[i] == k;
                assert(at[i] == k);
            }
            if k == n - 1 && taken {
                assert(at[before.len() as int] == k);
            }
        }
        assert forall|i: int| 0 <= i < at.len() implies 0 <= #[trigger] at[i] < n && names[at[i]]
            == target && after[i] == if below {
            names[at[i] + 1]
        } else {
            names[at[i] - 1]
        } by {
            if i < before.len() {
                assert(at[i] == before[i]);
            }
        }
    }
}

/// The functions of several tables together fall in self time.
pub proof fn law_aggregated_functions_fall(
    list: Seq<FunctionStats>,
    tables: Seq<Seq<FunctionStats>>,
    whole: u64,
)
    requires
        hotspots::aggregates(list, tables, whole),
    ensures
        forall|i: int, j: int|
            #![trigger list[i], list[j]]
            0 <= i < j < list.len() ==> list[i].self_time_ms >= list[j].self_time_ms,
{
    let all = hotspots::merged(functions::rows_in(tables, None, tables.len() as int));
    let sorted = rank::ranked(all, hotspots::by_self());
    let better = |a: Merged, b: Merged| a.self_time > b.self_time;
    assert forall|i: int, j: int|
        #![trigger all[i], all[j]]
        0 <= i < all.len() && 0 <= j < all.len() && better(all[i], all[j]) implies rank::lex_before(
        hotspots::by_self()(all[i]),
        hotspots::by_self()(all[j]),
    ) by {
        rank::lemma_descending(all[i].self_time as int, all[j].self_time as int);
    }
    rank::lemma_ranked_prefers(all, hotspots::by_self(), better);
    assert forall|i: int, j: int|
        #![trigger list[i], list[j]]
        0 <= i < j < list.len() implies list[i].self_time_ms >= list[j].self_time_ms by {
        assert(hotspots::states_merged(list[i], sorted[i], whole));
        assert(hotspots::states_merged(list[j], sorted[j], whole));
        assert(!better(sorted[j], sorted[i]));
    }
}

/// Families of threads fall in samples, and those with as many stand in the
/// order of their names.
pub proof fn law_families_fall(
    rows: Seq<ThreadSummaryGroup>,
    p: ResolvedProfile,
    indices: Seq<usize>,
    range: Option<AnalysisRange>,
)
    requires
        summary::family_rows(rows, p, indices, range),
    ensures
        forall|i: int, j: int|
            #![trigger rows[i], rows[j]]
            0 <= i < j < rows.len() ==> rows[i].sample_count > rows[j].sample_count || (
            rows[i].sample_count == rows[j].sample_count && !rank::spelled_before(
                encode_utf8(rows[j].name_prefix@),
                encode_utf8(rows[i].name_prefix@),
            )),
        forall|k: int|
            #![trigger indices[k]]
            0 <= k < indices.len() && indices[k] < p.threads@.len() ==> exists|i: int|
                #![trigger rows[i]]
                0 <= i < rows.len() && rows[i].name_prefix@ == threads::family(
                    p.threads@[indices[k] as int].name@,
                ),
{
    let ts = p.threads@;
    let items = summary::family_items(ts, indices);
    let all = groups::grouped::<FamilyItem, Family>(items);
    let key = summary::by_samples(ts, range);
    let sorted = summary::families(ts, indices, range);
    let none = Seq::<i128>::empty();
    let better = |a: (Seq<char>, Seq<usize>), b: (Seq<char>, Seq<usize>)|
        {
            let x = summary::samples_over(ts, a.1, range);
            let y = summary::samples_over(ts, b.1, range);
            x > y || (x == y && rank::spelled_before(encode_utf8(a.0), encode_utf8(b.0)))
        };
    assert forall|i: int, j: int|
        #![trigger all[i], all[j]]
        0 <= i < all.len() && 0 <= j < all.len() && better(all[i], all[j]) implies rank::lex_before(
        key(all[i]),
        key(all[j]),
    ) by {
        let (a, b) = (all[i], all[j]);
        rank::lemma_textual_leads(a.0, b.0, none, none);
        assert(rank::textual(a.0) + none =~= rank::textual(a.0));
        assert(rank::textual(b.0) + none =~= rank::textual(b.0));
        rank::lemma_descending_leads(
            summary::samples_over(ts, a.1, range) as int,
            summary::samples_over(ts, b.1, range) as int,
            rank::textual(a.0),
            rank::textual(b.0),
        );
    }
    rank::lemma_ranked_prefers(all, key, better);
    assert forall|i: int, j: int|
        #![trigger rows[i], rows[j]]
        0 <= i < j < rows.len() implies rows[i].sample_count > rows[j].sample_count || (
    rows[i].sample_count == rows[j].sample_count && !rank::spelled_before(
        encode_utf8(rows[j].name_prefix@),
        encode_utf8(rows[i].name_prefix@),
    )) by {
        assert(summary::family_row(rows[i], p, sorted[i], range));
        assert(summary::family_row(rows[j], p, sorted[j], range));
        assert(!better(sorted[j], sorted[i]));
    }
    assert forall|k: int|
        #![trigger indices[k]]
        0 <= k < indices.len() && indices[k] < ts.len() implies exists|i: int|
        #![trigger rows[i]]
        0 <= i < rows.len() && rows[i].name_prefix@ == threads::family(
            ts[indices[k] as int].name@,
        ) by {
        let q = lemma_known(ts, indices, k);
        let g = groups::lemma_item_has_group::<FamilyItem, Family>(items, q);
        assert(sorted.contains(all[g]));
        let i = choose|i: int| 0 <= i < sorted.len() && sorted[i] == all[g];
        assert(summary::family_row(rows[i], p, sorted[i], range));
        assert(<Family as Keyed>::key(all[g]) == items[q].0);
    }
}

proof fn lemma_known(ts: Seq<ResolvedThread>, indices: Seq<usize>, k: int) -> (q: int)
    requires
        0 <= k < indices.len(),
        indices[k] < ts.len(),
    ensures
        0 <= q < summary::known(ts, indices).len(),
        summary::known(ts, indices)[q] == indices[k],
    decreases indices.len(),
{
    if k < indices.len() - 1 {
        lemma_known(ts, indices.drop_last(), k)
    } else {
        summary::known(ts, indices.drop_last()).len() as int
    }
}

/// A thread that is asked for by name has that name. Without a name, a main
/// thread is taken where one has samples, and no thread of the same kind has
/// more samples than the one that is taken.
pub proof fn law_selected_threads(
    ts: Seq<ResolvedThread>,
    name: Option<Seq<char>>,
    range: AnalysisRange,
)
    ensures
        threads::sampled_selection(ts, name, None, None, range) matches Ok(i) ==> {
            &&& 0 <= i < ts.len()
            &&& samples::samples_counted(ts[i], Some(range)) > 0
            &&& name matches Some(n) ==> ts[i].name@ == n
            &&& name is None && (exists|k: int|
                #![trigger ts[k]]
                0 <= k < ts.len() && ts[k].is_main && samples::samples_counted(ts[k], Some(range))
                    > 0) ==> ts[i].is_main
            &&& forall|k: int|
                #![trigger ts[k]]
                0 <= k < ts.len() && (name matches Some(n) ==> ts[k].name@ == n) && (name is None
                    ==> ts[k].is_main == ts[i].is_main) ==> samples::samples_counted(
                    ts[k],
                    Some(range),
                ) <= samples::samples_counted(ts[i], Some(range))
        },
        threads::sampled_selection(ts, name, None, None, range) is Err ==> forall|k: int|
            #![trigger ts[k]]
            0 <= k < ts.len() && (name matches Some(n) ==> ts[k].name@ == n)
                ==> samples::samples_counted(ts[k], Some(range)) == 0,
{
    let w = Some(range);
    lemma_busiest(ts, name, false, w, ts.len() as int);
    lemma_busiest(ts, None, true, w, ts.len() as int);
    lemma_busiest(ts, None, false, w, ts.len() as int);
}

proof fn lemma_busiest(
    ts: Seq<ResolvedThread>,
    name: Option<Seq<char>>,
    main_only: bool,
    range: Option<AnalysisRange>,
    n: int,
)
    requires
        0 <= n <= ts.len(),
    ensures
        match threads::busiest(ts, name, main_only, range, n) {
            Some(i) => 0 <= i < n && threads::eligible(ts[i], name, main_only, range) && forall|
                k: int,
            |
                #![trigger ts[k]]
                0 <= k < n && threads::eligible(ts[k], name, main_only, range) ==> threads::load_of(
                    ts[k],
                    range,
                ) <= threads::load_of(ts[i], range),
            None => forall|k: int|
                #![trigger ts[k]]
                0 <= k < n ==> !threads::eligible(ts[k], name, main_only, range),
        },
    decreases n,
{
    if n > 0 {
        lemma_busiest(ts, name, main_only, range, n - 1);
    }
}

/// A sample ends in a function below a caller exactly where its leaf is the
/// function and the caller is above it, right above where it must be immediate;
/// the function is part of it below the caller where some frame is so.
pub proof fn law_samples_below_callers(
    s: ResolvedSample,
    function: Seq<char>,
    caller: Seq<char>,
    relationship: CallerRelationship,
)
    ensures
        ({
            let names = s.stack.names();
            let last = names.len() - 1;
            &&& under_caller::in_function(function, caller, relationship)(s) <==> last > 0
                && names[last] == function && exists|k: int|
                #![trigger names[k]]
                0 <= k < last && names[k] == caller && (relationship == CallerRelationship::Immediate
                    ==> k == last - 1)
            &&& under_caller::below_function(function, caller, relationship)(s) <==> exists|
                i: int,
                k: int,
            |
                #![trigger names[i], names[k]]
                0 <= k < i <= last && names[i] == function && names[k] == caller && (relationship
                    == CallerRelationship::Immediate ==> k == i - 1)
        }),
{
    let names = s.stack.names();
    let last = names.len() - 1;
    crate::analysis::laws::law_function_under_caller(names, function, caller, relationship);
    let at = call_tree::under_caller(names, function, caller, relationship);
    if let Some(i) = at {
        if relationship == CallerRelationship::Immediate {
            assert(names[i - 1] == caller);
        } else {
            let k = choose|k: int| 0 <= k < i && names[k] == caller;
            assert(names[k] == caller);
        }
    }
}

/// A thread is listed exactly where its name has one of the prefixes and fits
/// the pattern, and it has no fewer samples and no less time than asked for;
/// listed threads stand in their order.
pub proof fn law_listed_threads(p: ResolvedProfile, req: ProfileThreadsRequest, n: int)
    requires
        0 <= n <= p.threads@.len() <= usize::MAX,
    ensures
        ({
            let r = overview::listed(p, req, n);
            &&& forall|i: int, j: int|
                #![trigger r[i], r[j]]
                0 <= i < j < r.len() ==> r[i] < r[j]
            &&& forall|i: int| 0 <= i < r.len() ==> (#[trigger] r[i]) < n
            &&& forall|k: int|
                #![trigger p.threads@[k]]
                0 <= k < n ==> (r.contains(k as usize) <==> {
                    let t = p.threads@[k];
                    let pattern = filters::requested_pattern(text::opt(req.thread_name_regex));
                    &&& req.prefixes().len() == 0 || exists|i: int|
                        0 <= i < req.prefixes().len() && threads::has_prefix(
                            t.name@,
                            #[trigger] req.prefixes()[i],
                        )
                    &&& pattern is None || filters::regex_finds(pattern->0, t.name@)
                    &&& req.min_samples is None || samples::samples_counted(
                        t,
                        Some(req.window(p)),
                    ) >= req.min_samples->0
                    &&& req.min_duration_ms is None || samples::wall_time(t, Some(req.window(p)))
                        >= req.min_duration_ms->0
                })
        }),
    decreases n,
{
    if n > 0 {
        let before = overview::listed(p, req, n - 1);
        let r = overview::listed(p, req, n);
        law_listed_threads(p, req, n - 1);
        assert forall|k: int|
            #![trigger p.threads@[k]]
            0 <= k < n implies (r.contains(k as usize) <==> req.lists(p, p.threads@[k])) by {
            let index = k as usize;
            if before.contains(index) {
                let i = choose|i: int| 0 <= i < before.len() && before[i] == index;
                assert(r[i] == index);
            }
            if r.contains(index) {
                let i = choose|i: int| 0 <= i < r.len() && r[i] == index;
                if i < before.len() {
                    assert(before[i] == index);
                }
            }
            if k == n - 1 && req.lists(p, p.threads@[k]) {
                assert(r[before.len() as int] == index);
            }
        }
    }
}

/// The first markers of a thread are listed in their order, and one is left out
/// only where the limit is reached.
pub proof fn law_first_markers_are_listed(
    r: Seq<MarkerInfo>,
    all: Seq<ResolvedMarker>,
    limit: int,
)
    requires
        0 <= limit,
        events::tells_markers(r, all, limit),
    ensures
        r.len() <= limit,
        r.len() <= all.len(),
        r.len() < all.len() ==> r.len() == limit,
        forall|i: int|
            #![trigger r[i]]
            0 <= i < r.len() ==> r[i].name@ == all[i].name@ && r[i].start_time == all[i].start_time
                && r[i].end_time == all[i].end_time && r[i].category@ == all[i].category@,
{
    let shown = context_switch::at_most(all, limit);
    assert forall|i: int|
        #![trigger r[i]]
        0 <= i < r.len() implies r[i].name@ == all[i].name@ && r[i].start_time == all[i].start_time
        && r[i].end_time == all[i].end_time && r[i].category@ == all[i].category@ by {
        assert(shown[i] == all[i]);
        assert(events::tells_marker(r[i], shown[i], events::data_of(shown[i])));
    }
}

/// The text that filters look at holds a function's name, and its library and
/// file where they are known.
pub proof fn law_filters_look_at_places(row: FunctionStats)
    ensures
        text::has_text(functions::searchable(row), row.name@),
        row.library is Some ==> text::has_text(functions::searchable(row), row.library->0@),
        row.file is Some ==> text::has_text(functions::searchable(row), row.file->0@),
        row.library is None && row.file is None ==> functions::searchable(row) == row.name@,
{
    let s = functions::searchable(row);
    let n = row.name@.len() as int;
    reveal_strlit(" ");
    assert(s.subrange(0, n) =~= row.name@);
    assert(text::occurs_at(s, row.name@, 0));
    if let Some(library) = text::opt(row.library) {
        let m = library.len() as int;
        assert(s.subrange(n + 1, n + 1 + m) =~= library);
        assert(text::occurs_at(s, library, n + 1));
    }
    if let Some(file) = text::opt(row.file) {
        let at = s.len() - file.len();
        assert(s.subrange(at, s.len() as int) =~= file);
        assert(text::occurs_at(s, file, at));
    }
}

/// An address in its symbol is the symbol's start and its offset together, and
/// one before the start has no offset.
pub proof fn law_symbol_offsets(address: u64, start: u64)
    ensures
        source::offset_of(Some(address), Some(start)) matches Some(offset) ==> start + offset
            == address,
        source::offset_of(Some(address), Some(start)) is None <==> address < start,
{
}

/// What threads amount to together is what they amount to in two parts, and
/// what a single thread amounts to is what its own samples do.
pub proof fn law_summaries_add_up(
    threads: Seq<ResolvedThread>,
    a: Seq<usize>,
    b: Seq<usize>,
    quantity: spec_fn(ResolvedThread) -> nat,
)
    ensures
        samples::over_threads(threads, a + b, quantity, (a + b).len() as int)
            == samples::over_threads(threads, a, quantity, a.len() as int) + samples::over_threads(
            threads,
            b,
            quantity,
            b.len() as int,
        ),
        forall|i: usize|
            i < threads.len() ==> #[trigger] samples::over_threads(threads, seq![i], quantity, 1)
                == quantity(threads[i as int]),
        forall|i: usize|
            i >= threads.len() ==> #[trigger] samples::over_threads(threads, seq![i], quantity, 1)
                == 0,
{
    lemma_over_both(threads, a, b, quantity, b.len() as int);
    assert forall|i: usize|
        true implies #[trigger] samples::over_threads(threads, seq![i], quantity, 1) == if i
        < threads.len() {
        quantity(threads[i as int])
    } else {
        0
    } by {
        assert(samples::over_threads(threads, seq![i], quantity, 0) == 0);
        assert(seq![i][0] == i);
    }
}

proof fn lemma_over_both(
    threads: Seq<ResolvedThread>,
    a: Seq<usize>,
    b: Seq<usize>,
    quantity: spec_fn(ResolvedThread) -> nat,
    m: int,
)
    requires
        0 <= m <= b.len(),
    ensures
        samples::over_threads(threads, a + b, quantity, a.len() + m) == samples::over_threads(
            threads,
            a,
            quantity,
            a.len() as int,
        ) + samples::over_threads(threads, b, quantity, m),
    decreases m,
{
    if m > 0 {
        lemma_over_both(threads, a, b, quantity, m - 1);
        assert((a + b)[a.len() + m - 1] == b[m - 1]);
    } else {
        lemma_over_first(threads, a, b, quantity, a.len() as int);
    }
}

proof fn lemma_over_first(
    threads: Seq<ResolvedThread>,
    a: Seq<usize>,
    b: Seq<usize>,
    quantity: spec_fn(ResolvedThread) -> nat,
    m: int,
)
    requires
        0 <= m <= a.len(),
    ensures
        samples::over_threads(threads, a + b, quantity, m) == samples::over_threads(
            threads,
            a,
            quantity,
            m,
        ),
    decreases m,
{
    if m > 0 {
        lemma_over_first(threads, a, b, quantity, m - 1);
        assert((a + b)[m - 1] == a[m - 1]);
    }
}

/// A report on a function below a caller gives its shares as parts of the
/// times beside them: of the scope's time, and of the caller's.
pub proof fn law_costs_are_shares(
    r: FunctionUnderCallerResult,
    p: ResolvedProfile,
    req: FunctionUnderCallerRequest,
    scope: Scope,
    call: CallFacts,
    m: FunctionUnderCallerMetrics,
    drawn: DrawnFocus,
)
    requires
        under_caller::tells_cost(r, p, req, scope, call, m, drawn),
    ensures
        r.exclusive_percent_of_scope.part == r.exclusive_time_ms,
        r.descendant_percent_of_scope.part == r.descendant_time_ms,
        r.caller_context_percent_of_scope.part == r.caller_context_time_ms,
        r.descendant_percent_of_caller.part == r.descendant_time_ms,
        r.exclusive_percent_of_scope.whole == r.scope_time_ms,
        r.descendant_percent_of_scope.whole == r.scope_time_ms,
        r.caller_context_percent_of_scope.whole == r.scope_time_ms,
        r.descendant_percent_of_caller.whole == r.caller_context_time_ms,
        r.cpu_sample_percent_of_wall.part == r.cpu_sample_time_ms,
        r.cpu_sample_percent_of_wall.whole == r.wall_time_ms,
{
}

/// The functions of a table have shares of the time of all counted samples of
/// the thread.
pub proof fn law_function_shares(
    rows: Seq<FunctionStats>,
    thread: ResolvedThread,
    interval: u64,
    range: Option<AnalysisRange>,
    i: int,
)
    requires
        stats::is_function_table(rows, thread, interval, range),
        0 <= i < rows.len(),
    ensures
        rows[i].self_percent.part == rows[i].self_time_ms,
        rows[i].total_percent.part == rows[i].total_time_ms,
        rows[i].self_percent.whole == rows[i].total_percent.whole,
        rows[i].self_percent.whole == units::capped(
            samples::time_counted(thread, interval, range) as int,
        ),
        rows[i].self_time_ms <= rows[i].total_time_ms <= rows[i].total_percent.whole,
{
    assert(stats::states(rows[i], thread, interval, range));
    stats::law_self_within_total(thread, interval, range, rows[i].name@);
}

/// Callers and callees are counted in the samples of the window alone: a sample
/// outside it adds none, and one inside it adds those of its stack.
pub proof fn law_neighbours_in_the_window(
    s: Seq<ResolvedSample>,
    range: AnalysisRange,
    target: Seq<char>,
    below: bool,
    n: int,
)
    requires
        0 <= n < s.len(),
    ensures
        ({
            let before = lookup::beside_in_thread(s, range, target, below, n);
            let after = lookup::beside_in_thread(s, range, target, below, n + 1);
            let names = s[n].stack.names();
            &&& !range.covers(s[n].timestamp_ms) ==> after == before
            &&& !names.contains(target) ==> after == before
            &&& range.covers(s[n].timestamp_ms) ==> after == before + lookup::beside(
                names,
                target,
                below,
                names.len() as int,
            )
        }),
{
    let names = s[n].stack.names();
    let before = lookup::beside_in_thread(s, range, target, below, n);
    if !names.contains(target) {
        lemma_none_beside(names, target, below, names.len() as int);
        assert(before + Seq::<Seq<char>>::empty() =~= before);
    }
}

proof fn lemma_none_beside(names: Seq<Seq<char>>, target: Seq<char>, below: bool, n: int)
    requires
        0 <= n <= names.len(),
        !names.contains(target),
    ensures
        lookup::beside(names, target, below, n) == Seq::<Seq<char>>::empty(),
    decreases n,
{
    if n > 0 {
        lemma_none_beside(names, target, below, n - 1);
        assert(names[n - 1] != target);
    }
}

/// A search looks at the threads with samples in the window, or only at the one
/// that is asked for.
pub proof fn law_searched_threads(
    ts: Seq<ResolvedThread>,
    only: Option<int>,
    range: AnalysisRange,
    n: int,
)
    requires
        0 <= n <= ts.len() <= usize::MAX,
    ensures
        ({
            let r = lookup::searched(ts, only, range, n);
            &&& forall|i: int| 0 <= i < r.len() ==> (#[trigger] r[i]) < n
            &&& forall|k: int|
                #![trigger ts[k]]
                0 <= k < n ==> (r.contains(k as usize) <==> samples::samples_counted(
                    ts[k],
                    Some(range),
                ) > 0 && (only is None || only == Some(k)))
        }),
    decreases n,
{
    if n > 0 {
        let before = lookup::searched(ts, only, range, n - 1);
        let r = lookup::searched(ts, only, range, n);
        law_searched_threads(ts, only, range, n - 1);
        assert forall|k: int|
            #![trigger ts[k]]
            0 <= k < n implies (r.contains(k as usize) <==> samples::samples_counted(
            ts[k],
            Some(range),
        ) > 0 && (only is None || only == Some(k))) by {
            let index = k as usize;
            if before.contains(index) {
                let i = choose|i: int| 0 <= i < before.len() && before[i] == index;
                assert(r[i] == index);
            }
            if r.contains(index) {
                let i = choose|i: int| 0 <= i < r.len() && r[i] == index;
                if i < before.len() {
                    assert(before[i] == index);
                }
            }
            if k == n - 1 && r.len() > before.len() {
                assert(r[before.len() as int] == index);
            }
        }
    }
}

proof fn lemma_family_members(items: Seq<(Seq<char>, usize)>, name: Seq<char>)
    ensures
        groups::group_of::<FamilyItem, Family>(items, name) matches Some(m) ==> m.0 == name
            && forall|index: usize| #[trigger]
            m.1.contains(index) <==> items.contains((name, index)),
        groups::group_of::<FamilyItem, Family>(items, name) is None ==> forall|index: usize|
            !(#[trigger] items.contains((name, index))),
    decreases items.len(),
{
    if items.len() > 0 {
        let rest = items.drop_last();
        let last = items.last();
        lemma_family_members(rest, name);
        assert forall|index: usize| #[trigger] items.contains((name, index)) <==> rest.contains(
            (name, index),
        ) || last == (name, index) by {
            if items.contains((name, index)) {
                let k = choose|k: int| 0 <= k < items.len() && items[k] == (name, index);
                if k < rest.len() {
                    assert(rest[k] == (name, index));
                }
            }
            if rest.contains((name, index)) {
                let k = choose|k: int| 0 <= k < rest.len() && rest[k] == (name, index);
                assert(items[k] == (name, index));
            }
            assert(items[items.len() - 1] == last);
        }
        if last.0 == name {
            let m = groups::group_of::<FamilyItem, Family>(items, name)->0;
            let before = match groups::group_of::<FamilyItem, Family>(rest, name) {
                Some(m) => m.1,
                None => Seq::empty(),
            };
            assert(m.1 =~= before.push(last.1));
            assert forall|index: usize| #[trigger] m.1.contains(index) <==> before.contains(index)
                || index == last.1 by {
                if m.1.contains(index) {
                    let k = choose|k: int| 0 <= k < m.1.len() && m.1[k] == index;
                    if k < before.len() {
                        assert(before[k] == index);
                    }
                }
                if before.contains(index) {
                    let k = choose|k: int| 0 <= k < before.len() && before[k] == index;
                    assert(m.1[k] == index);
                }
                assert(m.1[before.len() as int] == last.1);
            }
            assert forall|index: usize| #[trigger] m.1.contains(index) <==> items.contains(
                (name, index),
            ) by {}
        }
    }
}

/// A family holds exactly the listed threads whose names without their numbers
/// are the family's.
pub proof fn law_families_hold_their_threads(
    ts: Seq<ResolvedThread>,
    indices: Seq<usize>,
    range: Option<AnalysisRange>,
    p: int,
)
    requires
        0 <= p < summary::families(ts, indices, range).len(),
    ensures
        ({
            let family = summary::families(ts, indices, range)[p];
            forall|t: usize| #[trigger]
                family.1.contains(t) <==> summary::known(ts, indices).contains(t)
                    && threads::family(ts[t as int].name@) == family.0
        }),
{
    let items = summary::family_items(ts, indices);
    let shown = summary::known(ts, indices);
    let all = groups::grouped::<FamilyItem, Family>(items);
    let sorted = summary::families(ts, indices, range);
    let never = |a: (Seq<char>, Seq<usize>), b: (Seq<char>, Seq<usize>)| false;
    rank::lemma_ranked_prefers(all, summary::by_samples(ts, range), never);
    assert(all.contains(sorted[p]));
    let g = choose|g: int| 0 <= g < all.len() && all[g] == sorted[p];
    let family = all[g];
    groups::lemma_grouped::<FamilyItem, Family>(items);
    lemma_family_members(items, family.0);
    assert(<Family as Keyed>::key(all[g]) == family.0);
    assert(groups::group_of::<FamilyItem, Family>(items, family.0) == Some(family));
    assert forall|t: usize| #[trigger] family.1.contains(t) <==> shown.contains(t)
        && threads::family(ts[t as int].name@) == family.0 by {
        if items.contains((family.0, t)) {
            let k = choose|k: int| 0 <= k < items.len() && items[k] == (family.0, t);
            assert(shown[k] == t);
        }
        if shown.contains(t) && threads::family(ts[t as int].name@) == family.0 {
            let k = choose|k: int| 0 <= k < shown.len() && shown[k] == t;
            assert(items[k] == (family.0, t));
        }
    }
}

/// The threads that metrics of a function below a caller name are those of the
/// scope with a counted sample that the function is part of below the caller.
pub proof fn law_metrics_name_their_threads(
    p: ResolvedProfile,
    indices: Seq<usize>,
    range: AnalysisRange,
    keep: spec_fn(ResolvedSample) -> bool,
    m: int,
    i: usize,
)
    requires
        0 <= m <= indices.len(),
    ensures
        under_caller::threads_kept(p, indices, range, keep, m).contains(i) <==> (exists|j: int|
            #![trigger indices[j]]
            0 <= j < m && indices[j] == i) && i < p.threads@.len() && exists|k: int|
            #![trigger p.threads@[i as int].samples@[k]]
            0 <= k < p.threads@[i as int].samples@.len() && range.covers(
                p.threads@[i as int].samples@[k].timestamp_ms,
            ) && keep(p.threads@[i as int].samples@[k]),
    decreases m,
{
    if i < p.threads@.len() {
        let s = p.threads@[i as int].samples@;
        lemma_some_kept(s, range, keep, s.len() as int);
    }
    if m > 0 {
        let before = under_caller::threads_kept(p, indices, range, keep, m - 1);
        let after = under_caller::threads_kept(p, indices, range, keep, m);
        law_metrics_name_their_threads(p, indices, range, keep, m - 1, i);
        if before.contains(i) {
            let q = choose|q: int| 0 <= q < before.len() && before[q] == i;
            assert(after[q] == i);
        }
        if after.contains(i) {
            let q = choose|q: int| 0 <= q < after.len() && after[q] == i;
            if q < before.len() {
                assert(before[q] == i);
            } else {
                assert(indices[m - 1] == i);
            }
        }
        if indices[m - 1] == i && after.len() > before.len() {
            assert(after[before.len() as int] == i);
        }
    }
}

proof fn lemma_some_kept(
    s: Seq<ResolvedSample>,
    range: AnalysisRange,
    keep: spec_fn(ResolvedSample) -> bool,
    n: int,
)
    requires
        0 <= n <= s.len(),
    ensures
        samples::count_where(s, Some(range), keep, n) > 0 <==> exists|k: int|
            #![trigger s[k]]
            0 <= k < n && range.covers(s[k].timestamp_ms) && keep(s[k]),
    decreases n,
{
    if n > 0 {
        lemma_some_kept(s, range, keep, n - 1);
        if range.covers(s[n - 1].timestamp_ms) && keep(s[n - 1]) {
            assert(samples::counts(Some(range), s[n - 1]));
        }
    }
}

}
